//! DeepSeek balance (`GET https://api.deepseek.com/user/balance`, bearer
//! key): the decoded response and the choice of the balance entry to show.
//! The amounts are decimal text that the caller turns into numbers.

use super::{ErrorView, ProviderError};
use crate::text::{spec_uppercase, uppercase};
use vstd::prelude::*;

verus! {

pub struct DeepSeekProvider;

impl DeepSeekProvider {
    pub fn new() -> (p: DeepSeekProvider) {
        DeepSeekProvider
    }

    pub fn name(&self) -> (s: &'static str)
        ensures
            s@ == "DeepSeek"@,
    {
        "DeepSeek"
    }
}

/// The decoded response body.
pub struct DeepSeekResponse {
    pub is_available: bool,
    pub balance_infos: Vec<DeepSeekBalance>,
}

/// One currency's balance, amounts as decimal text.
pub struct DeepSeekBalance {
    pub currency: String,
    pub total_balance: String,
    pub granted_balance: String,
    pub topped_up_balance: String,
}

pub open spec fn is_usd(b: DeepSeekBalance) -> bool {
    spec_uppercase(b.currency@) == "USD"@
}

/// Index of the balance entry to show, or the parse error of an empty list.
pub fn pick_balance(infos: &Vec<DeepSeekBalance>) -> (r: Result<usize, ProviderError>)
    ensures
        r matches Ok(i) ==> {
            &&& i < infos@.len()
            &&& (is_usd(infos@[i as int]) && forall|k: int| 0 <= k < i ==> !is_usd(#[trigger] infos@[k]))
                || (i == 0 && forall|k: int| 0 <= k < infos@.len() ==> !is_usd(#[trigger] infos@[k]))
        },
        r matches Err(e) ==> infos@.len() == 0 && e@ == ErrorView::Parse("no balance info returned"@),
        infos@.len() > 0 ==> r is Ok,
{
    let mut i: usize = 0;
    while i < infos.len()
        invariant
            i <= infos.len(),
            forall|k: int| 0 <= k < i ==> !is_usd(#[trigger] infos@[k]),
        decreases infos.len() - i,
    {
        let up = uppercase(infos[i].currency.as_str());
        if super::same_text(up.as_str(), "USD") {
            return Ok(i);
        }
        i += 1;
    }
    if infos.len() > 0 {
        Ok(0)
    } else {
        Err(ProviderError::Parse("no balance info returned".to_owned()))
    }
}

/// The error for a refused key (HTTP 401 or 403).
pub fn auth_error() -> (e: ProviderError)
    ensures
        e@ == ErrorView::Auth("deepseek api key invalid or expired"@),
{
    ProviderError::Auth("deepseek api key invalid or expired".to_owned())
}

} // verus!
