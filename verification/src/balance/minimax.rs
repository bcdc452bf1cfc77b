//! MiniMax coding-plan remains
//! (`GET https://api.minimaxi.com/v1/api/openplatform/coding_plan/remains`,
//! bearer key): the decoded response and the quota windows read from it.

use super::{ErrorView, ProviderError, QuotaInfo, QuotaSet, QuotaView, opt_view, quotas_view};
use crate::text::{dec_int, i64_digits, push_all, push_str, string_of};
use vstd::prelude::*;

verus! {

pub struct MiniMaxProvider;

impl MiniMaxProvider {
    pub fn new() -> (p: MiniMaxProvider) {
        MiniMaxProvider
    }

    pub fn name(&self) -> (s: &'static str)
        ensures
            s@ == "MiniMax"@,
    {
        "MiniMax"
    }
}

/// The decoded response body.
pub struct MiniMaxResponse {
    pub base_resp: Option<MiniMaxBaseResp>,
    pub remains: Option<Vec<MiniMaxRemain>>,
}

pub struct MiniMaxBaseResp {
    pub status_code: i64,
    pub status_msg: String,
}

pub struct MiniMaxRemain {
    pub window_name: String,
    pub total: u64,
    pub used: u64,
    pub remaining: u64,
    pub reset_time: Option<String>,
}

pub open spec fn remain_quota(r: MiniMaxRemain) -> QuotaView {
    QuotaView {
        provider: "MiniMax"@,
        window: r.window_name@,
        limit: r.total as nat,
        used: r.used as nat,
        remaining: r.remaining as nat,
        reset_at: opt_view(r.reset_time),
    }
}

/// A non-zero status code is an API error; a body without remains is a
/// parse error; otherwise every remain is a window, in order.
pub open spec fn minimax_result(body: MiniMaxResponse) -> Result<Seq<QuotaView>, ErrorView> {
    if body.base_resp matches Some(b) && b.status_code != 0 {
        let b = body.base_resp->0;
        Err(ErrorView::Parse("minimax api error "@ + dec_int(b.status_code as int) + ": "@ + b.status_msg@))
    } else {
        match body.remains {
            None => Err(ErrorView::Parse("no remains data in response"@)),
            Some(rs) => Ok(rs@.map_values(|r: MiniMaxRemain| remain_quota(r))),
        }
    }
}

/// The quota set of a decoded remains response.
pub fn minimax_quotas(body: MiniMaxResponse) -> (r: Result<QuotaSet, ProviderError>)
    ensures
        match (r, minimax_result(body)) {
            (Ok(q), Ok(windows)) => q.plan is None && quotas_view(q.quotas@) == windows,
            (Err(e), Err(f)) => e@ == f,
            _ => false,
        },
{
    match &body.base_resp {
        Some(b) => {
            if b.status_code != 0 {
                let mut v: Vec<char> = Vec::new();
                push_str(&mut v, "minimax api error ");
                let d = i64_digits(b.status_code);
                push_all(&mut v, d.as_slice());
                push_str(&mut v, ": ");
                push_str(&mut v, b.status_msg.as_str());
                return Err(ProviderError::Parse(string_of(v.as_slice())));
            }
        },
        None => {},
    }
    let remains = match body.remains {
        Some(rs) => rs,
        None => return Err(ProviderError::Parse("no remains data in response".to_owned())),
    };
    let ghost rs0 = remains@;
    let mut quotas: Vec<QuotaInfo> = Vec::new();
    let mut i: usize = 0;
    while i < remains.len()
        invariant
            i <= remains.len(),
            remains@ == rs0,
            quotas_view(quotas@) == rs0.take(i as int).map_values(|r: MiniMaxRemain| remain_quota(r)),
        decreases remains.len() - i,
    {
        let r = &remains[i];
        let ghost before = quotas_view(quotas@);
        quotas.push(
            QuotaInfo {
                provider: "MiniMax".to_owned(),
                window: r.window_name.clone(),
                limit: r.total,
                used: r.used,
                remaining: r.remaining,
                reset_at: r.reset_time.clone(),
            },
        );
        assert(quotas_view(quotas@) =~= before.push(remain_quota(rs0[i as int])));
        assert(rs0.take(i + 1).map_values(|r: MiniMaxRemain| remain_quota(r)) =~= rs0.take(
            i as int,
        ).map_values(|r: MiniMaxRemain| remain_quota(r)).push(remain_quota(rs0[i as int])));
        i += 1;
    }
    assert(rs0.take(remains.len() as int) == rs0);
    Ok(QuotaSet { plan: None, quotas })
}

/// The error for a refused key (HTTP 401 or 403).
pub fn auth_error() -> (e: ProviderError)
    ensures
        e@ == ErrorView::Auth("minimax api token invalid or expired"@),
{
    ProviderError::Auth("minimax api token invalid or expired".to_owned())
}

/// A response succeeds exactly when it carries no non-zero status code and
/// does carry remains; then there is one MiniMax window per remains entry,
/// in order, each with the entry's window name, total as its limit, used
/// and remaining counts and reset time.
pub proof fn law_minimax_one_window_per_remain(body: MiniMaxResponse)
    ensures
        minimax_result(body) is Ok <==> (!(body.base_resp matches Some(b) && b.status_code != 0) && body.remains is Some),
        minimax_result(body) matches Ok(ws) ==> {
            let rs = body.remains->0@;
            &&& ws.len() == rs.len()
            &&& forall|i: int| 0 <= i < rs.len() ==> {
                &&& (#[trigger] ws[i]).provider == "MiniMax"@
                &&& ws[i].window == rs[i].window_name@
                &&& ws[i].limit == rs[i].total
                &&& ws[i].used == rs[i].used
                &&& ws[i].remaining == rs[i].remaining
                &&& ws[i].reset_at == match rs[i].reset_time {
                    Some(t) => Some(t@),
                    None => None,
                }
            }
        },
{
}

} // verus!
