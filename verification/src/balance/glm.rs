//! GLM Coding Plan usage (`GET https://open.bigmodel.cn/api/monitor/usage/quota/limit`,
//! authorised with the bare key): the decoded response and the quota
//! windows read from it.

use super::{opt_view, same_text, ErrorView, ProviderError, QuotaInfo, QuotaSet, QuotaView, quotas_view};
use crate::clock::{rfc3339_utc, spec_rfc3339};
use crate::text::{chars_of, push_str, string_of};
use vstd::prelude::*;

verus! {

pub struct GlmProvider;

impl GlmProvider {
    pub fn new() -> (p: GlmProvider) {
        GlmProvider
    }

    pub fn name(&self) -> (s: &'static str)
        ensures
            s@ == "GLM"@,
    {
        "GLM"
    }
}

/// The decoded response body.
pub struct GlmResponse {
    pub msg: Option<String>,
    pub success: bool,
    pub data: Option<GlmData>,
}

pub struct GlmData {
    pub level: Option<String>,
    pub limits: Vec<GlmLimit>,
}

/// One limit entry: "TOKENS_LIMIT" (5h / weekly, as a used percentage) or
/// "TIME_LIMIT" (monthly MCP calls, as counts).
pub struct GlmLimit {
    pub kind: String,
    pub percentage: Option<u64>,
    /// Next reset, in milliseconds (seconds when small).
    pub next_reset_time: Option<i64>,
    pub usage: Option<u64>,
    pub current_value: Option<u64>,
    pub remaining: Option<u64>,
}

/// Timestamps at or below 10^12 are seconds; above, milliseconds.
pub open spec fn reset_seconds(ts: int) -> int {
    if ts > 1_000_000_000_000 {
        ts / 1000
    } else {
        ts
    }
}

/// A reset timestamp (milliseconds, or seconds when small) as RFC 3339.
pub fn ms_to_rfc3339(ts: i64) -> (r: Option<String>)
    ensures
        super::super::clock::opt_seq(r) == spec_rfc3339(reset_seconds(ts as int)),
{
    let secs = if ts > 1_000_000_000_000 {
        ts / 1000
    } else {
        ts
    };
    rfc3339_utc(secs)
}

/// A used-percentage window as a quota of limit 100.
pub open spec fn pct_quota_spec(provider: Seq<char>, window: Seq<char>, pct: Option<u64>, reset_ts: Option<i64>) -> QuotaView {
    let p: nat = match pct {
        Some(v) => v as nat,
        None => 0,
    };
    let used: nat = if p < 100 { p } else { 100 };
    QuotaView {
        provider,
        window,
        limit: 100,
        used,
        remaining: (100 - used) as nat,
        reset_at: match reset_ts {
            Some(t) => spec_rfc3339(reset_seconds(t as int)),
            None => None,
        },
    }
}

/// Maps a "used percentage" onto a quota with limit 100, so percentage
/// windows render like counted ones.
pub fn pct_quota(provider: &str, window: &str, pct: Option<u64>, reset_ts: Option<i64>) -> (q: QuotaInfo)
    ensures
        q@ == pct_quota_spec(provider@, window@, pct, reset_ts),
{
    let p = match pct {
        Some(v) => v,
        None => 0,
    };
    let used = if p < 100 {
        p
    } else {
        100
    };
    let reset_at = match reset_ts {
        Some(t) => ms_to_rfc3339(t),
        None => None,
    };
    QuotaInfo {
        provider: provider.to_owned(),
        window: window.to_owned(),
        limit: 100,
        used,
        remaining: 100 - used,
        reset_at,
    }
}

pub open spec fn is_token_limit(l: GlmLimit) -> bool {
    l.kind@ == "TOKENS_LIMIT"@
}

pub open spec fn is_time_limit(l: GlmLimit) -> bool {
    l.kind@ == "TIME_LIMIT"@
}

pub open spec fn reset_key(l: GlmLimit) -> int {
    match l.next_reset_time {
        Some(t) => t as int,
        None => 0,
    }
}

/// Index of the token limit (other than `skip`) that resets earliest, the
/// first one on ties; -1 when there is none. The first two token limits of
/// the stable sort by reset time are `earliest(ls, -1)` and the earliest
/// after skipping that one.
pub open spec fn earliest(ls: Seq<GlmLimit>, skip: int) -> int
    decreases ls.len(),
{
    if ls.len() == 0 {
        -1
    } else {
        let b = earliest(ls.drop_last(), skip);
        let i = ls.len() - 1;
        if i != skip && is_token_limit(ls[i]) && (b < 0 || reset_key(ls[i]) < reset_key(ls[b])) {
            i
        } else {
            b
        }
    }
}

/// Index of the first monthly-calls limit, or -1.
pub open spec fn first_time_limit(ls: Seq<GlmLimit>) -> int
    decreases ls.len(),
{
    if ls.len() == 0 {
        -1
    } else {
        let b = first_time_limit(ls.drop_last());
        if b < 0 && is_time_limit(ls.last()) {
            ls.len() - 1
        } else {
            b
        }
    }
}

proof fn lemma_earliest_range(ls: Seq<GlmLimit>, skip: int)
    ensures
        -1 <= earliest(ls, skip) < ls.len(),
        earliest(ls, skip) >= 0 ==> earliest(ls, skip) != skip && is_token_limit(ls[earliest(ls, skip)]),
    decreases ls.len(),
{
    if ls.len() > 0 {
        lemma_earliest_range(ls.drop_last(), skip);
    }
}

proof fn lemma_first_time_limit_range(ls: Seq<GlmLimit>)
    ensures
        -1 <= first_time_limit(ls) < ls.len(),
    decreases ls.len(),
{
    if ls.len() > 0 {
        lemma_first_time_limit_range(ls.drop_last());
    }
}

fn earliest_exec(ls: &Vec<GlmLimit>, skip: Option<usize>) -> (r: Option<usize>)
    ensures
        ({
            let s = match skip {
                Some(k) => k as int,
                None => -1,
            };
            &&& r matches Some(i) ==> i as int == earliest(ls@, s)
            &&& r is None ==> earliest(ls@, s) == -1
        }),
{
    let ghost s = match skip {
        Some(k) => k as int,
        None => -1,
    };
    let mut best: Option<usize> = None;
    let mut i: usize = 0;
    while i < ls.len()
        invariant
            i <= ls.len(),
            s == (match skip {
                Some(k) => k as int,
                None => -1int,
            }),
            best matches Some(b) ==> b as int == earliest(ls@.take(i as int), s) && b < i,
            best is None ==> earliest(ls@.take(i as int), s) == -1,
        decreases ls.len() - i,
    {
        let ghost pre = ls@.take(i as int);
        assert(ls@.take(i + 1).drop_last() == pre);
        assert(ls@.take(i + 1)[i as int] == ls@[i as int]);
        let skipped = match skip {
            Some(k) => k == i,
            None => false,
        };
        let token = same_text(ls[i].kind.as_str(), "TOKENS_LIMIT");
        if !skipped && token {
            let key_i: i64 = match ls[i].next_reset_time {
                Some(t) => t,
                None => 0,
            };
            match best {
                None => {
                    best = Some(i);
                },
                Some(b) => {
                    assert(ls@.take(i as int)[b as int] == ls@[b as int]);
                    assert(ls@.take(i + 1)[b as int] == ls@[b as int]);
                    let key_b: i64 = match ls[b].next_reset_time {
                        Some(t) => t,
                        None => 0,
                    };
                    if key_i < key_b {
                        best = Some(i);
                    }
                },
            }
        } else {
            match best {
                Some(b) => {
                    assert(ls@.take(i + 1)[b as int] == ls@[b as int]);
                },
                None => {},
            }
        }
        i += 1;
    }
    assert(ls@.take(ls.len() as int) == ls@);
    best
}

fn first_time_limit_exec(ls: &Vec<GlmLimit>) -> (r: Option<usize>)
    ensures
        r matches Some(i) ==> i as int == first_time_limit(ls@),
        r is None ==> first_time_limit(ls@) == -1,
{
    let mut i: usize = 0;
    while i < ls.len()
        invariant
            i <= ls.len(),
            first_time_limit(ls@.take(i as int)) == -1,
        decreases ls.len() - i,
    {
        assert(ls@.take(i + 1).drop_last() == ls@.take(i as int));
        if same_text(ls[i].kind.as_str(), "TIME_LIMIT") {
            proof {
                lemma_first_time_limit_prefix(ls@, i as int);
            }
            return Some(i);
        }
        i += 1;
    }
    assert(ls@.take(ls.len() as int) == ls@);
    None
}

proof fn lemma_first_time_limit_prefix(ls: Seq<GlmLimit>, i: int)
    requires
        0 <= i < ls.len(),
        first_time_limit(ls.take(i)) == -1,
        is_time_limit(ls[i]),
    ensures
        first_time_limit(ls) == i,
    decreases ls.len(),
{
    if ls.len() - 1 == i {
        assert(ls.drop_last() == ls.take(i));
    } else {
        assert(ls.drop_last().take(i) == ls.take(i));
        lemma_first_time_limit_prefix(ls.drop_last(), i);
    }
}

/// The monthly-calls window of a "TIME_LIMIT" entry.
pub open spec fn mcp_quota_spec(l: GlmLimit) -> QuotaView {
    let limit: nat = match l.usage {
        Some(v) => v as nat,
        None => 0,
    };
    let used: nat = match l.current_value {
        Some(v) => v as nat,
        None => 0,
    };
    QuotaView {
        provider: "GLM"@,
        window: "MCP"@,
        limit,
        used,
        remaining: match l.remaining {
            Some(r) => r as nat,
            None => if limit > used { (limit - used) as nat } else { 0 },
        },
        reset_at: None,
    }
}

/// The windows a usage response yields: the earliest-resetting token limit
/// as "5h", the next as "weekly", then the first monthly-calls limit as
/// "MCP" — each only when present.
pub open spec fn glm_windows(ls: Seq<GlmLimit>) -> Seq<QuotaView> {
    let a = earliest(ls, -1);
    let b = if a >= 0 { earliest(ls, a) } else { -1 };
    let t = first_time_limit(ls);
    let s1: Seq<QuotaView> = if a >= 0 {
        seq![pct_quota_spec("GLM"@, "5h"@, ls[a].percentage, ls[a].next_reset_time)]
    } else {
        seq![]
    };
    let s2: Seq<QuotaView> = if b >= 0 {
        s1.push(pct_quota_spec("GLM"@, "weekly"@, ls[b].percentage, ls[b].next_reset_time))
    } else {
        s1
    };
    if t >= 0 {
        s2.push(mcp_quota_spec(ls[t]))
    } else {
        s2
    }
}

/// What a decoded response yields: an API error when `success` is false,
/// a parse error without data, else the plan level and its windows.
pub open spec fn glm_result(body: GlmResponse) -> Result<(Option<Seq<char>>, Seq<QuotaView>), ErrorView> {
    if !body.success {
        Err(ErrorView::Parse("glm api error: "@ + match body.msg {
            Some(m) => m@,
            None => "unknown error"@,
        }))
    } else {
        match body.data {
            None => Err(ErrorView::Parse("no usage data in response"@)),
            Some(d) => Ok((opt_view(d.level), glm_windows(d.limits@))),
        }
    }
}

/// The quota set a decoded usage response yields.
pub fn glm_quotas(body: GlmResponse) -> (r: Result<QuotaSet, ProviderError>)
    ensures
        match (r, glm_result(body)) {
            (Ok(q), Ok((plan, windows))) => opt_view(q.plan) == plan && quotas_view(q.quotas@) == windows,
            (Err(e), Err(v)) => e@ == v,
            _ => false,
        },
{
    if !body.success {
        let mut v: Vec<char> = Vec::new();
        push_str(&mut v, "glm api error: ");
        match &body.msg {
            Some(m) => push_str(&mut v, m.as_str()),
            None => push_str(&mut v, "unknown error"),
        }
        return Err(ProviderError::Parse(string_of(v.as_slice())));
    }
    let data = match body.data {
        Some(d) => d,
        None => return Err(ProviderError::Parse("no usage data in response".to_owned())),
    };
    let ls = &data.limits;
    proof {
        lemma_earliest_range(ls@, -1);
        lemma_first_time_limit_range(ls@);
    }
    let mut quotas: Vec<QuotaInfo> = Vec::new();
    let first = earliest_exec(ls, None);
    match first {
        Some(a) => {
            proof {
                lemma_earliest_range(ls@, a as int);
            }
            quotas.push(pct_quota("GLM", "5h", ls[a].percentage, ls[a].next_reset_time));
            assert(quotas_view(quotas@) =~= seq![pct_quota_spec("GLM"@, "5h"@, ls@[a as int].percentage, ls@[a as int].next_reset_time)]);
            let second = earliest_exec(ls, Some(a));
            match second {
                Some(b) => {
                    let ghost before = quotas_view(quotas@);
                    quotas.push(pct_quota("GLM", "weekly", ls[b].percentage, ls[b].next_reset_time));
                    assert(quotas_view(quotas@) =~= before.push(pct_quota_spec("GLM"@, "weekly"@, ls@[b as int].percentage, ls@[b as int].next_reset_time)));
                },
                None => {},
            }
        },
        None => {
            assert(quotas_view(quotas@) =~= Seq::<QuotaView>::empty());
        },
    }
    match first_time_limit_exec(ls) {
        Some(t) => {
            let l = &ls[t];
            let limit = match l.usage {
                Some(v) => v,
                None => 0,
            };
            let used = match l.current_value {
                Some(v) => v,
                None => 0,
            };
            let remaining = match l.remaining {
                Some(r) => r,
                None => if limit > used {
                    limit - used
                } else {
                    0
                },
            };
            let ghost before = quotas_view(quotas@);
            let q = QuotaInfo {
                provider: "GLM".to_owned(),
                window: "MCP".to_owned(),
                limit,
                used,
                remaining,
                reset_at: None,
            };
            quotas.push(q);
            assert(quotas_view(quotas@) =~= before.push(mcp_quota_spec(ls@[t as int])));
        },
        None => {},
    }
    Ok(QuotaSet { plan: data.level, quotas })
}

/// The error for a refused key (HTTP 401 or 403).
pub fn auth_error() -> (e: ProviderError)
    ensures
        e@ == ErrorView::Auth("glm api key invalid or expired"@),
{
    ProviderError::Auth("glm api key invalid or expired".to_owned())
}

/// A percentage window has limit 100, the reported percentage (capped at
/// 100, 0 when missing) as used, and the rest of the hundred as remaining.
pub proof fn law_pct_quota_is_hundred_based(provider: Seq<char>, window: Seq<char>, pct: Option<u64>, reset_ts: Option<i64>)
    ensures
        ({
            let q = pct_quota_spec(provider, window, pct, reset_ts);
            &&& q.provider == provider && q.window == window
            &&& q.limit == 100
            &&& q.used + q.remaining == 100
            &&& pct is None ==> q.used == 0
            &&& pct matches Some(p) ==> q.used == (if p > 100 { 100 } else { p })
            &&& reset_ts is None ==> q.reset_at is None
        }),
{
}

proof fn lemma_earliest_min(ls: Seq<GlmLimit>, skip: int)
    ensures
        earliest(ls, skip) < 0 ==> forall|k: int| 0 <= k < ls.len() && k != skip ==> !is_token_limit(#[trigger] ls[k]),
        earliest(ls, skip) >= 0 ==> forall|k: int|
            0 <= k < ls.len() && k != skip && is_token_limit(#[trigger] ls[k]) ==> reset_key(ls[earliest(ls, skip)])
                <= reset_key(ls[k]),
    decreases ls.len(),
{
    if ls.len() > 0 {
        let t = ls.drop_last();
        lemma_earliest_min(t, skip);
        lemma_earliest_range(t, skip);
        lemma_earliest_range(ls, skip);
        let e = earliest(ls, skip);
        assert forall|k: int| 0 <= k < ls.len() - 1 implies #[trigger] ls[k] == t[k] by {}
        if e >= 0 {
            assert forall|k: int| 0 <= k < ls.len() && k != skip && is_token_limit(#[trigger] ls[k]) implies reset_key(ls[e])
                <= reset_key(ls[k]) by {
                if k < ls.len() - 1 {
                    assert(ls[k] == t[k]);
                    let b = earliest(t, skip);
                    if b >= 0 {
                        assert(t[b] == ls[b]);
                    }
                }
            }
        }
    }
}

/// The "5h" window is the token limit that resets earliest, and the
/// "weekly" window the one that resets earliest among the others: the
/// windows follow the reset times, whatever order the response lists the
/// limits in.
pub proof fn law_glm_windows_by_reset(ls: Seq<GlmLimit>)
    ensures
        (exists|k: int| 0 <= k < ls.len() && is_token_limit(#[trigger] ls[k])) ==> exists|i: int|
            #![trigger ls[i]]
            0 <= i < ls.len() && is_token_limit(ls[i]) && (forall|k: int|
                0 <= k < ls.len() && is_token_limit(#[trigger] ls[k]) ==> reset_key(ls[i]) <= reset_key(ls[k]))
                && glm_windows(ls)[0] == pct_quota_spec("GLM"@, "5h"@, ls[i].percentage, ls[i].next_reset_time),
        (exists|k1: int, k2: int|
            0 <= k1 < ls.len() && 0 <= k2 < ls.len() && k1 != k2 && is_token_limit(#[trigger] ls[k1]) && is_token_limit(
                #[trigger] ls[k2],
            )) ==> exists|i: int, j: int|
            #![trigger ls[i], ls[j]]
            0 <= i < ls.len() && 0 <= j < ls.len() && i != j && is_token_limit(ls[j]) && reset_key(ls[i]) <= reset_key(ls[j])
                && (forall|k: int|
                0 <= k < ls.len() && k != i && is_token_limit(#[trigger] ls[k]) ==> reset_key(ls[j]) <= reset_key(ls[k]))
                && glm_windows(ls)[1] == pct_quota_spec("GLM"@, "weekly"@, ls[j].percentage, ls[j].next_reset_time),
{
    let a = earliest(ls, -1);
    lemma_earliest_range(ls, -1);
    lemma_earliest_min(ls, -1);
    if a >= 0 {
        let b = earliest(ls, a);
        lemma_earliest_range(ls, a);
        lemma_earliest_min(ls, a);
        assert(glm_windows(ls)[0] == pct_quota_spec("GLM"@, "5h"@, ls[a].percentage, ls[a].next_reset_time));
        assert(ls[a] == ls[a]);
        if b >= 0 {
            assert(glm_windows(ls)[1] == pct_quota_spec("GLM"@, "weekly"@, ls[b].percentage, ls[b].next_reset_time));
            assert(is_token_limit(ls[b]));
            assert(reset_key(ls[a]) <= reset_key(ls[b]));
            assert(ls[a] == ls[a] && ls[b] == ls[b]);
        } else {
            assert forall|k1: int, k2: int|
                0 <= k1 < ls.len() && 0 <= k2 < ls.len() && k1 != k2 && is_token_limit(#[trigger] ls[k1]) && is_token_limit(
                    #[trigger] ls[k2],
                ) implies false by {
                if k1 != a {
                    assert(!is_token_limit(ls[k1]));
                } else {
                    assert(!is_token_limit(ls[k2]));
                }
            }
        }
    }
}

} // verus!
