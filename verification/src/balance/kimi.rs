//! Kimi coding-plan usage (`GET https://api.kimi.com/coding/v1/usages`,
//! bearer key): the decoded response and the quota windows read from it.

use super::{same_text, ErrorView, ProviderError, QuotaInfo, QuotaSet, QuotaView, opt_view, quotas_view};
use crate::text::{
    chars_of, dec, parse_unsigned, push_all, push_str, spec_u64_parse_error, string_of, u64_digits,
    u64_from_str,
};
use vstd::prelude::*;

verus! {

pub struct KimiProvider;

impl KimiProvider {
    pub fn new() -> (p: KimiProvider) {
        KimiProvider
    }

    pub fn name(&self) -> (s: &'static str)
        ensures
            s@ == "Kimi"@,
    {
        "Kimi"
    }
}

/// The decoded response body.
pub struct KimiResponse {
    pub usage: KimiUsage,
    pub limits: Vec<KimiLimit>,
}

/// Counters of one window, as decimal text.
pub struct KimiUsage {
    pub limit: String,
    pub used: Option<String>,
    pub remaining: String,
    pub reset_time: Option<String>,
}

pub struct KimiLimit {
    pub window: KimiWindow,
    pub detail: KimiUsage,
}

pub struct KimiWindow {
    pub duration: u64,
    pub time_unit: String,
}

/// A counter parsed as `u64`, or the parse error naming the text.
pub open spec fn parse_counter(s: Seq<char>) -> Result<nat, ErrorView> {
    match parse_unsigned(s, u64::MAX as nat) {
        Some(v) => Ok(v),
        None => Err(ErrorView::Parse("invalid number '"@ + s + "': "@ + spec_u64_parse_error(s))),
    }
}

/// Parses a counter.
pub fn parse_u64(s: &str) -> (r: Result<u64, ProviderError>)
    ensures
        match (r, parse_counter(s@)) {
            (Ok(v), Ok(w)) => v as nat == w,
            (Err(e), Err(f)) => e@ == f,
            _ => false,
        },
{
    match u64_from_str(s) {
        Ok(v) => Ok(v),
        Err(m) => {
            let mut t: Vec<char> = Vec::new();
            push_str(&mut t, "invalid number '");
            push_str(&mut t, s);
            push_str(&mut t, "': ");
            push_str(&mut t, m.as_str());
            Err(ProviderError::Parse(string_of(t.as_slice())))
        },
    }
}

/// The label of a window: "5min", "5h", "7d", or the duration and unit
/// as given.
pub open spec fn window_label_spec(duration: u64, unit: Seq<char>) -> Seq<char> {
    if unit == "TIME_UNIT_MINUTE"@ {
        dec(duration as nat) + "min"@
    } else if unit == "TIME_UNIT_HOUR"@ {
        dec(duration as nat) + "h"@
    } else if unit == "TIME_UNIT_DAY"@ {
        dec(duration as nat) + "d"@
    } else {
        dec(duration as nat) + " "@ + unit
    }
}

pub fn window_label(w: &KimiWindow) -> (s: String)
    ensures
        s@ == window_label_spec(w.duration, w.time_unit@),
{
    let mut v = u64_digits(w.duration);
    let unit = w.time_unit.as_str();
    if same_text(unit, "TIME_UNIT_MINUTE") {
        push_str(&mut v, "min");
    } else if same_text(unit, "TIME_UNIT_HOUR") {
        push_str(&mut v, "h");
    } else if same_text(unit, "TIME_UNIT_DAY") {
        push_str(&mut v, "d");
    } else {
        push_str(&mut v, " ");
        push_str(&mut v, unit);
    }
    string_of(v.as_slice())
}

/// The quota of one window entry: the used counter falls back to
/// `limit - remaining` (at least 0) when it is missing or empty.
pub open spec fn limit_quota(l: KimiLimit) -> Result<QuotaView, ErrorView> {
    match parse_counter(l.detail.limit@) {
        Err(e) => Err(e),
        Ok(lim) => match parse_counter(l.detail.remaining@) {
            Err(e) => Err(e),
            Ok(rem) => {
                let used = match l.detail.used {
                    Some(s) => if s@.len() > 0 {
                        parse_counter(s@)
                    } else {
                        Ok(if lim > rem { (lim - rem) as nat } else { 0 })
                    },
                    None => Ok(if lim > rem { (lim - rem) as nat } else { 0 }),
                };
                match used {
                    Err(e) => Err(e),
                    Ok(u) => Ok(
                        QuotaView {
                            provider: "Kimi"@,
                            window: window_label_spec(l.window.duration, l.window.time_unit@),
                            limit: lim,
                            used: u,
                            remaining: rem,
                            reset_at: opt_view(l.detail.reset_time),
                        },
                    ),
                }
            },
        },
    }
}

/// The window entries' quotas, or the first error among them.
pub open spec fn limits_result(ls: Seq<KimiLimit>) -> Result<Seq<QuotaView>, ErrorView>
    decreases ls.len(),
{
    if ls.len() == 0 {
        Ok(Seq::empty())
    } else {
        match limits_result(ls.drop_last()) {
            Err(e) => Err(e),
            Ok(prev) => match limit_quota(ls.last()) {
                Err(e) => Err(e),
                Ok(q) => Ok(prev.push(q)),
            },
        }
    }
}

/// The weekly window (its used counter defaults to "0"), then each window
/// entry; the first counter that does not parse fails the whole response.
pub open spec fn kimi_result(body: KimiResponse) -> Result<Seq<QuotaView>, ErrorView> {
    let u = body.usage;
    match parse_counter(u.limit@) {
        Err(e) => Err(e),
        Ok(lim) => match parse_counter(
            match u.used {
                Some(s) => s@,
                None => "0"@,
            },
        ) {
            Err(e) => Err(e),
            Ok(used) => match parse_counter(u.remaining@) {
                Err(e) => Err(e),
                Ok(rem) => {
                    let weekly = QuotaView {
                        provider: "Kimi"@,
                        window: "weekly"@,
                        limit: lim,
                        used,
                        remaining: rem,
                        reset_at: opt_view(u.reset_time),
                    };
                    match limits_result(body.limits@) {
                        Err(e) => Err(e),
                        Ok(rest) => Ok(seq![weekly] + rest),
                    }
                },
            },
        },
    }
}

fn limit_quota_exec(l: &KimiLimit) -> (r: Result<QuotaInfo, ProviderError>)
    ensures
        match (r, limit_quota(*l)) {
            (Ok(q), Ok(v)) => q@ == v,
            (Err(e), Err(f)) => e@ == f,
            _ => false,
        },
{
    let lim = match parse_u64(l.detail.limit.as_str()) {
        Ok(v) => v,
        Err(e) => return Err(e),
    };
    let rem = match parse_u64(l.detail.remaining.as_str()) {
        Ok(v) => v,
        Err(e) => return Err(e),
    };
    let fallback: u64 = if lim > rem {
        lim - rem
    } else {
        0
    };
    let used = match &l.detail.used {
        Some(s) => {
            if s.as_str().is_empty() {
                fallback
            } else {
                match parse_u64(s.as_str()) {
                    Ok(v) => v,
                    Err(e) => return Err(e),
                }
            }
        },
        None => fallback,
    };
    Ok(
        QuotaInfo {
            provider: "Kimi".to_owned(),
            window: window_label(&l.window),
            limit: lim,
            used,
            remaining: rem,
            reset_at: l.detail.reset_time.clone(),
        },
    )
}

/// The quota set of a decoded usage response.
pub fn kimi_quotas(body: &KimiResponse) -> (r: Result<QuotaSet, ProviderError>)
    ensures
        match (r, kimi_result(*body)) {
            (Ok(q), Ok(windows)) => q.plan is None && quotas_view(q.quotas@) == windows,
            (Err(e), Err(f)) => e@ == f,
            _ => false,
        },
{
    let u = &body.usage;
    let lim = match parse_u64(u.limit.as_str()) {
        Ok(v) => v,
        Err(e) => return Err(e),
    };
    let used = match &u.used {
        Some(s) => parse_u64(s.as_str()),
        None => parse_u64("0"),
    };
    let used = match used {
        Ok(v) => v,
        Err(e) => return Err(e),
    };
    let rem = match parse_u64(u.remaining.as_str()) {
        Ok(v) => v,
        Err(e) => return Err(e),
    };
    let mut quotas: Vec<QuotaInfo> = Vec::new();
    quotas.push(
        QuotaInfo {
            provider: "Kimi".to_owned(),
            window: "weekly".to_owned(),
            limit: lim,
            used,
            remaining: rem,
            reset_at: u.reset_time.clone(),
        },
    );
    let ghost weekly = quotas_view(quotas@)[0];
    let ghost whole = match limits_result(body.limits@) {
        Err(e) => Err(e),
        Ok(rest) => Ok(seq![weekly] + rest),
    };
    assert(kimi_result(*body) == whole);
    let mut i: usize = 0;
    while i < body.limits.len()
        invariant
            i <= body.limits.len(),
            quotas@.len() >= 1,
            quotas_view(quotas@)[0] == weekly,
            kimi_result(*body) == whole,
            whole == (match limits_result(body.limits@) {
                Err(e) => Err(e),
                Ok(rest) => Ok(seq![weekly] + rest),
            }),
            limits_result(body.limits@.take(i as int)) matches Ok(prev) && quotas_view(quotas@) == seq![weekly] + prev,
        decreases body.limits.len() - i,
    {
        assert(body.limits@.take(i + 1).drop_last() == body.limits@.take(i as int));
        assert(body.limits@.take(i + 1).last() == body.limits@[i as int]);
        let ghost before = quotas_view(quotas@);
        match limit_quota_exec(&body.limits[i]) {
            Ok(q) => {
                quotas.push(q);
                assert(quotas_view(quotas@) =~= before.push(q@));
            },
            Err(e) => {
                proof {
                    assert(limits_result(body.limits@.take(i + 1)) == Err::<Seq<QuotaView>, ErrorView>(e@));
                    lemma_limits_err_prefix(body.limits@, i as int + 1);
                }
                return Err(e);
            },
        }
        i += 1;
    }
    assert(body.limits@.take(body.limits.len() as int) == body.limits@);
    Ok(QuotaSet { plan: None, quotas })
}

proof fn lemma_limits_err_prefix(ls: Seq<KimiLimit>, k: int)
    requires
        0 <= k <= ls.len(),
        limits_result(ls.take(k)) is Err,
    ensures
        limits_result(ls) == limits_result(ls.take(k)),
    decreases ls.len() - k,
{
    if k < ls.len() {
        assert(ls.take(k + 1).drop_last() == ls.take(k));
        lemma_limits_err_prefix(ls, k + 1);
    } else {
        assert(ls.take(k) == ls);
    }
}

/// The error for a refused key (HTTP 401 or 403).
pub fn auth_error() -> (e: ProviderError)
    ensures
        e@ == ErrorView::Auth("kimi api key invalid or expired"@),
{
    ProviderError::Auth("kimi api key invalid or expired".to_owned())
}

/// A window of `d` minutes is labelled "<d>min", of `d` hours "<d>h", of
/// `d` days "<d>d"; any other unit is shown after the number as given.
pub proof fn law_window_labels(d: u64, unit: Seq<char>)
    requires
        unit != "TIME_UNIT_MINUTE"@,
        unit != "TIME_UNIT_HOUR"@,
        unit != "TIME_UNIT_DAY"@,
    ensures
        window_label_spec(d, "TIME_UNIT_MINUTE"@) == dec(d as nat) + "min"@,
        window_label_spec(d, "TIME_UNIT_HOUR"@) == dec(d as nat) + "h"@,
        window_label_spec(d, "TIME_UNIT_DAY"@) == dec(d as nat) + "d"@,
        window_label_spec(d, unit) == dec(d as nat) + " "@ + unit,
{
    reveal_strlit("TIME_UNIT_MINUTE");
    reveal_strlit("TIME_UNIT_HOUR");
    reveal_strlit("TIME_UNIT_DAY");
    assert("TIME_UNIT_MINUTE"@.len() == 16 && "TIME_UNIT_HOUR"@.len() == 14 && "TIME_UNIT_DAY"@.len() == 13);
}

/// A window entry without a used count (or an empty one) counts as used
/// whatever of the limit is not remaining, never below zero; with a count,
/// that count.
pub proof fn law_kimi_used_fallback(l: KimiLimit)
    ensures
        limit_quota(l) matches Ok(q) ==> {
            &&& parse_counter(l.detail.limit@) == Ok::<nat, ErrorView>(q.limit)
            &&& parse_counter(l.detail.remaining@) == Ok::<nat, ErrorView>(q.remaining)
            &&& (l.detail.used is None || l.detail.used->0@.len() == 0) ==> q.used == if q.limit > q.remaining {
                (q.limit - q.remaining) as nat
            } else {
                0
            }
            &&& (l.detail.used matches Some(s) && s@.len() > 0) ==> parse_counter(l.detail.used->0@) == Ok::<nat, ErrorView>(q.used)
            &&& q.provider == "Kimi"@
        },
{
}

proof fn lemma_limits_result(ls: Seq<KimiLimit>)
    ensures
        limits_result(ls) is Ok <==> forall|i: int| 0 <= i < ls.len() ==> (#[trigger] limit_quota(ls[i])) is Ok,
        limits_result(ls) matches Ok(qs) ==> qs.len() == ls.len() && forall|i: int|
            0 <= i < ls.len() ==> #[trigger] limit_quota(ls[i]) == Ok::<QuotaView, ErrorView>(qs[i]),
    decreases ls.len(),
{
    if ls.len() > 0 {
        let t = ls.drop_last();
        let n = ls.len() - 1;
        lemma_limits_result(t);
        match limits_result(t) {
            Err(_) => {
                let i = choose|i: int| 0 <= i < t.len() && !((#[trigger] limit_quota(t[i])) is Ok);
                assert(ls[i] == t[i]);
                assert(!(limit_quota(ls[i]) is Ok));
            },
            Ok(prev) => {
                match limit_quota(ls[n]) {
                    Err(_) => {
                        assert(!(limit_quota(ls[n]) is Ok));
                    },
                    Ok(q) => {
                        let qs = prev.push(q);
                        assert(limits_result(ls) == Ok::<Seq<QuotaView>, ErrorView>(qs));
                        assert forall|i: int| 0 <= i < ls.len() implies #[trigger] limit_quota(ls[i]) == Ok::<
                            QuotaView,
                            ErrorView,
                        >(qs[i]) by {
                            if i < n {
                                assert(ls[i] == t[i]);
                            }
                        }
                    },
                }
            },
        }
    }
}

/// A usage response gives the weekly window first, from the top-level
/// counters (a missing used count reads as 0), then one window per entry of
/// `limits`, in order; it fails exactly when one of those counters does not
/// read as a number.
pub proof fn law_kimi_weekly_then_one_window_per_limit(body: KimiResponse)
    ensures
        kimi_result(body) is Ok <==> {
            &&& parse_counter(body.usage.limit@) is Ok
            &&& parse_counter(match body.usage.used { Some(s) => s@, None => "0"@ }) is Ok
            &&& parse_counter(body.usage.remaining@) is Ok
            &&& forall|i: int| 0 <= i < body.limits@.len() ==> (#[trigger] limit_quota(body.limits@[i])) is Ok
        },
        kimi_result(body) matches Ok(ws) ==> {
            &&& ws.len() == body.limits@.len() + 1
            &&& ws[0].provider == "Kimi"@ && ws[0].window == "weekly"@
            &&& parse_counter(body.usage.limit@) == Ok::<nat, ErrorView>(ws[0].limit)
            &&& parse_counter(body.usage.remaining@) == Ok::<nat, ErrorView>(ws[0].remaining)
            &&& forall|i: int| 0 <= i < body.limits@.len() ==> #[trigger] limit_quota(body.limits@[i]) == Ok::<QuotaView, ErrorView>(ws[i + 1])
        },
{
    lemma_limits_result(body.limits@);
    if kimi_result(body) is Ok {
        let ws = kimi_result(body)->Ok_0;
        let rest = limits_result(body.limits@)->Ok_0;
        assert forall|i: int| 0 <= i < body.limits@.len() implies #[trigger] limit_quota(body.limits@[i]) == Ok::<QuotaView, ErrorView>(ws[i + 1]) by {
            assert(ws[i + 1] == rest[i]);
        }
    }
}

} // verus!
