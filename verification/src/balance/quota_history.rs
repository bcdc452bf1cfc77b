//! Per-cycle quota consumption history ("plan utilization"): every quota
//! fetch samples the current windows, and samples are compressed to one peak
//! entry per cycle. A cycle is identified by its server-provided reset
//! timestamp; usage only grows within a cycle, so the highest observed usage
//! per reset timestamp is the per-cycle consumption series directly.
//!
//! A peak is kept as the exact ratio `used / limit` (with `used` capped at
//! `limit`, i.e. at most 100 %); comparing two peaks compares the ratios.

use vstd::prelude::*;

verus! {

/// One cycle's peak usage.
pub struct CyclePeak {
    /// Cycle identity: the window's reset timestamp as reported by the API.
    pub reset: String,
    /// Highest observed usage in this cycle, never above `limit`.
    pub used: u64,
    /// The window's limit for that observation; the percentage is
    /// `used / limit * 100`.
    pub limit: u64,
}

/// The mathematical content of a `CyclePeak`.
pub struct PeakView {
    pub reset: Seq<char>,
    pub used: nat,
    pub limit: nat,
}

impl View for CyclePeak {
    type V = PeakView;

    open spec fn view(&self) -> PeakView {
        PeakView { reset: self.reset@, used: self.used as nat, limit: self.limit as nat }
    }
}

impl CyclePeak {
    /// An identical copy.
    pub fn duplicate(&self) -> (r: CyclePeak)
        ensures
            r@ == self@,
    {
        CyclePeak { reset: self.reset.clone(), used: self.used, limit: self.limit }
    }
}

/// Per-window histories for one provider.
pub struct QuotaHistory {
    /// 5-hour session window peaks, oldest first.
    pub session: Vec<CyclePeak>,
    /// Weekly window peaks, oldest first.
    pub weekly: Vec<CyclePeak>,
}

/// How many cycles the session series retains (~10 days of 5h windows).
pub const SESSION_KEEP: usize = 48;

/// How many cycles the weekly series retains (~3 months).
pub const WEEKLY_KEEP: usize = 12;

#[derive(Clone, Copy, PartialEq, Eq, Debug, Structural)]
pub enum Series {
    Session,
    Weekly,
}

pub open spec fn series_view(s: Seq<CyclePeak>) -> Seq<PeakView> {
    s.map_values(|p: CyclePeak| p@)
}

/// Every peak has a positive limit and usage within it.
pub open spec fn peaks_wf(s: Seq<PeakView>) -> bool {
    forall|i: int| 0 <= i < s.len() ==> 0 < #[trigger] s[i].limit && s[i].used <= s[i].limit
}

/// `u1 / l1 > u2 / l2` for positive limits.
pub open spec fn ratio_above(u1: nat, l1: nat, u2: nat, l2: nat) -> bool {
    u1 * l2 > u2 * l1
}

pub open spec fn keep_of(series: Series) -> nat {
    match series {
        Series::Session => SESSION_KEEP as nat,
        Series::Weekly => WEEKLY_KEEP as nat,
    }
}

/// One sample folded into a series: the new series and whether it changed.
/// Samples without a cycle identity or with a zero limit are dropped; a
/// sample of the newest cycle only raises its peak; a sample of another
/// cycle starts a new entry, and the oldest entries beyond `keep` go.
pub open spec fn record_series(
    s: Seq<PeakView>,
    reset: Option<Seq<char>>,
    used: nat,
    limit: nat,
    keep: nat,
) -> (Seq<PeakView>, bool) {
    match reset {
        None => (s, false),
        Some(r) => if limit == 0 {
            (s, false)
        } else {
            let u = if used < limit { used } else { limit };
            let fresh = PeakView { reset: r, used: u, limit: limit };
            if s.len() > 0 && s.last().reset == r {
                if ratio_above(u, limit, s.last().used, s.last().limit) {
                    (s.update(s.len() - 1, fresh), true)
                } else {
                    (s, false)
                }
            } else {
                let p = s.push(fresh);
                (if p.len() > keep { p.skip(p.len() - keep) } else { p }, true)
            }
        },
    }
}

impl QuotaHistory {
    /// An empty history.
    pub fn new() -> (h: QuotaHistory)
        ensures
            h.session@.len() == 0,
            h.weekly@.len() == 0,
    {
        QuotaHistory { session: Vec::new(), weekly: Vec::new() }
    }

    pub open spec fn wf(&self) -> bool {
        peaks_wf(series_view(self.session@)) && peaks_wf(series_view(self.weekly@))
    }

    pub open spec fn series_of(&self, series: Series) -> Seq<PeakView> {
        match series {
            Series::Session => series_view(self.session@),
            Series::Weekly => series_view(self.weekly@),
        }
    }

    /// Record one sample. `reset_at` is the cycle identity; samples without
    /// one are dropped. Returns true when the history changed.
    pub fn record(&mut self, series: Series, reset_at: Option<&str>, used: u64, limit: u64) -> (changed: bool)
        requires
            old(self).wf(),
        ensures
            final(self).wf(),
            ({
                let r = record_series(
                    old(self).series_of(series),
                    match reset_at { Some(s) => Some(s@), None => None },
                    used as nat,
                    limit as nat,
                    keep_of(series),
                );
                &&& final(self).series_of(series) == r.0
                &&& changed == r.1
            }),
            series == Series::Session ==> final(self).weekly@ == old(self).weekly@,
            series == Series::Weekly ==> final(self).session@ == old(self).session@,
    {
        let ghost reset_view = match reset_at { Some(s) => Some(s@), None => None };
        match series {
            Series::Session => record_into(&mut self.session, SESSION_KEEP, reset_at, used, limit),
            Series::Weekly => record_into(&mut self.weekly, WEEKLY_KEEP, reset_at, used, limit),
        }
    }
}

/// `a * b` without overflow.
pub fn wide_mul(a: u64, b: u64) -> (r: u128)
    ensures
        r == a * b,
{
    assert(a * b <= u64::MAX * u64::MAX) by (nonlinear_arith)
        requires
            a <= u64::MAX,
            b <= u64::MAX,
    ;
    (a as u128) * (b as u128)
}

fn record_into(entries: &mut Vec<CyclePeak>, keep: usize, reset_at: Option<&str>, used: u64, limit: u64) -> (changed: bool)
    requires
        peaks_wf(series_view(old(entries)@)),
        keep > 0,
    ensures
        peaks_wf(series_view(final(entries)@)),
        ({
            let r = record_series(
                series_view(old(entries)@),
                match reset_at { Some(s) => Some(s@), None => None },
                used as nat,
                limit as nat,
                keep as nat,
            );
            &&& series_view(final(entries)@) == r.0
            &&& changed == r.1
        }),
{
    let reset = match reset_at {
        Some(r) => r,
        None => return false,
    };
    if limit == 0 {
        return false;
    }
    let u: u64 = if used < limit { used } else { limit };
    let reset_owned = reset.to_owned();
    let fresh = CyclePeak { reset: reset_owned, used: u, limit };
    let ghost old_view = series_view(entries@);
    let n = entries.len();
    if n > 0 && entries[n - 1].reset == fresh.reset {
        let last_used = entries[n - 1].used;
        let last_limit = entries[n - 1].limit;
        let lhs = wide_mul(u, last_limit);
        let rhs = wide_mul(last_used, limit);
        if lhs > rhs {
            entries.set(n - 1, fresh);
            assert(series_view(entries@) =~= old_view.update(n - 1, fresh@));
            return true;
        }
        return false;
    }
    entries.push(fresh);
    assert(series_view(entries@) =~= old_view.push(fresh@));
    if entries.len() > keep {
        let overflow = entries.len() - keep;
        let tail = entries.split_off(overflow);
        *entries = tail;
        assert(series_view(entries@) =~= old_view.push(fresh@).skip(overflow as int));
    }
    true
}

// ---------------------------------------------------------------------------
// Laws
// ---------------------------------------------------------------------------

/// A sample with no cycle identity, or with a zero limit, never changes a
/// series and reports no change.
pub proof fn law_unusable_sample_dropped(s: Seq<PeakView>, reset: Option<Seq<char>>, used: nat, limit: nat, keep: nat)
    requires
        reset is None || limit == 0,
    ensures
        record_series(s, reset, used, limit, keep) == (s, false),
{
}

/// Within one cycle only the peak is kept: after a sample of the newest
/// cycle the series has the same length and its last entry is the larger
/// of the old peak and the sample.
pub proof fn law_same_cycle_keeps_peak(s: Seq<PeakView>, r: Seq<char>, used: nat, limit: nat, keep: nat)
    requires
        peaks_wf(s),
        s.len() > 0,
        s.last().reset == r,
        limit > 0,
    ensures
        ({
            let out = record_series(s, Some(r), used, limit, keep).0;
            let u = if used < limit { used } else { limit };
            &&& out.len() == s.len()
            &&& out.drop_last() == s.drop_last()
            &&& out.last().reset == r
            &&& !ratio_above(out.last().used, out.last().limit, s.last().used, s.last().limit) ==> out.last() == s.last()
            &&& !ratio_above(u, limit, out.last().used, out.last().limit)
            &&& !ratio_above(s.last().used, s.last().limit, out.last().used, out.last().limit)
        }),
{
    let out = record_series(s, Some(r), used, limit, keep).0;
    let u = if used < limit { used } else { limit };
    if ratio_above(u, limit, s.last().used, s.last().limit) {
        assert(out.drop_last() =~= s.drop_last());
        assert(!(s.last().used * limit > u * s.last().limit));
    } else {
        assert(!(u * s.last().limit > s.last().used * limit));
    }
}

/// A sample of a new cycle becomes the newest entry, the older entries keep
/// their order, and only the oldest ones are trimmed, down to `keep`.
pub proof fn law_new_cycle_appends_and_caps(s: Seq<PeakView>, r: Seq<char>, used: nat, limit: nat, keep: nat)
    requires
        limit > 0,
        keep > 0,
        s.len() == 0 || s.last().reset != r,
    ensures
        ({
            let res = record_series(s, Some(r), used, limit, keep);
            let all = s.push(PeakView { reset: r, used: if used < limit { used } else { limit }, limit: limit });
            &&& res.1
            &&& res.0.len() == if all.len() > keep { keep } else { all.len() }
            &&& res.0 == all.skip(all.len() - res.0.len())
            &&& res.0.last().reset == r
        }),
{
}

/// `record` reports a change exactly when the series changed.
pub proof fn law_record_reports_change(s: Seq<PeakView>, reset: Option<Seq<char>>, used: nat, limit: nat, keep: nat)
    requires
        keep > 0,
    ensures
        record_series(s, reset, used, limit, keep).1 <==> record_series(s, reset, used, limit, keep).0 != s,
{
    let res = record_series(s, reset, used, limit, keep);
    match reset {
        None => {},
        Some(r) => {
            if limit > 0 {
                let u = if used < limit { used } else { limit };
                if s.len() > 0 && s.last().reset == r {
                    if ratio_above(u, limit, s.last().used, s.last().limit) {
                        let out = res.0;
                        assert(out.last() == PeakView { reset: r, used: u, limit: limit });
                        assert(out.last() != s.last()) by {
                            if out.last() == s.last() {
                                assert(u * limit > u * limit);
                            }
                        }
                        assert(out[out.len() - 1] != s[s.len() - 1]);
                    }
                } else {
                    let out = res.0;
                    assert(out.len() > 0);
                    assert(out.last().reset == r);
                    assert(out[out.len() - 1] != s[s.len() - 1] || out.len() != s.len());
                }
            }
        },
    }
}

/// A series never grows past `keep` once it is within it, and every entry
/// stays well formed.
pub proof fn law_record_bounded(s: Seq<PeakView>, reset: Option<Seq<char>>, used: nat, limit: nat, keep: nat)
    requires
        peaks_wf(s),
        s.len() <= keep,
    ensures
        record_series(s, reset, used, limit, keep).0.len() <= keep,
        peaks_wf(record_series(s, reset, used, limit, keep).0),
{
    let out = record_series(s, reset, used, limit, keep).0;
    assert forall|i: int| 0 <= i < out.len() implies 0 < #[trigger] out[i].limit && out[i].used <= out[i].limit by {
        match reset {
            None => {},
            Some(r) => {
                if limit > 0 {
                    let u = if used < limit { used } else { limit };
                    let fresh = PeakView { reset: r, used: u, limit: limit };
                    if s.len() > 0 && s.last().reset == r {
                        if ratio_above(u, limit, s.last().used, s.last().limit) {
                            if i < s.len() - 1 {
                                assert(out[i] == s[i]);
                            }
                        }
                    } else {
                        let p = s.push(fresh);
                        if p.len() > keep {
                            assert(out[i] == p[i + (p.len() - keep)]);
                        } else {
                            assert(out[i] == p[i]);
                        }
                    }
                }
            },
        }
    }
}

} // verus!
