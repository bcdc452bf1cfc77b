//! One fetch round folded into what the coding panel shows: per-instance
//! results, errors and provider types (maps by instance id), the first
//! failure, and the quota windows to sample into the per-cycle histories.

use crate::balance::quota_history::{keep_of, record_series, series_view, PeakView, QuotaHistory, Series};
use crate::balance::{error_text, failure_line, quotas_view, same_text, ErrorView, ProviderError, ProviderResult, QuotaInfo, QuotaView};
use crate::keyed::{put, put_text, key_view, replace_with, string_keys, strictly_sorted, text_view, upsert};
use vstd::prelude::*;

verus! {

// ---------------------------------------------------------------------------
// Quota samples
// ---------------------------------------------------------------------------

/// One successful 5h or weekly quota window, queued for history sampling.
pub struct QuotaSample {
    pub provider: String,
    pub series: Series,
    pub reset_at: Option<String>,
    pub used: u64,
    pub limit: u64,
}

/// The mathematical content of a `QuotaSample`.
pub struct SampleView {
    pub provider: Seq<char>,
    pub series: Series,
    pub reset_at: Option<Seq<char>>,
    pub used: nat,
    pub limit: nat,
}

impl View for QuotaSample {
    type V = SampleView;

    open spec fn view(&self) -> SampleView {
        SampleView {
            provider: self.provider@,
            series: self.series,
            reset_at: match self.reset_at {
                Some(s) => Some(s@),
                None => None,
            },
            used: self.used as nat,
            limit: self.limit as nat,
        }
    }
}

pub open spec fn samples_view(s: Seq<QuotaSample>) -> Seq<SampleView> {
    s.map_values(|x: QuotaSample| x@)
}

/// The history series a window name feeds: "weekly" and "5h"; other
/// windows are not sampled.
pub open spec fn series_named(window: Seq<char>) -> Option<Series> {
    if window == "weekly"@ {
        Some(Series::Weekly)
    } else if window == "5h"@ {
        Some(Series::Session)
    } else {
        None
    }
}

/// The samples a provider's quota windows give, in order.
pub open spec fn window_samples(provider: Seq<char>, qs: Seq<QuotaView>) -> Seq<SampleView>
    decreases qs.len(),
{
    if qs.len() == 0 {
        Seq::empty()
    } else {
        let rest = window_samples(provider, qs.drop_last());
        let q = qs.last();
        match series_named(q.window) {
            Some(series) => rest.push(
                SampleView { provider, series, reset_at: q.reset_at, used: q.used, limit: q.limit },
            ),
            None => rest,
        }
    }
}

/// The samples a fetch result gives: only a pure quota result is sampled.
pub open spec fn result_samples<B>(provider: Seq<char>, d: ProviderResult<B>) -> Seq<SampleView> {
    match d {
        ProviderResult::Quota(qs) => window_samples(provider, quotas_view(qs.quotas@)),
        _ => Seq::empty(),
    }
}

fn series_of_window(window: &str) -> (r: Option<Series>)
    ensures
        r == series_named(window@),
{
    if same_text(window, "weekly") {
        Some(Series::Weekly)
    } else if same_text(window, "5h") {
        Some(Series::Session)
    } else {
        None
    }
}

/// The quota samples of one fetch result.
pub fn quota_samples<B>(provider: &String, d: &ProviderResult<B>) -> (out: Vec<QuotaSample>)
    ensures
        samples_view(out@) == result_samples(provider@, *d),
{
    let mut out: Vec<QuotaSample> = Vec::new();
    match d {
        ProviderResult::Quota(qs) => {
            let ghost qv = quotas_view(qs.quotas@);
            let mut i: usize = 0;
            assert(qv.take(0) =~= Seq::<QuotaView>::empty());
            assert(samples_view(out@) =~= Seq::<SampleView>::empty());
            while i < qs.quotas.len()
                invariant
                    i <= qs.quotas.len(),
                    qv == quotas_view(qs.quotas@),
                    samples_view(out@) == window_samples(provider@, qv.take(i as int)),
                decreases qs.quotas.len() - i,
            {
                let q = &qs.quotas[i];
                proof {
                    assert(qv.take(i + 1).drop_last() =~= qv.take(i as int));
                    assert(qv.take(i + 1).last() == q@);
                }
                match series_of_window(q.window.as_str()) {
                    Some(series) => {
                        let ghost prev = samples_view(out@);
                        out.push(QuotaSample {
                            provider: provider.clone(),
                            series,
                            reset_at: q.reset_at.clone(),
                            used: q.used,
                            limit: q.limit,
                        });
                        assert(samples_view(out@) =~= prev.push(out@[out@.len() - 1]@));
                    },
                    None => {},
                }
                i += 1;
            }
            assert(qv.take(qs.quotas.len() as int) =~= qv);
        },
        _ => {
            assert(samples_view(out@) =~= Seq::<SampleView>::empty());
        },
    }
    out
}

// ---------------------------------------------------------------------------
// The fold
// ---------------------------------------------------------------------------

/// Everything a fetch round produced. The maps are keyed by instance id
/// (e.g. "glm-mon-2"), ids ascending, each once.
pub struct FetchOutcome<B> {
    /// Successful results.
    pub data: Vec<(String, ProviderResult<B>)>,
    /// Failures, as text.
    pub errors: Vec<(String, String)>,
    /// Instance id → provider type name, failures included.
    pub meta: Vec<(String, String)>,
    /// "<provider>: <error>" of the first failure; empty without one.
    pub first_error: String,
    pub quota_samples: Vec<QuotaSample>,
}

/// The mathematical content of a `FetchOutcome`.
#[verifier::ext_equal]
pub struct OutcomeView<B> {
    pub data: Seq<(Seq<char>, ProviderResult<B>)>,
    pub errors: Seq<(Seq<char>, Seq<char>)>,
    pub meta: Seq<(Seq<char>, Seq<char>)>,
    pub first_error: Seq<char>,
    pub samples: Seq<SampleView>,
}

impl<B> FetchOutcome<B> {
    pub open spec fn outcome_view(&self) -> OutcomeView<B> {
        OutcomeView {
            data: key_view(self.data@),
            errors: text_view(self.errors@),
            meta: text_view(self.meta@),
            first_error: self.first_error@,
            samples: samples_view(self.quota_samples@),
        }
    }

    pub open spec fn sorted(&self) -> bool {
        &&& strictly_sorted(string_keys(self.data@))
        &&& strictly_sorted(string_keys(self.errors@))
        &&& strictly_sorted(string_keys(self.meta@))
    }
}

pub open spec fn empty_outcome<B>() -> OutcomeView<B> {
    OutcomeView {
        data: Seq::empty(),
        errors: Seq::empty(),
        meta: Seq::empty(),
        first_error: Seq::empty(),
        samples: Seq::empty(),
    }
}

/// One instance's result folded in: its provider type is recorded either
/// way; a success is stored and its quota windows queued; a failure is
/// stored as text and, if it is the round's first, named in `first_error`.
pub open spec fn outcome_step<B>(
    o: OutcomeView<B>,
    id: Seq<char>,
    provider: Seq<char>,
    r: Result<ProviderResult<B>, ErrorView>,
) -> OutcomeView<B> {
    let meta = upsert(o.meta, id, replace_with(provider));
    match r {
        Ok(d) => OutcomeView {
            data: upsert(o.data, id, replace_with(d)),
            meta,
            samples: o.samples + result_samples(provider, d),
            ..o
        },
        Err(e) => OutcomeView {
            errors: upsert(o.errors, id, replace_with(error_text(e))),
            meta,
            first_error: if o.first_error.len() == 0 {
                provider + ": "@ + error_text(e)
            } else {
                o.first_error
            },
            ..o
        },
    }
}

pub open spec fn result_view<B>(r: Result<ProviderResult<B>, ProviderError>) -> Result<ProviderResult<B>, ErrorView> {
    match r {
        Ok(d) => Ok(d),
        Err(e) => Err(e@),
    }
}

/// The results of a round, `(id, provider, result)` in fetch order, folded.
pub open spec fn fold_spec<B>(rs: Seq<(String, String, Result<ProviderResult<B>, ProviderError>)>) -> OutcomeView<B>
    decreases rs.len(),
{
    if rs.len() == 0 {
        empty_outcome()
    } else {
        let t = rs.last();
        outcome_step(fold_spec(rs.drop_last()), t.0@, t.1@, result_view(t.2))
    }
}

/// Folds a round's results, `(id, provider, result)` in fetch order.
pub fn fold_outcome<B>(results: Vec<(String, String, Result<ProviderResult<B>, ProviderError>)>) -> (o: FetchOutcome<B>)
    ensures
        o.outcome_view() == fold_spec(results@),
        o.sorted(),
{
    let ghost all = results@;
    let mut rest = results;
    let mut o: FetchOutcome<B> = FetchOutcome {
        data: Vec::new(),
        errors: Vec::new(),
        meta: Vec::new(),
        first_error: String::new(),
        quota_samples: Vec::new(),
    };
    proof {
        assert(all.take(0) =~= Seq::<(String, String, Result<ProviderResult<B>, ProviderError>)>::empty());
        assert(o.outcome_view() =~= empty_outcome::<B>());
        assert(string_keys(o.data@) =~= Seq::<Seq<char>>::empty());
        assert(string_keys(o.errors@) =~= Seq::<Seq<char>>::empty());
        assert(string_keys(o.meta@) =~= Seq::<Seq<char>>::empty());
    }
    assert(all.len() == rest.len());
    let mut k: usize = 0;
    while rest.len() > 0
        invariant
            all.len() <= usize::MAX,
            k + rest@.len() == all.len(),
            rest@ == all.skip(k as int),
            o.outcome_view() == fold_spec(all.take(k as int)),
            o.sorted(),
        decreases rest.len(),
    {
        let ghost before = o.outcome_view();
        let (id, provider, r) = rest.remove(0);
        proof {
            assert(all.take(k + 1).drop_last() =~= all.take(k as int));
            assert(all.take(k + 1).last() == all[k as int]);
            assert(all[k as int] == (id, provider, r));
        }
        let ghost rv = result_view(r);
        put_text(&mut o.meta, id.clone(), provider.clone());
        match r {
            Ok(d) => {
                let samples = quota_samples(&provider, &d);
                let ghost ps = samples_view(o.quota_samples@);
                let mut samples = samples;
                o.quota_samples.append(&mut samples);
                assert(samples_view(o.quota_samples@) =~= ps + result_samples(provider@, d));
                put(&mut o.data, id, d);
            },
            Err(e) => {
                if o.first_error.as_str().is_empty() {
                    o.first_error = failure_line(provider.as_str(), &e);
                }
                put_text(&mut o.errors, id, e.message());
            },
        }
        k += 1;
        proof {
            assert(rest@ =~= all.skip(k as int));
            assert(o.outcome_view() =~= outcome_step(before, all[k - 1].0@, all[k - 1].1@, rv));
        }
    }
    assert(all.take(k as int) =~= all);
    o
}

// ---------------------------------------------------------------------------
// Sampling into the histories
// ---------------------------------------------------------------------------

/// The content of a provider's history.
#[verifier::ext_equal]
pub struct HistoryView {
    pub session: Seq<PeakView>,
    pub weekly: Seq<PeakView>,
}

pub open spec fn history_view(h: QuotaHistory) -> HistoryView {
    HistoryView { session: series_view(h.session@), weekly: series_view(h.weekly@) }
}

/// One sample recorded into a history: the new history and whether it
/// changed.
pub open spec fn record_sample(h: HistoryView, s: SampleView) -> (HistoryView, bool) {
    match s.series {
        Series::Session => {
            let r = record_series(h.session, s.reset_at, s.used, s.limit, keep_of(Series::Session));
            (HistoryView { session: r.0, ..h }, r.1)
        },
        Series::Weekly => {
            let r = record_series(h.weekly, s.reset_at, s.used, s.limit, keep_of(Series::Weekly));
            (HistoryView { weekly: r.0, ..h }, r.1)
        },
    }
}

/// The samples of provider type `name` recorded in order: the history
/// after them and whether any changed it.
pub open spec fn record_samples(h: HistoryView, ss: Seq<SampleView>, name: Seq<char>) -> (HistoryView, bool)
    decreases ss.len(),
{
    if ss.len() == 0 {
        (h, false)
    } else {
        let prev = record_samples(h, ss.drop_last(), name);
        let s = ss.last();
        if s.provider == name {
            let r = record_sample(prev.0, s);
            (r.0, prev.1 || r.1)
        } else {
            prev
        }
    }
}

/// Folds a round's quota samples into the histories, per provider type:
/// Kimi's into `kimi`, GLM's into `glm`. Returns whether each changed.
pub fn record_quota_samples(samples: &Vec<QuotaSample>, kimi: &mut QuotaHistory, glm: &mut QuotaHistory) -> (dirty: (bool, bool))
    requires
        old(kimi).wf(),
        old(glm).wf(),
    ensures
        final(kimi).wf(),
        final(glm).wf(),
        (history_view(*final(kimi)), dirty.0) == record_samples(history_view(*old(kimi)), samples_view(samples@), "Kimi"@),
        (history_view(*final(glm)), dirty.1) == record_samples(history_view(*old(glm)), samples_view(samples@), "GLM"@),
{
    let ghost sv = samples_view(samples@);
    let ghost k0 = history_view(*kimi);
    let ghost g0 = history_view(*glm);
    let mut kimi_dirty = false;
    let mut glm_dirty = false;
    let mut i: usize = 0;
    assert(sv.take(0) =~= Seq::<SampleView>::empty());
    while i < samples.len()
        invariant
            i <= samples.len(),
            sv == samples_view(samples@),
            kimi.wf(),
            glm.wf(),
            (history_view(*kimi), kimi_dirty) == record_samples(k0, sv.take(i as int), "Kimi"@),
            (history_view(*glm), glm_dirty) == record_samples(g0, sv.take(i as int), "GLM"@),
        decreases samples.len() - i,
    {
        let s = &samples[i];
        proof {
            assert(sv.take(i + 1).drop_last() =~= sv.take(i as int));
            assert(sv.take(i + 1).last() == s@);
            reveal_strlit("Kimi");
            reveal_strlit("GLM");
        }
        let reset = match &s.reset_at {
            Some(r) => Some(r.as_str()),
            None => None,
        };
        let ghost kh = history_view(*kimi);
        let ghost gh = history_view(*glm);
        if same_text(s.provider.as_str(), "Kimi") {
            let changed = kimi.record(s.series, reset, s.used, s.limit);
            kimi_dirty = kimi_dirty || changed;
            assert(history_view(*kimi) =~= record_sample(kh, s@).0);
            assert(history_view(*glm) =~= gh);
            assert("Kimi"@.len() == 4 && "GLM"@.len() == 3);
            assert(s@.provider != "GLM"@);
            assert(record_samples(g0, sv.take(i + 1), "GLM"@) == record_samples(g0, sv.take(i as int), "GLM"@));
        } else if same_text(s.provider.as_str(), "GLM") {
            let changed = glm.record(s.series, reset, s.used, s.limit);
            glm_dirty = glm_dirty || changed;
            assert(history_view(*glm) =~= record_sample(gh, s@).0);
            assert(history_view(*kimi) =~= kh);
            assert(s@.provider != "Kimi"@);
        }
        i += 1;
    }
    assert(sv.take(samples.len() as int) =~= sv);
    (kimi_dirty, glm_dirty)
}

// ---------------------------------------------------------------------------
// When the poller works
// ---------------------------------------------------------------------------

/// A fetch round is due when there are monitors and they changed, no round
/// ran yet, or the last one is at least 5 minutes old (`since_last`:
/// whole seconds since it).
pub fn should_fetch(monitor_count: usize, changed: bool, since_last: Option<u64>) -> (r: bool)
    ensures
        r == (monitor_count > 0 && (changed || match since_last {
            None => true,
            Some(s) => s >= 300,
        })),
{
    monitor_count > 0 && (changed || match since_last {
        None => true,
        Some(s) => s >= 300,
    })
}

/// A local usage scan is due when none ran yet or the last one is at least
/// 5 minutes old.
pub fn should_scan(since_last: Option<u64>) -> (r: bool)
    ensures
        r == match since_last {
            None => true,
            Some(s) => s >= 300,
        },
{
    match since_last {
        None => true,
        Some(s) => s >= 300,
    }
}

pub open spec fn monitors_view(m: Seq<crate::storage::MonitorEntry>) -> Seq<(Seq<char>, Seq<char>, Seq<char>)> {
    m.map_values(|e: crate::storage::MonitorEntry| (e.id@, e.provider@, e.key@))
}

/// Whether two monitor lists hold the same instances in the same order.
pub fn same_monitors(a: &Vec<crate::storage::MonitorEntry>, b: &Vec<crate::storage::MonitorEntry>) -> (r: bool)
    ensures
        r == (monitors_view(a@) == monitors_view(b@)),
{
    if a.len() != b.len() {
        assert(monitors_view(a@).len() != monitors_view(b@).len());
        return false;
    }
    let mut i: usize = 0;
    while i < a.len()
        invariant
            i <= a.len() == b.len(),
            forall|j: int| 0 <= j < i ==> #[trigger] monitors_view(a@)[j] == monitors_view(b@)[j],
        decreases a.len() - i,
    {
        let same = same_text(a[i].id.as_str(), b[i].id.as_str()) && same_text(a[i].provider.as_str(), b[i].provider.as_str())
            && same_text(a[i].key.as_str(), b[i].key.as_str());
        if !same {
            assert(monitors_view(a@)[i as int] != monitors_view(b@)[i as int]);
            return false;
        }
        i += 1;
    }
    assert(monitors_view(a@) =~= monitors_view(b@));
    true
}

proof fn lemma_upsert_keeps<V>(l: Seq<(Seq<char>, V)>, k: Seq<char>, f: spec_fn(Option<V>) -> V, x: Seq<char>)
    requires
        crate::keyed::keys(l).contains(x) || x == k,
    ensures
        crate::keyed::keys(upsert(l, k, f)).contains(x),
    decreases l.len(),
{
    let u = upsert(l, k, f);
    let kl = crate::keyed::keys(l);
    let ku = crate::keyed::keys(u);
    if l.len() == 0 {
        assert(ku[0] == k);
    } else if l[0].0 == k {
        if x == k {
            assert(ku[0] == k);
        } else {
            let w = choose|w: int| 0 <= w < kl.len() && kl[w] == x;
            assert(ku[w] == x);
        }
    } else if crate::text::seq_lt(k, l[0].0) {
        if x == k {
            assert(ku[0] == k);
        } else {
            let w = choose|w: int| 0 <= w < kl.len() && kl[w] == x;
            assert(ku[w + 1] == x);
        }
    } else {
        let rest = l.drop_first();
        if x == l[0].0 {
            assert(ku[0] == x);
        } else {
            if x != k {
                let w = choose|w: int| 0 <= w < kl.len() && kl[w] == x;
                assert(w != 0);
                assert(crate::keyed::keys(rest)[w - 1] == x);
            }
            lemma_upsert_keeps(rest, k, f, x);
            let ur = upsert(rest, k, f);
            let w2 = choose|w: int| 0 <= w < crate::keyed::keys(ur).len() && crate::keyed::keys(ur)[w] == x;
            assert(u == seq![l[0]] + ur);
            assert(ku[w2 + 1] == x);
        }
    }
}

/// Every instance of a round, failed or not, has its provider type
/// recorded, and every stored result or error belongs to a recorded
/// instance.
pub proof fn law_meta_covers_round<B>(rs: Seq<(String, String, Result<ProviderResult<B>, ProviderError>)>)
    ensures
        forall|i: int| 0 <= i < rs.len() ==> crate::keyed::keys(fold_spec(rs).meta).contains(#[trigger] rs[i].0@),
        forall|x: Seq<char>| #[trigger] crate::keyed::keys(fold_spec(rs).data).contains(x) ==> crate::keyed::keys(fold_spec(rs).meta).contains(x),
        forall|x: Seq<char>| #[trigger] crate::keyed::keys(fold_spec(rs).errors).contains(x) ==> crate::keyed::keys(fold_spec(rs).meta).contains(x),
    decreases rs.len(),
{
    if rs.len() > 0 {
        let init = rs.drop_last();
        law_meta_covers_round(init);
        let o = fold_spec(init);
        let t = rs.last();
        let n = fold_spec(rs);
        let r = result_view(t.2);
        assert forall|i: int| 0 <= i < rs.len() implies crate::keyed::keys(n.meta).contains(#[trigger] rs[i].0@) by {
            if i < init.len() {
                assert(init[i] == rs[i]);
                lemma_upsert_keeps(o.meta, t.0@, replace_with(t.1@), rs[i].0@);
            } else {
                lemma_upsert_keeps(o.meta, t.0@, replace_with(t.1@), t.0@);
            }
        }
        assert forall|x: Seq<char>| #[trigger] crate::keyed::keys(n.data).contains(x) implies crate::keyed::keys(n.meta).contains(x) by {
            match r {
                Ok(d) => {
                    if x != t.0@ {
                        assert(crate::keyed::keys(o.data).contains(x)) by {
                            lemma_upsert_only(o.data, t.0@, replace_with(d), x);
                        }
                    }
                },
                Err(e) => {},
            }
            lemma_upsert_keeps(o.meta, t.0@, replace_with(t.1@), x);
        }
        assert forall|x: Seq<char>| #[trigger] crate::keyed::keys(n.errors).contains(x) implies crate::keyed::keys(n.meta).contains(x) by {
            match r {
                Ok(d) => {},
                Err(e) => {
                    if x != t.0@ {
                        assert(crate::keyed::keys(o.errors).contains(x)) by {
                            lemma_upsert_only(o.errors, t.0@, replace_with(error_text(e)), x);
                        }
                    }
                },
            }
            lemma_upsert_keeps(o.meta, t.0@, replace_with(t.1@), x);
        }
    }
}

proof fn lemma_upsert_only<V>(l: Seq<(Seq<char>, V)>, k: Seq<char>, f: spec_fn(Option<V>) -> V, x: Seq<char>)
    requires
        crate::keyed::keys(upsert(l, k, f)).contains(x),
        x != k,
    ensures
        crate::keyed::keys(l).contains(x),
    decreases l.len(),
{
    let u = upsert(l, k, f);
    let kl = crate::keyed::keys(l);
    let ku = crate::keyed::keys(u);
    let w = choose|w: int| 0 <= w < ku.len() && ku[w] == x;
    if l.len() == 0 {
    } else if l[0].0 == k {
        assert(w != 0);
        assert(kl[w] == x);
    } else if crate::text::seq_lt(k, l[0].0) {
        assert(w != 0);
        assert(kl[w - 1] == x);
    } else {
        if w == 0 {
            assert(kl[0] == x);
        } else {
            let rest = l.drop_first();
            let ur = upsert(rest, k, f);
            assert(u == seq![l[0]] + ur);
            assert(crate::keyed::keys(ur)[w - 1] == x);
            lemma_upsert_only(rest, k, f, x);
            let v = choose|v: int| 0 <= v < crate::keyed::keys(rest).len() && crate::keyed::keys(rest)[v] == x;
            assert(kl[v + 1] == x);
        }
    }
}

} // verus!
