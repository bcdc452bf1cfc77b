//! ZCode's local usage: the rows of its `model_usage` table, brought to the
//! Kimi token classes, priced at the GLM list prices, and reported like the
//! Kimi usage with one more dimension, the request source.

use super::kimi_local::{
    cost_spec, priced, tokens_add, tokens_fit, tokens_of, ModelPrice, TokenCount, Tokens,
};
pub use super::report::DailyStat;
use super::report::{
    cost_bound, counts_tokens, cutoff_key, cutoff_string, day_key_at, day_key_of, empty_tally,
    entries_of, entry_of, entry_tokens, last_view, lemma_sum_prefix, lemma_upsert_values,
    plus, secs_from_ms, secs_of_ms, sum_tokens, tally, tally_entries, today_key, today_string,
    token_sums_fit, tok_total, tokens_le, CostReport, DayEntry, Entry, Tally,
};
use super::same_text;
use crate::clock::{local_clock, max_ts, min_ts, opt_seq, LocalClock};
use crate::keyed::{
    find_slot, lemma_insert_sorted, lemma_upsert_slot, string_keys, strictly_sorted, upsert,
};
use crate::text::{lowercase, seq_lt, spec_lowercase};
use vstd::prelude::*;

verus! {

// ---------------------------------------------------------------------------
// ZCode rows
// ---------------------------------------------------------------------------

/// One ZCode request, its counters already in the Kimi token classes.
pub struct ZcodeRecord {
    pub ts_ms: i64,
    pub model: String,
    pub source: String,
    pub tokens: TokenCount,
}

/// A completed `model_usage` row. ZCode's input count includes the cached
/// part, which is split off as `cache_read`; reasoning tokens bill as
/// output; negative counts read as 0; the model is lowercased.
pub fn zcode_record(
    ts_ms: i64,
    model: &str,
    source: Option<String>,
    input_total: i64,
    output: i64,
    cache_read: Option<i64>,
    reasoning: Option<i64>,
) -> (r: ZcodeRecord)
    requires
        i64::MIN <= input_total - (match cache_read { Some(c) => c as int, None => 0 }) <= i64::MAX,
        i64::MIN <= output + (match reasoning { Some(c) => c as int, None => 0 }) <= i64::MAX,
    ensures
        ({
            let c: int = match cache_read { Some(c) => c as int, None => 0 };
            let z: int = match reasoning { Some(c) => c as int, None => 0 };
            &&& r.ts_ms == ts_ms
            &&& r.model@ == spec_lowercase(model@)
            &&& r.source@ == match source { Some(s) => s@, None => Seq::<char>::empty() }
            &&& r.tokens.input as int == if input_total - c > 0 { input_total - c } else { 0 }
            &&& r.tokens.output as int == if output + z > 0 { output + z } else { 0 }
            &&& r.tokens.cache_read as int == if c > 0 { c } else { 0 }
            &&& r.tokens.cache_write == 0
        }),
{
    let c: i64 = match cache_read {
        Some(v) => v,
        None => 0,
    };
    let z: i64 = match reasoning {
        Some(v) => v,
        None => 0,
    };
    let non_cache: i64 = input_total - c;
    let out: i64 = output + z;
    ZcodeRecord {
        ts_ms,
        model: lowercase(model),
        source: match source {
            Some(s) => s,
            None => String::new(),
        },
        tokens: TokenCount {
            input: if non_cache > 0 { non_cache as u64 } else { 0 },
            output: if out > 0 { out as u64 } else { 0 },
            cache_read: if c > 0 { c as u64 } else { 0 },
            cache_write: 0,
        },
    }
}

// ---------------------------------------------------------------------------
// Prices and cost
// ---------------------------------------------------------------------------

/// GLM prices (¥ per 1M tokens ×10): glm-5.2 and glm-5.1 8/28/1.5, glm-5
/// 7.2/23/1.4, glm-5-turbo 8.6/28.8/1.7, glm-4.5/4.6/4.7 4.3/15.8/0.8.
pub open spec fn glm_price_spec(model: Seq<char>) -> Option<ModelPrice> {
    if model == "glm-5.2"@ || model == "glm-5.1"@ {
        Some(ModelPrice { input: 80, output: 280, cache_read: 15 })
    } else if model == "glm-5"@ {
        Some(ModelPrice { input: 72, output: 230, cache_read: 14 })
    } else if model == "glm-5-turbo"@ {
        Some(ModelPrice { input: 86, output: 288, cache_read: 17 })
    } else if model == "glm-4.6"@ || model == "glm-4.7"@ || model == "glm-4.5"@ {
        Some(ModelPrice { input: 43, output: 158, cache_read: 8 })
    } else {
        None
    }
}

/// GLM list price of a model.
pub fn glm_price_for(model: &str) -> (p: Option<ModelPrice>)
    ensures
        p == glm_price_spec(model@),
{
    if same_text(model, "glm-5.2") || same_text(model, "glm-5.1") {
        Some(ModelPrice { input: 80, output: 280, cache_read: 15 })
    } else if same_text(model, "glm-5") {
        Some(ModelPrice { input: 72, output: 230, cache_read: 14 })
    } else if same_text(model, "glm-5-turbo") {
        Some(ModelPrice { input: 86, output: 288, cache_read: 17 })
    } else if same_text(model, "glm-4.6") || same_text(model, "glm-4.7") || same_text(model, "glm-4.5") {
        Some(ModelPrice { input: 43, output: 158, cache_read: 8 })
    } else {
        None
    }
}

/// GLM cost of one request, in 10⁻⁷ yuan; none for an unpriced model.
pub fn glm_cost_of(model: &str, t: &TokenCount) -> (c: Option<u128>)
    ensures
        match glm_price_spec(model@) {
            Some(p) => c matches Some(v) && v as nat == cost_spec(p, *t),
            None => c is None,
        },
{
    match glm_price_for(model) {
        Some(p) => Some(priced(p, t)),
        None => None,
    }
}

// ---------------------------------------------------------------------------
// Days and entries
// ---------------------------------------------------------------------------

/// The local day of a row's millisecond time; a time outside the calendar
/// counts as now.
pub open spec fn zcode_day(ts_ms: int, c: LocalClock) -> Option<Seq<char>> {
    let s = secs_of_ms(ts_ms);
    day_key_at(if min_ts() <= s <= max_ts() { s } else { c.now as int }, c.offset as int)
}

/// The local day (`YYYY-MM-DD`) of a row's millisecond time.
pub fn local_day(ts_ms: i64, clock: LocalClock) -> (r: Option<String>)
    requires
        clock.wf(),
    ensures
        opt_seq(r) == zcode_day(ts_ms as int, clock),
{
    let s = secs_from_ms(ts_ms);
    let lo: i64 = -377705116800;
    let hi: i64 = 253402300799;
    let ts: i64 = if lo <= s && s <= hi {
        s
    } else {
        clock.now
    };
    day_key_of(ts, clock.offset)
}

/// GLM cost of a request; 0 for an unpriced model.
pub open spec fn glm_cost(model: Seq<char>, t: TokenCount) -> nat {
    match glm_price_spec(model) {
        Some(p) => cost_spec(p, t),
        None => 0,
    }
}

pub open spec fn zcode_entry(r: ZcodeRecord, c: LocalClock) -> Entry {
    Entry { day: zcode_day(r.ts_ms as int, c)->0, cost: glm_cost(r.model@, r.tokens), tokens: tokens_of(r.tokens) }
}

pub open spec fn zcode_entries(rs: Seq<ZcodeRecord>, c: LocalClock) -> Seq<Entry> {
    rs.map_values(|r: ZcodeRecord| zcode_entry(r, c))
}

pub open spec fn zrecord_counts(rs: Seq<ZcodeRecord>) -> Seq<TokenCount> {
    rs.map_values(|r: ZcodeRecord| r.tokens)
}

/// Time, model and tokens of the last row.
pub open spec fn last_zrecord(rs: Seq<ZcodeRecord>) -> Option<(i64, Seq<char>, TokenCount)> {
    if rs.len() == 0 {
        None
    } else {
        Some((rs.last().ts_ms, rs.last().model@, rs.last().tokens))
    }
}

// ---------------------------------------------------------------------------
// Request sources
// ---------------------------------------------------------------------------

/// What one request source adds up to.
pub struct SourceBucket {
    pub requests: nat,
    pub cost: nat,
    pub tokens: Tokens,
}

pub open spec fn source_bump(o: Option<SourceBucket>, cost: nat, t: Tokens) -> SourceBucket {
    match o {
        Some(b) => SourceBucket { requests: b.requests + 1, cost: b.cost + cost, tokens: tokens_add(b.tokens, t) },
        None => SourceBucket { requests: 1, cost, tokens: t },
    }
}

pub open spec fn source_bumper(cost: nat, t: Tokens) -> spec_fn(Option<SourceBucket>) -> SourceBucket {
    |o: Option<SourceBucket>| source_bump(o, cost, t)
}

/// The rows tallied by source, sources ascending.
pub open spec fn source_tally(rs: Seq<ZcodeRecord>) -> Seq<(Seq<char>, SourceBucket)>
    decreases rs.len(),
{
    if rs.len() == 0 {
        Seq::empty()
    } else {
        let r = rs.last();
        upsert(
            source_tally(rs.drop_last()),
            r.source@,
            source_bumper(glm_cost(r.model@, r.tokens), tokens_of(r.tokens)),
        )
    }
}

/// `a` goes before `b` when ordering by requests, most first.
pub open spec fn more_requests(a: (Seq<char>, SourceBucket), b: (Seq<char>, SourceBucket)) -> bool {
    a.1.requests > b.1.requests
}

/// Stable insertion of `x`: after every element with at least as many
/// requests.
pub open spec fn insert_by_requests(s: Seq<(Seq<char>, SourceBucket)>, x: (Seq<char>, SourceBucket)) -> Seq<
    (Seq<char>, SourceBucket),
>
    decreases s.len(),
{
    if s.len() == 0 || !more_requests(x, s.last()) {
        s.push(x)
    } else {
        insert_by_requests(s.drop_last(), x).push(s.last())
    }
}

/// The stable sort by requests, most first (`sort_by(|a, b|
/// b.requests.cmp(&a.requests))`).
pub open spec fn sort_by_requests(s: Seq<(Seq<char>, SourceBucket)>) -> Seq<(Seq<char>, SourceBucket)>
    decreases s.len(),
{
    if s.len() == 0 {
        s
    } else {
        insert_by_requests(sort_by_requests(s.drop_last()), s.last())
    }
}

pub open spec fn requests_sorted(s: Seq<(Seq<char>, SourceBucket)>) -> bool {
    forall|i: int, j: int| 0 <= i < j < s.len() ==> (#[trigger] s[i]).1.requests >= (#[trigger] s[j]).1.requests
}

proof fn lemma_insert_requests_at(s: Seq<(Seq<char>, SourceBucket)>, x: (Seq<char>, SourceBucket), p: int)
    requires
        0 <= p <= s.len(),
        forall|k: int| p <= k < s.len() ==> more_requests(x, #[trigger] s[k]),
        p == 0 || !more_requests(x, s[p - 1]),
    ensures
        insert_by_requests(s, x) == s.take(p).push(x) + s.skip(p),
    decreases s.len(),
{
    if p == s.len() {
        assert(s.take(p) == s);
        assert(s.take(p).push(x) + s.skip(p) =~= s.push(x));
    } else {
        assert(more_requests(x, s[s.len() - 1]));
        let t = s.drop_last();
        assert forall|k: int| p <= k < t.len() implies more_requests(x, #[trigger] t[k]) by {
            assert(t[k] == s[k]);
        }
        if p > 0 {
            assert(t[p - 1] == s[p - 1]);
        }
        lemma_insert_requests_at(t, x, p);
        assert(t.take(p) == s.take(p));
        assert(t.skip(p).push(s.last()) =~= s.skip(p));
        assert((t.take(p).push(x) + t.skip(p)).push(s.last()) =~= s.take(p).push(x) + s.skip(p));
    }
}

proof fn lemma_insert_requests_multiset(s: Seq<(Seq<char>, SourceBucket)>, x: (Seq<char>, SourceBucket))
    ensures
        insert_by_requests(s, x).to_multiset() == s.to_multiset().insert(x),
        insert_by_requests(s, x).len() == s.len() + 1,
    decreases s.len(),
{
    broadcast use vstd::seq_lib::to_multiset_build;
    broadcast use vstd::multiset::group_multiset_axioms;

    if s.len() > 0 && more_requests(x, s.last()) {
        lemma_insert_requests_multiset(s.drop_last(), x);
        assert(s.drop_last().push(s.last()) == s);
        assert(s.to_multiset() =~= s.drop_last().to_multiset().insert(s.last()));
        assert(insert_by_requests(s, x).to_multiset() =~= s.to_multiset().insert(x));
    }
}

proof fn lemma_insert_requests_sorted(s: Seq<(Seq<char>, SourceBucket)>, x: (Seq<char>, SourceBucket))
    requires
        requests_sorted(s),
    ensures
        requests_sorted(insert_by_requests(s, x)),
    decreases s.len(),
{
    let r = insert_by_requests(s, x);
    if s.len() == 0 || !more_requests(x, s.last()) {
        assert forall|i: int, j: int| 0 <= i < j < r.len() implies (#[trigger] r[i]).1.requests >= (
        #[trigger] r[j]).1.requests by {
            if j == s.len() && i < s.len() - 1 {
                assert(s[i].1.requests >= s[s.len() - 1].1.requests);
            }
        }
    } else {
        let t = s.drop_last();
        assert forall|i: int, j: int| 0 <= i < j < t.len() implies (#[trigger] t[i]).1.requests >= (
        #[trigger] t[j]).1.requests by {
            assert(t[i] == s[i] && t[j] == s[j]);
        }
        lemma_insert_requests_sorted(t, x);
        let ti = insert_by_requests(t, x);
        lemma_insert_requests_multiset(t, x);
        assert forall|i: int, j: int| 0 <= i < j < r.len() implies (#[trigger] r[i]).1.requests >= (
        #[trigger] r[j]).1.requests by {
            if j == r.len() - 1 {
                assert(r[i] == ti[i]);
                assert(ti.to_multiset().count(ti[i]) > 0) by {
                    broadcast use vstd::seq_lib::group_to_multiset_ensures;
                    assert(ti.contains(ti[i]));
                }
                assert(t.to_multiset().insert(x).count(ti[i]) > 0);
                if ti[i] != x {
                    assert(t.to_multiset().count(ti[i]) > 0);
                    assert(t.contains(ti[i])) by {
                        broadcast use vstd::seq_lib::group_to_multiset_ensures;
                    }
                    let k = choose|k: int| 0 <= k < t.len() && t[k] == ti[i];
                    assert(s[k] == t[k]);
                    assert(s[k].1.requests >= s[s.len() - 1].1.requests);
                }
            } else {
                assert(r[i] == ti[i] && r[j] == ti[j]);
            }
        }
    }
}

/// The sources, ordered by requests (most first), are a reordering of the
/// tally.
pub proof fn law_sources_by_requests(s: Seq<(Seq<char>, SourceBucket)>)
    ensures
        requests_sorted(sort_by_requests(s)),
        sort_by_requests(s).to_multiset() == s.to_multiset(),
        sort_by_requests(s).len() == s.len(),
    decreases s.len(),
{
    broadcast use vstd::seq_lib::to_multiset_build;

    if s.len() > 0 {
        law_sources_by_requests(s.drop_last());
        lemma_insert_requests_sorted(sort_by_requests(s.drop_last()), s.last());
        lemma_insert_requests_multiset(sort_by_requests(s.drop_last()), s.last());
        assert(s.drop_last().push(s.last()) == s);
    }
}

/// The bounds of the source tally: at most one request per row, and the
/// tokens and costs of the rows.
proof fn lemma_sources_bounded(rs: Seq<ZcodeRecord>)
    requires
        forall|i: int| 0 <= i < rs.len() ==> glm_cost(#[trigger] rs[i].model@, rs[i].tokens) <= 1000 * tok_total(
            tokens_of(rs[i].tokens),
        ),
    ensures
        forall|j: int|
            0 <= j < source_tally(rs).len() ==> {
                let b = (#[trigger] source_tally(rs)[j]).1;
                &&& b.requests <= rs.len()
                &&& tokens_le(b.tokens, sum_tokens(counts_tokens(zrecord_counts(rs))))
                &&& b.cost <= 1000 * tok_total(b.tokens)
            },
    decreases rs.len(),
{
    if rs.len() > 0 {
        let init = rs.drop_last();
        assert forall|i: int| 0 <= i < init.len() implies glm_cost(#[trigger] init[i].model@, init[i].tokens)
            <= 1000 * tok_total(tokens_of(init[i].tokens)) by {
            assert(init[i] == rs[i]);
        }
        lemma_sources_bounded(init);
        let r = rs.last();
        assert(glm_cost(rs[rs.len() - 1].model@, rs[rs.len() - 1].tokens) <= 1000 * tok_total(
            tokens_of(rs[rs.len() - 1].tokens),
        ));
        let s0 = sum_tokens(counts_tokens(zrecord_counts(init)));
        let s1 = sum_tokens(counts_tokens(zrecord_counts(rs)));
        assert(counts_tokens(zrecord_counts(init)) =~= counts_tokens(zrecord_counts(rs)).drop_last());
        assert(s1 == tokens_add(s0, tokens_of(r.tokens)));
        let l = source_tally(init);
        let f = source_bumper(glm_cost(r.model@, r.tokens), tokens_of(r.tokens));
        let q = |b: SourceBucket|
            b.requests <= rs.len() && tokens_le(b.tokens, s1) && b.cost <= 1000 * tok_total(b.tokens);
        assert forall|j: int| 0 <= j < l.len() implies q(#[trigger] l[j].1) && q(f(Some(l[j].1))) by {
            let b = l[j].1;
            assert(f(Some(b)) == source_bump(Some(b), glm_cost(r.model@, r.tokens), tokens_of(r.tokens)));
        }
        assert(q(f(None)));
        lemma_upsert_values(l, r.source@, f, q);
    }
}

// ---------------------------------------------------------------------------
// The report
// ---------------------------------------------------------------------------

/// One request source of the report.
pub struct DimensionStat {
    pub name: String,
    pub requests: u64,
    pub tokens: TokenCount,
    pub cost: u128,
}

/// The ZCode cost report: the Kimi report's figures, and the split by
/// request source (main_turn / subagent / session_title / compact).
pub struct ZcodeCostReport {
    pub today_cost: u128,
    pub month_cost: u128,
    pub today_tokens: TokenCount,
    pub month_tokens: TokenCount,
    pub today_requests: u64,
    pub last_request: Option<(i64, String, TokenCount)>,
    /// (day, stats) ascending, the trailing 30 days.
    pub daily: Vec<(String, DailyStat)>,
    /// Request sources, most requests first.
    pub by_source: Vec<DimensionStat>,
}

pub open spec fn source_of(d: DimensionStat) -> (Seq<char>, SourceBucket) {
    (d.name@, SourceBucket { requests: d.requests as nat, cost: d.cost as nat, tokens: tokens_of(d.tokens) })
}

pub open spec fn sources_view(v: Seq<DimensionStat>) -> Seq<(Seq<char>, SourceBucket)> {
    v.map_values(|d: DimensionStat| source_of(d))
}

impl ZcodeCostReport {
    pub open spec fn tally_view(&self) -> Tally {
        Tally {
            today_cost: self.today_cost as nat,
            month_cost: self.month_cost as nat,
            today_tokens: tokens_of(self.today_tokens),
            month_tokens: tokens_of(self.month_tokens),
            today_requests: self.today_requests as nat,
            daily: super::report::daily_view(self.daily@),
        }
    }
}

/// What the report needs of the clock and the rows.
pub open spec fn zcode_ready(rs: Seq<ZcodeRecord>, c: LocalClock) -> bool {
    &&& c.wf()
    &&& today_key(c) is Some
    &&& cutoff_key(c) is Some
    &&& forall|i: int| 0 <= i < rs.len() ==> (#[trigger] zcode_day(rs[i].ts_ms as int, c)) is Some
    &&& tokens_fit(sum_tokens(counts_tokens(zrecord_counts(rs))))
}

/// The ZCode report at clock `c`, in the abstract.
pub open spec fn zcode_tally(rs: Seq<ZcodeRecord>, c: LocalClock) -> Tally {
    tally(zcode_entries(rs, c), today_key(c)->0, cutoff_key(c)->0)
}

#[derive(Clone, Copy)]
struct SourceStat {
    requests: u64,
    cost: u128,
    tokens: TokenCount,
}

spec fn stat_view(l: Seq<(String, SourceStat)>) -> Seq<(Seq<char>, SourceBucket)> {
    l.map_values(
        |e: (String, SourceStat)|
            (e.0@, SourceBucket { requests: e.1.requests as nat, cost: e.1.cost as nat, tokens: tokens_of(e.1.tokens) }),
    )
}

proof fn lemma_glm_cost_bounded(rs: Seq<ZcodeRecord>)
    ensures
        forall|i: int| 0 <= i < rs.len() ==> glm_cost(#[trigger] rs[i].model@, rs[i].tokens) <= 1000 * tok_total(
            tokens_of(rs[i].tokens),
        ),
{
    assert forall|i: int| 0 <= i < rs.len() implies glm_cost(#[trigger] rs[i].model@, rs[i].tokens) <= 1000
        * tok_total(tokens_of(rs[i].tokens)) by {
        match glm_price_spec(rs[i].model@) {
            Some(p) => cost_bound(p, rs[i].tokens),
            None => {},
        }
    }
}

/// The rows tallied by source, sources ascending.
fn tally_sources(records: &[ZcodeRecord]) -> (l: Vec<(String, SourceStat)>)
    requires
        tokens_fit(sum_tokens(counts_tokens(zrecord_counts(records@)))),
    ensures
        stat_view(l@) == source_tally(records@),
{
    let ghost rs = records@;
    let mut l: Vec<(String, SourceStat)> = Vec::new();
    let mut i: usize = 0;
    assert(rs.take(0) =~= Seq::<ZcodeRecord>::empty());
    assert(stat_view(l@) =~= Seq::<(Seq<char>, SourceBucket)>::empty());
    assert(string_keys(l@) =~= Seq::<Seq<char>>::empty());
    while i < records.len()
        invariant
            i <= records.len(),
            rs == records@,
            tokens_fit(sum_tokens(counts_tokens(zrecord_counts(rs)))),
            stat_view(l@) == source_tally(rs.take(i as int)),
            strictly_sorted(string_keys(l@)),
        decreases records.len() - i,
    {
        let rec = &records[i];
        let ghost pre = rs.take(i + 1);
        let ghost old_l = l@;
        proof {
            assert(pre.drop_last() =~= rs.take(i as int));
            assert(pre.last() == rs[i as int]);
            lemma_glm_cost_bounded(pre);
            lemma_sources_bounded(pre);
            assert(counts_tokens(zrecord_counts(pre)) =~= counts_tokens(zrecord_counts(rs)).take(i + 1));
            lemma_sum_prefix(counts_tokens(zrecord_counts(rs)), i + 1);
        }
        let cost: u128 = match glm_cost_of(rec.model.as_str(), &rec.tokens) {
            Some(c) => c,
            None => 0,
        };
        let ghost f = source_bumper(cost as nat, tokens_of(rec.tokens));
        assert(cost as nat == glm_cost(rec.model@, rec.tokens));
        let (slot, found) = find_slot(&l, &rec.source);
        proof {
            assert forall|j: int| 0 <= j < slot implies seq_lt(#[trigger] stat_view(old_l)[j].0, rec.source@) by {
                assert(stat_view(old_l)[j].0 == old_l[j].0@);
            }
            lemma_upsert_slot(stat_view(old_l), rec.source@, f, slot as int, found);
        }
        let ghost next = source_tally(pre);
        if found {
            let cur = l[slot].1;
            proof {
                assert(next[slot as int].1 == source_bump(Some(stat_view(old_l)[slot as int].1), cost as nat, tokens_of(rec.tokens)));
            }
            let stat = SourceStat {
                requests: cur.requests + 1,
                cost: cur.cost + cost,
                tokens: plus(cur.tokens, rec.tokens),
            };
            l.set(slot, (rec.source.clone(), stat));
            proof {
                assert(string_keys(l@) =~= string_keys(old_l));
                assert(stat_view(l@) =~= stat_view(old_l).update(
                    slot as int,
                    (rec.source@, f(Some(stat_view(old_l)[slot as int].1))),
                ));
            }
        } else {
            l.insert(slot, (rec.source.clone(), SourceStat { requests: 1, cost, tokens: rec.tokens }));
            proof {
                assert forall|j: int| 0 <= j < slot implies seq_lt(#[trigger] string_keys(old_l)[j], rec.source@) by {
                    assert(string_keys(old_l)[j] == old_l[j].0@);
                }
                lemma_insert_sorted(string_keys(old_l), slot as int, rec.source@);
                assert(string_keys(l@) =~= string_keys(old_l).insert(slot as int, rec.source@));
                assert(stat_view(l@) =~= stat_view(old_l).insert(slot as int, (rec.source@, f(None))));
            }
        }
        i += 1;
    }
    assert(rs.take(records.len() as int) =~= rs);
    l
}

/// Orders the sources by requests, most first, keeping the source order
/// among equals.
fn order_sources(l: &Vec<(String, SourceStat)>) -> (out: Vec<DimensionStat>)
    ensures
        sources_view(out@) == sort_by_requests(stat_view(l@)),
{
    let ghost sv = stat_view(l@);
    let mut out: Vec<DimensionStat> = Vec::new();
    let mut i: usize = 0;
    assert(sv.take(0) =~= Seq::<(Seq<char>, SourceBucket)>::empty());
    assert(sources_view(out@) =~= Seq::<(Seq<char>, SourceBucket)>::empty());
    while i < l.len()
        invariant
            i <= l.len(),
            sv == stat_view(l@),
            sources_view(out@) == sort_by_requests(sv.take(i as int)),
        decreases l.len() - i,
    {
        let st = l[i].1;
        let x = DimensionStat { name: l[i].0.clone(), requests: st.requests, tokens: st.tokens, cost: st.cost };
        assert(source_of(x) == sv[i as int]);
        let ghost cur = sources_view(out@);
        let mut p: usize = out.len();
        while p > 0 && x.requests > out[p - 1].requests
            invariant
                p <= out.len(),
                cur == sources_view(out@),
                forall|k: int| p <= k < out.len() ==> more_requests(source_of(x), #[trigger] cur[k]),
            decreases p,
        {
            assert(cur[p - 1] == source_of(out@[p - 1]));
            p -= 1;
        }
        proof {
            if p > 0 {
                assert(cur[p - 1] == source_of(out@[p - 1]));
            }
            lemma_insert_requests_at(cur, source_of(x), p as int);
            assert(sv.take(i + 1).drop_last() =~= sv.take(i as int));
            assert(sv.take(i + 1).last() == source_of(x));
        }
        out.insert(p, x);
        proof {
            assert(sources_view(out@) =~= cur.take(p as int).push(source_of(x)) + cur.skip(p as int));
        }
        i += 1;
    }
    assert(sv.take(l.len() as int) =~= sv);
    out
}

/// The ZCode cost report of `records` with the clock reading `clock`.
pub fn report_at(records: &[ZcodeRecord], clock: LocalClock) -> (r: ZcodeCostReport)
    requires
        zcode_ready(records@, clock),
    ensures
        r.tally_view() == zcode_tally(records@, clock),
        last_view(r.last_request) == last_zrecord(records@),
        sources_view(r.by_source@) == sort_by_requests(source_tally(records@)),
{
    let today = today_string(clock).unwrap();
    let cutoff = cutoff_string(clock).unwrap();
    let ghost ks = zcode_entries(records@, clock);
    let mut es: Vec<DayEntry> = Vec::new();
    let mut i: usize = 0;
    while i < records.len()
        invariant
            i <= records.len(),
            zcode_ready(records@, clock),
            ks == zcode_entries(records@, clock),
            entries_of(es@) == ks.take(i as int),
            es@.len() == i,
        decreases records.len() - i,
    {
        let rec = &records[i];
        assert(zcode_day(records@[i as int].ts_ms as int, clock) is Some);
        let day = local_day(rec.ts_ms, clock).unwrap();
        let cost: u128 = match glm_cost_of(rec.model.as_str(), &rec.tokens) {
            Some(c) => c,
            None => 0,
        };
        let ghost before = es@;
        es.push(DayEntry { day, cost, tokens: rec.tokens });
        proof {
            assert(entry_of(es@[i as int]) == ks[i as int]);
            assert(forall|k: int| 0 <= k < i ==> es@[k] == before[k]);
        }
        i += 1;
        assert(entries_of(es@) =~= ks.take(i as int));
    }
    proof {
        assert(ks.take(records.len() as int) =~= ks);
        assert(entry_tokens(ks) =~= counts_tokens(zrecord_counts(records@)));
        lemma_glm_cost_bounded(records@);
        assert forall|k: int| 0 <= k < ks.len() implies #[trigger] ks[k].cost <= 1000 * tok_total(ks[k].tokens) by {
            assert(glm_cost(records@[k].model@, records@[k].tokens) <= 1000 * tok_total(tokens_of(records@[k].tokens)));
        }
    }
    let base = tally_entries(&es, &today, &cutoff);
    let sources = tally_sources(records);
    let by_source = order_sources(&sources);
    let last_request = if records.len() > 0 {
        let last = &records[records.len() - 1];
        Some((last.ts_ms, last.model.clone(), last.tokens))
    } else {
        None
    };
    ZcodeCostReport {
        today_cost: base.today_cost,
        month_cost: base.month_cost,
        today_tokens: base.today_tokens,
        month_tokens: base.month_tokens,
        today_requests: base.today_requests,
        last_request,
        daily: base.daily,
        by_source,
    }
}

/// Whether the report can be made at `clock`.
fn ready(records: &[ZcodeRecord], clock: LocalClock) -> (b: bool)
    requires
        clock.wf(),
    ensures
        b == zcode_ready(records@, clock),
{
    if today_string(clock).is_none() || cutoff_string(clock).is_none() {
        return false;
    }
    let mut counts: Vec<TokenCount> = Vec::new();
    let mut i: usize = 0;
    while i < records.len()
        invariant
            i <= records.len(),
            clock.wf(),
            counts@ == zrecord_counts(records@).take(i as int),
            forall|k: int| 0 <= k < i ==> (#[trigger] zcode_day(records@[k].ts_ms as int, clock)) is Some,
        decreases records.len() - i,
    {
        if local_day(records[i].ts_ms, clock).is_none() {
            return false;
        }
        counts.push(records[i].tokens);
        i += 1;
        assert(counts@ =~= zrecord_counts(records@).take(i as int));
    }
    assert(zrecord_counts(records@).take(records.len() as int) =~= zrecord_counts(records@));
    token_sums_fit(&counts)
}

/// A report with nothing in it.
pub fn empty_report() -> (r: ZcodeCostReport)
    ensures
        r.tally_view() == empty_tally(),
        r.last_request is None,
        r.by_source@.len() == 0,
{
    let base = CostReport::empty();
    ZcodeCostReport {
        today_cost: base.today_cost,
        month_cost: base.month_cost,
        today_tokens: base.today_tokens,
        month_tokens: base.month_tokens,
        today_requests: base.today_requests,
        last_request: None,
        daily: base.daily,
        by_source: Vec::new(),
    }
}

/// The ZCode cost report of `records` (the completed rows of its usage
/// table) now: empty without rows, and empty too when the clock, a row's
/// day or the token sums leave what the calendar and the counters hold.
pub fn build_report(records: &[ZcodeRecord]) -> (r: ZcodeCostReport)
    ensures
        records@.len() == 0 ==> r.tally_view() == empty_tally() && r.last_request is None && r.by_source@.len() == 0,
        records@.len() > 0 ==> exists|c: LocalClock| #[trigger] c.wf() && if zcode_ready(records@, c) {
            &&& r.tally_view() == zcode_tally(records@, c)
            &&& last_view(r.last_request) == last_zrecord(records@)
            &&& sources_view(r.by_source@) == sort_by_requests(source_tally(records@))
        } else {
            r.tally_view() == empty_tally() && r.last_request is None && r.by_source@.len() == 0
        },
{
    if records.len() == 0 {
        return empty_report();
    }
    let clock = local_clock();
    if ready(records, clock) {
        report_at(records, clock)
    } else {
        empty_report()
    }
}

/// The GLM list prices, in yuan per million tokens: glm-5.2 and glm-5.1
/// 8 in / 28 out / 1.5 cached, glm-5 7.2 / 23 / 1.4, glm-5-turbo
/// 8.6 / 28.8 / 1.7, and glm-4.5, glm-4.6 and glm-4.7 4.3 / 15.8 / 0.8. A
/// request costs its input and cache-write tokens at the input rate, its
/// output and cached reads at theirs (in 10⁻⁷ yuan); any other model has
/// no price and costs nothing.
pub proof fn law_glm_price_list(t: TokenCount, other: Seq<char>)
    requires
        other != "glm-5.2"@,
        other != "glm-5.1"@,
        other != "glm-5"@,
        other != "glm-5-turbo"@,
        other != "glm-4.6"@,
        other != "glm-4.7"@,
        other != "glm-4.5"@,
    ensures
        glm_price_spec("glm-5.2"@) == Some(ModelPrice { input: 80, output: 280, cache_read: 15 }),
        glm_price_spec("glm-5.1"@) == Some(ModelPrice { input: 80, output: 280, cache_read: 15 }),
        glm_price_spec("glm-5"@) == Some(ModelPrice { input: 72, output: 230, cache_read: 14 }),
        glm_price_spec("glm-5-turbo"@) == Some(ModelPrice { input: 86, output: 288, cache_read: 17 }),
        glm_price_spec("glm-4.5"@) == Some(ModelPrice { input: 43, output: 158, cache_read: 8 }),
        glm_price_spec("glm-4.6"@) == Some(ModelPrice { input: 43, output: 158, cache_read: 8 }),
        glm_price_spec("glm-4.7"@) == Some(ModelPrice { input: 43, output: 158, cache_read: 8 }),
        glm_price_spec(other) is None,
        glm_cost("glm-4.5"@, t) == (t.input + t.cache_write) * 43 + t.output * 158 + t.cache_read * 8,
        glm_cost("glm-4.6"@, t) == glm_cost("glm-4.5"@, t),
        glm_cost("glm-4.7"@, t) == glm_cost("glm-4.5"@, t),
        glm_cost("glm-5.1"@, t) == glm_cost("glm-5.2"@, t),
        glm_cost("glm-5.2"@, t) == (t.input + t.cache_write) * 80 + t.output * 280 + t.cache_read * 15,
        glm_cost("glm-5"@, t) == (t.input + t.cache_write) * 72 + t.output * 230 + t.cache_read * 14,
        glm_cost("glm-5-turbo"@, t) == (t.input + t.cache_write) * 86 + t.output * 288 + t.cache_read * 17,
        glm_cost(other, t) == 0,
{
    reveal_strlit("glm-5.2");
    reveal_strlit("glm-5.1");
    reveal_strlit("glm-5");
    reveal_strlit("glm-5-turbo");
    reveal_strlit("glm-4.6");
    reveal_strlit("glm-4.7");
    reveal_strlit("glm-4.5");
    assert("glm-5"@.len() == 5 && "glm-5-turbo"@.len() == 11);
    assert("glm-5.2"@.len() == 7 && "glm-5.2"@[4] == '5' && "glm-5.2"@[6] == '2');
    assert("glm-5.1"@.len() == 7 && "glm-5.1"@[4] == '5' && "glm-5.1"@[6] == '1');
    assert("glm-4.6"@.len() == 7 && "glm-4.6"@[4] == '4' && "glm-4.6"@[6] == '6');
    assert("glm-4.7"@.len() == 7 && "glm-4.7"@[4] == '4' && "glm-4.7"@[6] == '7');
    assert("glm-4.5"@.len() == 7 && "glm-4.5"@[4] == '4' && "glm-4.5"@[6] == '5');
    assert("glm-5.2"@ != "glm-5.1"@);
    assert("glm-5.2"@ != "glm-5"@ && "glm-5.1"@ != "glm-5"@);
    assert("glm-5.2"@ != "glm-5-turbo"@ && "glm-5.1"@ != "glm-5-turbo"@ && "glm-5"@ != "glm-5-turbo"@);
    assert("glm-5.2"@ != "glm-4.6"@ && "glm-5.1"@ != "glm-4.6"@ && "glm-5"@ != "glm-4.6"@ && "glm-5-turbo"@ != "glm-4.6"@);
    assert("glm-5.2"@ != "glm-4.7"@ && "glm-5.1"@ != "glm-4.7"@ && "glm-5"@ != "glm-4.7"@ && "glm-5-turbo"@ != "glm-4.7"@);
    assert("glm-5.2"@ != "glm-4.5"@ && "glm-5.1"@ != "glm-4.5"@ && "glm-5"@ != "glm-4.5"@ && "glm-5-turbo"@ != "glm-4.5"@);
    assert("glm-4.6"@ != "glm-4.5"@ && "glm-4.7"@ != "glm-4.5"@ && "glm-4.6"@ != "glm-4.7"@);
}

} // verus!
