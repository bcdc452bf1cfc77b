//! The cost reports of the usage panel: today's and the rolling 30 days'
//! cost and tokens, a per-day series for the chart, the last request, and
//! (for ZCode) the split by request source.
//!
//! Every request is first reduced to an entry (its local day, its cost,
//! its tokens); the report is the tally of the entries in order. Costs are
//! in units of 10⁻⁷ yuan.

use super::kimi_local::{
    cost_spec, tokens_add, tokens_fit, tokens_of, tokens_zero,
    ModelPrice, TokenCount, Tokens,
};
use crate::clock::{
    date_key, date_key_string, date_of_julian, local_time, local_time_spec, opt_seq,
    spec_date_of_julian, LocalClock, MIN_JULIAN,
};
use crate::keyed::{
    find_slot, keys, lemma_insert_sorted, lemma_upsert_slot, lemma_upsert_sorted, string_keys,
    strictly_sorted, upsert,
};
use crate::text::{chars_lt, chars_of, seq_lt};
use vstd::prelude::*;

verus! {

// ---------------------------------------------------------------------------
// The tally, in the abstract
// ---------------------------------------------------------------------------

/// One request reduced to what the report adds up.
pub struct Entry {
    pub day: Seq<char>,
    pub cost: nat,
    pub tokens: Tokens,
}

/// What one day of the chart holds.
pub struct DayBucket {
    pub cost: nat,
    pub tokens: Tokens,
}

pub open spec fn day_bump(o: Option<DayBucket>, cost: nat, t: Tokens) -> DayBucket {
    match o {
        Some(b) => DayBucket { cost: b.cost + cost, tokens: tokens_add(b.tokens, t) },
        None => DayBucket { cost, tokens: t },
    }
}

pub open spec fn day_bumper(cost: nat, t: Tokens) -> spec_fn(Option<DayBucket>) -> DayBucket {
    |o: Option<DayBucket>| day_bump(o, cost, t)
}

/// The report's figures.
#[verifier::ext_equal]
pub struct Tally {
    pub today_cost: nat,
    pub month_cost: nat,
    pub today_tokens: Tokens,
    pub month_tokens: Tokens,
    pub today_requests: nat,
    pub daily: Seq<(Seq<char>, DayBucket)>,
}

pub open spec fn empty_tally() -> Tally {
    Tally {
        today_cost: 0,
        month_cost: 0,
        today_tokens: tokens_zero(),
        month_tokens: tokens_zero(),
        today_requests: 0,
        daily: Seq::empty(),
    }
}

/// A day is in the 30-day window when its key is not below the cutoff's
/// (zero-padded keys compare as the dates do).
pub open spec fn in_window(day: Seq<char>, cutoff: Seq<char>) -> bool {
    !seq_lt(day, cutoff)
}

/// Adds one entry: to the window's totals and its day when the day is in
/// the window, to today's totals when the day is today.
pub open spec fn tally_step(r: Tally, e: Entry, today: Seq<char>, cutoff: Seq<char>) -> Tally {
    let w = in_window(e.day, cutoff);
    let t = e.day == today;
    Tally {
        today_cost: if t { r.today_cost + e.cost } else { r.today_cost },
        month_cost: if w { r.month_cost + e.cost } else { r.month_cost },
        today_tokens: if t { tokens_add(r.today_tokens, e.tokens) } else { r.today_tokens },
        month_tokens: if w { tokens_add(r.month_tokens, e.tokens) } else { r.month_tokens },
        today_requests: if t { r.today_requests + 1 } else { r.today_requests },
        daily: if w { upsert(r.daily, e.day, day_bumper(e.cost, e.tokens)) } else { r.daily },
    }
}

/// The tally of the entries, in order.
pub open spec fn tally(es: Seq<Entry>, today: Seq<char>, cutoff: Seq<char>) -> Tally
    decreases es.len(),
{
    if es.len() == 0 {
        empty_tally()
    } else {
        tally_step(tally(es.drop_last(), today, cutoff), es.last(), today, cutoff)
    }
}

// ---------------------------------------------------------------------------
// Sums and bounds
// ---------------------------------------------------------------------------

pub open spec fn tokens_le(a: Tokens, b: Tokens) -> bool {
    a.input <= b.input && a.output <= b.output && a.cache_read <= b.cache_read && a.cache_write
        <= b.cache_write
}

pub open spec fn tok_total(t: Tokens) -> nat {
    t.input + t.output + t.cache_read + t.cache_write
}

/// Class-wise sum of token counts.
pub open spec fn sum_tokens(ts: Seq<Tokens>) -> Tokens
    decreases ts.len(),
{
    if ts.len() == 0 {
        tokens_zero()
    } else {
        tokens_add(sum_tokens(ts.drop_last()), ts.last())
    }
}

pub open spec fn entry_tokens(es: Seq<Entry>) -> Seq<Tokens> {
    es.map_values(|e: Entry| e.tokens)
}

/// Every entry costs at most 1000 units per token (no list price is above
/// ¥100 per million tokens).
pub open spec fn costs_bounded(es: Seq<Entry>) -> bool {
    forall|i: int| 0 <= i < es.len() ==> #[trigger] es[i].cost <= 1000 * tok_total(es[i].tokens)
}

/// What each figure of a tally is bounded by.
pub open spec fn bounded_by(v: Tally, s: Tokens) -> bool {
    &&& tokens_le(v.today_tokens, s) && v.today_cost <= 1000 * tok_total(v.today_tokens)
    &&& tokens_le(v.month_tokens, s) && v.month_cost <= 1000 * tok_total(v.month_tokens)
    &&& forall|j: int|
        0 <= j < v.daily.len() ==> tokens_le((#[trigger] v.daily[j]).1.tokens, s) && v.daily[j].1.cost
            <= 1000 * tok_total(v.daily[j].1.tokens)
}

pub proof fn lemma_sum_prefix(ts: Seq<Tokens>, i: int)
    requires
        0 <= i <= ts.len(),
    ensures
        tokens_le(sum_tokens(ts.take(i)), sum_tokens(ts)),
    decreases ts.len(),
{
    if i < ts.len() {
        assert(ts.drop_last().take(i) =~= ts.take(i));
        lemma_sum_prefix(ts.drop_last(), i);
    } else {
        assert(ts.take(i) =~= ts);
    }
}

/// The values an `upsert` leaves all satisfy `q` when the old ones, the new
/// one and every updated one do.
pub proof fn lemma_upsert_values<V>(
    l: Seq<(Seq<char>, V)>,
    k: Seq<char>,
    f: spec_fn(Option<V>) -> V,
    q: spec_fn(V) -> bool,
)
    requires
        forall|j: int| 0 <= j < l.len() ==> q(#[trigger] l[j].1),
        forall|j: int| 0 <= j < l.len() ==> q(f(Some(#[trigger] l[j].1))),
        q(f(None)),
    ensures
        forall|j: int| 0 <= j < upsert(l, k, f).len() ==> q(#[trigger] upsert(l, k, f)[j].1),
    decreases l.len(),
{
    if l.len() > 0 && l[0].0 != k && !seq_lt(k, l[0].0) {
        let rest = l.drop_first();
        assert forall|j: int| 0 <= j < rest.len() implies q(#[trigger] rest[j].1) && q(
            f(Some(rest[j].1)),
        ) by {
            assert(rest[j] == l[j + 1]);
        }
        lemma_upsert_values(rest, k, f, q);
        let u = upsert(l, k, f);
        assert forall|j: int| 0 <= j < u.len() implies q(#[trigger] u[j].1) by {
            if j > 0 {
                assert(u[j] == upsert(rest, k, f)[j - 1]);
            }
        }
    } else if l.len() > 0 && l[0].0 != k {
        let u = upsert(l, k, f);
        assert forall|j: int| 0 <= j < u.len() implies q(#[trigger] u[j].1) by {
            if j > 0 {
                assert(u[j] == l[j - 1]);
            }
        }
    }
}

/// The keys an `upsert` leaves all satisfy `p` when the old ones and the
/// new one do.
pub proof fn lemma_upsert_keys<V>(
    l: Seq<(Seq<char>, V)>,
    k: Seq<char>,
    f: spec_fn(Option<V>) -> V,
    p: spec_fn(Seq<char>) -> bool,
)
    requires
        forall|j: int| 0 <= j < l.len() ==> p(#[trigger] l[j].0),
        p(k),
    ensures
        forall|j: int| 0 <= j < upsert(l, k, f).len() ==> p(#[trigger] upsert(l, k, f)[j].0),
    decreases l.len(),
{
    if l.len() > 0 && l[0].0 != k && !seq_lt(k, l[0].0) {
        let rest = l.drop_first();
        assert forall|j: int| 0 <= j < rest.len() implies p(#[trigger] rest[j].0) by {
            assert(rest[j] == l[j + 1]);
        }
        lemma_upsert_keys(rest, k, f, p);
        let u = upsert(l, k, f);
        assert forall|j: int| 0 <= j < u.len() implies p(#[trigger] u[j].0) by {
            if j > 0 {
                assert(u[j] == upsert(rest, k, f)[j - 1]);
            }
        }
    } else if l.len() > 0 && l[0].0 != k {
        let u = upsert(l, k, f);
        assert forall|j: int| 0 <= j < u.len() implies p(#[trigger] u[j].0) by {
            if j > 0 {
                assert(u[j] == l[j - 1]);
            }
        }
    }
}

/// Each figure of the tally is bounded by the token sum of the entries.
pub proof fn lemma_tally_bounded(es: Seq<Entry>, today: Seq<char>, cutoff: Seq<char>)
    requires
        costs_bounded(es),
    ensures
        bounded_by(tally(es, today, cutoff), sum_tokens(entry_tokens(es))),
    decreases es.len(),
{
    if es.len() > 0 {
        let init = es.drop_last();
        assert(entry_tokens(init) =~= entry_tokens(es).drop_last());
        assert forall|i: int| 0 <= i < init.len() implies #[trigger] init[i].cost <= 1000 * tok_total(
            init[i].tokens,
        ) by {
            assert(init[i] == es[i]);
        }
        lemma_tally_bounded(init, today, cutoff);
        let r = tally(init, today, cutoff);
        let e = es.last();
        let s0 = sum_tokens(entry_tokens(init));
        let s1 = sum_tokens(entry_tokens(es));
        assert(s1 == tokens_add(s0, e.tokens));
        assert(e.cost <= 1000 * tok_total(e.tokens)) by {
            assert(es[es.len() - 1] == e);
        }
        if in_window(e.day, cutoff) {
            let f = day_bumper(e.cost, e.tokens);
            let q = |b: DayBucket| tokens_le(b.tokens, s1) && b.cost <= 1000 * tok_total(b.tokens);
            assert forall|j: int| 0 <= j < r.daily.len() implies q(#[trigger] r.daily[j].1) && q(
                f(Some(r.daily[j].1)),
            ) by {
                let b = r.daily[j].1;
                assert(tokens_le(b.tokens, s0));
                assert(f(Some(b)) == day_bump(Some(b), e.cost, e.tokens));
            }
            assert(q(f(None)));
            lemma_upsert_values(r.daily, e.day, f, q);
        }
    }
}

/// Costs of the days of a chart, added up.
pub open spec fn days_cost(d: Seq<(Seq<char>, DayBucket)>) -> nat
    decreases d.len(),
{
    if d.len() == 0 {
        0
    } else {
        days_cost(d.drop_last()) + d.last().1.cost
    }
}

/// Tokens of the days of a chart, added up.
pub open spec fn days_tokens(d: Seq<(Seq<char>, DayBucket)>) -> Tokens
    decreases d.len(),
{
    if d.len() == 0 {
        tokens_zero()
    } else {
        tokens_add(days_tokens(d.drop_last()), d.last().1.tokens)
    }
}

proof fn lemma_days_sum_front(d: Seq<(Seq<char>, DayBucket)>)
    requires
        d.len() > 0,
    ensures
        days_cost(d) == d[0].1.cost + days_cost(d.drop_first()),
        days_tokens(d) == tokens_add(d[0].1.tokens, days_tokens(d.drop_first())),
    decreases d.len(),
{
    if d.len() > 1 {
        let a = d.drop_last();
        let b = d.drop_first();
        lemma_days_sum_front(a);
        assert(a.drop_first() =~= b.drop_last());
        assert(b.last() == d.last());
        assert(a[0] == d[0]);
        let x = d[0].1.tokens;
        let y = days_tokens(b.drop_last());
        let z = d.last().1.tokens;
        assert(days_tokens(b) == tokens_add(y, z));
        assert(days_tokens(d) == tokens_add(tokens_add(x, y), z));
        assert(tokens_add(tokens_add(x, y), z) == tokens_add(x, tokens_add(y, z)));
    } else {
        assert(d.drop_first() =~= Seq::<(Seq<char>, DayBucket)>::empty());
        assert(d.drop_last() =~= Seq::<(Seq<char>, DayBucket)>::empty());
        assert(days_cost(d.drop_last()) == 0);
        assert(days_cost(d.drop_first()) == 0);
        assert(days_tokens(d.drop_last()) == tokens_zero());
        assert(days_tokens(d.drop_first()) == tokens_zero());
        assert(d.last() == d[0]);
    }
}

proof fn lemma_days_sum_upsert(d: Seq<(Seq<char>, DayBucket)>, k: Seq<char>, cost: nat, t: Tokens)
    ensures
        days_cost(upsert(d, k, day_bumper(cost, t))) == days_cost(d) + cost,
        days_tokens(upsert(d, k, day_bumper(cost, t))) == tokens_add(days_tokens(d), t),
    decreases d.len(),
{
    let f = day_bumper(cost, t);
    let u = upsert(d, k, f);
    if d.len() == 0 {
        assert(u.drop_last() =~= Seq::<(Seq<char>, DayBucket)>::empty());
        assert(u.last().1 == DayBucket { cost, tokens: t });
        assert(days_cost(u.drop_last()) == 0);
        assert(days_tokens(u.drop_last()) == tokens_zero());
        assert(days_cost(d) == 0);
        assert(days_tokens(d) == tokens_zero());
    } else {
        lemma_days_sum_front(d);
        lemma_days_sum_front(u);
        let rest = days_tokens(d.drop_first());
        if d[0].0 == k {
            assert(u.drop_first() =~= d.drop_first());
            assert(u[0].1 == day_bump(Some(d[0].1), cost, t));
            assert(tokens_add(tokens_add(d[0].1.tokens, t), rest) == tokens_add(
                tokens_add(d[0].1.tokens, rest),
                t,
            ));
        } else if seq_lt(k, d[0].0) {
            assert(u.drop_first() =~= d);
            assert(u[0].1 == DayBucket { cost, tokens: t });
        } else {
            assert(u.drop_first() =~= upsert(d.drop_first(), k, f));
            assert(u[0] == d[0]);
            lemma_days_sum_upsert(d.drop_first(), k, cost, t);
        }
    }
}

/// The days of the chart add up to the 30-day figures, their keys ascend
/// strictly (one bar per day), and every one of them is in the window.
pub proof fn law_month_is_sum_of_days(es: Seq<Entry>, today: Seq<char>, cutoff: Seq<char>)
    ensures
        ({
            let r = tally(es, today, cutoff);
            &&& days_cost(r.daily) == r.month_cost
            &&& days_tokens(r.daily) == r.month_tokens
            &&& strictly_sorted(keys(r.daily))
            &&& forall|j: int| 0 <= j < r.daily.len() ==> in_window(#[trigger] r.daily[j].0, cutoff)
        }),
    decreases es.len(),
{
    if es.len() > 0 {
        law_month_is_sum_of_days(es.drop_last(), today, cutoff);
        let r = tally(es.drop_last(), today, cutoff);
        let e = es.last();
        if in_window(e.day, cutoff) {
            lemma_days_sum_upsert(r.daily, e.day, e.cost, e.tokens);
            lemma_upsert_sorted(r.daily, e.day, day_bumper(e.cost, e.tokens));
            let p = |k: Seq<char>| in_window(k, cutoff);
            lemma_upsert_keys(r.daily, e.day, day_bumper(e.cost, e.tokens), p);
        }
    } else {
        assert(days_tokens(Seq::<(Seq<char>, DayBucket)>::empty()) == tokens_zero());
    }
}

// ---------------------------------------------------------------------------
// Days
// ---------------------------------------------------------------------------

/// `ms / 1000` as Rust computes it on `i64`: rounded toward zero.
pub open spec fn secs_of_ms(ms: int) -> int {
    if ms >= 0 {
        ms / 1000
    } else {
        -((-ms) / 1000)
    }
}

/// The day key of the local date of `ts` at UTC offset `off`; none when
/// `ts` or its local date falls outside the representable range.
pub open spec fn day_key_at(ts: int, off: int) -> Option<Seq<char>> {
    match local_time_spec(ts, off) {
        Some(l) => Some(date_key(l.year as int, l.month as int, l.day as int)),
        None => None,
    }
}

/// Today's day key.
pub open spec fn today_key(c: LocalClock) -> Option<Seq<char>> {
    day_key_at(c.now as int, c.offset as int)
}

/// The first day of the 30-day window: today less 29 days.
pub open spec fn cutoff_key(c: LocalClock) -> Option<Seq<char>> {
    match local_time_spec(c.now as int, c.offset as int) {
        Some(l) => if l.julian - 29 >= MIN_JULIAN {
            let d = spec_date_of_julian(l.julian - 29);
            Some(date_key(d.0, d.1, d.2))
        } else {
            None
        },
        None => None,
    }
}

/// `ms / 1000` on `i64`.
pub fn secs_from_ms(ms: i64) -> (s: i64)
    ensures
        s == secs_of_ms(ms as int),
{
    if ms >= 0 {
        ms / 1000
    } else {
        let n: i128 = -(ms as i128);
        let q: i128 = n / 1000;
        (-q) as i64
    }
}

/// The day key of the local date of `ts` at offset `offset`.
pub fn day_key_of(ts: i64, offset: i32) -> (r: Option<String>)
    requires
        -93599 <= offset <= 93599,
    ensures
        opt_seq(r) == day_key_at(ts as int, offset as int),
{
    match local_time(ts, offset) {
        Some(l) => Some(date_key_string(l.year, l.month, l.day)),
        None => None,
    }
}

/// Today's day key (`OffsetDateTime::now_local().date()`, formatted).
pub fn today_string(c: LocalClock) -> (r: Option<String>)
    requires
        c.wf(),
    ensures
        opt_seq(r) == today_key(c),
{
    day_key_of(c.now, c.offset)
}

/// The cutoff day key (`now.date() - Duration::days(29)`, formatted).
pub fn cutoff_string(c: LocalClock) -> (r: Option<String>)
    requires
        c.wf(),
    ensures
        opt_seq(r) == cutoff_key(c),
{
    match local_time(c.now, c.offset) {
        Some(l) => {
            if l.julian < MIN_JULIAN + 29 {
                None
            } else {
                match date_of_julian(l.julian - 29) {
                    Some(d) => Some(date_key_string(d.0, d.1, d.2)),
                    None => None,
                }
            }
        },
        None => None,
    }
}

// ---------------------------------------------------------------------------
// The report
// ---------------------------------------------------------------------------

/// One day of the chart.
#[derive(Clone, Copy, Debug, PartialEq, Eq, Structural)]
pub struct DailyStat {
    pub cost: u128,
    pub tokens: TokenCount,
}

/// Everything the cost panel shows, added up.
pub struct CostReport {
    pub today_cost: u128,
    pub month_cost: u128,
    pub today_tokens: TokenCount,
    pub month_tokens: TokenCount,
    pub today_requests: u64,
    /// Time, model and tokens of the last request.
    pub last_request: Option<(i64, String, TokenCount)>,
    /// (day, stats) ascending, the trailing 30 days.
    pub daily: Vec<(String, DailyStat)>,
}

pub open spec fn daily_view(d: Seq<(String, DailyStat)>) -> Seq<(Seq<char>, DayBucket)> {
    d.map_values(
        |e: (String, DailyStat)| (e.0@, DayBucket { cost: e.1.cost as nat, tokens: tokens_of(e.1.tokens) }),
    )
}

impl CostReport {
    pub open spec fn tally_view(&self) -> Tally {
        Tally {
            today_cost: self.today_cost as nat,
            month_cost: self.month_cost as nat,
            today_tokens: tokens_of(self.today_tokens),
            month_tokens: tokens_of(self.month_tokens),
            today_requests: self.today_requests as nat,
            daily: daily_view(self.daily@),
        }
    }

    /// A report with nothing in it.
    pub fn empty() -> (r: CostReport)
        ensures
            r.tally_view() == empty_tally(),
            r.last_request is None,
            r.daily@.len() == 0,
    {
        let r = CostReport {
            today_cost: 0,
            month_cost: 0,
            today_tokens: TokenCount::zero(),
            month_tokens: TokenCount::zero(),
            today_requests: 0,
            last_request: None,
            daily: Vec::new(),
        };
        assert(daily_view(r.daily@) =~= Seq::<(Seq<char>, DayBucket)>::empty());
        r
    }
}

/// The time, model and tokens of a last request.
pub open spec fn last_view(l: Option<(i64, String, TokenCount)>) -> Option<(i64, Seq<char>, TokenCount)> {
    match l {
        Some(t) => Some((t.0, t.1@, t.2)),
        None => None,
    }
}

/// A request reduced to its day, its cost and its tokens.
pub struct DayEntry {
    pub day: String,
    pub cost: u128,
    pub tokens: TokenCount,
}

pub open spec fn entry_of(e: DayEntry) -> Entry {
    Entry { day: e.day@, cost: e.cost as nat, tokens: tokens_of(e.tokens) }
}

pub open spec fn entries_of(es: Seq<DayEntry>) -> Seq<Entry> {
    es.map_values(|e: DayEntry| entry_of(e))
}

/// Class-wise sum of two token counts.
pub fn plus(a: TokenCount, b: TokenCount) -> (c: TokenCount)
    requires
        tokens_fit(tokens_add(tokens_of(a), tokens_of(b))),
    ensures
        tokens_of(c) == tokens_add(tokens_of(a), tokens_of(b)),
{
    TokenCount {
        input: a.input + b.input,
        output: a.output + b.output,
        cache_read: a.cache_read + b.cache_read,
        cache_write: a.cache_write + b.cache_write,
    }
}

/// Tallies the entries in order: the report without its last request.
pub fn tally_entries(es: &Vec<DayEntry>, today: &String, cutoff: &String) -> (r: CostReport)
    requires
        costs_bounded(entries_of(es@)),
        tokens_fit(sum_tokens(entry_tokens(entries_of(es@)))),
    ensures
        r.tally_view() == tally(entries_of(es@), today@, cutoff@),
        r.last_request is None,
{
    let ghost ev = entries_of(es@);
    let cut = chars_of(cutoff.as_str());
    let mut r = CostReport::empty();
    assert(ev.take(0) =~= Seq::<Entry>::empty());
    assert(string_keys(r.daily@) =~= Seq::<Seq<char>>::empty());
    let mut i: usize = 0;
    while i < es.len()
        invariant
            i <= es.len(),
            ev == entries_of(es@),
            cut@ == cutoff@,
            costs_bounded(ev),
            tokens_fit(sum_tokens(entry_tokens(ev))),
            r.tally_view() == tally(ev.take(i as int), today@, cutoff@),
            strictly_sorted(string_keys(r.daily@)),
            r.today_requests <= i,
            r.last_request is None,
        decreases es.len() - i,
    {
        let ghost pre = ev.take(i + 1);
        let ghost s_all = sum_tokens(entry_tokens(ev));
        proof {
            assert(pre.drop_last() =~= ev.take(i as int));
            assert(pre.last() == ev[i as int]);
            assert forall|k: int| 0 <= k < pre.len() implies #[trigger] pre[k].cost <= 1000 * tok_total(
                pre[k].tokens,
            ) by {
                assert(pre[k] == ev[k]);
            }
            lemma_tally_bounded(pre, today@, cutoff@);
            assert(entry_tokens(pre) =~= entry_tokens(ev).take(i + 1));
            lemma_sum_prefix(entry_tokens(ev), i + 1);
        }
        let ghost next = tally(pre, today@, cutoff@);
        let ghost old_daily = r.daily@;
        let e = &es[i];
        assert(entry_of(*e) == ev[i as int]);
        let day_chars = chars_of(e.day.as_str());
        let in_win = !chars_lt(day_chars.as_slice(), cut.as_slice());
        if in_win {
            r.month_cost = r.month_cost + e.cost;
            r.month_tokens = plus(r.month_tokens, e.tokens);
            let (slot, found) = find_slot(&r.daily, &e.day);
            let ghost f = day_bumper(e.cost as nat, tokens_of(e.tokens));
            proof {
                assert forall|j: int| 0 <= j < slot implies seq_lt(
                    #[trigger] daily_view(old_daily)[j].0,
                    e.day@,
                ) by {
                    assert(daily_view(old_daily)[j].0 == old_daily[j].0@);
                }
                lemma_upsert_slot(daily_view(old_daily), e.day@, f, slot as int, found);
            }
            if found {
                let cur = r.daily[slot].1;
                proof {
                    assert(next.daily[slot as int] == (
                        e.day@,
                        day_bump(Some(daily_view(old_daily)[slot as int].1), e.cost as nat, tokens_of(e.tokens)),
                    ));
                    assert(tokens_le(next.daily[slot as int].1.tokens, sum_tokens(entry_tokens(pre))));
                }
                let stat = DailyStat { cost: cur.cost + e.cost, tokens: plus(cur.tokens, e.tokens) };
                r.daily.set(slot, (e.day.clone(), stat));
                proof {
                    assert(string_keys(r.daily@) =~= string_keys(old_daily));
                    assert(daily_view(r.daily@) =~= daily_view(old_daily).update(
                        slot as int,
                        (e.day@, f(Some(daily_view(old_daily)[slot as int].1))),
                    ));
                }
            } else {
                r.daily.insert(slot, (e.day.clone(), DailyStat { cost: e.cost, tokens: e.tokens }));
                proof {
                    assert forall|j: int| 0 <= j < slot implies seq_lt(
                        #[trigger] string_keys(old_daily)[j],
                        e.day@,
                    ) by {
                        assert(string_keys(old_daily)[j] == old_daily[j].0@);
                    }
                    lemma_insert_sorted(string_keys(old_daily), slot as int, e.day@);
                    assert(string_keys(r.daily@) =~= string_keys(old_daily).insert(slot as int, e.day@));
                    assert(daily_view(r.daily@) =~= daily_view(old_daily).insert(slot as int, (e.day@, f(None))));
                }
            }
        }
        if e.day == *today {
            r.today_cost = r.today_cost + e.cost;
            r.today_tokens = plus(r.today_tokens, e.tokens);
            r.today_requests = r.today_requests + 1;
        }
        i += 1;
        assert(r.tally_view() =~= next);
    }
    assert(ev.take(es.len() as int) =~= ev);
    r
}

/// Class-wise token sums of a list of counts.
pub open spec fn counts_tokens(ts: Seq<TokenCount>) -> Seq<Tokens> {
    ts.map_values(|t: TokenCount| tokens_of(t))
}

/// Whether the class-wise sums of `ts` all fit in `u64`.
pub fn token_sums_fit(ts: &Vec<TokenCount>) -> (b: bool)
    ensures
        b == tokens_fit(sum_tokens(counts_tokens(ts@))),
{
    let ghost all = counts_tokens(ts@);
    let mut acc = TokenCount::zero();
    let mut i: usize = 0;
    assert(all.take(0) =~= Seq::<Tokens>::empty());
    while i < ts.len()
        invariant
            i <= ts.len(),
            all == counts_tokens(ts@),
            tokens_of(acc) == sum_tokens(all.take(i as int)),
        decreases ts.len() - i,
    {
        let t = ts[i];
        proof {
            assert(all.take(i + 1).drop_last() =~= all.take(i as int));
            assert(all.take(i + 1).last() == tokens_of(t));
        }
        match (
            acc.input.checked_add(t.input),
            acc.output.checked_add(t.output),
            acc.cache_read.checked_add(t.cache_read),
            acc.cache_write.checked_add(t.cache_write),
        ) {
            (Some(a), Some(b), Some(c), Some(d)) => {
                acc = TokenCount { input: a, output: b, cache_read: c, cache_write: d };
            },
            _ => {
                proof {
                    lemma_sum_prefix(all, i + 1);
                }
                return false;
            },
        }
        i += 1;
    }
    assert(all.take(ts.len() as int) =~= all);
    true
}

/// A price of at most 1000 units per token costs at most 1000 units per
/// token.
pub proof fn cost_bound(p: ModelPrice, t: TokenCount)
    requires
        p.input <= 1000 && p.output <= 1000 && p.cache_read <= 1000,
    ensures
        cost_spec(p, t) <= 1000 * tok_total(tokens_of(t)),
{
    let a: int = t.input + t.cache_write;
    assert(a * p.input <= a * 1000) by (nonlinear_arith)
        requires
            a >= 0,
            p.input <= 1000,
    ;
    assert(t.output * p.output <= t.output * 1000) by (nonlinear_arith)
        requires
            t.output >= 0,
            p.output <= 1000,
    ;
    assert(t.cache_read * p.cache_read <= t.cache_read * 1000) by (nonlinear_arith)
        requires
            t.cache_read >= 0,
            p.cache_read <= 1000,
    ;
}

} // verus!
