//! Local token usage and its equivalent cost: records mined from the Kimi
//! Code CLI session logs (`wire.jsonl`, `usage.record` lines) and from the
//! ZCode client's `model_usage` table, the list prices, and the cost reports
//! (today, a rolling 30 days, per day, per request source).
//!
//! Prices are kept in tenths of a yuan per million tokens, so costs are
//! exact integers in units of 10⁻⁷ yuan.

pub use super::report::{CostReport, DailyStat};
use super::report::{
    cost_bound, costs_bounded, counts_tokens, cutoff_key, cutoff_string, day_key_at, day_key_of,
    entries_of, entry_of, entry_tokens, last_view, secs_from_ms, secs_of_ms, sum_tokens, tally, today_key,
    today_string, tally_entries, token_sums_fit, tok_total, DayEntry, Entry, Tally, empty_tally,
};
use super::same_text;
use crate::clock::{local_clock, max_ts, min_ts, opt_seq, LocalClock};
use crate::keyed::{key_view, put, replace_with, string_keys, strictly_sorted, upsert};
use crate::text::{chars_of, contains, contains_seq, lowercase, spec_lowercase, string_of};
use vstd::prelude::*;

verus! {

// ---------------------------------------------------------------------------
// Token counts and records
// ---------------------------------------------------------------------------

/// Four token classes. `input` is the non-cached part.
#[derive(Clone, Copy, Debug, PartialEq, Eq, Structural)]
pub struct TokenCount {
    pub input: u64,
    pub output: u64,
    pub cache_read: u64,
    pub cache_write: u64,
}

/// Token counts as unbounded numbers.
pub struct Tokens {
    pub input: nat,
    pub output: nat,
    pub cache_read: nat,
    pub cache_write: nat,
}

pub open spec fn tokens_of(t: TokenCount) -> Tokens {
    Tokens {
        input: t.input as nat,
        output: t.output as nat,
        cache_read: t.cache_read as nat,
        cache_write: t.cache_write as nat,
    }
}

pub open spec fn tokens_add(a: Tokens, b: Tokens) -> Tokens {
    Tokens {
        input: a.input + b.input,
        output: a.output + b.output,
        cache_read: a.cache_read + b.cache_read,
        cache_write: a.cache_write + b.cache_write,
    }
}

pub open spec fn tokens_zero() -> Tokens {
    Tokens { input: 0, output: 0, cache_read: 0, cache_write: 0 }
}

pub open spec fn tokens_fit(t: Tokens) -> bool {
    t.input <= u64::MAX && t.output <= u64::MAX && t.cache_read <= u64::MAX && t.cache_write <= u64::MAX
}

impl TokenCount {
    pub fn zero() -> (t: TokenCount)
        ensures
            tokens_of(t) == tokens_zero(),
    {
        TokenCount { input: 0, output: 0, cache_read: 0, cache_write: 0 }
    }

    /// All four classes together.
    pub fn total(&self) -> (n: u64)
        requires
            self.input + self.output + self.cache_read + self.cache_write <= u64::MAX,
        ensures
            n == self.input + self.output + self.cache_read + self.cache_write,
    {
        self.input + self.output + self.cache_read + self.cache_write
    }

    /// Adds `o` class by class (`+=`).
    pub fn add_assign(&mut self, o: TokenCount)
        requires
            tokens_fit(tokens_add(tokens_of(*old(self)), tokens_of(o))),
        ensures
            tokens_of(*final(self)) == tokens_add(tokens_of(*old(self)), tokens_of(o)),
    {
        self.input = self.input + o.input;
        self.output = self.output + o.output;
        self.cache_read = self.cache_read + o.cache_read;
        self.cache_write = self.cache_write + o.cache_write;
    }
}

/// One request's usage.
pub struct UsageRecord {
    pub ts_ms: i64,
    pub model: String,
    pub tokens: TokenCount,
}

impl UsageRecord {
    /// An identical copy.
    pub fn duplicate(&self) -> (r: UsageRecord)
        ensures
            r == *self,
    {
        UsageRecord { ts_ms: self.ts_ms, model: self.model.clone(), tokens: self.tokens }
    }
}

/// The text after the last '/' (all of it without one).
pub open spec fn last_segment(s: Seq<char>) -> Seq<char>
    decreases s.len(),
{
    if s.len() == 0 {
        s
    } else if s.last() == '/' {
        Seq::empty()
    } else {
        last_segment(s.drop_last()).push(s.last())
    }
}

/// Normalizes `kimi-code/k3-256k` style aliases to the bare lowercase id.
pub fn normalize_model(raw: &str) -> (m: String)
    ensures
        m@ == spec_lowercase(last_segment(raw@)),
{
    let cs = chars_of(raw);
    let mut start: usize = cs.len();
    proof {
        assert(cs@.take(cs@.len() as int) =~= cs@);
        assert(cs@.skip(cs@.len() as int) =~= Seq::<char>::empty());
        assert(last_segment(cs@) =~= last_segment(cs@.take(start as int)) + cs@.skip(start as int));
    }
    while start > 0 && cs[start - 1] != '/'
        invariant
            start <= cs.len(),
            last_segment(cs@) == last_segment(cs@.take(start as int)) + cs@.skip(start as int),
        decreases start,
    {
        let ghost t = cs@.take(start as int);
        assert(t.drop_last() == cs@.take(start - 1));
        assert(cs@.skip(start - 1) == seq![cs@[start - 1]] + cs@.skip(start as int));
        assert(last_segment(t) == last_segment(cs@.take(start - 1)).push(cs@[start - 1]));
        assert(last_segment(cs@.take(start - 1)).push(cs@[start - 1]) + cs@.skip(start as int)
            =~= last_segment(cs@.take(start - 1)) + cs@.skip(start - 1));
        start -= 1;
    }
    proof {
        if start > 0 {
            assert(cs@.take(start as int).last() == '/');
        }
        assert(last_segment(cs@.take(start as int)) =~= Seq::<char>::empty());
        assert(cs@.take(cs@.len() as int) == cs@);
    }
    let mut seg: Vec<char> = Vec::new();
    let mut i: usize = start;
    while i < cs.len()
        invariant
            start <= i <= cs.len(),
            seg@ == cs@.subrange(start as int, i as int),
        decreases cs.len() - i,
    {
        seg.push(cs[i]);
        i += 1;
        assert(seg@ =~= cs@.subrange(start as int, i as int));
    }
    assert(seg@ =~= cs@.skip(start as int));
    let s = string_of(seg.as_slice());
    lowercase(s.as_str())
}

/// The marker every `usage.record` line of the session log carries.
pub open spec fn usage_needle() -> Seq<char> {
    "\"type\":\"usage.record\""@
}

/// Whether a log line can be a usage record (it carries the marker).
pub fn is_usage_line(line: &str) -> (r: bool)
    ensures
        r == contains_seq(line@, usage_needle()),
{
    let cs = chars_of(line);
    let needle = chars_of("\"type\":\"usage.record\"");
    contains(cs.as_slice(), needle.as_slice())
}

/// The usage counters of a decoded record line.
pub struct WireUsage {
    pub input: u64,
    pub output: u64,
    pub cache_read: u64,
    pub cache_write: u64,
}

/// A decoded `usage.record` line; everything else in it is ignored.
pub struct WireLine {
    pub model: Option<String>,
    pub usage: Option<WireUsage>,
    pub usage_scope: Option<String>,
    pub time: Option<i64>,
}

/// Only turn-scope records are per-request totals (session scope would
/// count them twice), and a record needs its model, counters and time.
pub open spec fn wire_accepted(w: WireLine) -> bool {
    &&& w.usage_scope matches Some(s) && s@ == "turn"@
    &&& w.model is Some
    &&& w.usage is Some
    &&& w.time is Some
}

/// The record a decoded line yields, if any.
pub fn record_from_wire(w: WireLine) -> (r: Option<UsageRecord>)
    ensures
        r is Some == wire_accepted(w),
        r matches Some(rec) ==> {
            &&& rec.ts_ms == w.time->0
            &&& rec.model@ == spec_lowercase(last_segment(w.model->0@))
            &&& rec.tokens.input == w.usage->0.input
            &&& rec.tokens.output == w.usage->0.output
            &&& rec.tokens.cache_read == w.usage->0.cache_read
            &&& rec.tokens.cache_write == w.usage->0.cache_write
        },
{
    let turn = match &w.usage_scope {
        Some(s) => same_text(s.as_str(), "turn"),
        None => false,
    };
    if !turn {
        return None;
    }
    match (w.model, w.usage, w.time) {
        (Some(model), Some(usage), Some(ts_ms)) => Some(
            UsageRecord {
                ts_ms,
                model: normalize_model(model.as_str()),
                tokens: TokenCount {
                    input: usage.input,
                    output: usage.output,
                    cache_read: usage.cache_read,
                    cache_write: usage.cache_write,
                },
            },
        ),
        _ => None,
    }
}

// ---------------------------------------------------------------------------
// Prices and cost
// ---------------------------------------------------------------------------

/// List price of one model, in tenths of a yuan per million tokens.
/// Cache-write tokens bill at the input rate.
#[derive(Clone, Copy, Debug, PartialEq, Eq, Structural)]
pub struct ModelPrice {
    pub input: u64,
    pub output: u64,
    pub cache_read: u64,
}

/// Kimi open-platform prices (¥ per 1M tokens ×10): kimi-for-coding
/// 6.5/27/1.3, its highspeed tier 13/54/2.6, k3 20/100/2, k3-256k 10/50/1.
pub open spec fn kimi_price_spec(model: Seq<char>) -> Option<ModelPrice> {
    if model == "kimi-for-coding"@ {
        Some(ModelPrice { input: 65, output: 270, cache_read: 13 })
    } else if model == "kimi-for-coding-highspeed"@ {
        Some(ModelPrice { input: 130, output: 540, cache_read: 26 })
    } else if model == "k3"@ {
        Some(ModelPrice { input: 200, output: 1000, cache_read: 20 })
    } else if model == "k3-256k"@ {
        Some(ModelPrice { input: 100, output: 500, cache_read: 10 })
    } else {
        None
    }
}

/// Kimi list price of a model; unknown models have none (their tokens still
/// count, their cost does not).
pub fn price_for(model: &str) -> (p: Option<ModelPrice>)
    ensures
        p == kimi_price_spec(model@),
{
    if same_text(model, "kimi-for-coding") {
        Some(ModelPrice { input: 65, output: 270, cache_read: 13 })
    } else if same_text(model, "kimi-for-coding-highspeed") {
        Some(ModelPrice { input: 130, output: 540, cache_read: 26 })
    } else if same_text(model, "k3") {
        Some(ModelPrice { input: 200, output: 1000, cache_read: 20 })
    } else if same_text(model, "k3-256k") {
        Some(ModelPrice { input: 100, output: 500, cache_read: 10 })
    } else {
        None
    }
}

/// Cost in 10⁻⁷ yuan of `t` at price `p`.
pub open spec fn cost_spec(p: ModelPrice, t: TokenCount) -> nat {
    ((t.input + t.cache_write) * p.input + t.output * p.output + t.cache_read * p.cache_read) as nat
}

pub(crate) fn priced(p: ModelPrice, t: &TokenCount) -> (c: u128)
    requires
        p.input <= 1000 && p.output <= 1000 && p.cache_read <= 1000,
    ensures
        c as nat == cost_spec(p, *t),
{
    let a: u128 = (t.input as u128) + (t.cache_write as u128);
    assert(a * p.input <= 36893488147419103230u128 * 1000) by (nonlinear_arith)
        requires
            a <= 36893488147419103230u128,
            p.input <= 1000,
    ;
    assert(t.output * p.output <= 18446744073709551615u128 * 1000) by (nonlinear_arith)
        requires
            t.output <= 18446744073709551615u128,
            p.output <= 1000,
    ;
    assert(t.cache_read * p.cache_read <= 18446744073709551615u128 * 1000) by (nonlinear_arith)
        requires
            t.cache_read <= 18446744073709551615u128,
            p.cache_read <= 1000,
    ;
    a * (p.input as u128) + (t.output as u128) * (p.output as u128) + (t.cache_read as u128) * (
    p.cache_read as u128)
}

/// Kimi cost of one request, in 10⁻⁷ yuan; none for an unpriced model.
pub fn cost_of(model: &str, t: &TokenCount) -> (c: Option<u128>)
    ensures
        match kimi_price_spec(model@) {
            Some(p) => c matches Some(v) && v as nat == cost_spec(p, *t),
            None => c is None,
        },
{
    match price_for(model) {
        Some(p) => Some(priced(p, t)),
        None => None,
    }
}

// ---------------------------------------------------------------------------
// The report
// ---------------------------------------------------------------------------

/// The local day of a record's millisecond time; a time outside the
/// calendar counts as the epoch. None when the local date leaves the
/// calendar, which cannot hold it.
pub open spec fn kimi_day(ts_ms: int, off: int) -> Option<Seq<char>> {
    let s = secs_of_ms(ts_ms);
    day_key_at(if min_ts() <= s <= max_ts() { s } else { 0 }, off)
}

/// The local day (`YYYY-MM-DD`) of a record's millisecond time.
pub fn local_day(ts_ms: i64, offset: i32) -> (r: Option<String>)
    requires
        -93599 <= offset <= 93599,
    ensures
        opt_seq(r) == kimi_day(ts_ms as int, offset as int),
{
    let s = secs_from_ms(ts_ms);
    let lo: i64 = -377705116800;
    let hi: i64 = 253402300799;
    let ts: i64 = if lo <= s && s <= hi {
        s
    } else {
        0
    };
    day_key_of(ts, offset)
}

/// Kimi cost of a request; 0 for an unpriced model.
pub open spec fn kimi_cost(model: Seq<char>, t: TokenCount) -> nat {
    match kimi_price_spec(model) {
        Some(p) => cost_spec(p, t),
        None => 0,
    }
}

pub open spec fn kimi_entry(r: UsageRecord, off: int) -> Entry {
    Entry { day: kimi_day(r.ts_ms as int, off)->0, cost: kimi_cost(r.model@, r.tokens), tokens: tokens_of(r.tokens) }
}

pub open spec fn kimi_entries(rs: Seq<UsageRecord>, off: int) -> Seq<Entry> {
    rs.map_values(|r: UsageRecord| kimi_entry(r, off))
}

pub open spec fn record_counts(rs: Seq<UsageRecord>) -> Seq<TokenCount> {
    rs.map_values(|r: UsageRecord| r.tokens)
}

/// Time, model and tokens of the last record.
pub open spec fn last_record(rs: Seq<UsageRecord>) -> Option<(i64, Seq<char>, TokenCount)> {
    if rs.len() == 0 {
        None
    } else {
        Some((rs.last().ts_ms, rs.last().model@, rs.last().tokens))
    }
}

/// What the report needs of the clock and the records: today and the
/// cutoff are calendar dates, so is every record's day, and the token sums
/// fit their counters.
pub open spec fn report_ready(rs: Seq<UsageRecord>, c: LocalClock) -> bool {
    &&& c.wf()
    &&& today_key(c) is Some
    &&& cutoff_key(c) is Some
    &&& forall|i: int| 0 <= i < rs.len() ==> (#[trigger] kimi_day(rs[i].ts_ms as int, c.offset as int)) is Some
    &&& tokens_fit(sum_tokens(counts_tokens(record_counts(rs))))
}

/// The Kimi report at clock `c`, in the abstract.
pub open spec fn kimi_tally(rs: Seq<UsageRecord>, c: LocalClock) -> Tally {
    tally(kimi_entries(rs, c.offset as int), today_key(c)->0, cutoff_key(c)->0)
}

/// The cost report of `records` with the clock reading `clock`: today's
/// and the 30-day totals, the per-day chart (unknown models count their
/// tokens but no cost), and the last request.
pub fn report_at(records: &[UsageRecord], clock: LocalClock) -> (r: CostReport)
    requires
        report_ready(records@, clock),
    ensures
        r.tally_view() == kimi_tally(records@, clock),
        last_view(r.last_request) == last_record(records@),
{
    let today = today_string(clock).unwrap();
    let cutoff = cutoff_string(clock).unwrap();
    let ghost ks = kimi_entries(records@, clock.offset as int);
    let mut es: Vec<DayEntry> = Vec::new();
    let mut i: usize = 0;
    while i < records.len()
        invariant
            i <= records.len(),
            report_ready(records@, clock),
            ks == kimi_entries(records@, clock.offset as int),
            entries_of(es@) == ks.take(i as int),
            es@.len() == i,
        decreases records.len() - i,
    {
        let rec = &records[i];
        assert(kimi_day(records@[i as int].ts_ms as int, clock.offset as int) is Some);
        let day = local_day(rec.ts_ms, clock.offset).unwrap();
        let cost: u128 = match cost_of(rec.model.as_str(), &rec.tokens) {
            Some(c) => c,
            None => 0,
        };
        let ghost before = es@;
        es.push(DayEntry { day, cost, tokens: rec.tokens });
        proof {
            assert(es@[i as int].day@ == kimi_day(rec.ts_ms as int, clock.offset as int)->0);
            assert(es@[i as int].cost as nat == kimi_cost(rec.model@, rec.tokens));
            assert(entry_of(es@[i as int]) == ks[i as int]);
            assert(forall|k: int| 0 <= k < i ==> es@[k] == before[k]);
        }
        i += 1;
        assert(entries_of(es@) =~= ks.take(i as int));
    }
    proof {
        assert(ks.take(records.len() as int) =~= ks);
        assert(entry_tokens(ks) =~= counts_tokens(record_counts(records@)));
        assert forall|k: int| 0 <= k < ks.len() implies #[trigger] ks[k].cost <= 1000 * tok_total(ks[k].tokens) by {
            let rec = records@[k];
            match kimi_price_spec(rec.model@) {
                Some(p) => cost_bound(p, rec.tokens),
                None => {},
            }
        }
    }
    let mut r = tally_entries(&es, &today, &cutoff);
    if records.len() > 0 {
        let last = &records[records.len() - 1];
        r.last_request = Some((last.ts_ms, last.model.clone(), last.tokens));
    }
    r
}

/// Whether the report can be made at `clock`.
fn ready(records: &[UsageRecord], clock: LocalClock) -> (b: bool)
    requires
        clock.wf(),
    ensures
        b == report_ready(records@, clock),
{
    if today_string(clock).is_none() || cutoff_string(clock).is_none() {
        return false;
    }
    let mut counts: Vec<TokenCount> = Vec::new();
    let mut i: usize = 0;
    while i < records.len()
        invariant
            i <= records.len(),
            clock.wf(),
            counts@ == record_counts(records@).take(i as int),
            forall|k: int| 0 <= k < i ==> (#[trigger] kimi_day(records@[k].ts_ms as int, clock.offset as int)) is Some,
        decreases records.len() - i,
    {
        if local_day(records[i].ts_ms, clock.offset).is_none() {
            return false;
        }
        counts.push(records[i].tokens);
        i += 1;
        assert(counts@ =~= record_counts(records@).take(i as int));
    }
    assert(record_counts(records@).take(records.len() as int) =~= record_counts(records@));
    token_sums_fit(&counts)
}

/// The cost report of `records` now. When the clock, a record's day or
/// the token sums leave what the calendar and the counters can hold, the
/// report is empty.
pub fn build_report(records: &[UsageRecord]) -> (r: CostReport)
    ensures
        exists|c: LocalClock| #[trigger] c.wf() && if report_ready(records@, c) {
            r.tally_view() == kimi_tally(records@, c) && last_view(r.last_request) == last_record(records@)
        } else {
            r.tally_view() == empty_tally() && r.last_request is None
        },
{
    let clock = local_clock();
    if ready(records, clock) {
        report_at(records, clock)
    } else {
        CostReport::empty()
    }
}

// ---------------------------------------------------------------------------
// The scan cache
// ---------------------------------------------------------------------------

/// What one session log yielded, and the identity (modification time in
/// seconds, size) of the file it was read from.
pub struct FileScan {
    pub mtime: i64,
    pub size: u64,
    pub records: Vec<UsageRecord>,
}

/// The on-disk scan cache: session-log path → its last scan, paths
/// ascending, each once. Replacing a file's whole record set on a rescan
/// keeps the counts right although the logs only grow.
pub struct ScanCache {
    pub files: Vec<(String, FileScan)>,
}

impl ScanCache {
    pub open spec fn wf(&self) -> bool {
        strictly_sorted(string_keys(self.files@))
    }

    pub open spec fn entries(&self) -> Seq<(Seq<char>, FileScan)> {
        key_view(self.files@)
    }
}

/// The scan stored for a path, if any.
pub open spec fn scan_of(files: Seq<(Seq<char>, FileScan)>, path: Seq<char>) -> Option<FileScan>
    decreases files.len(),
{
    if files.len() == 0 {
        None
    } else if files[0].0 == path {
        Some(files[0].1)
    } else {
        scan_of(files.drop_first(), path)
    }
}

/// A file needs a (re)scan unless the cache holds it with this identity.
pub open spec fn needs_scan_spec(files: Seq<(Seq<char>, FileScan)>, path: Seq<char>, mtime: i64, size: u64) -> bool {
    !(scan_of(files, path) matches Some(f) && f.mtime == mtime && f.size == size)
}

/// An empty cache (also what a missing or unreadable cache file gives).
pub fn empty_cache() -> (c: ScanCache)
    ensures
        c.wf(),
        c.entries().len() == 0,
{
    let c = ScanCache { files: Vec::new() };
    assert(string_keys(c.files@) =~= Seq::<Seq<char>>::empty());
    c
}

/// Whether the session log at `path` with identity (`mtime`, `size`) must
/// be read again.
pub fn needs_scan(cache: &ScanCache, path: &String, mtime: i64, size: u64) -> (r: bool)
    ensures
        r == needs_scan_spec(cache.entries(), path@, mtime, size),
{
    let ghost ev = cache.entries();
    let mut i: usize = 0;
    assert(ev.skip(0) =~= ev);
    while i < cache.files.len()
        invariant
            i <= cache.files.len(),
            ev == cache.entries(),
            scan_of(ev, path@) == scan_of(ev.skip(i as int), path@),
        decreases cache.files.len() - i,
    {
        assert(ev.skip(i as int)[0] == (cache.files@[i as int].0@, cache.files@[i as int].1));
        if same_text(cache.files[i].0.as_str(), path.as_str()) {
            let f = &cache.files[i].1;
            return !(f.mtime == mtime && f.size == size);
        }
        assert(ev.skip(i as int).drop_first() =~= ev.skip(i + 1));
        i += 1;
    }
    assert(ev.skip(cache.files.len() as int) =~= Seq::<(Seq<char>, FileScan)>::empty());
    true
}

/// Stores the fresh scan of `path`, replacing any earlier one.
pub fn store_scan(cache: &mut ScanCache, path: String, mtime: i64, size: u64, records: Vec<UsageRecord>)
    requires
        old(cache).wf(),
    ensures
        final(cache).wf(),
        final(cache).entries() == upsert(
            old(cache).entries(),
            path@,
            replace_with(FileScan { mtime, size, records }),
        ),
{
    let ghost scan = FileScan { mtime, size, records };
    put(&mut cache.files, path, FileScan { mtime, size, records });
}

/// The entries whose path was seen in this walk, order kept.
pub open spec fn keep_seen(files: Seq<(Seq<char>, FileScan)>, seen: Seq<Seq<char>>) -> Seq<(Seq<char>, FileScan)>
    decreases files.len(),
{
    if files.len() == 0 {
        files
    } else {
        let rest = keep_seen(files.drop_last(), seen);
        if seen.contains(files.last().0) {
            rest.push(files.last())
        } else {
            rest
        }
    }
}

/// Drops the cached files that were not seen in this walk (deleted logs).
/// Returns whether any was dropped.
pub fn drop_unseen(cache: &mut ScanCache, seen: &Vec<String>) -> (dropped: bool)
    requires
        old(cache).wf(),
    ensures
        final(cache).wf(),
        final(cache).entries() == keep_seen(old(cache).entries(), crate::tasks::ids_view(seen@)),
        dropped == (final(cache).entries().len() != old(cache).entries().len()),
{
    let ghost sv = crate::tasks::ids_view(seen@);
    let ghost ev = cache.entries();
    let ghost ks = string_keys(cache.files@);
    assert(ks =~= ev.map_values(|e: (Seq<char>, FileScan)| e.0));
    let mut files = Vec::new();
    std::mem::swap(&mut files, &mut cache.files);
    let n = files.len();
    let mut kept: Vec<(String, FileScan)> = Vec::new();
    let mut rest = files;
    let mut i: usize = 0;
    assert(ev.take(0) =~= Seq::<(Seq<char>, FileScan)>::empty());
    assert(key_view(kept@) =~= Seq::<(Seq<char>, FileScan)>::empty());
    while rest.len() > 0
        invariant
            i + rest@.len() == n,
            n == ev.len(),
            key_view(rest@) == ev.skip(i as int),
            key_view(kept@) == keep_seen(ev.take(i as int), sv),
            sv == crate::tasks::ids_view(seen@),
            ks == ev.map_values(|e: (Seq<char>, FileScan)| e.0),
            strictly_sorted(ks),
        decreases rest.len(),
    {
        let ghost old_rest = rest@;
        let e = rest.remove(0);
        proof {
            assert(ev.take(i + 1).drop_last() =~= ev.take(i as int));
            assert(ev.take(i + 1).last() == ev[i as int]);
            assert(key_view(old_rest)[0] == ev.skip(i as int)[0]);
            assert(e == old_rest[0]);
            assert((e.0@, e.1) == ev[i as int]);
            assert(rest@ =~= old_rest.drop_first());
            assert(key_view(rest@) =~= key_view(old_rest).drop_first());
            assert(key_view(rest@) =~= ev.skip(i + 1));
        }
        if crate::tasks::has_id(seen, &e.0) {
            let ghost prev = key_view(kept@);
            kept.push(e);
            assert(key_view(kept@) =~= prev.push(ev[i as int]));
        }
        i += 1;
    }
    assert(ev.take(n as int) =~= ev);
    proof {
        lemma_keep_seen_sorted(ev, sv);
        assert(string_keys(kept@) =~= key_view(kept@).map_values(|e: (Seq<char>, FileScan)| e.0));
    }
    let dropped = kept.len() != n;
    cache.files = kept;
    dropped
}

proof fn lemma_keep_seen_sorted(files: Seq<(Seq<char>, FileScan)>, seen: Seq<Seq<char>>)
    requires
        strictly_sorted(files.map_values(|e: (Seq<char>, FileScan)| e.0)),
    ensures
        strictly_sorted(keep_seen(files, seen).map_values(|e: (Seq<char>, FileScan)| e.0)),
        forall|j: int| 0 <= j < keep_seen(files, seen).len() ==> exists|k: int| 0 <= k < files.len() && #[trigger] keep_seen(files, seen)[j] == files[k],
    decreases files.len(),
{
    let ks = files.map_values(|e: (Seq<char>, FileScan)| e.0);
    if files.len() > 0 {
        let init = files.drop_last();
        let ki = init.map_values(|e: (Seq<char>, FileScan)| e.0);
        assert(ki =~= ks.drop_last());
        lemma_keep_seen_sorted(init, seen);
        let t = keep_seen(init, seen);
        let r = keep_seen(files, seen);
        let tk = t.map_values(|e: (Seq<char>, FileScan)| e.0);
        let rk = r.map_values(|e: (Seq<char>, FileScan)| e.0);
        if seen.contains(files.last().0) {
            assert forall|a: int, b: int| 0 <= a < b < rk.len() implies crate::text::seq_lt(#[trigger] rk[a], #[trigger] rk[b]) by {
                if b < tk.len() {
                    assert(rk[a] == tk[a] && rk[b] == tk[b]);
                } else {
                    let k = choose|k: int| 0 <= k < init.len() && t[a] == init[k];
                    assert(rk[a] == ks[k]);
                    assert(rk[b] == ks[files.len() - 1]);
                }
            }
            assert forall|j: int| 0 <= j < r.len() implies exists|k: int| 0 <= k < files.len() && #[trigger] r[j] == files[k] by {
                if j < t.len() {
                    let k = choose|k: int| 0 <= k < init.len() && t[j] == init[k];
                    assert(r[j] == files[k]);
                } else {
                    assert(r[j] == files[files.len() - 1]);
                }
            }
        } else {
            assert(rk =~= tk);
            assert forall|j: int| 0 <= j < r.len() implies exists|k: int| 0 <= k < files.len() && #[trigger] r[j] == files[k] by {
                let k = choose|k: int| 0 <= k < init.len() && t[j] == init[k];
                assert(r[j] == files[k]);
            }
        }
    } else {
        assert(keep_seen(files, seen).map_values(|e: (Seq<char>, FileScan)| e.0) =~= Seq::<Seq<char>>::empty());
    }
}

/// The records of all cached files, in path order.
pub open spec fn flatten(files: Seq<(Seq<char>, FileScan)>) -> Seq<UsageRecord>
    decreases files.len(),
{
    if files.len() == 0 {
        Seq::empty()
    } else {
        flatten(files.drop_last()) + files.last().1.records@
    }
}

/// Stable insertion of `x`: after every record no later than it.
pub open spec fn insert_by_time(s: Seq<UsageRecord>, x: UsageRecord) -> Seq<UsageRecord>
    decreases s.len(),
{
    if s.len() == 0 || s.last().ts_ms <= x.ts_ms {
        s.push(x)
    } else {
        insert_by_time(s.drop_last(), x).push(s.last())
    }
}

/// The stable sort by time (`sort_by_key(|r| r.ts_ms)`).
pub open spec fn sort_by_time(s: Seq<UsageRecord>) -> Seq<UsageRecord>
    decreases s.len(),
{
    if s.len() == 0 {
        s
    } else {
        insert_by_time(sort_by_time(s.drop_last()), s.last())
    }
}

proof fn lemma_insert_time_at(s: Seq<UsageRecord>, x: UsageRecord, p: int)
    requires
        0 <= p <= s.len(),
        forall|k: int| p <= k < s.len() ==> x.ts_ms < (#[trigger] s[k]).ts_ms,
        p == 0 || s[p - 1].ts_ms <= x.ts_ms,
    ensures
        insert_by_time(s, x) == s.take(p).push(x) + s.skip(p),
    decreases s.len(),
{
    if p == s.len() {
        assert(s.take(p) == s);
        assert(s.take(p).push(x) + s.skip(p) =~= s.push(x));
    } else {
        assert(x.ts_ms < s[s.len() - 1].ts_ms);
        let t = s.drop_last();
        assert forall|k: int| p <= k < t.len() implies x.ts_ms < (#[trigger] t[k]).ts_ms by {
            assert(t[k] == s[k]);
        }
        if p > 0 {
            assert(t[p - 1] == s[p - 1]);
        }
        lemma_insert_time_at(t, x, p);
        assert(t.take(p) == s.take(p));
        assert(t.skip(p).push(s.last()) =~= s.skip(p));
        assert((t.take(p).push(x) + t.skip(p)).push(s.last()) =~= s.take(p).push(x) + s.skip(p));
    }
}

/// Sorts records by time, stably.
pub fn sort_records_by_time(v: &Vec<UsageRecord>) -> (out: Vec<UsageRecord>)
    ensures
        out@ == sort_by_time(v@),
{
    let mut out: Vec<UsageRecord> = Vec::new();
    let mut i: usize = 0;
    assert(v@.take(0) =~= Seq::<UsageRecord>::empty());
    while i < v.len()
        invariant
            i <= v.len(),
            out@ == sort_by_time(v@.take(i as int)),
        decreases v.len() - i,
    {
        let x = v[i].duplicate();
        let mut p: usize = out.len();
        while p > 0 && x.ts_ms < out[p - 1].ts_ms
            invariant
                p <= out.len(),
                forall|k: int| p <= k < out.len() ==> x.ts_ms < (#[trigger] out@[k]).ts_ms,
            decreases p,
        {
            p -= 1;
        }
        proof {
            lemma_insert_time_at(out@, x, p as int);
            assert(v@.take(i + 1).drop_last() =~= v@.take(i as int));
            assert(v@.take(i + 1).last() == x);
        }
        let ghost prev = out@;
        out.insert(p, x);
        assert(out@ =~= prev.take(p as int).push(x) + prev.skip(p as int));
        i += 1;
    }
    assert(v@.take(v.len() as int) =~= v@);
    out
}

/// Every cached usage record, sorted by time (stably, from path order).
pub fn all_records(cache: &ScanCache) -> (out: Vec<UsageRecord>)
    ensures
        out@ == sort_by_time(flatten(cache.entries())),
{
    let ghost ev = cache.entries();
    let mut flat: Vec<UsageRecord> = Vec::new();
    let mut i: usize = 0;
    assert(ev.take(0) =~= Seq::<(Seq<char>, FileScan)>::empty());
    while i < cache.files.len()
        invariant
            i <= cache.files.len(),
            ev == cache.entries(),
            flat@ == flatten(ev.take(i as int)),
        decreases cache.files.len() - i,
    {
        let recs = &cache.files[i].1.records;
        let ghost base = flat@;
        let mut j: usize = 0;
        assert(recs@.take(0) =~= Seq::<UsageRecord>::empty());
        while j < recs.len()
            invariant
                j <= recs.len(),
                flat@ == base + recs@.take(j as int),
            decreases recs.len() - j,
        {
            flat.push(recs[j].duplicate());
            j += 1;
            assert(flat@ =~= base + recs@.take(j as int));
        }
        proof {
            assert(recs@.take(recs.len() as int) =~= recs@);
            assert(ev.take(i + 1).drop_last() =~= ev.take(i as int));
            assert(ev.take(i + 1).last() == ev[i as int]);
            assert(ev[i as int].1 == cache.files@[i as int].1);
        }
        i += 1;
    }
    assert(ev.take(cache.files.len() as int) =~= ev);
    sort_records_by_time(&flat)
}

proof fn lemma_scan_of_upsert(files: Seq<(Seq<char>, FileScan)>, path: Seq<char>, scan: FileScan)
    ensures
        scan_of(upsert(files, path, replace_with(scan)), path) == Some(scan),
    decreases files.len(),
{
    if files.len() > 0 && files[0].0 != path && !crate::text::seq_lt(path, files[0].0) {
        lemma_scan_of_upsert(files.drop_first(), path, scan);
        assert(upsert(files, path, replace_with(scan)).drop_first() =~= upsert(files.drop_first(), path, replace_with(scan)));
    }
}

/// A file just stored needs no rescan while its identity stays the same.
pub proof fn law_stored_scan_is_fresh(files: Seq<(Seq<char>, FileScan)>, path: Seq<char>, mtime: i64, size: u64, records: Vec<UsageRecord>)
    ensures
        !needs_scan_spec(upsert(files, path, replace_with(FileScan { mtime, size, records })), path, mtime, size),
{
    lemma_scan_of_upsert(files, path, FileScan { mtime, size, records });
}

/// The Kimi list prices, in yuan per million tokens: kimi-for-coding
/// 6.5 in / 27 out / 1.3 cached, its highspeed tier 13 / 54 / 2.6, k3
/// 20 / 100 / 2 and k3-256k 10 / 50 / 1. A request costs its input and
/// cache-write tokens at the input rate, its output and cached reads at
/// theirs (in 10⁻⁷ yuan); any other model has no price and costs nothing.
pub proof fn law_kimi_price_list(t: TokenCount, other: Seq<char>)
    requires
        other != "kimi-for-coding"@,
        other != "kimi-for-coding-highspeed"@,
        other != "k3"@,
        other != "k3-256k"@,
    ensures
        kimi_price_spec("kimi-for-coding"@) == Some(ModelPrice { input: 65, output: 270, cache_read: 13 }),
        kimi_price_spec("kimi-for-coding-highspeed"@) == Some(ModelPrice { input: 130, output: 540, cache_read: 26 }),
        kimi_price_spec("k3"@) == Some(ModelPrice { input: 200, output: 1000, cache_read: 20 }),
        kimi_price_spec("k3-256k"@) == Some(ModelPrice { input: 100, output: 500, cache_read: 10 }),
        kimi_price_spec(other) is None,
        kimi_cost("kimi-for-coding"@, t) == (t.input + t.cache_write) * 65 + t.output * 270 + t.cache_read * 13,
        kimi_cost("kimi-for-coding-highspeed"@, t) == (t.input + t.cache_write) * 130 + t.output * 540 + t.cache_read
            * 26,
        kimi_cost("k3"@, t) == (t.input + t.cache_write) * 200 + t.output * 1000 + t.cache_read * 20,
        kimi_cost("k3-256k"@, t) == (t.input + t.cache_write) * 100 + t.output * 500 + t.cache_read * 10,
        kimi_cost(other, t) == 0,
        2 * kimi_cost("k3-256k"@, t) == kimi_cost("k3"@, t),
        kimi_cost("kimi-for-coding-highspeed"@, t) == 2 * kimi_cost("kimi-for-coding"@, t),
{
    reveal_strlit("kimi-for-coding");
    reveal_strlit("kimi-for-coding-highspeed");
    reveal_strlit("k3");
    reveal_strlit("k3-256k");
    assert("kimi-for-coding"@.len() == 15 && "kimi-for-coding-highspeed"@.len() == 25);
    assert("k3"@.len() == 2 && "k3-256k"@.len() == 7);
    assert("kimi-for-coding"@ != "kimi-for-coding-highspeed"@);
    assert("kimi-for-coding"@ != "k3"@);
    assert("kimi-for-coding"@ != "k3-256k"@);
    assert("kimi-for-coding-highspeed"@ != "k3"@);
    assert("kimi-for-coding-highspeed"@ != "k3-256k"@);
    assert("k3"@ != "k3-256k"@);
}

} // verus!
