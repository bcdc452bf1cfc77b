//! Tasks ("memos"): their record, the priority cycle, and the urgency order
//! shared by the panel list and the island tips.

use crate::clock;
use crate::clock::{
    calendar_time, julian_of_date, lemma_date_of_julian_of, lemma_julian_range, lemma_local_time_roundtrip,
    local_time, local_time_spec, max_ts, min_ts, spec_julian_of, timestamp_of, valid_date, LocalClock,
    LocalTime, EPOCH_JULIAN, MAX_JULIAN, MIN_JULIAN,
};
use crate::text::{
    all_digits, dec, dec_int, digit_value, digits_value, i64_digits, is_digit, lemma_dec_parses,
    is_prefix, lemma_dec_four, lemma_dec_int_first, lemma_digit_eq, lemma_digits_unique, lemma_zero_pad_first,
    lemma_zero_pad_two, padded, push_all, push_str, string_of, u64_digits,
    zero_pad,
};
use vstd::prelude::*;

verus! {

/// Three-level priority. `None` on the memo means unset.
#[derive(Clone, Copy, PartialEq, Eq, Debug, Structural)]
pub enum Priority {
    Low,
    Medium,
    High,
}

/// Cycle order for the flag button: None → Low → Medium → High → None.
pub fn next_priority(p: Option<Priority>) -> (r: Option<Priority>)
    ensures
        r == match p {
            None => Some(Priority::Low),
            Some(Priority::Low) => Some(Priority::Medium),
            Some(Priority::Medium) => Some(Priority::High),
            Some(Priority::High) => None::<Priority>,
        },
{
    match p {
        None => Some(Priority::Low),
        Some(Priority::Low) => Some(Priority::Medium),
        Some(Priority::Medium) => Some(Priority::High),
        Some(Priority::High) => None,
    }
}

/// One task. Every attribute beyond the text is optional, so quick capture
/// stays a single Enter keystroke.
#[derive(Debug)]
pub struct Memo {
    pub id: String,
    pub content: String,
    pub created_at: i64,
    pub updated_at: i64,
    pub done: bool,
    pub completed_at: Option<i64>,
    pub priority: Option<Priority>,
    pub due: Option<i64>,
}

impl Memo {
    /// An identical copy.
    pub fn duplicate(&self) -> (r: Memo)
        ensures
            r == *self,
    {
        Memo {
            id: self.id.clone(),
            content: self.content.clone(),
            created_at: self.created_at,
            updated_at: self.updated_at,
            done: self.done,
            completed_at: self.completed_at,
            priority: self.priority,
            due: self.due,
        }
    }

    /// A fresh, undone task with no attributes, created and updated at
    /// `now`.
    pub fn with_id(id: String, content: String, now: i64) -> (m: Memo)
        ensures
            m.id == id,
            m.content == content,
            m.created_at == now,
            m.updated_at == now,
            !m.done,
            m.completed_at is None,
            m.priority is None,
            m.due is None,
    {
        Memo {
            id,
            content,
            created_at: now,
            updated_at: now,
            done: false,
            completed_at: None,
            priority: None,
            due: None,
        }
    }

    /// A new task with a random id, created now.
    pub fn new(content: String) -> (m: Memo)
        ensures
            m.content == content,
            m.created_at == m.updated_at,
            !m.done,
            m.completed_at is None,
            m.priority is None,
            m.due is None,
    {
        let now = clock::unix_now();
        Memo::with_id(clock::new_id(), content, now)
    }

    /// Past its due time at `now` and not done yet.
    pub open spec fn overdue_at(&self, now: i64) -> bool {
        !self.done && (self.due matches Some(d) && d < now)
    }

    /// Past its due time (`now`) and not done yet.
    pub fn is_overdue_at(&self, now: i64) -> (r: bool)
        ensures
            r == self.overdue_at(now),
    {
        !self.done && match self.due {
            Some(d) => d < now,
            None => false,
        }
    }

    /// Past its due time and not done yet — displayed in red.
    pub fn is_overdue(&self) -> (r: bool)
        ensures
            exists|now: i64| r == #[trigger] self.overdue_at(now),
    {
        self.is_overdue_at(clock::unix_now())
    }
}

// ---------------------------------------------------------------------------
// Urgency order
// ---------------------------------------------------------------------------

pub open spec fn due_rank_spec(due: Option<i64>) -> (int, int) {
    match due {
        Some(t) => (0, t as int),
        None => (1, i64::MAX as int),
    }
}

pub open spec fn priority_rank_spec(p: Option<Priority>) -> int {
    match p {
        Some(Priority::High) => 0,
        Some(Priority::Medium) => 1,
        Some(Priority::Low) => 2,
        None => 3,
    }
}

/// Tasks with a due time first, soonest first (overdue floats to the top on
/// its own); then without one.
pub fn due_rank(due: Option<i64>) -> (r: (u8, i64))
    ensures
        (r.0 as int, r.1 as int) == due_rank_spec(due),
{
    match due {
        Some(t) => (0, t),
        None => (1, i64::MAX),
    }
}

/// High → Medium → Low → unset.
pub fn priority_rank(p: Option<Priority>) -> (r: u8)
    ensures
        r as int == priority_rank_spec(p),
{
    match p {
        Some(Priority::High) => 0,
        Some(Priority::Medium) => 1,
        Some(Priority::Low) => 2,
        None => 3,
    }
}

/// `a` is strictly more urgent than `b`: due rank, then priority rank, then
/// the most recently touched first.
pub open spec fn urgency_lt(a: Memo, b: Memo) -> bool {
    let (a0, a1) = due_rank_spec(a.due);
    let (b0, b1) = due_rank_spec(b.due);
    let pa = priority_rank_spec(a.priority);
    let pb = priority_rank_spec(b.priority);
    ||| a0 < b0
    ||| a0 == b0 && a1 < b1
    ||| a0 == b0 && a1 == b1 && pa < pb
    ||| a0 == b0 && a1 == b1 && pa == pb && a.updated_at > b.updated_at
}

/// `a` and `b` tie in the urgency order.
pub open spec fn urgency_tie(a: Memo, b: Memo) -> bool {
    &&& due_rank_spec(a.due) == due_rank_spec(b.due)
    &&& priority_rank_spec(a.priority) == priority_rank_spec(b.priority)
    &&& a.updated_at == b.updated_at
}

/// Active-list ordering, shared by the panel list and the island tips:
/// due-soonest first, then priority High → Low, then most recently touched.
pub fn urgency_cmp(a: &Memo, b: &Memo) -> (o: std::cmp::Ordering)
    ensures
        (o == std::cmp::Ordering::Less) == urgency_lt(*a, *b),
        (o == std::cmp::Ordering::Greater) == urgency_lt(*b, *a),
        (o == std::cmp::Ordering::Equal) == urgency_tie(*a, *b),
{
    let da = due_rank(a.due);
    let db = due_rank(b.due);
    let pa = priority_rank(a.priority);
    let pb = priority_rank(b.priority);
    if da.0 < db.0 {
        std::cmp::Ordering::Less
    } else if da.0 > db.0 {
        std::cmp::Ordering::Greater
    } else if da.1 < db.1 {
        std::cmp::Ordering::Less
    } else if da.1 > db.1 {
        std::cmp::Ordering::Greater
    } else if pa < pb {
        std::cmp::Ordering::Less
    } else if pa > pb {
        std::cmp::Ordering::Greater
    } else if b.updated_at < a.updated_at {
        std::cmp::Ordering::Less
    } else if b.updated_at > a.updated_at {
        std::cmp::Ordering::Greater
    } else {
        std::cmp::Ordering::Equal
    }
}

fn more_urgent(a: &Memo, b: &Memo) -> (r: bool)
    ensures
        r == urgency_lt(*a, *b),
{
    let da = due_rank(a.due);
    let db = due_rank(b.due);
    let pa = priority_rank(a.priority);
    let pb = priority_rank(b.priority);
    da.0 < db.0 || (da.0 == db.0 && da.1 < db.1) || (da.0 == db.0 && da.1 == db.1 && pa < pb) || (
    da.0 == db.0 && da.1 == db.1 && pa == pb && a.updated_at > b.updated_at)
}

/// Stable insertion of `x` into `s`: after every element it is not more
/// urgent than.
pub open spec fn insert_by_urgency(s: Seq<Memo>, x: Memo) -> Seq<Memo>
    decreases s.len(),
{
    if s.len() == 0 || !urgency_lt(x, s.last()) {
        s.push(x)
    } else {
        insert_by_urgency(s.drop_last(), x).push(s.last())
    }
}

/// The stable sort of `s` by urgency (what `sort_by(urgency_cmp)` yields).
pub open spec fn sort_by_urgency(s: Seq<Memo>) -> Seq<Memo>
    decreases s.len(),
{
    if s.len() == 0 {
        s
    } else {
        insert_by_urgency(sort_by_urgency(s.drop_last()), s.last())
    }
}

pub open spec fn urgency_sorted(s: Seq<Memo>) -> bool {
    forall|i: int, j: int| 0 <= i < j < s.len() ==> !urgency_lt(#[trigger] s[j], #[trigger] s[i])
}

proof fn lemma_insert_at(s: Seq<Memo>, x: Memo, p: int)
    requires
        0 <= p <= s.len(),
        forall|k: int| p <= k < s.len() ==> urgency_lt(x, #[trigger] s[k]),
        p == 0 || !urgency_lt(x, s[p - 1]),
    ensures
        insert_by_urgency(s, x) == s.take(p).push(x) + s.skip(p),
    decreases s.len(),
{
    if p == s.len() {
        assert(s.take(p) == s);
        assert(s.skip(p) =~= Seq::<Memo>::empty());
        assert(s.take(p).push(x) + s.skip(p) =~= s.push(x));
    } else {
        assert(urgency_lt(x, s[s.len() - 1]));
        let t = s.drop_last();
        assert forall|k: int| p <= k < t.len() implies urgency_lt(x, #[trigger] t[k]) by {
            assert(t[k] == s[k]);
        }
        if p > 0 {
            assert(t[p - 1] == s[p - 1]);
        }
        lemma_insert_at(t, x, p);
        assert(t.take(p) == s.take(p));
        assert(t.skip(p).push(s.last()) =~= s.skip(p));
        assert((t.take(p).push(x) + t.skip(p)).push(s.last()) =~= s.take(p).push(x) + s.skip(p));
    }
}

proof fn lemma_insert_multiset(s: Seq<Memo>, x: Memo)
    ensures
        insert_by_urgency(s, x).to_multiset() == s.to_multiset().insert(x),
        insert_by_urgency(s, x).len() == s.len() + 1,
    decreases s.len(),
{
    broadcast use vstd::seq_lib::to_multiset_build;
    broadcast use vstd::multiset::group_multiset_axioms;

    if s.len() == 0 || !urgency_lt(x, s.last()) {
    } else {
        lemma_insert_multiset(s.drop_last(), x);
        assert(s.drop_last().push(s.last()) == s);
        assert(s.to_multiset() =~= s.drop_last().to_multiset().insert(s.last()));
        assert(insert_by_urgency(s, x).to_multiset() =~= s.to_multiset().insert(x));
    }
}

proof fn lemma_urgency_total(a: Memo, b: Memo)
    ensures
        urgency_lt(a, b) || urgency_lt(b, a) || urgency_tie(a, b),
        !(urgency_lt(a, b) && urgency_lt(b, a)),
{
}

proof fn lemma_urgency_trans(a: Memo, b: Memo, c: Memo)
    ensures
        !urgency_lt(b, a) && !urgency_lt(c, b) ==> !urgency_lt(c, a),
{
}

proof fn lemma_insert_sorted(s: Seq<Memo>, x: Memo)
    requires
        urgency_sorted(s),
    ensures
        urgency_sorted(insert_by_urgency(s, x)),
    decreases s.len(),
{
    let r = insert_by_urgency(s, x);
    if s.len() == 0 || !urgency_lt(x, s.last()) {
        assert forall|i: int, j: int| 0 <= i < j < r.len() implies !urgency_lt(#[trigger] r[j], #[trigger] r[i]) by {
            if j == s.len() {
                lemma_urgency_trans(r[i], s.last(), x);
                if i < s.len() - 1 {
                    assert(!urgency_lt(s[s.len() - 1], s[i]));
                }
            }
        }
    } else {
        let t = s.drop_last();
        assert forall|i: int, j: int| 0 <= i < j < t.len() implies !urgency_lt(#[trigger] t[j], #[trigger] t[i]) by {
            assert(t[i] == s[i] && t[j] == s[j]);
        }
        lemma_insert_sorted(t, x);
        let ti = insert_by_urgency(t, x);
        lemma_insert_multiset(t, x);
        assert forall|i: int, j: int| 0 <= i < j < r.len() implies !urgency_lt(#[trigger] r[j], #[trigger] r[i]) by {
            if j == r.len() - 1 {
                // r[i] is either x or an element of t, all of which precede s.last()
                assert(r[i] == ti[i]);
                assert(ti.to_multiset().count(ti[i]) > 0) by {
                    broadcast use vstd::seq_lib::group_to_multiset_ensures;
                    assert(ti.contains(ti[i]));
                }
                assert(t.to_multiset().insert(x).count(ti[i]) > 0);
                if ti[i] != x {
                    assert(t.to_multiset().count(ti[i]) > 0);
                    assert(t.contains(ti[i])) by {
                        broadcast use vstd::seq_lib::group_to_multiset_ensures;
                    }
                    let k = choose|k: int| 0 <= k < t.len() && t[k] == ti[i];
                    assert(s[k] == t[k]);
                    assert(!urgency_lt(s[s.len() - 1], s[k]));
                } else {
                    lemma_urgency_total(x, s.last());
                }
            } else {
                assert(r[i] == ti[i] && r[j] == ti[j]);
            }
        }
    }
}

/// The stable urgency sort is ordered and is a permutation of its input.
pub proof fn law_urgency_sort_sorted_permutation(s: Seq<Memo>)
    ensures
        urgency_sorted(sort_by_urgency(s)),
        sort_by_urgency(s).to_multiset() == s.to_multiset(),
        sort_by_urgency(s).len() == s.len(),
    decreases s.len(),
{
    broadcast use vstd::seq_lib::to_multiset_build;

    if s.len() > 0 {
        law_urgency_sort_sorted_permutation(s.drop_last());
        lemma_insert_sorted(sort_by_urgency(s.drop_last()), s.last());
        lemma_insert_multiset(sort_by_urgency(s.drop_last()), s.last());
        assert(s.drop_last().push(s.last()) == s);
    }
}

/// Sorts tasks by urgency, stably.
pub fn sort_memos_by_urgency(v: Vec<Memo>) -> (out: Vec<Memo>)
    ensures
        out@ == sort_by_urgency(v@),
{
    let mut src = v;
    let ghost orig = src@;
    let mut out: Vec<Memo> = Vec::new();
    // Consume `src` from the front: reverse it so that `pop` yields the
    // original order.
    let mut rev: Vec<Memo> = Vec::new();
    while src.len() > 0
        invariant
            forall|k: int| 0 <= k < rev.len() ==> #[trigger] rev@[k] == orig[orig.len() - 1 - k],
            src@ == orig.take(orig.len() - rev.len()),
            rev.len() <= orig.len(),
        decreases src.len(),
    {
        let m = src.pop().unwrap();
        rev.push(m);
        proof {
            assert(src@ =~= orig.take(orig.len() - rev.len()));
        }
    }
    let n = rev.len();
    let mut i: usize = 0;
    while rev.len() > 0
        invariant
            i + rev.len() == n == orig.len(),
            forall|k: int| 0 <= k < rev.len() ==> #[trigger] rev@[k] == orig[orig.len() - 1 - k],
            out@ == sort_by_urgency(orig.take(i as int)),
        decreases rev.len(),
    {
        let x = rev.pop().unwrap();
        assert(x == orig[i as int]);
        let mut p: usize = out.len();
        while p > 0 && more_urgent(&x, &out[p - 1])
            invariant
                p <= out.len(),
                forall|k: int| p <= k < out.len() ==> urgency_lt(x, #[trigger] out@[k]),
            decreases p,
        {
            p -= 1;
        }
        proof {
            lemma_insert_at(out@, x, p as int);
            assert(orig.take(i + 1).drop_last() == orig.take(i as int));
            assert(orig.take(i + 1).last() == x);
        }
        out.insert(p, x);
        proof {
            assert(out@ =~= sort_by_urgency(orig.take(i as int)).take(p as int).push(x) + sort_by_urgency(
                orig.take(i as int),
            ).skip(p as int));
        }
        i += 1;
    }
    assert(orig.take(n as int) == orig);
    out
}

// ---------------------------------------------------------------------------
// Time labels
// ---------------------------------------------------------------------------

/// `a.saturating_sub(b)` on `i64`.
pub open spec fn sat_sub(a: int, b: int) -> int {
    if a - b > i64::MAX {
        i64::MAX as int
    } else if a - b < i64::MIN {
        i64::MIN as int
    } else {
        a - b
    }
}

/// "MM-DD".
pub open spec fn month_day(l: LocalTime) -> Seq<char> {
    zero_pad(l.month as int, 2) + "-"@ + zero_pad(l.day as int, 2)
}

/// "Y-MM-DD", the year as `{}` prints it.
pub open spec fn full_date(l: LocalTime) -> Seq<char> {
    dec_int(l.year as int) + "-"@ + month_day(l)
}

/// "HH:MM".
pub open spec fn hour_minute(l: LocalTime) -> Seq<char> {
    zero_pad(l.hour as int, 2) + ":"@ + zero_pad(l.minute as int, 2)
}

/// The local date and time of the clock's instant.
pub open spec fn now_local(c: LocalClock) -> Option<LocalTime> {
    local_time_spec(c.now as int, c.offset as int)
}

/// An absolute date: "MM-DD" in the current year, the full date otherwise;
/// empty for a time outside the calendar.
pub open spec fn format_date_spec(ts: int, c: LocalClock) -> Seq<char> {
    match local_time_spec(ts, c.offset as int) {
        None => Seq::empty(),
        Some(l) => if (now_local(c) matches Some(n) && n.year == l.year) {
            month_day(l)
        } else {
            full_date(l)
        },
    }
}

/// How long ago `ts` was: "just now", "Nm ago", "Nh ago", "Nd ago", and the
/// absolute date from a week on.
pub open spec fn time_ago_spec(ts: int, c: LocalClock) -> Seq<char> {
    let s = sat_sub(c.now as int, ts);
    if s < 60 {
        "just now"@
    } else if s < 3600 {
        dec((s / 60) as nat) + "m ago"@
    } else if s < 86400 {
        dec((s / 3600) as nat) + "h ago"@
    } else if s < 604800 {
        dec((s / 86400) as nat) + "d ago"@
    } else {
        format_date_spec(ts, c)
    }
}

/// Due label for list rows: "Today HH:MM", "Tomorrow HH:MM", "MM-DD HH:MM"
/// in the current year, the full date and time otherwise.
pub open spec fn due_label_spec(ts: int, c: LocalClock) -> Seq<char> {
    match local_time_spec(ts, c.offset as int) {
        None => Seq::empty(),
        Some(l) => match now_local(c) {
            Some(n) => if l.julian == n.julian {
                "Today "@ + hour_minute(l)
            } else if l.julian == n.julian + 1 {
                "Tomorrow "@ + hour_minute(l)
            } else if l.year == n.year {
                month_day(l) + " "@ + hour_minute(l)
            } else {
                full_date(l) + " "@ + hour_minute(l)
            },
            None => full_date(l) + " "@ + hour_minute(l),
        },
    }
}

/// Compact due label for the island pill: "HH:MM" today, "Tomorrow",
/// "MM-DD" in the current year, the full date otherwise.
pub open spec fn due_label_short_spec(ts: int, c: LocalClock) -> Seq<char> {
    match local_time_spec(ts, c.offset as int) {
        None => Seq::empty(),
        Some(l) => match now_local(c) {
            Some(n) => if l.julian == n.julian {
                hour_minute(l)
            } else if l.julian == n.julian + 1 {
                "Tomorrow"@
            } else if l.year == n.year {
                month_day(l)
            } else {
                full_date(l)
            },
            None => full_date(l),
        },
    }
}

/// `days_ahead` days from today at `hour:minute` local time.
pub open spec fn preset_due_spec(days_ahead: int, hour: int, minute: int, c: LocalClock) -> Option<int> {
    match now_local(c) {
        None => None,
        Some(n) => {
            let j = n.julian + days_ahead;
            if j < MIN_JULIAN || j > MAX_JULIAN || hour > 23 || minute > 59 {
                None
            } else {
                Some(timestamp_of(j, hour, minute, 0, c.offset as int))
            }
        },
    }
}

/// The "YYYY-MM-DDTHH:MM" value of a datetime-local input.
pub open spec fn local_input_spec(ts: int, off: int) -> Seq<char> {
    match local_time_spec(ts, off) {
        None => Seq::empty(),
        Some(l) => full_date(l) + "T"@ + hour_minute(l),
    }
}

fn push_two(v: &mut Vec<char>, n: u8)
    ensures
        final(v)@ == old(v)@ + zero_pad(n as int, 2),
{
    let p = padded(n as i64, 2);
    push_all(v, p.as_slice());
}

fn push_month_day(v: &mut Vec<char>, l: LocalTime)
    ensures
        final(v)@ == old(v)@ + month_day(l),
{
    push_two(v, l.month);
    v.push('-');
    push_two(v, l.day);
    proof {
        reveal_strlit("-");
    }
    assert(v@ =~= old(v)@ + month_day(l));
}

fn push_full_date(v: &mut Vec<char>, l: LocalTime)
    ensures
        final(v)@ == old(v)@ + full_date(l),
{
    let y = i64_digits(l.year as i64);
    push_all(v, y.as_slice());
    v.push('-');
    push_month_day(v, l);
    proof {
        reveal_strlit("-");
    }
    assert(v@ =~= old(v)@ + full_date(l));
}

fn push_hour_minute(v: &mut Vec<char>, l: LocalTime)
    ensures
        final(v)@ == old(v)@ + hour_minute(l),
{
    push_two(v, l.hour);
    v.push(':');
    push_two(v, l.minute);
    proof {
        reveal_strlit(":");
    }
    assert(v@ =~= old(v)@ + hour_minute(l));
}

/// The absolute date of `ts` at clock `c`.
pub fn format_date_at(ts: i64, c: LocalClock) -> (r: String)
    requires
        c.wf(),
    ensures
        r@ == format_date_spec(ts as int, c),
{
    let mut v: Vec<char> = Vec::new();
    match local_time(ts, c.offset) {
        None => {},
        Some(l) => {
            let same_year = match local_time(c.now, c.offset) {
                Some(n) => n.year == l.year,
                None => false,
            };
            if same_year {
                push_month_day(&mut v, l);
            } else {
                push_full_date(&mut v, l);
            }
        },
    }
    assert(v@ =~= format_date_spec(ts as int, c));
    string_of(v.as_slice())
}

/// Older than a week: an absolute date ("MM-DD" this year, the full date
/// across years) instead of an ever-growing "Nw ago".
pub fn format_date(timestamp: i64) -> (r: String)
    ensures
        exists|c: LocalClock| #[trigger] c.wf() && r@ == format_date_spec(timestamp as int, c),
{
    let c = clock::local_clock();
    format_date_at(timestamp, c)
}

fn count_label(n: i64, unit: &str) -> (r: String)
    requires
        n >= 0,
    ensures
        r@ == dec(n as nat) + unit@,
{
    let mut v = u64_digits(n as u64);
    push_str(&mut v, unit);
    string_of(v.as_slice())
}

/// How long ago `ts` was at clock `c`.
pub fn time_ago_at(ts: i64, c: LocalClock) -> (r: String)
    requires
        c.wf(),
    ensures
        r@ == time_ago_spec(ts as int, c),
{
    let d: i128 = c.now as i128 - ts as i128;
    let s: i64 = if d > i64::MAX as i128 {
        i64::MAX
    } else if d < i64::MIN as i128 {
        i64::MIN
    } else {
        d as i64
    };
    if s < 60 {
        let r = String::from_str("just now");
        proof {
            reveal_strlit("just now");
        }
        r
    } else if s < 3600 {
        count_label(s / 60, "m ago")
    } else if s < 86400 {
        count_label(s / 3600, "h ago")
    } else if s < 604800 {
        count_label(s / 86400, "d ago")
    } else {
        format_date_at(ts, c)
    }
}

/// "just now", "5m ago", "3h ago", "2d ago", then the absolute date.
pub fn time_ago(timestamp: i64) -> (r: String)
    ensures
        exists|c: LocalClock| #[trigger] c.wf() && r@ == time_ago_spec(timestamp as int, c),
{
    let c = clock::local_clock();
    time_ago_at(timestamp, c)
}

/// Due label of `ts` at clock `c`.
pub fn due_label_at(ts: i64, c: LocalClock) -> (r: String)
    requires
        c.wf(),
    ensures
        r@ == due_label_spec(ts as int, c),
{
    let mut v: Vec<char> = Vec::new();
    match local_time(ts, c.offset) {
        None => {},
        Some(l) => {
            match local_time(c.now, c.offset) {
                Some(n) => {
                    if l.julian == n.julian {
                        push_str(&mut v, "Today ");
                    } else if l.julian as i64 == n.julian as i64 + 1 {
                        push_str(&mut v, "Tomorrow ");
                    } else if l.year == n.year {
                        push_month_day(&mut v, l);
                        v.push(' ');
                    } else {
                        push_full_date(&mut v, l);
                        v.push(' ');
                    }
                },
                None => {
                    push_full_date(&mut v, l);
                    v.push(' ');
                },
            }
            push_hour_minute(&mut v, l);
        },
    }
    proof {
        reveal_strlit("Today ");
        reveal_strlit("Tomorrow ");
        reveal_strlit(" ");
    }
    assert(v@ =~= due_label_spec(ts as int, c));
    string_of(v.as_slice())
}

/// Due time for list rows: "Today 18:00" / "Tomorrow 09:00" / "08-02 14:30"
/// (the full date across years).
pub fn due_label(timestamp: i64) -> (r: String)
    ensures
        exists|c: LocalClock| #[trigger] c.wf() && r@ == due_label_spec(timestamp as int, c),
{
    let c = clock::local_clock();
    due_label_at(timestamp, c)
}

/// Compact due label of `ts` at clock `c`.
pub fn due_label_short_at(ts: i64, c: LocalClock) -> (r: String)
    requires
        c.wf(),
    ensures
        r@ == due_label_short_spec(ts as int, c),
{
    let mut v: Vec<char> = Vec::new();
    match local_time(ts, c.offset) {
        None => {},
        Some(l) => {
            match local_time(c.now, c.offset) {
                Some(n) => {
                    if l.julian == n.julian {
                        push_hour_minute(&mut v, l);
                    } else if l.julian as i64 == n.julian as i64 + 1 {
                        push_str(&mut v, "Tomorrow");
                    } else if l.year == n.year {
                        push_month_day(&mut v, l);
                    } else {
                        push_full_date(&mut v, l);
                    }
                },
                None => {
                    push_full_date(&mut v, l);
                },
            }
        },
    }
    proof {
        reveal_strlit("Tomorrow");
    }
    assert(v@ =~= due_label_short_spec(ts as int, c));
    string_of(v.as_slice())
}

/// Compact due label for the island pill: "18:00" today, "Tomorrow",
/// "08-02".
pub fn due_label_short(timestamp: i64) -> (r: String)
    ensures
        exists|c: LocalClock| #[trigger] c.wf() && r@ == due_label_short_spec(timestamp as int, c),
{
    let c = clock::local_clock();
    due_label_short_at(timestamp, c)
}

/// The due time `days_ahead` days from today at `hour:minute`, at clock `c`.
pub fn preset_due_at(days_ahead: i64, hour: u8, minute: u8, c: LocalClock) -> (r: Option<i64>)
    requires
        c.wf(),
    ensures
        (match r {
            Some(t) => Some(t as int),
            None => None,
        }) == preset_due_spec(days_ahead as int, hour as int, minute as int, c),
{
    let n = match local_time(c.now, c.offset) {
        Some(n) => n,
        None => return None,
    };
    let j: i128 = n.julian as i128 + days_ahead as i128;
    if j < MIN_JULIAN as i128 || j > MAX_JULIAN as i128 || hour > 23 || minute > 59 {
        return None;
    }
    let jd: i64 = j as i64;
    let t: i64 = (jd - EPOCH_JULIAN) * 86400 + (hour as i64) * 3600 + (minute as i64) * 60 - c.offset as i64;
    Some(t)
}

/// Due-time presets: `days_ahead` days from today at a fixed local time.
/// None for an hour or minute out of range, or a day outside the calendar.
pub fn preset_due(days_ahead: i64, hour: u8, minute: u8) -> (r: Option<i64>)
    ensures
        exists|c: LocalClock| #[trigger] c.wf() && (match r {
            Some(t) => Some(t as int),
            None => None,
        }) == preset_due_spec(days_ahead as int, hour as int, minute as int, c),
{
    let c = clock::local_clock();
    preset_due_at(days_ahead, hour, minute, c)
}

/// The datetime-local value of `ts` at offset `offset`.
pub fn to_local_input_at(ts: i64, offset: i32) -> (r: String)
    requires
        -93599 <= offset <= 93599,
    ensures
        r@ == local_input_spec(ts as int, offset as int),
{
    let mut v: Vec<char> = Vec::new();
    match local_time(ts, offset) {
        None => {},
        Some(l) => {
            push_full_date(&mut v, l);
            v.push('T');
            push_hour_minute(&mut v, l);
        },
    }
    proof {
        reveal_strlit("T");
    }
    assert(v@ =~= local_input_spec(ts as int, offset as int));
    string_of(v.as_slice())
}

/// Inverse of `parse_local_datetime`: prefills a datetime-local input.
pub fn to_local_input(timestamp: i64) -> (r: String)
    ensures
        exists|off: int| -93599 <= off <= 93599 && r@ == #[trigger] local_input_spec(timestamp as int, off),
{
    let off = clock::local_offset_seconds();
    to_local_input_at(timestamp, off)
}

// ---------------------------------------------------------------------------
// Reading a datetime-local value
// ---------------------------------------------------------------------------

pub open spec fn two_digits_at(b: Seq<char>, i: int) -> bool {
    is_digit(b[i]) && is_digit(b[i + 1])
}

pub open spec fn two_value_at(b: Seq<char>, i: int) -> int {
    (digit_value(b[i]) * 10 + digit_value(b[i + 1])) as int
}

/// The text `[year]-[month]-[day]T[hour]:[minute]` describes: an optional
/// sign and exactly four year digits, then two digits each for the month,
/// the day, the hour and the minute, separated by '-', '-', 'T' and ':';
/// the fields must make a calendar date and a time of day. The fields as
/// (year, month, day, hour, minute).
pub open spec fn local_input_fields(s: Seq<char>) -> Option<(int, int, int, int, int)> {
    let signed = s.len() > 0 && (s[0] == '+' || s[0] == '-');
    let b = if signed { s.drop_first() } else { s };
    if b.len() == 16 && all_digits(b.take(4)) && b[4] == '-' && two_digits_at(b, 5) && b[7] == '-'
        && two_digits_at(b, 8) && b[10] == 'T' && two_digits_at(b, 11) && b[13] == ':'
        && two_digits_at(b, 14) {
        let y0 = digits_value(b.take(4)) as int;
        let y = if signed && s[0] == '-' { -y0 } else { y0 };
        let m = two_value_at(b, 5);
        let d = two_value_at(b, 8);
        let h = two_value_at(b, 11);
        let mi = two_value_at(b, 14);
        if valid_date(y, m, d) && h < 24 && mi < 60 {
            Some((y, m, d, h, mi))
        } else {
            None
        }
    } else {
        None
    }
}

/// `time::PrimitiveDateTime::parse(s, ..)` with the description
/// `[year]-[month]-[day]T[hour]:[minute]` (version 2, default modifiers,
/// no `large-dates`), as (year, month, day, hour, minute). The contract
/// restates the time crate's parsers: an optional sign and exactly four
/// year digits, exactly two digits for each other field, the literals
/// between them, nothing after, and a valid date and time (seconds 0).
#[verifier::external_body]
fn parse_input_fields(s: &str) -> (r: Option<(i32, u8, u8, u8, u8)>)
    ensures
        (match r {
            Some(t) => Some((t.0 as int, t.1 as int, t.2 as int, t.3 as int, t.4 as int)),
            None => None,
        }) == local_input_fields(s@),
{
    let format = match time::format_description::parse_borrowed::<2>("[year]-[month]-[day]T[hour]:[minute]") {
        Ok(f) => f,
        Err(_) => return None,
    };
    match time::PrimitiveDateTime::parse(s, &format) {
        Ok(p) => Some((p.year(), u8::from(p.month()), p.day(), p.hour(), p.minute())),
        Err(_) => None,
    }
}

/// The instant a datetime-local value denotes at UTC offset `off`.
pub open spec fn parse_local_spec(s: Seq<char>, off: int) -> Option<int> {
    match local_input_fields(s) {
        Some(f) => Some(timestamp_of(spec_julian_of(f.0, f.1, f.2), f.3, f.4, 0, off)),
        None => None,
    }
}

/// Reads a "YYYY-MM-DDTHH:MM" value as local time at offset `offset`.
pub fn parse_local_datetime_at(s: &str, offset: i32) -> (r: Option<i64>)
    requires
        -93599 <= offset <= 93599,
    ensures
        (match r {
            Some(t) => Some(t as int),
            None => None,
        }) == parse_local_spec(s@, offset as int),
{
    match parse_input_fields(s) {
        None => None,
        Some(f) => match julian_of_date(f.0, f.1, f.2) {
            Some(j) => {
                let t: i64 = ((j as i64) - EPOCH_JULIAN) * 86400 + (f.3 as i64) * 3600 + (f.4 as i64) * 60
                    - offset as i64;
                Some(t)
            },
            None => None,
        },
    }
}

/// Parses the "YYYY-MM-DDTHH:MM" value of a datetime-local input as local
/// time.
pub fn parse_local_datetime(s: &str) -> (r: Option<i64>)
    ensures
        exists|off: int| -93599 <= off <= 93599 && #[trigger] parse_local_spec(s@, off) == (match r {
            Some(t) => Some(t as int),
            None => None,
        }),
{
    let off = clock::local_offset_seconds();
    parse_local_datetime_at(s, off)
}

/// Reading back the datetime-local value of an instant gives the instant
/// to the minute, for local years 1000 to 9999 (four-digit years).
pub proof fn law_local_input_roundtrip(ts: int, off: int, l: LocalTime)
    requires
        local_time_spec(ts, off) == Some(l),
        calendar_time(l),
        1000 <= l.year <= 9999,
    ensures
        parse_local_spec(local_input_spec(ts, off), off) == Some(ts - l.second),
{
    let s = local_input_spec(ts, off);
    let y = dec(l.year as nat);
    lemma_dec_four(l.year as nat);
    lemma_zero_pad_two(l.month as int);
    lemma_zero_pad_two(l.day as int);
    lemma_zero_pad_two(l.hour as int);
    lemma_zero_pad_two(l.minute as int);
    reveal_strlit("-");
    reveal_strlit("T");
    reveal_strlit(":");
    assert(dec_int(l.year as int) == y);
    let zm = zero_pad(l.month as int, 2);
    let zd = zero_pad(l.day as int, 2);
    let zh = zero_pad(l.hour as int, 2);
    let zi = zero_pad(l.minute as int, 2);
    assert(s =~= y + seq!['-'] + zm + seq!['-'] + zd + seq!['T'] + zh + seq![':'] + zi);
    assert(s.take(4) =~= y);
    assert(is_digit(y[0]));
    assert(s[5] == zm[0] && s[6] == zm[1]);
    assert(s[8] == zd[0] && s[9] == zd[1]);
    assert(s[11] == zh[0] && s[12] == zh[1]);
    assert(s[14] == zi[0] && s[15] == zi[1]);
    assert(local_input_fields(s) == Some((l.year as int, l.month as int, l.day as int, l.hour as int, l.minute as int)));
    lemma_local_time_roundtrip(ts, off);
}

/// A datetime-local value with an unsigned four-digit year from 1000 on,
/// read as local time at offset `off`, is written back as the same text,
/// whenever the instant it names is one the calendar holds.
pub proof fn law_parsed_input_writes_back(s: Seq<char>, off: int)
    requires
        -93599 <= off <= 93599,
        local_input_fields(s) matches Some(f) && 1000 <= f.0,
        is_digit(s[0]),
        parse_local_spec(s, off) matches Some(t) && min_ts() <= t <= max_ts(),
    ensures
        parse_local_spec(s, off) matches Some(t) && local_input_spec(t, off) == s,
{
    let f = local_input_fields(s)->0;
    let (y, m, d, h, mi) = f;
    assert(!(s.len() > 0 && (s[0] == '+' || s[0] == '-')));
    assert(s.len() == 16);
    lemma_julian_range(y, m, d);
    lemma_date_of_julian_of(y, m, d);
    let j = spec_julian_of(y, m, d);
    let t = timestamp_of(j, h, mi, 0, off);
    assert(parse_local_spec(s, off) == Some(t));
    let sod = h * 3600 + mi * 60;
    assert(0 <= sod < 86400) by (nonlinear_arith)
        requires
            0 <= h < 24,
            0 <= mi < 60,
            sod == h * 3600 + mi * 60,
    ;
    assert(t + off == (j - EPOCH_JULIAN) * 86400 + sod);
    vstd::arithmetic::div_mod::lemma_fundamental_div_mod_converse(t + off, 86400, j - EPOCH_JULIAN, sod);
    assert(sod / 3600 == h && sod % 3600 / 60 == mi && sod % 60 == 0) by (nonlinear_arith)
        requires
            0 <= h < 24,
            0 <= mi < 60,
            sod == h * 3600 + mi * 60,
    ;
    let l = local_time_spec(t, off)->0;
    assert(local_time_spec(t, off) is Some);
    assert(l.year as int == y && l.month as int == m && l.day as int == d);
    assert(l.hour as int == h && l.minute as int == mi);
    // The text, field by field.
    lemma_dec_four(y as nat);
    lemma_zero_pad_two(m);
    lemma_zero_pad_two(d);
    lemma_zero_pad_two(h);
    lemma_zero_pad_two(mi);
    reveal_strlit("-");
    reveal_strlit("T");
    reveal_strlit(":");
    let yd = dec(y as nat);
    assert(dec_int(y) == yd);
    let zm = zero_pad(m, 2);
    let zd = zero_pad(d, 2);
    let zh = zero_pad(h, 2);
    let zi = zero_pad(mi, 2);
    assert(digits_value(s.take(4)) == y);
    lemma_digits_unique(s.take(4), yd);
    lemma_digit_eq(s[5], zm[0]);
    lemma_digit_eq(s[6], zm[1]);
    lemma_digit_eq(s[8], zd[0]);
    lemma_digit_eq(s[9], zd[1]);
    lemma_digit_eq(s[11], zh[0]);
    lemma_digit_eq(s[12], zh[1]);
    lemma_digit_eq(s[14], zi[0]);
    lemma_digit_eq(s[15], zi[1]);
    assert(local_input_spec(t, off) =~= yd + seq!['-'] + zm + seq!['-'] + zd + seq!['T'] + zh + seq![':'] + zi);
    assert(local_input_spec(t, off) =~= s);
}

/// A due label begins "Today " exactly when the due time falls on today's
/// local date and "Tomorrow " exactly when it falls on the next one; any
/// other day (yesterday, last week, next month) shows its date instead,
/// beginning with a digit or a sign. The short label is "Tomorrow" exactly
/// for tomorrow's date.
pub proof fn law_due_label_days(ts: int, c: LocalClock)
    requires
        c.wf(),
        local_time_spec(ts, c.offset as int) is Some,
        now_local(c) is Some,
    ensures
        ({
            let l = local_time_spec(ts, c.offset as int)->0;
            let n = now_local(c)->0;
            let label = due_label_spec(ts, c);
            &&& is_prefix("Today "@, label) <==> l.julian == n.julian
            &&& is_prefix("Tomorrow "@, label) <==> l.julian == n.julian + 1
            &&& l.julian != n.julian && l.julian != n.julian + 1 ==> (is_digit(label[0]) || label[0] == '-')
            &&& (due_label_short_spec(ts, c) == "Tomorrow"@ <==> l.julian == n.julian + 1)
        }),
{
    let l = local_time_spec(ts, c.offset as int)->0;
    let n = now_local(c)->0;
    let label = due_label_spec(ts, c);
    let short = due_label_short_spec(ts, c);
    reveal_strlit("Today ");
    reveal_strlit("Tomorrow ");
    reveal_strlit("Tomorrow");
    reveal_strlit(" ");
    reveal_strlit("-");
    reveal_strlit(":");
    lemma_zero_pad_first(l.month as int, 2);
    lemma_zero_pad_first(l.hour as int, 2);
    lemma_dec_int_first(l.year as int);
    let today = "Today "@;
    let tomorrow = "Tomorrow "@;
    assert(today.len() == 6 && today[0] == 'T' && today[2] == 'd');
    assert(tomorrow.len() == 9 && tomorrow[0] == 'T' && tomorrow[2] == 'm');
    if l.julian == n.julian {
        assert(label == today + hour_minute(l));
        assert(label.take(6) =~= today);
        assert(label[2] == 'd');
    } else if l.julian == n.julian + 1 {
        assert(label == tomorrow + hour_minute(l));
        assert(label.take(9) =~= tomorrow);
        assert(label[2] == 'm');
    } else {
        if l.year == n.year {
            assert(label == month_day(l) + " "@ + hour_minute(l));
            assert(label[0] == zero_pad(l.month as int, 2)[0]);
        } else {
            assert(label == full_date(l) + " "@ + hour_minute(l));
            assert(label[0] == dec_int(l.year as int)[0]);
        }
        assert(label[0] != 'T');
        if is_prefix(today, label) {
            assert(label[0] == label.take(6)[0]);
        }
        if is_prefix(tomorrow, label) {
            assert(label[0] == label.take(9)[0]);
        }
    }
    if l.julian == n.julian {
        assert(short == hour_minute(l));
        assert(short[0] == zero_pad(l.hour as int, 2)[0]);
        assert(short[0] != "Tomorrow"@[0]);
    } else if l.julian != n.julian + 1 {
        if l.year == n.year {
            assert(short == month_day(l));
            assert(short[0] == zero_pad(l.month as int, 2)[0]);
        } else {
            assert(short == full_date(l));
            assert(short[0] == dec_int(l.year as int)[0]);
        }
        assert(short[0] != "Tomorrow"@[0]);
    }
}

/// How long ago `ts` was, as counted at the clock's `now` (the difference
/// saturating at the `i64` range): under a minute "just now"; then the
/// whole number of minutes, hours or days that have passed, each below the
/// next unit ("59m ago", "23h ago", "6d ago"); from a week on the date.
pub proof fn law_time_ago_counts(ts: int, c: LocalClock)
    ensures
        ({
            let e = c.now - ts;
            let s = if e > i64::MAX { i64::MAX as int } else if e < i64::MIN { i64::MIN as int } else { e };
            let label = time_ago_spec(ts, c);
            &&& s < 60 ==> label == "just now"@
            &&& 60 <= s < 3600 ==> exists|k: nat| 1 <= k < 60 && k * 60 <= s < k * 60 + 60 && label == dec(k) + "m ago"@
            &&& 3600 <= s < 86400 ==> exists|k: nat| 1 <= k < 24 && k * 3600 <= s < k * 3600 + 3600 && label == dec(k) + "h ago"@
            &&& 86400 <= s < 604800 ==> exists|k: nat| 1 <= k < 7 && k * 86400 <= s < k * 86400 + 86400 && label == dec(k)
                + "d ago"@
            &&& s >= 604800 ==> label == format_date_spec(ts, c)
        }),
{
    let s = sat_sub(c.now as int, ts);
    if 60 <= s < 3600 {
        let k = (s / 60) as nat;
        assert(1 <= k < 60 && k * 60 <= s < k * 60 + 60 && time_ago_spec(ts, c) == dec(k) + "m ago"@);
    } else if 3600 <= s < 86400 {
        let k = (s / 3600) as nat;
        assert(1 <= k < 24 && k * 3600 <= s < k * 3600 + 3600 && time_ago_spec(ts, c) == dec(k) + "h ago"@);
    } else if 86400 <= s < 604800 {
        let k = (s / 86400) as nat;
        assert(1 <= k < 7 && k * 86400 <= s < k * 86400 + 86400 && time_ago_spec(ts, c) == dec(k) + "d ago"@);
    }
}

} // verus!
