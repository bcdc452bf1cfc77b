//! The tasks panel as it is drawn: the search filter, the two display
//! groups (active tasks by urgency, completed tasks newest first), the row
//! decorations and meta line, and the due-date picker's decisions.

use crate::clock::LocalClock;
use crate::memo::{
    due_label_at, due_label_spec, parse_local_datetime_at, parse_local_spec, sort_by_urgency,
    sort_memos_by_urgency, time_ago_at, time_ago_spec, Memo, Priority,
};
use crate::tasks::InputState;
use crate::text::{
    chars_of, contains, contains_seq, lowercase, push_str, spec_lowercase, string_of, trim,
    trim_chars,
};
use vstd::prelude::*;

verus! {

// ---------------------------------------------------------------------------
// Search
// ---------------------------------------------------------------------------

/// The query a search text stands for: trimmed and lowercased.
pub open spec fn query_of(search: Seq<char>) -> Seq<char> {
    spec_lowercase(trim(search))
}

/// A task matches an empty query, or one its lowercased text contains.
pub open spec fn matches_query(m: Memo, q: Seq<char>) -> bool {
    q.len() == 0 || contains_seq(spec_lowercase(m.content@), q)
}

/// The tasks with completion state `done` that match `q`, in list order.
pub open spec fn group_of(list: Seq<Memo>, q: Seq<char>, done: bool) -> Seq<Memo>
    decreases list.len(),
{
    if list.len() == 0 {
        Seq::empty()
    } else {
        let rest = group_of(list.drop_last(), q, done);
        let m = list.last();
        if m.done == done && matches_query(m, q) {
            rest.push(m)
        } else {
            rest
        }
    }
}

// ---------------------------------------------------------------------------
// Completed tasks, newest first
// ---------------------------------------------------------------------------

/// The key completed tasks sort by: their completion time, 0 without one.
pub open spec fn completion_key(m: Memo) -> int {
    match m.completed_at {
        Some(t) => t as int,
        None => 0,
    }
}

/// Stable insertion of `x`: after every element completed no earlier.
pub open spec fn insert_by_completion(s: Seq<Memo>, x: Memo) -> Seq<Memo>
    decreases s.len(),
{
    if s.len() == 0 || completion_key(x) <= completion_key(s.last()) {
        s.push(x)
    } else {
        insert_by_completion(s.drop_last(), x).push(s.last())
    }
}

/// The stable sort newest completion first
/// (`sort_by_key(|m| Reverse(m.completed_at.unwrap_or(0)))`).
pub open spec fn sort_by_completion(s: Seq<Memo>) -> Seq<Memo>
    decreases s.len(),
{
    if s.len() == 0 {
        s
    } else {
        insert_by_completion(sort_by_completion(s.drop_last()), s.last())
    }
}

pub open spec fn completion_sorted(s: Seq<Memo>) -> bool {
    forall|i: int, j: int| 0 <= i < j < s.len() ==> completion_key(#[trigger] s[i]) >= completion_key(#[trigger] s[j])
}

proof fn lemma_insert_completion_at(s: Seq<Memo>, x: Memo, p: int)
    requires
        0 <= p <= s.len(),
        forall|k: int| p <= k < s.len() ==> completion_key(x) > completion_key(#[trigger] s[k]),
        p == 0 || completion_key(x) <= completion_key(s[p - 1]),
    ensures
        insert_by_completion(s, x) == s.take(p).push(x) + s.skip(p),
    decreases s.len(),
{
    if p == s.len() {
        assert(s.take(p) == s);
        assert(s.take(p).push(x) + s.skip(p) =~= s.push(x));
    } else {
        assert(completion_key(x) > completion_key(s[s.len() - 1]));
        let t = s.drop_last();
        assert forall|k: int| p <= k < t.len() implies completion_key(x) > completion_key(#[trigger] t[k]) by {
            assert(t[k] == s[k]);
        }
        if p > 0 {
            assert(t[p - 1] == s[p - 1]);
        }
        lemma_insert_completion_at(t, x, p);
        assert(t.take(p) == s.take(p));
        assert(t.skip(p).push(s.last()) =~= s.skip(p));
        assert((t.take(p).push(x) + t.skip(p)).push(s.last()) =~= s.take(p).push(x) + s.skip(p));
    }
}

proof fn lemma_insert_completion_multiset(s: Seq<Memo>, x: Memo)
    ensures
        insert_by_completion(s, x).to_multiset() == s.to_multiset().insert(x),
        insert_by_completion(s, x).len() == s.len() + 1,
    decreases s.len(),
{
    broadcast use vstd::seq_lib::to_multiset_build;
    broadcast use vstd::multiset::group_multiset_axioms;

    if s.len() > 0 && completion_key(x) > completion_key(s.last()) {
        lemma_insert_completion_multiset(s.drop_last(), x);
        assert(s.drop_last().push(s.last()) == s);
        assert(s.to_multiset() =~= s.drop_last().to_multiset().insert(s.last()));
        assert(insert_by_completion(s, x).to_multiset() =~= s.to_multiset().insert(x));
    }
}

proof fn lemma_insert_completion_sorted(s: Seq<Memo>, x: Memo)
    requires
        completion_sorted(s),
    ensures
        completion_sorted(insert_by_completion(s, x)),
    decreases s.len(),
{
    let r = insert_by_completion(s, x);
    if s.len() == 0 || completion_key(x) <= completion_key(s.last()) {
        assert forall|i: int, j: int| 0 <= i < j < r.len() implies completion_key(#[trigger] r[i]) >= completion_key(
            #[trigger] r[j],
        ) by {
            if j == s.len() && i < s.len() - 1 {
                assert(completion_key(s[i]) >= completion_key(s[s.len() - 1]));
            }
        }
    } else {
        let t = s.drop_last();
        assert forall|i: int, j: int| 0 <= i < j < t.len() implies completion_key(#[trigger] t[i]) >= completion_key(
            #[trigger] t[j],
        ) by {
            assert(t[i] == s[i] && t[j] == s[j]);
        }
        lemma_insert_completion_sorted(t, x);
        let ti = insert_by_completion(t, x);
        lemma_insert_completion_multiset(t, x);
        assert forall|i: int, j: int| 0 <= i < j < r.len() implies completion_key(#[trigger] r[i]) >= completion_key(
            #[trigger] r[j],
        ) by {
            if j == r.len() - 1 {
                assert(r[i] == ti[i]);
                assert(ti.to_multiset().count(ti[i]) > 0) by {
                    broadcast use vstd::seq_lib::group_to_multiset_ensures;
                    assert(ti.contains(ti[i]));
                }
                assert(t.to_multiset().insert(x).count(ti[i]) > 0);
                if ti[i] != x {
                    assert(t.to_multiset().count(ti[i]) > 0);
                    assert(t.contains(ti[i])) by {
                        broadcast use vstd::seq_lib::group_to_multiset_ensures;
                    }
                    let k = choose|k: int| 0 <= k < t.len() && t[k] == ti[i];
                    assert(s[k] == t[k]);
                    assert(completion_key(s[k]) >= completion_key(s[s.len() - 1]));
                }
            } else {
                assert(r[i] == ti[i] && r[j] == ti[j]);
            }
        }
    }
}

/// The completed group is ordered newest completion first and is a
/// reordering of its tasks.
pub proof fn law_completed_newest_first(s: Seq<Memo>)
    ensures
        completion_sorted(sort_by_completion(s)),
        sort_by_completion(s).to_multiset() == s.to_multiset(),
        sort_by_completion(s).len() == s.len(),
    decreases s.len(),
{
    broadcast use vstd::seq_lib::to_multiset_build;

    if s.len() > 0 {
        law_completed_newest_first(s.drop_last());
        lemma_insert_completion_sorted(sort_by_completion(s.drop_last()), s.last());
        lemma_insert_completion_multiset(sort_by_completion(s.drop_last()), s.last());
        assert(s.drop_last().push(s.last()) == s);
    }
}

fn completion_key_of(m: &Memo) -> (k: i64)
    ensures
        k as int == completion_key(*m),
{
    match m.completed_at {
        Some(t) => t,
        None => 0,
    }
}

/// Sorts completed tasks newest first, stably.
pub fn sort_completed(v: &Vec<Memo>) -> (out: Vec<Memo>)
    ensures
        out@ == sort_by_completion(v@),
{
    let mut out: Vec<Memo> = Vec::new();
    let mut i: usize = 0;
    assert(v@.take(0) =~= Seq::<Memo>::empty());
    while i < v.len()
        invariant
            i <= v.len(),
            out@ == sort_by_completion(v@.take(i as int)),
        decreases v.len() - i,
    {
        let x = v[i].duplicate();
        let kx = completion_key_of(&x);
        let mut p: usize = out.len();
        while p > 0 && kx > completion_key_of(&out[p - 1])
            invariant
                p <= out.len(),
                kx as int == completion_key(x),
                forall|k: int| p <= k < out.len() ==> completion_key(x) > completion_key(#[trigger] out@[k]),
            decreases p,
        {
            p -= 1;
        }
        proof {
            lemma_insert_completion_at(out@, x, p as int);
            assert(v@.take(i + 1).drop_last() =~= v@.take(i as int));
            assert(v@.take(i + 1).last() == x);
        }
        let ghost prev = out@;
        out.insert(p, x);
        assert(out@ =~= prev.take(p as int).push(x) + prev.skip(p as int));
        i += 1;
    }
    assert(v@.take(v.len() as int) =~= v@);
    out
}

// ---------------------------------------------------------------------------
// The groups
// ---------------------------------------------------------------------------

/// The panel's two display groups and whether the search hid every task.
pub struct PanelGroups {
    /// The query the search text stands for.
    pub query: String,
    /// Undone matching tasks, most urgent first.
    pub active: Vec<Memo>,
    /// Done matching tasks, newest completion first.
    pub completed: Vec<Memo>,
    /// There are tasks, but none matches.
    pub no_match: bool,
}

fn copy_group(list: &Vec<Memo>, q: &Vec<char>, done: bool) -> (out: Vec<Memo>)
    ensures
        out@ == group_of(list@, q@, done),
{
    let mut out: Vec<Memo> = Vec::new();
    let mut i: usize = 0;
    assert(list@.take(0) =~= Seq::<Memo>::empty());
    while i < list.len()
        invariant
            i <= list.len(),
            out@ == group_of(list@.take(i as int), q@, done),
        decreases list.len() - i,
    {
        let m = &list[i];
        proof {
            assert(list@.take(i + 1).drop_last() =~= list@.take(i as int));
            assert(list@.take(i + 1).last() == *m);
        }
        if m.done == done {
            let matched = if q.len() == 0 {
                true
            } else {
                let text = lowercase(m.content.as_str());
                let tc = chars_of(text.as_str());
                contains(tc.as_slice(), q.as_slice())
            };
            if matched {
                out.push(m.duplicate());
            }
        }
        i += 1;
    }
    assert(list@.take(list.len() as int) =~= list@);
    out
}

/// Splits the task list for display under the search text `search`.
pub fn panel_groups(list: &Vec<Memo>, search: &str) -> (g: PanelGroups)
    ensures
        g.query@ == query_of(search@),
        g.active@ == sort_by_urgency(group_of(list@, query_of(search@), false)),
        g.completed@ == sort_by_completion(group_of(list@, query_of(search@), true)),
        g.no_match == (list@.len() > 0 && g.active@.len() == 0 && g.completed@.len() == 0),
{
    let sc = chars_of(search);
    let trimmed = trim_chars(sc.as_slice());
    let t = string_of(trimmed.as_slice());
    let query = lowercase(t.as_str());
    let q = chars_of(query.as_str());
    let active_raw = copy_group(list, &q, false);
    let active = sort_memos_by_urgency(active_raw);
    let done_raw = copy_group(list, &q, true);
    let completed = sort_completed(&done_raw);
    let no_match = list.len() > 0 && active.len() == 0 && completed.len() == 0;
    PanelGroups { query, active, completed, no_match }
}

/// The undone tasks, most urgent first: the island's tips (the search does
/// not apply there).
pub fn tips(list: &Vec<Memo>) -> (out: Vec<Memo>)
    ensures
        out@ == sort_by_urgency(group_of(list@, Seq::empty(), false)),
{
    let q: Vec<char> = Vec::new();
    assert(q@ =~= Seq::<char>::empty());
    let raw = copy_group(list, &q, false);
    sort_memos_by_urgency(raw)
}

/// The search row appears from five tasks on.
pub fn show_search(memo_count: usize) -> (r: bool)
    ensures
        r == (memo_count >= 5),
{
    memo_count >= 5
}

// ---------------------------------------------------------------------------
// Rows
// ---------------------------------------------------------------------------

/// The colour class and name a priority is shown with.
pub fn priority_style(p: Option<Priority>) -> (r: (&'static str, &'static str))
    ensures
        r.0@ == match p {
            None => "p-none"@,
            Some(Priority::Low) => "p-low"@,
            Some(Priority::Medium) => "p-med"@,
            Some(Priority::High) => "p-high"@,
        },
        r.1@ == match p {
            None => "None"@,
            Some(Priority::Low) => "Low"@,
            Some(Priority::Medium) => "Medium"@,
            Some(Priority::High) => "High"@,
        },
{
    match p {
        None => ("p-none", "None"),
        Some(Priority::Low) => ("p-low", "Low"),
        Some(Priority::Medium) => ("p-med", "Medium"),
        Some(Priority::High) => ("p-high", "High"),
    }
}

/// The CSS class of a task row.
pub open spec fn row_class_spec(done: bool, flash: bool, editing: bool) -> Seq<char> {
    "memo-item"@ + (if done { " done"@ } else { Seq::empty() }) + (if flash { " flash"@ } else { Seq::empty() })
        + (if editing { " editing"@ } else { Seq::empty() })
}

/// The CSS class of a task row: done, flashing, in edit.
pub fn row_class(done: bool, flash: bool, editing: bool) -> (s: String)
    ensures
        s@ == row_class_spec(done, flash, editing),
{
    let mut v: Vec<char> = Vec::new();
    push_str(&mut v, "memo-item");
    if done {
        push_str(&mut v, " done");
    }
    if flash {
        push_str(&mut v, " flash");
    }
    if editing {
        push_str(&mut v, " editing");
    }
    assert(v@ =~= row_class_spec(done, flash, editing));
    string_of(v.as_slice())
}

/// The meta line under a task's text.
pub enum RowMeta {
    /// "Done <when>" for a completed task.
    Done(String),
    /// The due label of an undone task, and whether it is overdue.
    Due { label: String, overdue: bool },
    /// How long ago an undone task without a due time was touched.
    Age(String),
}

/// The mathematical content of a `RowMeta`.
pub enum MetaView {
    Done(Seq<char>),
    Due(Seq<char>, bool),
    Age(Seq<char>),
}

pub open spec fn meta_view(r: RowMeta) -> MetaView {
    match r {
        RowMeta::Done(s) => MetaView::Done(s@),
        RowMeta::Due { label, overdue } => MetaView::Due(label@, overdue),
        RowMeta::Age(s) => MetaView::Age(s@),
    }
}

/// The meta line of task `m` at clock `c`: "Done" and when for a completed
/// task, the due label (red when overdue) for a task with a due time, how
/// long ago it was touched otherwise.
pub open spec fn row_meta_spec(m: Memo, c: LocalClock) -> MetaView {
    if m.done {
        MetaView::Done(
            "Done "@ + match m.completed_at {
                Some(t) => time_ago_spec(t as int, c),
                None => Seq::empty(),
            },
        )
    } else {
        match m.due {
            Some(d) => MetaView::Due(due_label_spec(d as int, c), d < c.now),
            None => MetaView::Age(time_ago_spec(m.updated_at as int, c)),
        }
    }
}

/// The meta line of task `m` at clock `c`.
pub fn row_meta_at(m: &Memo, c: LocalClock) -> (r: RowMeta)
    requires
        c.wf(),
    ensures
        meta_view(r) == row_meta_spec(*m, c),
{
    if m.done {
        let mut v: Vec<char> = Vec::new();
        push_str(&mut v, "Done ");
        match m.completed_at {
            Some(t) => {
                let ago = time_ago_at(t, c);
                push_str(&mut v, ago.as_str());
            },
            None => {},
        }
        proof {
            reveal_strlit("Done ");
        }
        assert(v@ =~= "Done "@ + match m.completed_at {
            Some(t) => time_ago_spec(t as int, c),
            None => Seq::<char>::empty(),
        });
        RowMeta::Done(string_of(v.as_slice()))
    } else {
        match m.due {
            Some(d) => RowMeta::Due { label: due_label_at(d, c), overdue: m.is_overdue_at(c.now) },
            None => RowMeta::Age(time_ago_at(m.updated_at, c)),
        }
    }
}

/// The meta line of task `m` now.
pub fn row_meta(m: &Memo) -> (r: RowMeta)
    ensures
        exists|c: LocalClock| #[trigger] c.wf() && meta_view(r) == row_meta_spec(*m, c),
{
    let c = crate::clock::local_clock();
    row_meta_at(m, c)
}

// ---------------------------------------------------------------------------
// The due-date picker
// ---------------------------------------------------------------------------

/// The due strip shows while toggled open or while a due time is staged.
pub fn due_strip_visible(input: &InputState) -> (r: bool)
    ensures
        r == (input.show_due_strip || input.due is Some),
{
    input.show_due_strip || input.due.is_some()
}

/// The picker's presets: today at 18:00, tomorrow at 09:00, in a week at
/// 09:00, as (days ahead, hour, minute).
pub fn due_presets() -> (v: Vec<(i64, u8, u8)>)
    ensures
        v@ == seq![(0i64, 18u8, 0u8), (1i64, 9u8, 0u8), (7i64, 9u8, 0u8)],
{
    let mut v: Vec<(i64, u8, u8)> = Vec::new();
    v.push((0, 18, 0));
    v.push((1, 9, 0));
    v.push((7, 9, 0));
    v
}

/// The due time after a value was picked at offset `offset`: the picked
/// time when the value reads as one, the current one otherwise.
pub fn picked_due_at(current: Option<i64>, value: &str, offset: i32) -> (r: Option<i64>)
    requires
        -93599 <= offset <= 93599,
    ensures
        match parse_local_spec(value@, offset as int) {
            Some(t) => r == Some(t as i64) && r->0 as int == t,
            None => r == current,
        },
{
    match parse_local_datetime_at(value, offset) {
        Some(t) => Some(t),
        None => current,
    }
}

/// The flag button of a priority: its class ("prio-chip <colour>" in edit
/// mode, "attr-btn <colour>" beside the input), its title and its label.
pub struct PriorityButtonView {
    pub class: String,
    pub title: String,
    pub label: String,
}

pub open spec fn priority_color(p: Option<Priority>) -> Seq<char> {
    match p {
        None => "p-none"@,
        Some(Priority::Low) => "p-low"@,
        Some(Priority::Medium) => "p-med"@,
        Some(Priority::High) => "p-high"@,
    }
}

pub open spec fn priority_name(p: Option<Priority>) -> Seq<char> {
    match p {
        None => "None"@,
        Some(Priority::Low) => "Low"@,
        Some(Priority::Medium) => "Medium"@,
        Some(Priority::High) => "High"@,
    }
}

pub fn priority_button(p: Option<Priority>, with_label: bool) -> (b: PriorityButtonView)
    ensures
        b.class@ == (if with_label { "prio-chip "@ } else { "attr-btn "@ }) + priority_color(p),
        b.title@ == "Priority: "@ + priority_name(p) + " — click to cycle"@,
        b.label@ == if with_label { "⚑ "@ + priority_name(p) } else { "⚑"@ },
{
    let (color, name) = priority_style(p);
    let mut c: Vec<char> = Vec::new();
    if with_label {
        push_str(&mut c, "prio-chip ");
    } else {
        push_str(&mut c, "attr-btn ");
    }
    push_str(&mut c, color);
    let mut t: Vec<char> = Vec::new();
    push_str(&mut t, "Priority: ");
    push_str(&mut t, name);
    push_str(&mut t, " — click to cycle");
    let mut l: Vec<char> = Vec::new();
    if with_label {
        push_str(&mut l, "⚑ ");
        push_str(&mut l, name);
    } else {
        push_str(&mut l, "⚑");
    }
    PriorityButtonView { class: string_of(c.as_slice()), title: string_of(t.as_slice()), label: string_of(l.as_slice()) }
}

} // verus!
