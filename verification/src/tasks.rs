//! The task list and its editing state: quick capture, completion, soft
//! delete with a single-level undo, in-place edit, due-soon alerts, and the
//! display groups of the panel and the island.
//!
//! Each action is a function from the current state (and the time, or a
//! fresh id) to the next state; timers and rendering live with the caller.

use crate::clock;
use crate::memo::{Memo, Priority};
use crate::text::{chars_of, string_of, trim, trim_chars};
use vstd::prelude::*;

verus! {

// ---------------------------------------------------------------------------
// Ids and lookup
// ---------------------------------------------------------------------------

pub open spec fn ids_view(v: Seq<String>) -> Seq<Seq<char>> {
    v.map_values(|s: String| s@)
}

/// Index of the first task whose id is `id`, or -1.
pub open spec fn find_id(s: Seq<Memo>, id: Seq<char>) -> int
    decreases s.len(),
{
    if s.len() == 0 {
        -1
    } else if s[0].id@ == id {
        0
    } else {
        let r = find_id(s.drop_first(), id);
        if r < 0 {
            -1
        } else {
            r + 1
        }
    }
}

pub proof fn lemma_find_id(s: Seq<Memo>, id: Seq<char>)
    ensures
        -1 <= find_id(s, id) < s.len(),
        find_id(s, id) >= 0 ==> s[find_id(s, id)].id@ == id,
        find_id(s, id) >= 0 ==> forall|k: int| 0 <= k < find_id(s, id) ==> #[trigger] s[k].id@ != id,
        find_id(s, id) < 0 ==> forall|k: int| 0 <= k < s.len() ==> #[trigger] s[k].id@ != id,
    decreases s.len(),
{
    if s.len() > 0 && s[0].id@ != id {
        let t = s.drop_first();
        lemma_find_id(t, id);
        let r = find_id(t, id);
        if r >= 0 {
            assert forall|k: int| 0 <= k < r + 1 implies #[trigger] s[k].id@ != id by {
                if k > 0 {
                    assert(s[k] == t[k - 1]);
                    assert(t[k - 1].id@ != id);
                }
            }
        } else {
            assert forall|k: int| 0 <= k < s.len() implies #[trigger] s[k].id@ != id by {
                if k > 0 {
                    assert(s[k] == t[k - 1]);
                    assert(t[k - 1].id@ != id);
                }
            }
        }
    }
}

/// `list.iter().position(|m| m.id == id)`.
pub fn position_of(list: &Vec<Memo>, id: &String) -> (r: Option<usize>)
    ensures
        r matches Some(p) ==> p as int == find_id(list@, id@),
        r is None ==> find_id(list@, id@) == -1,
{
    proof {
        lemma_find_id(list@, id@);
    }
    let mut i: usize = 0;
    while i < list.len()
        invariant
            i <= list.len(),
            forall|k: int| 0 <= k < i ==> #[trigger] list@[k].id@ != id@,
        decreases list.len() - i,
    {
        if list[i].id == *id {
            proof {
                lemma_find_first(list@, id@, i as int);
            }
            return Some(i);
        }
        i += 1;
    }
    proof {
        lemma_find_first(list@, id@, list.len() as int);
    }
    None
}

proof fn lemma_find_first(s: Seq<Memo>, id: Seq<char>, i: int)
    requires
        0 <= i <= s.len(),
        forall|k: int| 0 <= k < i ==> #[trigger] s[k].id@ != id,
        i < s.len() ==> s[i].id@ == id,
    ensures
        find_id(s, id) == if i < s.len() { i } else { -1 },
    decreases i,
{
    if i > 0 {
        assert forall|k: int| 0 <= k < i - 1 implies #[trigger] s.drop_first()[k].id@ != id by {
            assert(s.drop_first()[k] == s[k + 1]);
        }
        lemma_find_first(s.drop_first(), id, i - 1);
    }
}

/// `ids` without any copy of `id`.
pub fn without_id(ids: &Vec<String>, id: &String) -> (out: Vec<String>)
    ensures
        ids_view(out@) == drop_id(ids_view(ids@), id@),
{
    let mut out: Vec<String> = Vec::new();
    let mut i: usize = 0;
    while i < ids.len()
        invariant
            i <= ids.len(),
            ids_view(out@) == drop_id(ids_view(ids@).take(i as int), id@),
        decreases ids.len() - i,
    {
        let ghost before = ids_view(ids@).take(i as int);
        assert(ids_view(ids@).take(i + 1) == before.push(ids@[i as int]@));
        assert(before.push(ids@[i as int]@).drop_last() == before);
        if !(ids[i] == *id) {
            let ghost prev = ids_view(out@);
            out.push(ids[i].clone());
            assert(ids_view(out@) =~= prev.push(ids@[i as int]@));
        }
        assert(ids_view(out@) =~= drop_id(ids_view(ids@).take(i + 1), id@));
        i += 1;
    }
    assert(ids_view(ids@).take(ids.len() as int) == ids_view(ids@));
    out
}

/// `id` is in the set `ids`.
pub fn has_id(ids: &Vec<String>, id: &String) -> (r: bool)
    ensures
        r == ids_view(ids@).contains(id@),
{
    let mut i: usize = 0;
    while i < ids.len()
        invariant
            i <= ids.len(),
            forall|k: int| 0 <= k < i ==> #[trigger] ids@[k]@ != id@,
        decreases ids.len() - i,
    {
        if ids[i] == *id {
            assert(ids_view(ids@)[i as int] == id@);
            return true;
        }
        i += 1;
    }
    assert forall|k: int| 0 <= k < ids_view(ids@).len() implies #[trigger] ids_view(ids@)[k] != id@ by {
        assert(ids_view(ids@)[k] == ids@[k]@);
    }
    false
}

// ---------------------------------------------------------------------------
// State
// ---------------------------------------------------------------------------

/// The task list plus its UI adjuncts (search, undo toast, due-soon flash).
pub struct MemoListState {
    pub list: Vec<Memo>,
    pub search: String,
    pub show_completed: bool,
    /// Single-level undo: the last deleted task and its original position.
    pub deleted: Option<(Memo, usize)>,
    /// Bumped on every delete and undo; the toast's auto-dismiss only fires
    /// for the generation it was started with.
    pub toast_gen: u64,
    /// Due-soon alerts: ids already alerted, ids flashing now (sets).
    pub alerted: Vec<String>,
    pub flash: Vec<String>,
}

/// The in-progress edit of a single row (at most one row edits at a time).
pub struct EditState {
    pub id: Option<String>,
    pub text: String,
    pub priority: Option<Priority>,
    pub due: Option<i64>,
}

/// The add-input draft and its staged attributes.
pub struct InputState {
    pub text: String,
    pub priority: Option<Priority>,
    pub due: Option<i64>,
    pub show_due_strip: bool,
}

/// The mathematical content of a `MemoListState`.
pub struct ListView {
    pub list: Seq<Memo>,
    pub search: Seq<char>,
    pub show_completed: bool,
    pub deleted: Option<(Memo, int)>,
    pub toast_gen: int,
    pub alerted: Seq<Seq<char>>,
    pub flash: Seq<Seq<char>>,
}

impl View for MemoListState {
    type V = ListView;

    open spec fn view(&self) -> ListView {
        ListView {
            list: self.list@,
            search: self.search@,
            show_completed: self.show_completed,
            deleted: match self.deleted {
                Some((m, p)) => Some((m, p as int)),
                None => None,
            },
            toast_gen: self.toast_gen as int,
            alerted: ids_view(self.alerted@),
            flash: ids_view(self.flash@),
        }
    }
}

/// `ids` without any copy of `id`, order kept.
pub open spec fn drop_id(ids: Seq<Seq<char>>, id: Seq<char>) -> Seq<Seq<char>>
    decreases ids.len(),
{
    if ids.len() == 0 {
        ids
    } else {
        let rest = drop_id(ids.drop_last(), id);
        if ids.last() != id {
            rest.push(ids.last())
        } else {
            rest
        }
    }
}

/// `ids` without any member of `gone`, order kept.
pub open spec fn drop_all(ids: Seq<Seq<char>>, gone: Seq<Seq<char>>) -> Seq<Seq<char>>
    decreases ids.len(),
{
    if ids.len() == 0 {
        ids
    } else {
        let rest = drop_all(ids.drop_last(), gone);
        if !gone.contains(ids.last()) {
            rest.push(ids.last())
        } else {
            rest
        }
    }
}

/// `m` completed (or restored) at `now`.
pub open spec fn toggled(m: Memo, now: i64) -> Memo {
    Memo { done: !m.done, completed_at: if !m.done { Some(now) } else { None }, ..m }
}

/// The list after toggling the task with `id` at `now`.
pub open spec fn toggle_list(list: Seq<Memo>, id: Seq<char>, now: i64) -> Seq<Memo> {
    let p = find_id(list, id);
    if p < 0 {
        list
    } else {
        list.update(p, toggled(list[p], now))
    }
}

/// The state after a soft delete of `id`.
pub open spec fn delete_view(v: ListView, id: Seq<char>) -> ListView {
    let p = find_id(v.list, id);
    if p < 0 {
        v
    } else {
        ListView {
            list: v.list.remove(p),
            deleted: Some((v.list[p], p)),
            toast_gen: v.toast_gen + 1,
            alerted: drop_id(v.alerted, id),
            flash: drop_id(v.flash, id),
            ..v
        }
    }
}

/// The state after undoing the last delete (closing the toast either way).
pub open spec fn undo_view(v: ListView) -> ListView {
    ListView {
        list: match v.deleted {
            Some((m, p)) => v.list.insert(if p < v.list.len() { p } else { v.list.len() as int }, m),
            None => v.list,
        },
        deleted: None,
        toast_gen: v.toast_gen + 1,
        ..v
    }
}

impl MemoListState {
    /// An empty list with the completed group shown.
    pub fn new(list: Vec<Memo>) -> (s: MemoListState)
        ensures
            s.list == list,
            s@.search.len() == 0,
            s.show_completed,
            s.deleted is None,
            s.toast_gen == 0,
            s@.alerted.len() == 0,
            s@.flash.len() == 0,
    {
        MemoListState {
            list,
            search: String::new(),
            show_completed: true,
            deleted: None,
            toast_gen: 0,
            alerted: Vec::new(),
            flash: Vec::new(),
        }
    }

    pub fn show_completed(&self) -> (r: bool)
        ensures
            r == self.show_completed,
    {
        self.show_completed
    }

    /// Quick capture with a given id and time: the trimmed draft becomes a
    /// new task at the top, carrying the staged priority and due time; the
    /// draft and the search are then cleared. A blank draft changes nothing.
    pub fn add_with(&mut self, input: &mut InputState, id: String, now: i64)
        ensures
            trim(old(input).text@).len() == 0 ==> *final(self) == *old(self) && *final(input) == *old(input),
            trim(old(input).text@).len() > 0 ==> {
                let m = final(self).list@[0];
                &&& final(self).list@.len() == old(self).list@.len() + 1
                &&& final(self).list@.skip(1) == old(self).list@
                &&& m.id == id
                &&& m.content@ == trim(old(input).text@)
                &&& m.created_at == now && m.updated_at == now
                &&& !m.done && m.completed_at is None
                &&& m.priority == old(input).priority
                &&& m.due == old(input).due
                &&& final(input).text@.len() == 0
                &&& final(input).priority is None
                &&& final(input).due is None
                &&& !final(input).show_due_strip
                &&& final(self)@.search.len() == 0
                &&& final(self)@ == (ListView { list: final(self)@.list, search: final(self)@.search, ..old(self)@ })
            },
    {
        let draft = chars_of(input.text.as_str());
        let trimmed = trim_chars(draft.as_slice());
        if trimmed.len() == 0 {
            return;
        }
        let mut m = Memo::with_id(id, string_of(trimmed.as_slice()), now);
        m.priority = input.priority;
        m.due = input.due;
        self.list.insert(0, m);
        assert(self.list@.skip(1) =~= old(self).list@);
        input.text = String::new();
        input.priority = None;
        input.due = None;
        input.show_due_strip = false;
        self.search = String::new();
    }

    /// Quick capture: a fresh random id, created now.
    pub fn add(&mut self, input: &mut InputState)
        ensures
            trim(old(input).text@).len() == 0 ==> *final(self) == *old(self) && *final(input) == *old(input),
            trim(old(input).text@).len() > 0 ==> {
                let m = final(self).list@[0];
                &&& final(self).list@.len() == old(self).list@.len() + 1
                &&& final(self).list@.skip(1) == old(self).list@
                &&& m.content@ == trim(old(input).text@)
                &&& m.created_at == m.updated_at
                &&& !m.done && m.completed_at is None
                &&& m.priority == old(input).priority
                &&& m.due == old(input).due
                &&& final(input).text@.len() == 0
                &&& final(input).priority is None
                &&& final(input).due is None
                &&& !final(input).show_due_strip
                &&& final(self)@.search.len() == 0
                &&& final(self)@ == (ListView { list: final(self)@.list, search: final(self)@.search, ..old(self)@ })
            },
    {
        let draft = chars_of(input.text.as_str());
        let trimmed = trim_chars(draft.as_slice());
        if trimmed.len() == 0 {
            return;
        }
        let now = clock::unix_now();
        self.add_with(input, clock::new_id(), now);
    }

    /// Completion toggle at `now`: the task is marked done (stamped `now`)
    /// or restored (stamp cleared). Unknown ids change nothing.
    pub fn toggle_done_at(&mut self, id: String, now: i64)
        ensures
            final(self)@ == (ListView { list: toggle_list(old(self)@.list, id@, now), ..old(self)@ }),
    {
        proof {
            lemma_find_id(self.list@, id@);
        }
        let pos = match position_of(&self.list, &id) {
            Some(p) => p,
            None => return,
        };
        let old_m = self.list[pos].duplicate();
        let done = !old_m.done;
        let m = Memo { done, completed_at: if done { Some(now) } else { None }, ..old_m };
        self.list.set(pos, m);
    }

    /// Completion toggle stamped with the current time.
    pub fn toggle_done(&mut self, id: String)
        ensures
            exists|now: i64| final(self)@ == (ListView { list: #[trigger] toggle_list(old(self)@.list, id@, now), ..old(self)@ }),
    {
        let now = clock::unix_now();
        self.toggle_done_at(id, now);
    }

    /// Soft delete: the task leaves the list and is stashed with its
    /// position for undo; a pending edit of it is dropped. Returns the toast
    /// generation to dismiss later, or `None` when no task has that id.
    pub fn delete(&mut self, edit: &mut EditState, id: String) -> (generation: Option<u64>)
        requires
            old(self).toast_gen < u64::MAX,
        ensures
            final(self)@ == delete_view(old(self)@, id@),
            (old(edit).id matches Some(e) && e@ == id@) ==> final(edit).id is None,
            !(old(edit).id matches Some(e) && e@ == id@) ==> final(edit).id == old(edit).id,
            final(edit).text == old(edit).text,
            final(edit).priority == old(edit).priority,
            final(edit).due == old(edit).due,
            find_id(old(self)@.list, id@) < 0 ==> generation is None,
            find_id(old(self)@.list, id@) >= 0 ==> generation == Some(final(self).toast_gen),
    {
        proof {
            lemma_find_id(self.list@, id@);
        }
        let editing_this = match &edit.id {
            Some(e) => *e == id,
            None => false,
        };
        if editing_this {
            edit.id = None;
        }
        let pos = match position_of(&self.list, &id) {
            Some(p) => p,
            None => return None,
        };
        let removed = self.list.remove(pos);
        self.alerted = without_id(&self.alerted, &id);
        self.flash = without_id(&self.flash, &id);
        self.deleted = Some((removed, pos));
        self.toast_gen = self.toast_gen + 1;
        Some(self.toast_gen)
    }

    /// The toast's timer ran out: the stash is dropped unless a later delete
    /// or undo superseded that generation.
    pub fn toast_expired(&mut self, generation: u64)
        ensures
            generation == old(self).toast_gen ==> final(self)@ == (ListView { deleted: None, ..old(self)@ }),
            generation != old(self).toast_gen ==> *final(self) == *old(self),
    {
        if self.toast_gen == generation {
            self.deleted = None;
        }
    }

    /// Restores the stashed task at its old position (or at the end when the
    /// list has since shrunk) and closes the toast.
    pub fn undo_delete(&mut self)
        requires
            old(self).toast_gen < u64::MAX,
        ensures
            final(self)@ == undo_view(old(self)@),
    {
        let stash = self.deleted.take();
        match stash {
            Some((m, pos)) => {
                let at = if pos < self.list.len() {
                    pos
                } else {
                    self.list.len()
                };
                self.list.insert(at, m);
            },
            None => {},
        }
        self.toast_gen = self.toast_gen + 1;
    }

    /// Due-soon check at `now`: every undone task due within the next ten
    /// minutes that was not alerted yet is alerted and flashes. Returns those
    /// ids, in list order (empty when there are none).
    pub fn due_alert_step(&mut self, now: i64) -> (fresh: Vec<String>)
        ensures
            ids_view(fresh@) == due_soon(old(self)@.list, old(self)@.alerted, now),
            final(self)@ == (ListView {
                alerted: old(self)@.alerted + ids_view(fresh@),
                flash: old(self)@.flash + ids_view(fresh@),
                ..old(self)@
            }),
    {
        let mut fresh: Vec<String> = Vec::new();
        let mut i: usize = 0;
        while i < self.list.len()
            invariant
                i <= self.list.len(),
                self.list == old(self).list,
                self.alerted == old(self).alerted,
                ids_view(fresh@) == due_soon(self.list@.take(i as int), ids_view(self.alerted@), now),
            decreases self.list.len() - i,
        {
            let ghost before = self.list@.take(i as int);
            assert(self.list@.take(i + 1) == before.push(self.list@[i as int]));
            assert(before.push(self.list@[i as int]).drop_last() == before);
            let m = &self.list[i];
            let soon = match m.due {
                Some(d) => !m.done && now <= d && (d as i128) - (now as i128) <= 600,
                None => false,
            };
            if soon && !has_id(&self.alerted, &m.id) {
                fresh.push(m.id.clone());
                assert(ids_view(fresh@) =~= ids_view(fresh@).drop_last().push(m.id@));
            }
            i += 1;
        }
        assert(self.list@.take(self.list.len() as int) == self.list@);
        let mut k: usize = 0;
        let ghost alerted0 = ids_view(self.alerted@);
        let ghost flash0 = ids_view(self.flash@);
        while k < fresh.len()
            invariant
                k <= fresh.len(),
                ids_view(self.alerted@) == alerted0 + ids_view(fresh@).take(k as int),
                ids_view(self.flash@) == flash0 + ids_view(fresh@).take(k as int),
                self.list == old(self).list,
                self.search == old(self).search,
                self.show_completed == old(self).show_completed,
                self.deleted == old(self).deleted,
                self.toast_gen == old(self).toast_gen,
            decreases fresh.len() - k,
        {
            let ghost pa = ids_view(self.alerted@);
            let ghost pf = ids_view(self.flash@);
            self.alerted.push(fresh[k].clone());
            self.flash.push(fresh[k].clone());
            assert(ids_view(self.alerted@) =~= pa.push(fresh@[k as int]@));
            assert(ids_view(self.flash@) =~= pf.push(fresh@[k as int]@));
            assert(ids_view(fresh@).take(k + 1) =~= ids_view(fresh@).take(k as int).push(fresh@[k as int]@));
            assert(ids_view(self.alerted@) =~= alerted0 + ids_view(fresh@).take(k + 1));
            assert(ids_view(self.flash@) =~= flash0 + ids_view(fresh@).take(k + 1));
            k += 1;
        }
        assert(ids_view(fresh@).take(fresh.len() as int) == ids_view(fresh@));
        fresh
    }

    /// The flash of these ids has run its course.
    pub fn clear_flash(&mut self, ids: &Vec<String>)
        ensures
            final(self)@ == (ListView { flash: drop_all(old(self)@.flash, ids_view(ids@)), ..old(self)@ }),
    {
        let mut kept: Vec<String> = Vec::new();
        let mut i: usize = 0;
        while i < self.flash.len()
            invariant
                i <= self.flash.len(),
                ids_view(kept@) == drop_all(ids_view(self.flash@).take(i as int), ids_view(ids@)),
            decreases self.flash.len() - i,
        {
            let ghost before = ids_view(self.flash@).take(i as int);
            assert(ids_view(self.flash@).take(i + 1) == before.push(self.flash@[i as int]@));
            assert(before.push(self.flash@[i as int]@).drop_last() == before);
            if !has_id(ids, &self.flash[i]) {
                let ghost prev = ids_view(kept@);
                kept.push(self.flash[i].clone());
                assert(ids_view(kept@) =~= prev.push(self.flash@[i as int]@));
            }
            i += 1;
        }
        assert(ids_view(self.flash@).take(self.flash.len() as int) == ids_view(self.flash@));
        self.flash = kept;
    }
}

/// Ids of the undone tasks due within `[now, now + 600]` not yet alerted,
/// in list order.
pub open spec fn due_soon(list: Seq<Memo>, alerted: Seq<Seq<char>>, now: i64) -> Seq<Seq<char>>
    decreases list.len(),
{
    if list.len() == 0 {
        Seq::empty()
    } else {
        let rest = due_soon(list.drop_last(), alerted, now);
        let m = list.last();
        if (m.due matches Some(d) && !m.done && now <= d && d - now <= 600) && !alerted.contains(m.id@) {
            rest.push(m.id@)
        } else {
            rest
        }
    }
}

// ---------------------------------------------------------------------------
// Editing
// ---------------------------------------------------------------------------

/// An edit commit changes the task with that id when the trimmed text is
/// non-empty and differs from the task in content, priority or due time.
pub open spec fn commit_changes(list: Seq<Memo>, e: EditState) -> bool {
    &&& e.id is Some
    &&& trim(e.text@).len() > 0
    &&& find_id(list, e.id->0@) >= 0
    &&& ({
        let m = list[find_id(list, e.id->0@)];
        m.content@ != trim(e.text@) || m.priority != e.priority || m.due != e.due
    })
}

/// The edit after a commit or a start's commit: an open edit closes, its
/// draft kept; no open edit stays as it is.
pub open spec fn edit_closed(before: EditState, after: EditState) -> bool {
    if before.id is None {
        after == before
    } else {
        after == (EditState { id: None, ..before })
    }
}

/// The edit once the task with `id` is loaded into it, after the previous
/// edit `before` was committed to give `list`: the task's id, text,
/// priority and due time; for an unknown id the committed edit (closed,
/// its draft kept).
pub open spec fn started(before: EditState, list: Seq<Memo>, id: Seq<char>, after: EditState) -> bool {
    let p = find_id(list, id);
    if p < 0 {
        edit_closed(before, after)
    } else {
        &&& (after.id matches Some(e) && e@ == id)
        &&& after.text == list[p].content
        &&& after.priority == list[p].priority
        &&& after.due == list[p].due
    }
}

/// `after` is the task list state once the edit `e` is committed at `now`
/// to `before`. Without an open edit nothing changes. Otherwise the search
/// clears; a non-empty change of the task with that id saves the trimmed
/// text, the priority and the due time, stamps the task with `now`, leaves
/// every other task as it was, and re-arms the task's alert when its due
/// time changed; an emptied or unchanged edit keeps the list.
pub open spec fn commits_to(e: EditState, before: ListView, after: ListView, now: i64) -> bool {
    if e.id is None {
        after == before
    } else {
        &&& after.search.len() == 0
        &&& after.show_completed == before.show_completed
        &&& after.deleted == before.deleted
        &&& after.toast_gen == before.toast_gen
        &&& after.flash == before.flash
        &&& !commit_changes(before.list, e) ==> {
            &&& after.list == before.list
            &&& after.alerted == before.alerted
        }
        &&& commit_changes(before.list, e) ==> {
            let id = e.id->0@;
            let p = find_id(before.list, id);
            let m = before.list[p];
            let n = after.list[p];
            &&& after.list.len() == before.list.len()
            &&& forall|k: int| 0 <= k < before.list.len() && k != p ==> #[trigger] after.list[k] == before.list[k]
            &&& n.id == m.id && n.created_at == m.created_at && n.done == m.done && n.completed_at == m.completed_at
            &&& n.content@ == trim(e.text@)
            &&& n.priority == e.priority
            &&& n.due == e.due
            &&& n.updated_at == now
            &&& after.alerted == if m.due != e.due { drop_id(before.alerted, id) } else { before.alerted }
        }
    }
}

impl EditState {
    /// No edit in progress.
    pub fn new() -> (e: EditState)
        ensures
            e.id is None,
            e.text@.len() == 0,
            e.priority is None,
            e.due is None,
    {
        EditState { id: None, text: String::new(), priority: None, due: None }
    }

    /// Commit the in-progress edit (if any) at `now`: a non-empty change is
    /// saved and stamped; changing the due time re-arms its alert. An emptied
    /// edit is discarded, keeping the old content. The edit then closes and
    /// the search is cleared.
    pub fn commit_at(&mut self, memos: &mut MemoListState, now: i64)
        ensures
            old(self).id is None ==> *final(self) == *old(self) && *final(memos) == *old(memos),
            edit_closed(*old(self), *final(self)),
            commits_to(*old(self), old(memos)@, final(memos)@, now),
    {
        proof {
            if self.id is Some {
                lemma_find_id(memos.list@, self.id->0@);
            }
        }
        let id = match &self.id {
            Some(i) => i.clone(),
            None => return,
        };
        let draft = chars_of(self.text.as_str());
        let text = trim_chars(draft.as_slice());
        if text.len() > 0 {
            let new_priority = self.priority;
            let new_due = self.due;
            match position_of(&memos.list, &id) {
                Some(pos) => {
                    let m = memos.list[pos].duplicate();
                    let content_chars = chars_of(m.content.as_str());
                    let same_content = vec_eq(&content_chars, &text);
                    if !same_content || m.priority != new_priority || m.due != new_due {
                        if m.due != new_due {
                            memos.alerted = without_id(&memos.alerted, &id);
                        }
                        let n = Memo {
                            content: string_of(text.as_slice()),
                            priority: new_priority,
                            due: new_due,
                            updated_at: now,
                            ..m
                        };
                        memos.list.set(pos, n);
                    }
                },
                None => {},
            }
        }
        self.id = None;
        memos.search = String::new();
    }

    /// Commit stamped with the current time.
    pub fn commit(&mut self, memos: &mut MemoListState)
        ensures
            old(self).id is None ==> *final(self) == *old(self) && *final(memos) == *old(memos),
            edit_closed(*old(self), *final(self)),
            exists|now: i64| #[trigger] commits_to(*old(self), old(memos)@, final(memos)@, now),
    {
        let now = clock::unix_now();
        self.commit_at(memos, now);
    }

    /// Starting an edit commits the previous one first (switching targets
    /// never throws typed text away), then loads the task with `id` into the
    /// edit; an unknown id leaves no edit open.
    pub fn start_at(&mut self, memos: &mut MemoListState, id: String, now: i64)
        ensures
            commits_to(*old(self), old(memos)@, final(memos)@, now),
            old(self).id is None ==> *final(memos) == *old(memos),
            started(*old(self), final(memos)@.list, id@, *final(self)),
    {
        self.commit_at(memos, now);
        proof {
            lemma_find_id(memos.list@, id@);
        }
        let pos = match position_of(&memos.list, &id) {
            Some(p) => p,
            None => return,
        };
        let content = memos.list[pos].content.clone();
        let priority = memos.list[pos].priority;
        let due = memos.list[pos].due;
        self.id = Some(id);
        self.text = content;
        self.priority = priority;
        self.due = due;
    }

    /// Start an edit, committing the previous one at the current time.
    pub fn start(&mut self, memos: &mut MemoListState, id: String)
        ensures
            exists|now: i64| #[trigger] commits_to(*old(self), old(memos)@, final(memos)@, now),
            old(self).id is None ==> *final(memos) == *old(memos),
            started(*old(self), final(memos)@.list, id@, *final(self)),
    {
        let now = clock::unix_now();
        self.start_at(memos, id, now);
    }

    /// Abandon the edit.
    pub fn cancel(&mut self)
        ensures
            final(self).id is None,
            final(self).text == old(self).text,
            final(self).priority == old(self).priority,
            final(self).due == old(self).due,
    {
        self.id = None;
    }
}

fn vec_eq(a: &Vec<char>, b: &Vec<char>) -> (r: bool)
    ensures
        r == (a@ == b@),
{
    if a.len() != b.len() {
        return false;
    }
    let mut i: usize = 0;
    while i < a.len()
        invariant
            i <= a.len() == b.len(),
            a@.take(i as int) == b@.take(i as int),
        decreases a.len() - i,
    {
        if a[i] != b[i] {
            assert(a@[i as int] != b@[i as int]);
            return false;
        }
        i += 1;
        assert(a@.take(i as int) =~= b@.take(i as int));
    }
    assert(a@ =~= a@.take(a.len() as int));
    assert(b@ =~= b@.take(b.len() as int));
    true
}

impl InputState {
    /// An empty draft.
    pub fn new() -> (i: InputState)
        ensures
            i.text@.len() == 0,
            i.priority is None,
            i.due is None,
            !i.show_due_strip,
    {
        InputState { text: String::new(), priority: None, due: None, show_due_strip: false }
    }

    pub fn show_due_strip(&self) -> (r: bool)
        ensures
            r == self.show_due_strip,
    {
        self.show_due_strip
    }

    /// Esc on the input: the whole draft goes, staged attributes included.
    pub fn clear(&mut self)
        ensures
            final(self).text@.len() == 0,
            final(self).priority is None,
            final(self).due is None,
            !final(self).show_due_strip,
    {
        self.text = String::new();
        self.priority = None;
        self.due = None;
        self.show_due_strip = false;
    }
}

// ---------------------------------------------------------------------------
// Laws
// ---------------------------------------------------------------------------

/// Undo gives back exactly the list a delete took the task from, and
/// closes the toast (both steps move its generation on).
pub proof fn law_undo_restores_delete(v: ListView, id: Seq<char>)
    requires
        find_id(v.list, id) >= 0,
    ensures
        undo_view(delete_view(v, id)).list == v.list,
        undo_view(delete_view(v, id)).deleted is None,
        undo_view(delete_view(v, id)).toast_gen == v.toast_gen + 2,
{
    let p = find_id(v.list, id);
    lemma_find_id(v.list, id);
    let d = delete_view(v, id);
    assert(d.list.len() == v.list.len() - 1);
    assert(d.list.insert(p, v.list[p]) =~= v.list);
}

/// Toggling an undone task twice restores it exactly.
pub proof fn law_toggle_twice_restores(list: Seq<Memo>, id: Seq<char>, t1: i64, t2: i64)
    requires
        find_id(list, id) >= 0 ==> !list[find_id(list, id)].done && list[find_id(list, id)].completed_at is None,
    ensures
        toggle_list(toggle_list(list, id, t1), id, t2) == list,
{
    let p = find_id(list, id);
    lemma_find_id(list, id);
    if p >= 0 {
        let once = toggle_list(list, id, t1);
        lemma_find_id(once, id);
        assert forall|k: int| 0 <= k < p implies #[trigger] once[k].id@ != id by {
            assert(once[k] == list[k]);
        }
        lemma_find_first(once, id, p);
        assert(toggle_list(once, id, t2) =~= list);
    }
}

/// Deleting an id that is not in the list changes nothing.
pub proof fn law_delete_unknown_is_noop(v: ListView, id: Seq<char>)
    requires
        find_id(v.list, id) < 0,
    ensures
        delete_view(v, id) == v,
{
}

/// The due-soon check picks exactly the ids of the undone tasks whose due
/// time lies at or after `now` and at most ten minutes (600 s) later and
/// that were not alerted before; an overdue or later task is never picked.
pub proof fn law_due_soon_window(list: Seq<Memo>, alerted: Seq<Seq<char>>, now: i64, id: Seq<char>)
    ensures
        due_soon(list, alerted, now).contains(id) <==> !alerted.contains(id) && exists|k: int|
            0 <= k < list.len() && (#[trigger] list[k]).id@ == id && !list[k].done && list[k].due is Some && now
                <= list[k].due->0 && list[k].due->0 <= now + 600,
    decreases list.len(),
{
    if list.len() > 0 {
        let t = list.drop_last();
        let m = list.last();
        law_due_soon_window(t, alerted, now, id);
        let rest = due_soon(t, alerted, now);
        let picked = (m.due matches Some(d) && !m.done && now <= d && d - now <= 600) && !alerted.contains(m.id@);
        assert forall|k: int| 0 <= k < t.len() implies #[trigger] t[k] == list[k] by {}
        if picked {
            assert(due_soon(list, alerted, now) == rest.push(m.id@));
            if rest.push(m.id@).contains(id) {
                let j = choose|j: int| 0 <= j < rest.push(m.id@).len() && rest.push(m.id@)[j] == id;
                if j < rest.len() {
                    assert(rest.contains(id));
                } else {
                    assert(list[list.len() - 1].id@ == id);
                }
            }
            if !alerted.contains(id) && exists|k: int|
                0 <= k < list.len() && (#[trigger] list[k]).id@ == id && !list[k].done && list[k].due is Some && now
                    <= list[k].due->0 && list[k].due->0 <= now + 600 {
                let k = choose|k: int|
                    0 <= k < list.len() && (#[trigger] list[k]).id@ == id && !list[k].done && list[k].due is Some && now
                        <= list[k].due->0 && list[k].due->0 <= now + 600;
                if k < t.len() {
                    assert(t[k] == list[k]);
                    assert(rest.contains(id));
                    let j = choose|j: int| 0 <= j < rest.len() && rest[j] == id;
                    assert(rest.push(m.id@)[j] == id);
                } else {
                    assert(rest.push(m.id@)[rest.len() as int] == id);
                }
            }
        } else {
            assert(due_soon(list, alerted, now) == rest);
            if !alerted.contains(id) && exists|k: int|
                0 <= k < list.len() && (#[trigger] list[k]).id@ == id && !list[k].done && list[k].due is Some && now
                    <= list[k].due->0 && list[k].due->0 <= now + 600 {
                let k = choose|k: int|
                    0 <= k < list.len() && (#[trigger] list[k]).id@ == id && !list[k].done && list[k].due is Some && now
                        <= list[k].due->0 && list[k].due->0 <= now + 600;
                if k < t.len() {
                    assert(t[k] == list[k]);
                } else {
                    assert(list[k] == m);
                    assert(false);
                }
            }
            if rest.contains(id) {
                let k = choose|k: int|
                    0 <= k < t.len() && (#[trigger] t[k]).id@ == id && !t[k].done && t[k].due is Some && now
                        <= t[k].due->0 && t[k].due->0 <= now + 600;
                assert(list[k] == t[k]);
            }
        }
    }
}

} // verus!
