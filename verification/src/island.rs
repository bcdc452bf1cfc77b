//! The island: the always-visible circle/pill bar. Its state (panels,
//! hover, idle face and clock, the two wheel carousels) and the decisions
//! on every event; timers and rendering are the caller's. A delayed action
//! carries the generation it was started with and only applies while that
//! generation is still current.

use crate::memo::Memo;
use crate::tasks::{commits_to, edit_closed, EditState, MemoListState};
use vstd::prelude::*;

verus! {

/// Number of face expressions (face-0 .. face-7 in the style sheet).
pub const FACE_COUNT: u8 = 8;

/// The island's state.
pub struct IslandState {
    /// Tasks panel open (never together with `coding_expanded`).
    pub expanded: bool,
    /// Coding panel open (never together with `expanded`).
    pub coding_expanded: bool,
    pub hovered: bool,
    /// Which side the cursor is over: 0 = none, 1 = left (tasks), 2 = right.
    pub hover_side: u8,
    pub hover_gen: u64,
    /// Idle: the circle shows the clock instead of the face.
    pub show_time: bool,
    pub face_expr: u8,
    /// Set by a Shift+drag so the trailing click does not toggle a panel.
    pub suppress_click: bool,
    /// The task tip the pill shows, and the outgoing one while it rolls out.
    pub tip_index: usize,
    pub prev_tip_index: Option<usize>,
    /// 1: rolled by wheel down (next), -1: wheel up.
    pub tip_swap_dir: i8,
    pub tip_swap_gen: u64,
    /// The same carousel for the coding pill.
    pub coding_tip_index: usize,
    pub prev_coding_index: Option<usize>,
    pub coding_swap_dir: i8,
    pub coding_swap_gen: u64,
}

/// The generation after `g` (wrapping, as a release build counts).
pub open spec fn next_gen(g: u64) -> u64 {
    if g == u64::MAX {
        0
    } else {
        (g + 1) as u64
    }
}

fn bump(g: u64) -> (r: u64)
    ensures
        r == next_gen(g),
{
    if g == u64::MAX {
        0
    } else {
        g + 1
    }
}

/// Where a carousel of `len` items lands from `idx` after `steps` wheel
/// steps (negative: backwards), wrapping around. No step leaves it as is.
pub open spec fn stepped(idx: int, steps: int, len: int) -> int {
    if steps == 0 {
        idx
    } else {
        (idx + steps) % len
    }
}

fn step_index(idx: usize, steps: i64, len: usize) -> (r: usize)
    requires
        len >= 1,
    ensures
        r as int == stepped(idx as int, steps as int, len as int),
{
    if steps == 0 {
        return idx;
    }
    let l: i128 = len as i128;
    let t: i128 = idx as i128 + steps as i128;
    let r: i128 = if t >= 0 {
        t % l
    } else {
        let a: i128 = (-t) % l;
        proof {
            let q: int = (-(t as int)) / (l as int);
            vstd::arithmetic::div_mod::lemma_fundamental_div_mod(-(t as int), l as int);
            if a == 0 {
                assert(t == (-q) * l + 0) by (nonlinear_arith)
                    requires
                        -t == q * l + a,
                        a == 0,
                ;
                vstd::arithmetic::div_mod::lemma_fundamental_div_mod_converse(t as int, l as int, -q, 0);
            } else {
                assert(t == (-q - 1) * l + (l - a)) by (nonlinear_arith)
                    requires
                        -t == q * l + a,
                ;
                vstd::arithmetic::div_mod::lemma_fundamental_div_mod_converse(t as int, l as int, -q - 1, l - a);
            }
        }
        if a == 0 {
            0
        } else {
            l - a
        }
    };
    r as usize
}

/// The island's state at startup: everything closed and idle.
pub open spec fn initial(s: IslandState) -> bool {
    &&& !s.expanded && !s.coding_expanded && !s.hovered && s.hover_side == 0
    &&& !s.show_time && s.face_expr == 0 && !s.suppress_click
    &&& s.tip_index == 0 && s.prev_tip_index is None && s.tip_swap_dir == 1
    &&& s.coding_tip_index == 0 && s.prev_coding_index is None && s.coding_swap_dir == 1
    &&& s.hover_gen == 0 && s.tip_swap_gen == 0 && s.coding_swap_gen == 0
}

/// At most one panel is open.
pub open spec fn panels_exclusive(s: IslandState) -> bool {
    !(s.expanded && s.coding_expanded)
}

/// The island after a click on the tasks side.
pub open spec fn click_left_spec(s: IslandState) -> IslandState {
    if s.suppress_click {
        IslandState { suppress_click: false, ..s }
    } else {
        IslandState { coding_expanded: false, expanded: !s.expanded, ..s }
    }
}

/// The island after a click on the coding side.
pub open spec fn click_right_spec(s: IslandState) -> IslandState {
    if s.suppress_click {
        IslandState { suppress_click: false, ..s }
    } else {
        IslandState { expanded: false, coding_expanded: !s.coding_expanded, ..s }
    }
}

/// The island after a collapse.
pub open spec fn collapse_spec(s: IslandState) -> IslandState {
    if !s.expanded && !s.coding_expanded {
        s
    } else {
        IslandState { expanded: false, coding_expanded: false, hovered: false, hover_side: 0, ..s }
    }
}

impl IslandState {
    pub fn new() -> (s: IslandState)
        ensures
            initial(s),
    {
        IslandState {
            expanded: false,
            coding_expanded: false,
            hovered: false,
            hover_side: 0,
            hover_gen: 0,
            show_time: false,
            face_expr: 0,
            suppress_click: false,
            tip_index: 0,
            prev_tip_index: None,
            tip_swap_dir: 1,
            tip_swap_gen: 0,
            coding_tip_index: 0,
            prev_coding_index: None,
            coding_swap_dir: 1,
            coding_swap_gen: 0,
        }
    }

    pub fn expanded(&self) -> (r: bool)
        ensures
            r == self.expanded,
    {
        self.expanded
    }

    pub fn coding_expanded(&self) -> (r: bool)
        ensures
            r == self.coding_expanded,
    {
        self.coding_expanded
    }

    pub fn hover_side(&self) -> (r: u8)
        ensures
            r == self.hover_side,
    {
        self.hover_side
    }

    pub fn show_time(&self) -> (r: bool)
        ensures
            r == self.show_time,
    {
        self.show_time
    }

    pub fn face_expr(&self) -> (r: u8)
        ensures
            r == self.face_expr,
    {
        self.face_expr
    }

    /// Hover-in on `side`: starts the 100 ms grace period; returns its
    /// generation.
    pub fn enter_side(&mut self) -> (generation: u64)
        ensures
            *final(self) == (IslandState { hover_gen: next_gen(old(self).hover_gen), ..*old(self) }),
            generation == final(self).hover_gen,
    {
        self.hover_gen = bump(self.hover_gen);
        self.hover_gen
    }

    /// The hover-in grace period of `generation` ended: unless a later
    /// hover event superseded it, the island widens toward `side`.
    pub fn hover_settled(&mut self, generation: u64, side: u8)
        ensures
            generation == old(self).hover_gen ==> *final(self) == (IslandState {
                hovered: true,
                hover_side: side,
                ..*old(self)
            }),
            generation != old(self).hover_gen ==> *final(self) == *old(self),
    {
        if self.hover_gen == generation {
            self.hovered = true;
            self.hover_side = side;
        }
    }

    /// Hover-out: starts the 1 s grace period and returns its generation;
    /// nothing while a panel is open.
    pub fn leave_side(&mut self) -> (generation: Option<u64>)
        ensures
            old(self).expanded || old(self).coding_expanded ==> generation is None && *final(self) == *old(self),
            !(old(self).expanded || old(self).coding_expanded) ==> {
                &&& *final(self) == (IslandState { hover_gen: next_gen(old(self).hover_gen), ..*old(self) })
                &&& generation == Some(final(self).hover_gen)
            },
    {
        if self.expanded || self.coding_expanded {
            return None;
        }
        self.hover_gen = bump(self.hover_gen);
        Some(self.hover_gen)
    }

    /// The hover-out grace period of `generation` ended: unless superseded,
    /// the island goes back to idle.
    pub fn hover_left(&mut self, generation: u64)
        ensures
            generation == old(self).hover_gen ==> *final(self) == (IslandState {
                hovered: false,
                hover_side: 0,
                ..*old(self)
            }),
            generation != old(self).hover_gen ==> *final(self) == *old(self),
    {
        if self.hover_gen == generation {
            self.hovered = false;
            self.hover_side = 0;
        }
    }

    /// Collapse whichever panel is open at `now`: the pending edit is
    /// committed, and the hover resets (after a margin click the cursor is
    /// not on the island). Nothing when no panel is open.
    pub fn collapse_at(&mut self, memos: &mut MemoListState, edit: &mut EditState, now: i64)
        ensures
            *final(self) == collapse_spec(*old(self)),
            !old(self).expanded && !old(self).coding_expanded ==> *final(memos) == *old(memos) && *final(edit)
                == *old(edit),
            old(self).expanded || old(self).coding_expanded ==> {
                &&& edit_closed(*old(edit), *final(edit))
                &&& commits_to(*old(edit), old(memos)@, final(memos)@, now)
            },
    {
        if !self.expanded && !self.coding_expanded {
            return;
        }
        edit.commit_at(memos, now);
        self.expanded = false;
        self.coding_expanded = false;
        self.hovered = false;
        self.hover_side = 0;
    }

    /// Collapse at the current time.
    pub fn collapse(&mut self, memos: &mut MemoListState, edit: &mut EditState)
        ensures
            *final(self) == collapse_spec(*old(self)),
            !old(self).expanded && !old(self).coding_expanded ==> *final(memos) == *old(memos) && *final(edit)
                == *old(edit),
            old(self).expanded || old(self).coding_expanded ==> {
                &&& edit_closed(*old(edit), *final(edit))
                &&& exists|now: i64| #[trigger] commits_to(*old(edit), old(memos)@, final(memos)@, now)
            },
    {
        let now = crate::clock::unix_now();
        self.collapse_at(memos, edit, now);
    }

    /// A click on the tasks side at `now`: swallowed right after a drag;
    /// otherwise it closes the coding panel and toggles the tasks panel,
    /// committing the pending edit when the tasks panel closes.
    pub fn click_left_at(&mut self, memos: &mut MemoListState, edit: &mut EditState, now: i64)
        ensures
            *final(self) == click_left_spec(*old(self)),
            old(self).suppress_click || !old(self).expanded ==> *final(memos) == *old(memos) && *final(edit)
                == *old(edit),
            !old(self).suppress_click && old(self).expanded ==> {
                &&& edit_closed(*old(edit), *final(edit))
                &&& commits_to(*old(edit), old(memos)@, final(memos)@, now)
            },
    {
        if self.suppress_click {
            self.suppress_click = false;
            return;
        }
        self.coding_expanded = false;
        if self.expanded {
            edit.commit_at(memos, now);
        }
        self.expanded = !self.expanded;
    }

    /// A click on the tasks side now.
    pub fn click_left(&mut self, memos: &mut MemoListState, edit: &mut EditState)
        ensures
            *final(self) == click_left_spec(*old(self)),
            old(self).suppress_click || !old(self).expanded ==> *final(memos) == *old(memos) && *final(edit)
                == *old(edit),
            !old(self).suppress_click && old(self).expanded ==> {
                &&& edit_closed(*old(edit), *final(edit))
                &&& exists|now: i64| #[trigger] commits_to(*old(edit), old(memos)@, final(memos)@, now)
            },
    {
        let now = crate::clock::unix_now();
        self.click_left_at(memos, edit, now);
    }

    /// A click on the coding side: swallowed right after a drag; otherwise
    /// it closes the tasks panel and toggles the coding panel.
    pub fn click_right(&mut self)
        ensures
            *final(self) == click_right_spec(*old(self)),
    {
        if self.suppress_click {
            self.suppress_click = false;
            return;
        }
        self.expanded = false;
        self.coding_expanded = !self.coding_expanded;
    }

    /// A Shift+drag started: the click that ends it must not toggle.
    pub fn drag_started(&mut self)
        ensures
            *final(self) == (IslandState { suppress_click: true, ..*old(self) }),
    {
        self.suppress_click = true;
    }

    /// Half a second after a drag the click guard lifts.
    pub fn drag_settled(&mut self)
        ensures
            *final(self) == (IslandState { suppress_click: false, ..*old(self) }),
    {
        self.suppress_click = false;
    }

    /// The 5 s idle tick with random byte `byte`: while the tasks panel is
    /// closed the circle alternates between the face and the clock, and each
    /// return to the face picks a face other than the current one.
    pub fn idle_tick_with(&mut self, byte: u8)
        ensures
            old(self).expanded ==> *final(self) == *old(self),
            !old(self).expanded && !old(self).show_time ==> *final(self) == (IslandState { show_time: true, ..*old(self) }),
            !old(self).expanded && old(self).show_time ==> {
                let n = (byte % FACE_COUNT) as int;
                &&& *final(self) == (IslandState { show_time: false, face_expr: final(self).face_expr, ..*old(self) })
                &&& final(self).face_expr == if n == old(self).face_expr { (n + 1) % 8 } else { n }
            },
    {
        if self.expanded {
            return;
        }
        let next_show_time = !self.show_time;
        if !next_show_time {
            let mut next: u8 = byte % FACE_COUNT;
            if next == self.face_expr {
                next = (next + 1) % FACE_COUNT;
            }
            self.face_expr = next;
        }
        self.show_time = next_show_time;
    }

    /// The 5 s idle tick.
    pub fn idle_tick(&mut self)
        ensures
            old(self).expanded ==> *final(self) == *old(self),
            !old(self).expanded ==> final(self).show_time == !old(self).show_time,
            !old(self).expanded && old(self).show_time ==> final(self).face_expr != old(self).face_expr
                && final(self).face_expr < FACE_COUNT,
            !old(self).expanded && !old(self).show_time ==> final(self).face_expr == old(self).face_expr,
    {
        let byte = random_byte();
        self.idle_tick_with(byte);
    }

    /// Wheel on the tasks pill: `steps` whole 48 px steps (negative: up),
    /// `down` the wheel's direction, over `tips_len` tips. With two or more
    /// tips the index moves, wrapping around; a move starts the roll-out of
    /// the previous tip and returns the generation of its 400 ms timer.
    pub fn scroll_tips(&mut self, steps: i64, down: bool, tips_len: usize) -> (generation: Option<u64>)
        ensures
            ({
                let idx = if tips_len < 2 { old(self).tip_index as int } else { stepped(old(self).tip_index as int, steps as int, tips_len as int) };
                &&& idx == old(self).tip_index ==> generation is None && *final(self) == *old(self)
                &&& idx != old(self).tip_index ==> {
                    &&& *final(self) == (IslandState {
                        prev_tip_index: Some(old(self).tip_index),
                        tip_swap_dir: if down { 1i8 } else { -1i8 },
                        tip_swap_gen: next_gen(old(self).tip_swap_gen),
                        tip_index: idx as usize,
                        ..*old(self)
                    })
                    &&& generation == Some(final(self).tip_swap_gen)
                }
            }),
    {
        if tips_len < 2 {
            return None;
        }
        let old_idx = self.tip_index;
        let idx = step_index(old_idx, steps, tips_len);
        if idx == old_idx {
            return None;
        }
        self.prev_tip_index = Some(old_idx);
        self.tip_swap_dir = if down {
            1
        } else {
            -1
        };
        self.tip_swap_gen = bump(self.tip_swap_gen);
        self.tip_index = idx;
        Some(self.tip_swap_gen)
    }

    /// The roll-out of generation `generation` finished.
    pub fn tip_swap_done(&mut self, generation: u64)
        ensures
            generation == old(self).tip_swap_gen ==> *final(self) == (IslandState { prev_tip_index: None, ..*old(self) }),
            generation != old(self).tip_swap_gen ==> *final(self) == *old(self),
    {
        if self.tip_swap_gen == generation {
            self.prev_tip_index = None;
        }
    }

    /// Wheel on the coding pill, as `scroll_tips`.
    pub fn scroll_coding(&mut self, steps: i64, down: bool, len: usize) -> (generation: Option<u64>)
        ensures
            ({
                let idx = if len < 2 { old(self).coding_tip_index as int } else { stepped(old(self).coding_tip_index as int, steps as int, len as int) };
                &&& idx == old(self).coding_tip_index ==> generation is None && *final(self) == *old(self)
                &&& idx != old(self).coding_tip_index ==> {
                    &&& *final(self) == (IslandState {
                        prev_coding_index: Some(old(self).coding_tip_index),
                        coding_swap_dir: if down { 1i8 } else { -1i8 },
                        coding_swap_gen: next_gen(old(self).coding_swap_gen),
                        coding_tip_index: idx as usize,
                        ..*old(self)
                    })
                    &&& generation == Some(final(self).coding_swap_gen)
                }
            }),
    {
        if len < 2 {
            return None;
        }
        let old_idx = self.coding_tip_index;
        let idx = step_index(old_idx, steps, len);
        if idx == old_idx {
            return None;
        }
        self.prev_coding_index = Some(old_idx);
        self.coding_swap_dir = if down {
            1
        } else {
            -1
        };
        self.coding_swap_gen = bump(self.coding_swap_gen);
        self.coding_tip_index = idx;
        Some(self.coding_swap_gen)
    }

    /// The coding pill's roll-out of generation `generation` finished.
    pub fn coding_swap_done(&mut self, generation: u64)
        ensures
            generation == old(self).coding_swap_gen ==> *final(self) == (IslandState { prev_coding_index: None, ..*old(self) }),
            generation != old(self).coding_swap_gen ==> *final(self) == *old(self),
    {
        if self.coding_swap_gen == generation {
            self.prev_coding_index = None;
        }
    }

    /// The window takes the wide island's hot region: hovered or a panel
    /// open.
    pub fn wide(&self) -> (r: bool)
        ensures
            r == (self.hovered || self.expanded || self.coding_expanded),
    {
        self.hovered || self.expanded || self.coding_expanded
    }

    /// A panel is open (the whole window is then interactive).
    pub fn any_open(&self) -> (r: bool)
        ensures
            r == (self.expanded || self.coding_expanded),
    {
        self.expanded || self.coding_expanded
    }
}

/// `uuid::Uuid::new_v4().as_bytes()[0]`: a random byte. Nothing is stated
/// of its value.
#[verifier::external_body]
fn random_byte() -> (b: u8) {
    uuid::Uuid::new_v4().as_bytes()[0]
}

/// The island after a due-soon alert: the tasks panel is open, and the
/// coding panel, which never shows beside it, is closed.
pub open spec fn due_alert_spec(s: IslandState) -> IslandState {
    IslandState { expanded: true, coding_expanded: false, ..s }
}

/// The due-soon check at `now`: newly due tasks are alerted and flash (see
/// `due_alert_step`) and the tasks panel pops open for them, closing the
/// coding panel. Returns the newly alerted ids.
pub fn due_alerts_at(memos: &mut MemoListState, island: &mut IslandState, now: i64) -> (fresh: Vec<String>)
    ensures
        crate::tasks::ids_view(fresh@) == crate::tasks::due_soon(old(memos)@.list, old(memos)@.alerted, now),
        final(memos)@ == (crate::tasks::ListView {
            alerted: old(memos)@.alerted + crate::tasks::ids_view(fresh@),
            flash: old(memos)@.flash + crate::tasks::ids_view(fresh@),
            ..old(memos)@
        }),
        fresh@.len() == 0 ==> *final(island) == *old(island),
        fresh@.len() > 0 ==> *final(island) == due_alert_spec(*old(island)),
{
    let fresh = memos.due_alert_step(now);
    if fresh.len() > 0 {
        island.expanded = true;
        island.coding_expanded = false;
    }
    fresh
}

// ---------------------------------------------------------------------------
// What the island shows
// ---------------------------------------------------------------------------

/// The island's mode class: idle circle (showing the clock or the face),
/// left-side mode (tasks open or hovered), right-side mode.
pub open spec fn island_class_spec(s: IslandState) -> Seq<char> {
    if !s.expanded && !s.coding_expanded && s.hover_side == 0 {
        if s.show_time {
            "island circle show-time"@
        } else {
            "island circle"@
        }
    } else if s.expanded || (!s.coding_expanded && s.hover_side == 1) {
        "island side-left-mode"@
    } else {
        "island side-right-mode"@
    }
}

pub fn island_class(s: &IslandState) -> (r: &'static str)
    ensures
        r@ == island_class_spec(*s),
{
    if !s.expanded && !s.coding_expanded && s.hover_side == 0 {
        if s.show_time {
            "island circle show-time"
        } else {
            "island circle"
        }
    } else if s.expanded || (!s.coding_expanded && s.hover_side == 1) {
        "island side-left-mode"
    } else {
        "island side-right-mode"
    }
}

/// The pill's text without an active task.
pub fn empty_text(memo_count: usize) -> (r: &'static str)
    ensures
        r@ == if memo_count == 0 { "No tasks"@ } else { "All done"@ },
{
    if memo_count == 0 {
        "No tasks"
    } else {
        "All done"
    }
}

/// The chevron shows while the tasks panel is open over a non-empty list.
pub fn chevron_visible(s: &IslandState, memo_count: usize) -> (r: bool)
    ensures
        r == (s.expanded && memo_count > 0),
{
    s.expanded && memo_count > 0
}

/// The item a carousel of `len` items shows for a stored index: none when
/// empty; the index wraps when the list has shrunk since.
pub fn shown_index(index: Option<usize>, len: usize) -> (r: Option<usize>)
    ensures
        r == match index {
            Some(i) => if len == 0 { None } else { Some((i % len) as usize) },
            None => None,
        },
{
    match index {
        Some(i) => if len == 0 {
            None
        } else {
            Some(i % len)
        },
        None => None,
    }
}

/// The roll animation's direction class.
pub fn roll_class(dir: i8) -> (r: &'static str)
    ensures
        r@ == if dir > 0 { "roll-up"@ } else { "roll-down"@ },
{
    if dir > 0 {
        "roll-up"
    } else {
        "roll-down"
    }
}

/// The page's stage class.
pub fn stage_class(s: &IslandState) -> (r: &'static str)
    ensures
        r@ == if s.expanded { "stage visual-expanded"@ } else if s.coding_expanded { "stage coding-expanded"@ } else { "stage"@ },
{
    if s.expanded {
        "stage visual-expanded"
    } else if s.coding_expanded {
        "stage coding-expanded"
    } else {
        "stage"
    }
}

/// The tip line of a task: its text, and "due <short label>" when it has a
/// due time (see `due_label_short`).
pub fn tip_due(m: &Memo) -> (r: Option<String>)
    ensures
        m.due is None ==> r is None,
        m.due matches Some(d) ==> (r matches Some(s) && exists|c: crate::clock::LocalClock| #[trigger] c.wf()
            && s@ == "due "@ + crate::memo::due_label_short_spec(d as int, c)),
{
    match m.due {
        Some(d) => {
            let c = crate::clock::local_clock();
            let label = crate::memo::due_label_short_at(d, c);
            let mut v = crate::text::chars_of("due ");
            crate::text::push_str(&mut v, label.as_str());
            proof {
                reveal_strlit("due ");
            }
            Some(crate::text::string_of(v.as_slice()))
        },
        None => None,
    }
}

/// The circle's clock text at clock `c`: local "HH:MM" (empty if the
/// clock reads outside the calendar).
pub fn local_time_hm_at(c: crate::clock::LocalClock) -> (r: String)
    requires
        c.wf(),
    ensures
        r@ == match crate::memo::now_local(c) {
            Some(l) => crate::memo::hour_minute(l),
            None => Seq::empty(),
        },
{
    let mut v: Vec<char> = Vec::new();
    match crate::clock::local_time(c.now, c.offset) {
        Some(l) => {
            let h = crate::text::padded(l.hour as i64, 2);
            crate::text::push_all(&mut v, h.as_slice());
            v.push(':');
            let m = crate::text::padded(l.minute as i64, 2);
            crate::text::push_all(&mut v, m.as_slice());
            proof {
                reveal_strlit(":");
            }
        },
        None => {},
    }
    assert(v@ =~= match crate::memo::now_local(c) {
        Some(l) => crate::memo::hour_minute(l),
        None => Seq::<char>::empty(),
    });
    crate::text::string_of(v.as_slice())
}

/// The circle's clock text now.
pub fn local_time_hm() -> (r: String)
    ensures
        exists|c: crate::clock::LocalClock| #[trigger] c.wf() && r@ == match crate::memo::now_local(c) {
            Some(l) => crate::memo::hour_minute(l),
            None => Seq::empty(),
        },
{
    let c = crate::clock::local_clock();
    local_time_hm_at(c)
}

/// A wheel move of whole turns around the carousel lands back on the same
/// tip, so nothing swaps.
pub proof fn law_full_wrap_no_swap(idx: int, steps: int, len: int)
    requires
        2 <= len,
        0 <= idx < len,
        steps % len == 0,
    ensures
        stepped(idx, steps, len) == idx,
{
    if steps != 0 {
        let k = steps / len;
        vstd::arithmetic::div_mod::lemma_fundamental_div_mod(steps, len);
        assert(idx + steps == (k) * len + idx) by (nonlinear_arith)
            requires
                steps == len * k + steps % len,
                steps % len == 0,
        ;
        vstd::arithmetic::div_mod::lemma_fundamental_div_mod_converse(idx + steps, len, k, idx);
    }
}

/// A carousel step always lands on one of the items.
pub proof fn law_step_in_range(idx: int, steps: int, len: int)
    requires
        1 <= len,
        0 <= idx < len,
    ensures
        0 <= stepped(idx, steps, len) < len,
{
}

/// At most one panel is ever open: a click opens its panel only by closing
/// the other, a due-soon alert opens the tasks panel and closes the coding
/// panel, and a collapse closes both.
pub proof fn law_one_panel_at_a_time(s: IslandState)
    ensures
        panels_exclusive(due_alert_spec(s)),
        panels_exclusive(s) ==> panels_exclusive(click_left_spec(s)),
        panels_exclusive(s) ==> panels_exclusive(click_right_spec(s)),
        !s.suppress_click ==> panels_exclusive(click_left_spec(s)) && panels_exclusive(click_right_spec(s)),
        panels_exclusive(collapse_spec(s)),
{
}

} // verus!
