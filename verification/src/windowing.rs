//! Window placement decisions in physical pixels: whether the cursor is
//! over a hot region of the click-through window, and whether a saved
//! position still leaves the window reachable on some monitor.

use vstd::prelude::*;

verus! {

/// A rectangle as (left, top, right, bottom), right and bottom exclusive.
pub open spec fn in_rect(r: (i32, i32, i32, i32), x: i32, y: i32) -> bool {
    x >= r.0 && x < r.2 && y >= r.1 && y < r.3
}

/// The point lies in one of the rectangles.
pub open spec fn hit(rects: Seq<(i32, i32, i32, i32)>, x: i32, y: i32) -> bool {
    exists|i: int| 0 <= i < rects.len() && #[trigger] in_rect(rects[i], x, y)
}

/// Whether the cursor is inside one of `rects`. Without a cursor position
/// (the query failed, or the platform has none) the window stays
/// interactive.
pub fn cursor_inside(rects: &[(i32, i32, i32, i32)], cursor: Option<(i32, i32)>) -> (r: bool)
    ensures
        r == match cursor {
            None => true,
            Some(p) => hit(rects@, p.0, p.1),
        },
{
    let (x, y) = match cursor {
        None => return true,
        Some(p) => p,
    };
    let mut i: usize = 0;
    while i < rects.len()
        invariant
            i <= rects.len(),
            cursor == Some((x, y)),
            forall|j: int| 0 <= j < i ==> !#[trigger] in_rect(rects@[j], x, y),
        decreases rects.len() - i,
    {
        let (left, top, right, bottom) = rects[i];
        if x >= left && x < right && y >= top && y < bottom {
            assert(in_rect(rects@[i as int], x, y));
            assert(hit(rects@, x, y));
            return true;
        }
        i += 1;
    }
    false
}

/// At least 40 px of a `w` × `h` window at (`x`, `y`) lies on a monitor at
/// (`mx`, `my`) of size `mw` × `mh`.
pub open spec fn reachable_on(x: int, y: int, w: int, h: int, m: (i32, i32, i32, i32)) -> bool {
    &&& x + w > m.0 + 40
    &&& x < m.0 + m.2 - 40
    &&& y + h > m.1 + 40
    &&& y < m.1 + m.3 - 40
}

/// Whether a saved window position is still usable: on some monitor (each
/// given as x, y, width, height) at least 40 px of the window remain, so it
/// can still be grabbed.
pub fn position_visible(x: i32, y: i32, w: i32, h: i32, monitors: &[(i32, i32, i32, i32)]) -> (r: bool)
    ensures
        r == exists|i: int| 0 <= i < monitors@.len() && #[trigger] reachable_on(x as int, y as int, w as int, h as int, monitors@[i]),
{
    let mut i: usize = 0;
    while i < monitors.len()
        invariant
            i <= monitors.len(),
            forall|j: int| 0 <= j < i ==> !#[trigger] reachable_on(x as int, y as int, w as int, h as int, monitors@[j]),
        decreases monitors.len() - i,
    {
        let (mx, my, mw, mh) = monitors[i];
        let (xx, yy, ww, hh) = (x as i64, y as i64, w as i64, h as i64);
        let (mxx, myy, mww, mhh) = (mx as i64, my as i64, mw as i64, mh as i64);
        if xx + ww > mxx + 40 && xx < mxx + mww - 40 && yy + hh > myy + 40 && yy < myy + mhh - 40 {
            assert(reachable_on(x as int, y as int, w as int, h as int, monitors@[i as int]));
            return true;
        }
        i += 1;
    }
    false
}

/// A saved position counts as visible exactly when, on some monitor (x,
/// y, width, height), the window's right edge lies more than 40 px right
/// of the monitor's left edge, its left edge more than 40 px left of the
/// monitor's right edge, its bottom edge more than 40 px below the
/// monitor's top edge and its top edge more than 40 px above the monitor's
/// bottom edge. So a window wholly above, below, left or right of every
/// monitor is never visible.
pub proof fn law_visible_needs_40px_on_a_monitor(x: int, y: int, w: int, h: int, monitors: Seq<(i32, i32, i32, i32)>)
    ensures
        (exists|i: int| 0 <= i < monitors.len() && #[trigger] reachable_on(x, y, w, h, monitors[i])) <==> (exists|
            i: int,
        |
            0 <= i < monitors.len() && {
                let m = #[trigger] monitors[i];
                &&& x + w > m.0 + 40
                &&& x < m.0 + m.2 - 40
                &&& y + h > m.1 + 40
                &&& y < m.1 + m.3 - 40
            }),
        (forall|i: int| 0 <= i < monitors.len() ==> y + h <= (#[trigger] monitors[i]).1 + 40) ==> !exists|i: int|
            0 <= i < monitors.len() && #[trigger] reachable_on(x, y, w, h, monitors[i]),
        (forall|i: int| 0 <= i < monitors.len() ==> y >= (#[trigger] monitors[i]).1 + monitors[i].3 - 40) ==> !exists|
            i: int,
        | 0 <= i < monitors.len() && #[trigger] reachable_on(x, y, w, h, monitors[i]),
        (forall|i: int| 0 <= i < monitors.len() ==> x + w <= (#[trigger] monitors[i]).0 + 40) ==> !exists|i: int|
            0 <= i < monitors.len() && #[trigger] reachable_on(x, y, w, h, monitors[i]),
        (forall|i: int| 0 <= i < monitors.len() ==> x >= (#[trigger] monitors[i]).0 + monitors[i].2 - 40) ==> !exists|
            i: int,
        | 0 <= i < monitors.len() && #[trigger] reachable_on(x, y, w, h, monitors[i]),
{
    if exists|i: int| 0 <= i < monitors.len() && #[trigger] reachable_on(x, y, w, h, monitors[i]) {
        let i = choose|i: int| 0 <= i < monitors.len() && #[trigger] reachable_on(x, y, w, h, monitors[i]);
        let m = monitors[i];
        assert(x + w > m.0 + 40 && x < m.0 + m.2 - 40 && y + h > m.1 + 40 && y < m.1 + m.3 - 40);
    }
    if exists|i: int|
        0 <= i < monitors.len() && {
            let m = #[trigger] monitors[i];
            &&& x + w > m.0 + 40
            &&& x < m.0 + m.2 - 40
            &&& y + h > m.1 + 40
            &&& y < m.1 + m.3 - 40
        } {
        let i = choose|i: int|
            0 <= i < monitors.len() && {
                let m = #[trigger] monitors[i];
                &&& x + w > m.0 + 40
                &&& x < m.0 + m.2 - 40
                &&& y + h > m.1 + 40
                &&& y < m.1 + m.3 - 40
            };
        assert(reachable_on(x, y, w, h, monitors[i]));
    }
}

} // verus!
