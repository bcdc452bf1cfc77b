use memo_pill::island::{
    chevron_visible, due_alerts_at, empty_text, island_class, local_time_hm_at, roll_class, shown_index, stage_class,
    IslandState, FACE_COUNT,
};
use memo_pill::clock::LocalClock;
use memo_pill::memo::Memo;
use memo_pill::tasks::{EditState, MemoListState};

fn list_of(ids: &[&str]) -> MemoListState {
    MemoListState::new(ids.iter().map(|id| Memo::with_id(id.to_string(), format!("text {id}"), 1)).collect())
}

#[test]
fn starts_closed_and_idle() {
    let s = IslandState::new();
    assert!(!s.expanded() && !s.coding_expanded());
    assert_eq!(s.hover_side(), 0);
    assert!(!s.show_time());
    assert_eq!(s.face_expr(), 0);
    assert_eq!(island_class(&s), "island circle");
    assert_eq!(stage_class(&s), "stage");
    assert!(!s.wide() && !s.any_open());
}

#[test]
fn clicks_open_one_panel_at_a_time() {
    let mut s = IslandState::new();
    let mut memos = list_of(&["a"]);
    let mut edit = EditState::new();
    s.click_left_at(&mut memos, &mut edit, 10);
    assert!(s.expanded() && !s.coding_expanded());
    assert_eq!(island_class(&s), "island side-left-mode");
    assert_eq!(stage_class(&s), "stage visual-expanded");
    s.click_right();
    assert!(!s.expanded() && s.coding_expanded());
    assert_eq!(island_class(&s), "island side-right-mode");
    assert_eq!(stage_class(&s), "stage coding-expanded");
    s.click_right();
    assert!(!s.expanded() && !s.coding_expanded());
}

#[test]
fn a_drag_swallows_the_next_click() {
    let mut s = IslandState::new();
    s.drag_started();
    s.click_right();
    assert!(!s.coding_expanded());
    s.click_right();
    assert!(s.coding_expanded());
    // Once the guard lifts, clicks count again.
    s.drag_started();
    s.drag_settled();
    s.click_right();
    assert!(!s.coding_expanded());
}

#[test]
fn hover_is_confirmed_only_by_its_own_generation() {
    let mut s = IslandState::new();
    let g = s.enter_side();
    s.hover_settled(g + 1, 2);
    assert_eq!(s.hover_side(), 0);
    let g = s.enter_side();
    s.hover_settled(g, 2);
    assert_eq!(s.hover_side(), 2);
    assert!(s.wide());
    if let Some(g) = s.leave_side() {
        s.hover_left(g);
    }
    assert_eq!(s.hover_side(), 0);
}

#[test]
fn collapse_closes_both_panels() {
    let mut s = IslandState::new();
    let mut memos = list_of(&["a"]);
    let mut edit = EditState::new();
    s.click_left_at(&mut memos, &mut edit, 10);
    s.collapse_at(&mut memos, &mut edit, 11);
    assert!(!s.any_open());
    assert_eq!(s.hover_side(), 0);
}

#[test]
fn idle_faces_stay_in_range() {
    let mut s = IslandState::new();
    for b in [0u8, 7, 100, 200, 255] {
        s.idle_tick_with(b);
        assert!(s.face_expr() < FACE_COUNT);
    }
    for _ in 0..20 {
        s.idle_tick();
        assert!(s.face_expr() < FACE_COUNT);
    }
}

#[test]
fn tip_carousel_wraps_both_ways() {
    let mut s = IslandState::new();
    assert_eq!(s.scroll_tips(1, true, 1), None);
    let g = s.scroll_tips(1, true, 3);
    assert!(g.is_some());
    assert_eq!(s.tip_index, 1);
    assert_eq!(s.prev_tip_index, Some(0));
    assert_eq!(s.tip_swap_dir, 1);
    s.tip_swap_done(g.unwrap());
    assert_eq!(s.prev_tip_index, None);
    s.scroll_tips(-2, false, 3);
    assert_eq!(s.tip_index, 2);
    assert_eq!(s.tip_swap_dir, -1);
    // A full turn lands where it started: nothing rolls.
    assert_eq!(s.scroll_tips(3, true, 3), None);
    assert_eq!(s.tip_index, 2);
    s.scroll_coding(5, true, 2);
    assert_eq!(s.coding_tip_index, 1);
}

#[test]
fn due_tasks_pop_the_panel_open() {
    let mut s = IslandState::new();
    let mut m = Memo::with_id("a".to_string(), "call".to_string(), 1);
    m.due = Some(1000 + 60);
    let mut memos = MemoListState::new(vec![m]);
    let fresh = due_alerts_at(&mut memos, &mut s, 1000);
    assert_eq!(fresh, vec!["a".to_string()]);
    assert!(s.expanded());
    // An alert while the coding panel is open swaps the panels.
    let mut m2 = Memo::with_id("b".to_string(), "pay".to_string(), 1);
    m2.due = Some(1000 + 300);
    let mut memos2 = MemoListState::new(vec![m2]);
    let mut s3 = IslandState::new();
    s3.click_right();
    assert!(s3.coding_expanded());
    assert_eq!(due_alerts_at(&mut memos2, &mut s3, 1000), vec!["b".to_string()]);
    assert!(s3.expanded() && !s3.coding_expanded());
    // Already alerted: nothing new.
    let mut s2 = IslandState::new();
    assert!(due_alerts_at(&mut memos, &mut s2, 1000).is_empty());
    assert!(!s2.expanded());
}

#[test]
fn small_labels() {
    assert_eq!(empty_text(0), "No tasks");
    assert_eq!(empty_text(3), "All done");
    let s = IslandState::new();
    assert!(!chevron_visible(&s, 2));
    assert_eq!(shown_index(Some(5), 3), Some(2));
    assert_eq!(shown_index(Some(5), 0), None);
    assert_eq!(shown_index(None, 4), None);
    assert_eq!(roll_class(1), "roll-up");
    assert_eq!(roll_class(-1), "roll-down");
    assert_eq!(local_time_hm_at(LocalClock { now: 1_700_000_000, offset: 8 * 3600 }), "06:13");
}

#[test]
fn closing_the_tasks_panel_saves_the_pending_edit() {
    let mut s = IslandState::new();
    let mut memos = list_of(&["a"]);
    let mut edit = EditState::new();
    s.click_left(&mut memos, &mut edit);
    edit.start(&mut memos, "a".to_string());
    edit.text = "changed".to_string();
    s.click_left(&mut memos, &mut edit);
    assert!(!s.expanded());
    assert_eq!(memos.list[0].content, "changed");
    s.click_left(&mut memos, &mut edit);
    edit.start(&mut memos, "a".to_string());
    edit.text = "again".to_string();
    s.collapse(&mut memos, &mut edit);
    assert_eq!(memos.list[0].content, "again");
    assert!(edit.id.is_none());
}
