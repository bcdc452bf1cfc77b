use memo_pill::memo::{Memo, Priority};
use memo_pill::tasks::{EditState, InputState, MemoListState};

fn list_of(ids: &[&str]) -> MemoListState {
    MemoListState::new(ids.iter().map(|id| Memo::with_id(id.to_string(), format!("text {id}"), 1)).collect())
}

fn ids(s: &MemoListState) -> Vec<String> {
    s.list.iter().map(|m| m.id.clone()).collect()
}

#[test]
fn quick_capture_puts_the_trimmed_draft_on_top() {
    let mut s = list_of(&["a"]);
    s.search = "old query".to_string();
    let mut input = InputState::new();
    input.text = "  buy milk  ".to_string();
    input.priority = Some(Priority::High);
    input.due = Some(500);
    input.show_due_strip = true;
    s.add_with(&mut input, "n1".to_string(), 42);
    assert_eq!(ids(&s), vec!["n1", "a"]);
    let m = &s.list[0];
    assert_eq!(m.content, "buy milk");
    assert_eq!((m.created_at, m.updated_at), (42, 42));
    assert_eq!(m.priority, Some(Priority::High));
    assert_eq!(m.due, Some(500));
    assert!(!m.done);
    assert_eq!(input.text, "");
    assert_eq!(input.priority, None);
    assert_eq!(input.due, None);
    assert!(!input.show_due_strip);
    assert_eq!(s.search, "");
}

#[test]
fn blank_draft_adds_nothing() {
    let mut s = list_of(&["a"]);
    let mut input = InputState::new();
    input.text = " \t ".to_string();
    s.add_with(&mut input, "n1".to_string(), 42);
    assert_eq!(ids(&s), vec!["a"]);
    assert_eq!(input.text, " \t ");
}

#[test]
fn toggling_twice_restores_the_task() {
    let mut s = list_of(&["a", "b"]);
    s.toggle_done_at("b".to_string(), 77);
    assert!(s.list[1].done);
    assert_eq!(s.list[1].completed_at, Some(77));
    s.toggle_done_at("b".to_string(), 88);
    assert!(!s.list[1].done);
    assert_eq!(s.list[1].completed_at, None);
    s.toggle_done_at("zzz".to_string(), 1);
    assert!(!s.list[0].done && !s.list[1].done);
}

#[test]
fn delete_then_undo_restores_position() {
    let mut s = list_of(&["a", "b", "c"]);
    let mut edit = EditState::new();
    edit.id = Some("b".to_string());
    s.alerted = vec!["b".to_string()];
    s.flash = vec!["b".to_string(), "c".to_string()];
    let generation = s.delete(&mut edit, "b".to_string());
    assert_eq!(generation, Some(1));
    assert_eq!(ids(&s), vec!["a", "c"]);
    assert_eq!(edit.id, None);
    assert!(s.alerted.is_empty());
    assert_eq!(s.flash, vec!["c".to_string()]);
    assert_eq!(s.deleted.as_ref().map(|(m, p)| (m.id.clone(), *p)), Some(("b".to_string(), 1)));
    s.undo_delete();
    assert_eq!(ids(&s), vec!["a", "b", "c"]);
    assert!(s.deleted.is_none());
    assert_eq!(s.toast_gen, 2);
}

#[test]
fn toast_expiry_only_for_its_generation() {
    let mut s = list_of(&["a", "b"]);
    let mut edit = EditState::new();
    let g1 = s.delete(&mut edit, "a".to_string()).unwrap();
    let g2 = s.delete(&mut edit, "b".to_string()).unwrap();
    s.toast_expired(g1);
    assert!(s.deleted.is_some());
    s.toast_expired(g2);
    assert!(s.deleted.is_none());
    // Unknown ids are not deleted.
    assert_eq!(s.delete(&mut edit, "nope".to_string()), None);
}

#[test]
fn undo_after_the_list_shrank_appends() {
    let mut s = list_of(&["a", "b", "c"]);
    let mut edit = EditState::new();
    s.delete(&mut edit, "c".to_string());
    s.delete(&mut edit, "b".to_string());
    s.deleted = Some((Memo::with_id("c".to_string(), "text c".to_string(), 1), 5));
    s.undo_delete();
    assert_eq!(ids(&s), vec!["a", "c"]);
}

#[test]
fn due_alerts_fire_once_within_ten_minutes() {
    let mut list = Vec::new();
    for (id, due, done) in [("soon", 1_000 + 600, false), ("late", 1_000 + 601, false), ("past", 999, false), ("done", 1_100, true)] {
        let mut m = Memo::with_id(id.to_string(), id.to_string(), 0);
        m.due = Some(due);
        m.done = done;
        list.push(m);
    }
    let mut s = MemoListState::new(list);
    let fresh = s.due_alert_step(1_000);
    assert_eq!(fresh, vec!["soon".to_string()]);
    assert_eq!(s.alerted, vec!["soon".to_string()]);
    assert_eq!(s.flash, vec!["soon".to_string()]);
    assert!(s.due_alert_step(1_000).is_empty());
    s.clear_flash(&fresh);
    assert!(s.flash.is_empty());
    assert_eq!(s.alerted, vec!["soon".to_string()]);
}

#[test]
fn edit_commit_saves_changes_and_rearms_alerts() {
    let mut s = list_of(&["a"]);
    s.alerted = vec!["a".to_string()];
    s.search = "q".to_string();
    let mut e = EditState::new();
    e.start_at(&mut s, "a".to_string(), 5);
    assert_eq!(e.id.as_deref(), Some("a"));
    assert_eq!(e.text, "text a");
    e.text = "  new text ".to_string();
    e.due = Some(99);
    e.commit_at(&mut s, 50);
    assert_eq!(s.list[0].content, "new text");
    assert_eq!(s.list[0].due, Some(99));
    assert_eq!(s.list[0].updated_at, 50);
    assert!(s.alerted.is_empty());
    assert_eq!(e.id, None);
    assert_eq!(s.search, "");
}

#[test]
fn emptied_or_unchanged_edit_keeps_the_task() {
    let mut s = list_of(&["a"]);
    let mut e = EditState::new();
    e.start_at(&mut s, "a".to_string(), 5);
    e.text = "   ".to_string();
    e.commit_at(&mut s, 50);
    assert_eq!(s.list[0].content, "text a");
    assert_eq!(s.list[0].updated_at, 1);
    e.start_at(&mut s, "a".to_string(), 60);
    e.commit_at(&mut s, 70);
    assert_eq!(s.list[0].updated_at, 1);
    e.start_at(&mut s, "a".to_string(), 80);
    e.cancel();
    assert_eq!(e.id, None);
}

#[test]
fn clearing_the_input_drops_staged_attributes() {
    let mut input = InputState::new();
    input.text = "x".to_string();
    input.priority = Some(Priority::Low);
    input.show_due_strip = true;
    input.clear();
    assert_eq!(input.text, "");
    assert_eq!(input.priority, None);
    assert!(!input.show_due_strip());
}

#[test]
fn starting_another_edit_saves_the_pending_one() {
    let mut s = list_of(&["a", "b"]);
    let mut e = EditState::new();
    e.start(&mut s, "a".to_string());
    assert_eq!(e.text, "text a");
    e.text = "  new a ".to_string();
    e.priority = Some(Priority::Low);
    e.start(&mut s, "b".to_string());
    assert_eq!(s.list[0].content, "new a");
    assert_eq!(s.list[0].priority, Some(Priority::Low));
    assert_eq!(e.id.as_deref(), Some("b"));
    assert_eq!(e.text, "text b");
    e.text = "new b".to_string();
    e.commit(&mut s);
    assert_eq!(s.list[1].content, "new b");
    assert!(e.id.is_none());
}
