use memo_pill::clock::LocalClock;
use memo_pill::memo::{Memo, Priority};
use memo_pill::panel::{
    due_presets, due_strip_visible, panel_groups, picked_due_at, priority_button, priority_style, row_class,
    row_meta_at, show_search, sort_completed, tips, RowMeta,
};
use memo_pill::tasks::InputState;

const NOW: i64 = 1_700_000_000;

fn memo(id: &str, content: &str, done: bool, completed_at: Option<i64>) -> Memo {
    let mut m = Memo::with_id(id.to_string(), content.to_string(), 10);
    m.done = done;
    m.completed_at = completed_at;
    m
}

fn ids(v: &[Memo]) -> Vec<&str> {
    v.iter().map(|m| m.id.as_str()).collect()
}

#[test]
fn search_filters_case_insensitively_and_splits_groups() {
    let list = vec![
        memo("a", "Buy Milk", false, None),
        memo("b", "milk shake", true, Some(5)),
        memo("c", "call mom", false, None),
        memo("d", "MILK again", true, Some(9)),
    ];
    let g = panel_groups(&list, "  MiLk ");
    assert_eq!(g.query, "milk");
    assert_eq!(ids(&g.active), vec!["a"]);
    assert_eq!(ids(&g.completed), vec!["d", "b"]);
    assert!(!g.no_match);

    let g = panel_groups(&list, "zzz");
    assert!(g.active.is_empty() && g.completed.is_empty());
    assert!(g.no_match);

    let g = panel_groups(&list, "");
    assert_eq!(ids(&g.active).len(), 2);
    assert!(!panel_groups(&vec![], "x").no_match);
}

#[test]
fn completed_sort_is_newest_first_and_stable() {
    let v = vec![memo("x", "", true, None), memo("y", "", true, Some(3)), memo("z", "", true, None), memo("w", "", true, Some(7))];
    assert_eq!(ids(&sort_completed(&v)), vec!["w", "y", "x", "z"]);
}

#[test]
fn tips_ignore_done_tasks() {
    let list = vec![memo("a", "x", true, Some(1)), memo("b", "y", false, None)];
    assert_eq!(ids(&tips(&list)), vec!["b"]);
}

#[test]
fn row_decorations() {
    assert!(!show_search(4));
    assert!(show_search(5));
    assert_eq!(row_class(false, false, false), "memo-item");
    assert_eq!(row_class(true, true, true), "memo-item done flash editing");
    assert_eq!(priority_style(None), ("p-none", "None"));
    assert_eq!(priority_style(Some(Priority::Medium)), ("p-med", "Medium"));
    let b = priority_button(Some(Priority::High), true);
    assert_eq!(b.class, "prio-chip p-high");
    assert_eq!(b.title, "Priority: High — click to cycle");
    assert_eq!(b.label, "⚑ High");
    let b = priority_button(None, false);
    assert_eq!(b.class, "attr-btn p-none");
    assert_eq!(b.label, "⚑");
}

#[test]
fn meta_lines() {
    let c = LocalClock { now: NOW, offset: 0 };
    match row_meta_at(&memo("a", "x", true, Some(NOW - 120)), c) {
        RowMeta::Done(s) => assert_eq!(s, "Done 2m ago"),
        _ => panic!("expected a done line"),
    }
    let mut m = memo("b", "x", false, None);
    m.due = Some(NOW - 1);
    match row_meta_at(&m, c) {
        RowMeta::Due { label, overdue } => {
            assert_eq!(label, "Today 22:13");
            assert!(overdue);
        },
        _ => panic!("expected a due line"),
    }
    let mut m = memo("c", "x", false, None);
    m.updated_at = NOW - 7200;
    match row_meta_at(&m, c) {
        RowMeta::Age(s) => assert_eq!(s, "2h ago"),
        _ => panic!("expected an age line"),
    }
}

#[test]
fn due_picker() {
    let mut input = InputState::new();
    assert!(!due_strip_visible(&input));
    input.due = Some(1);
    assert!(due_strip_visible(&input));
    assert_eq!(due_presets(), vec![(0, 18, 0), (1, 9, 0), (7, 9, 0)]);
    assert_eq!(picked_due_at(Some(5), "2023-11-14T22:13", 0), Some(NOW - 20));
    assert_eq!(picked_due_at(Some(5), "", 0), Some(5));
    assert_eq!(picked_due_at(None, "garbage", 0), None);
}
