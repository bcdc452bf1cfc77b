use memo_pill::clock::LocalClock;
use memo_pill::memo::{
    due_label_at, due_label_short_at, format_date_at, next_priority, parse_local_datetime,
    parse_local_datetime_at, preset_due_at, sort_memos_by_urgency, time_ago_at, to_local_input,
    to_local_input_at, urgency_cmp, Memo, Priority,
};
use std::cmp::Ordering;

// 2023-11-14T22:13:20Z
const NOW: i64 = 1_700_000_000;

fn utc() -> LocalClock {
    LocalClock { now: NOW, offset: 0 }
}

fn memo(id: &str, updated: i64, due: Option<i64>, priority: Option<Priority>) -> Memo {
    let mut m = Memo::with_id(id.to_string(), format!("task {id}"), updated);
    m.due = due;
    m.priority = priority;
    m
}

#[test]
fn priority_cycles_through_all_levels() {
    assert_eq!(next_priority(None), Some(Priority::Low));
    assert_eq!(next_priority(Some(Priority::Low)), Some(Priority::Medium));
    assert_eq!(next_priority(Some(Priority::Medium)), Some(Priority::High));
    assert_eq!(next_priority(Some(Priority::High)), None);
}

#[test]
fn urgency_orders_due_then_priority_then_recency() {
    let a = memo("a", 10, Some(100), None);
    let b = memo("b", 10, Some(200), Some(Priority::High));
    let c = memo("c", 10, None, Some(Priority::High));
    let d = memo("d", 20, None, Some(Priority::High));
    let e = memo("e", 99, None, None);
    assert_eq!(urgency_cmp(&a, &b), Ordering::Less);
    assert_eq!(urgency_cmp(&b, &c), Ordering::Less);
    assert_eq!(urgency_cmp(&d, &c), Ordering::Less);
    assert_eq!(urgency_cmp(&c, &e), Ordering::Less);
    assert_eq!(urgency_cmp(&c, &c), Ordering::Equal);
    let sorted = sort_memos_by_urgency(vec![e, c, a.duplicate(), d, b]);
    let ids: Vec<&str> = sorted.iter().map(|m| m.id.as_str()).collect();
    assert_eq!(ids, vec!["a", "b", "d", "c", "e"]);
}

#[test]
fn sort_is_stable_for_ties() {
    let x = memo("x", 5, None, None);
    let y = memo("y", 5, None, None);
    let sorted = sort_memos_by_urgency(vec![x, y]);
    assert_eq!(sorted[0].id, "x");
    assert_eq!(sorted[1].id, "y");
}

#[test]
fn overdue_needs_a_past_due_time_and_an_open_task() {
    let mut m = memo("m", 0, Some(NOW - 1), None);
    assert!(m.is_overdue_at(NOW));
    assert!(!m.is_overdue_at(NOW - 1));
    m.done = true;
    assert!(!m.is_overdue_at(NOW));
    assert!(!memo("n", 0, None, None).is_overdue_at(NOW));
}

#[test]
fn time_ago_steps() {
    let c = utc();
    assert_eq!(time_ago_at(NOW - 30, c), "just now");
    assert_eq!(time_ago_at(NOW + 500, c), "just now");
    assert_eq!(time_ago_at(NOW - 120, c), "2m ago");
    assert_eq!(time_ago_at(NOW - 7200, c), "2h ago");
    assert_eq!(time_ago_at(NOW - 3 * 86400, c), "3d ago");
    // From a week on: the absolute date.
    assert_eq!(time_ago_at(NOW - 8 * 86400, c), "11-06");
    assert_eq!(time_ago_at(1_600_000_000, c), "2020-09-13");
    assert_eq!(time_ago_at(i64::MIN, c), "");
}

#[test]
fn format_date_depends_on_the_year() {
    assert_eq!(format_date_at(1_699_308_800, utc()), "11-06");
    assert_eq!(format_date_at(1_600_000_000, utc()), "2020-09-13");
    // At +8h the same instant is already the 7th.
    assert_eq!(format_date_at(1_699_308_800, LocalClock { now: NOW, offset: 28_800 }), "11-07");
}

#[test]
fn due_labels() {
    let c = utc();
    assert_eq!(due_label_at(NOW + 3600, c), "Today 23:13");
    assert_eq!(due_label_at(NOW + 86_400, c), "Tomorrow 22:13");
    assert_eq!(due_label_at(NOW + 10 * 86_400, c), "11-24 22:13");
    assert_eq!(due_label_at(1_735_700_000, c), "2025-01-01 02:53");
    assert_eq!(due_label_short_at(NOW + 3600, c), "23:13");
    assert_eq!(due_label_short_at(NOW + 86_400, c), "Tomorrow");
    assert_eq!(due_label_short_at(NOW + 10 * 86_400, c), "11-24");
    assert_eq!(due_label_short_at(1_735_700_000, c), "2025-01-01");
    assert_eq!(due_label_at(i64::MAX, c), "");
}

#[test]
fn presets_land_on_local_times() {
    let c = utc();
    assert_eq!(preset_due_at(0, 18, 0, c), Some(1_699_984_800));
    assert_eq!(preset_due_at(1, 9, 0, c), Some(1_700_038_800));
    assert_eq!(preset_due_at(7, 9, 0, c), Some(1_700_557_200));
    assert_eq!(preset_due_at(0, 24, 0, c), None);
    assert_eq!(preset_due_at(0, 9, 60, c), None);
    assert_eq!(preset_due_at(i64::MAX, 9, 0, c), None);
    // At +8h "today" is the 15th, and 18:00 local is 10:00 UTC.
    assert_eq!(preset_due_at(0, 18, 0, LocalClock { now: NOW, offset: 28_800 }), Some(1_700_042_400));
}

#[test]
fn datetime_local_values_read_and_write() {
    assert_eq!(to_local_input_at(NOW, 0), "2023-11-14T22:13");
    assert_eq!(to_local_input_at(NOW, 28_800), "2023-11-15T06:13");
    assert_eq!(parse_local_datetime_at("2023-11-14T22:13", 0), Some(NOW - 20));
    assert_eq!(parse_local_datetime_at("2024-02-29T13:45", 28_800), Some(1_709_185_500));
    assert_eq!(parse_local_datetime_at("2023-02-29T13:45", 0), None);
    assert_eq!(parse_local_datetime_at("2023-11-14T24:00", 0), None);
    assert_eq!(parse_local_datetime_at("2023-11-14 22:13", 0), None);
    assert_eq!(parse_local_datetime_at("2023-11-14T22:13:00", 0), None);
    assert_eq!(parse_local_datetime_at("23-11-14T22:13", 0), None);
    assert_eq!(parse_local_datetime_at("+2023-11-14T22:13", 0), Some(NOW - 20));
}

#[test]
fn reading_back_a_written_value_gives_the_minute() {
    for &t in &[NOW, 0, 1_234_567_890, 4_102_444_800] {
        for &off in &[0, 3600, -18_000, 28_800] {
            let text = to_local_input_at(t, off);
            assert_eq!(parse_local_datetime_at(&text, off), Some(t - t.rem_euclid(60)));
        }
    }
    // Years below 1000 print fewer than four digits and do not read back.
    let early = -30_610_224_000; // 1000-01-01T00:00:00Z
    assert_eq!(to_local_input_at(early - 86_400, 0), "999-12-31T00:00");
    assert_eq!(parse_local_datetime_at("999-12-31T00:00", 0), None);
}

#[test]
fn clock_reading_versions_agree_with_some_offset() {
    let text = to_local_input(NOW);
    let back = parse_local_datetime(&text).unwrap();
    assert_eq!(back, NOW - 20);
}

#[test]
fn parsed_values_write_back_unchanged() {
    for text in ["2023-11-14T22:13", "1000-01-01T00:00", "9999-12-31T12:00", "2024-02-29T07:05"] {
        for &off in &[0, 3600, -18_000, 28_800] {
            let t = parse_local_datetime_at(text, off).unwrap();
            assert_eq!(to_local_input_at(t, off), text);
        }
    }
}

