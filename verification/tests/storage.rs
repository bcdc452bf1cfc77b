use memo_pill::memo::Memo;
use memo_pill::storage::{
    corrupt_backup_name, data_file, data_path, load_memos, load_monitors, load_window_pos,
    named_path, providers_file, remove_monitor, save_memos, save_monitor,
    save_window_pos, settings_file, write_providers_file, MemoFile, MemoLoad, MonitorEntry,
    CURRENT_VERSION,
};

fn entry(id: &str, provider: &str, key: &str) -> MonitorEntry {
    MonitorEntry { id: id.to_string(), provider: provider.to_string(), key: key.to_string() }
}

#[test]
fn data_files_live_in_the_data_directory() {
    let sep = std::path::MAIN_SEPARATOR;
    assert_eq!(data_file(Some("/home/u/MemoPill")), format!("/home/u/MemoPill{sep}memos.json"));
    assert_eq!(settings_file(Some("dir/")), "dir/settings.json");
    assert_eq!(providers_file(None), format!("MemoPill{sep}providers.json"));
    assert_eq!(data_path(Some(""), "x.json"), "x.json");
    assert_eq!(named_path(None, "kimi-usage-cache.json"), None);
    assert_eq!(named_path(Some("d"), "a.json"), Some(format!("d{sep}a.json")));
}

#[test]
fn task_file_round_trip_and_corruption() {
    let memos = vec![Memo::with_id("a".to_string(), "x".to_string(), 1)];
    let f = save_memos(&memos);
    assert_eq!(f.version, CURRENT_VERSION);
    assert_eq!(f.memos.len(), 1);
    match load_memos(Some(f), None) {
        MemoLoad::Loaded(m) => assert_eq!(m[0].id, "a"),
        MemoLoad::Corrupt => panic!("envelope did not load"),
    }
    match load_memos(None, Some(vec![Memo::with_id("b".to_string(), "y".to_string(), 2)])) {
        MemoLoad::Loaded(m) => assert_eq!(m[0].id, "b"),
        MemoLoad::Corrupt => panic!("legacy array did not load"),
    }
    assert!(matches!(load_memos(None, None), MemoLoad::Corrupt));
    let envelope = MemoFile { version: 1, memos: Vec::new() };
    assert!(matches!(load_memos(Some(envelope), None), MemoLoad::Loaded(ref m) if m.is_empty()));
    assert_eq!(corrupt_backup_name(1_700_000_000), "memos.corrupt-1700000000.json");
    assert_eq!(corrupt_backup_name(-5), "memos.corrupt--5.json");
}

#[test]
fn window_position_round_trip() {
    let s = save_window_pos(-120, 44);
    assert_eq!((s.window_x, s.window_y), (-120, 44));
    assert_eq!(load_window_pos(Some(s)), Some((-120, 44)));
    assert_eq!(load_window_pos(None), None);
}

#[test]
fn instance_ids_count_up_per_provider() {
    let mut monitors = Vec::new();
    assert_eq!(save_monitor(&mut monitors, "GLM", "k1").as_deref(), Some("glm-mon-1"));
    assert_eq!(save_monitor(&mut monitors, "GLM", "k2").as_deref(), Some("glm-mon-2"));
    assert_eq!(save_monitor(&mut monitors, "Kimi", "k3").as_deref(), Some("kimi-mon-1"));
    monitors.push(entry("glm-mon-7", "GLM", "k"));
    monitors.push(entry("glm-mon-x", "GLM", "k"));
    assert_eq!(save_monitor(&mut monitors, "GLM", "k4").as_deref(), Some("glm-mon-8"));
    assert_eq!(monitors.last().unwrap().key, "k4");
    assert_eq!(monitors.len(), 6);
}

#[test]
fn exhausted_instance_numbers_add_nothing() {
    let mut monitors = vec![entry("glm-mon-4294967295", "GLM", "k")];
    assert_eq!(save_monitor(&mut monitors, "GLM", "k2"), None);
    assert_eq!(monitors.len(), 1);
}

#[test]
fn legacy_keys_migrate_once() {
    let (m, write) = load_monitors(Vec::new(), vec![("GLM".to_string(), "g".to_string()), ("Kimi".to_string(), "k".to_string())]);
    assert!(write);
    let got: Vec<(&str, &str, &str)> = m.iter().map(|e| (e.id.as_str(), e.provider.as_str(), e.key.as_str())).collect();
    assert_eq!(got, vec![("glm-mon-1", "GLM", "g"), ("kimi-mon-1", "Kimi", "k")]);
    let (m2, write2) = load_monitors(m, vec![("DeepSeek".to_string(), "d".to_string())]);
    assert!(!write2);
    assert_eq!(m2.len(), 2);
    let (m3, write3) = load_monitors(Vec::new(), Vec::new());
    assert!(m3.is_empty() && !write3);
}

#[test]
fn remove_drops_only_that_instance() {
    let monitors = vec![entry("a", "GLM", "1"), entry("b", "GLM", "2"), entry("a", "Kimi", "3")];
    let (kept, changed) = remove_monitor(monitors, "a");
    assert!(changed);
    assert_eq!(kept.len(), 1);
    assert_eq!(kept[0].id, "b");
    let (kept2, changed2) = remove_monitor(kept, "zzz");
    assert!(!changed2);
    assert_eq!(kept2.len(), 1);
    let out = write_providers_file(&kept2);
    assert_eq!(out.monitors[0].key, "2");
}
