use memo_pill::balance::kimi_local::{
    all_records, build_report, cost_of, drop_unseen, empty_cache, is_usage_line, local_day,
    needs_scan, normalize_model, price_for, record_from_wire, report_at, store_scan, TokenCount,
    UsageRecord, WireLine, WireUsage,
};
use memo_pill::clock::LocalClock;

fn yuan(units: u128) -> f64 {
    units as f64 / 1e7
}

fn tokens(input: u64, output: u64, cache_read: u64, cache_write: u64) -> TokenCount {
    TokenCount { input, output, cache_read, cache_write }
}

fn rec(ts_ms: i64, model: &str, t: TokenCount) -> UsageRecord {
    UsageRecord { ts_ms, model: model.to_string(), tokens: t }
}

#[test]
fn scan_picks_turn_records_and_normalizes_model() {
    let lines = [
        r#"{"type":"usage.record","model":"kimi-code/k3-256k","usage":{"inputOther":10,"output":2,"inputCacheRead":30,"inputCacheCreation":4},"usageScope":"turn","time":1785594051490}"#,
        // session scope must be skipped (would double-count)
        r#"{"type":"usage.record","model":"k3","usage":{"inputOther":999,"output":0,"inputCacheRead":0,"inputCacheCreation":0},"usageScope":"session","time":1785594051491}"#,
        // other event types are ignored even when they carry usage
        r#"{"type":"context.append_loop_event","event":{"type":"step.end","usage":{"inputOther":1,"output":1,"inputCacheRead":1,"inputCacheCreation":1}},"time":1785594051492}"#,
        "not json at all",
    ];
    let candidates: Vec<&str> = lines.iter().copied().filter(|l| is_usage_line(l)).collect();
    assert_eq!(candidates.len(), 2);
    // The two candidate lines, decoded.
    let decoded = vec![
        WireLine {
            model: Some("kimi-code/k3-256k".to_string()),
            usage: Some(WireUsage { input: 10, output: 2, cache_read: 30, cache_write: 4 }),
            usage_scope: Some("turn".to_string()),
            time: Some(1785594051490),
        },
        WireLine {
            model: Some("k3".to_string()),
            usage: Some(WireUsage { input: 999, output: 0, cache_read: 0, cache_write: 0 }),
            usage_scope: Some("session".to_string()),
            time: Some(1785594051491),
        },
    ];
    let records: Vec<UsageRecord> = decoded.into_iter().filter_map(record_from_wire).collect();
    assert_eq!(records.len(), 1);
    let r = &records[0];
    assert_eq!(r.model, "k3-256k");
    assert_eq!(r.tokens.input, 10);
    assert_eq!(r.tokens.output, 2);
    assert_eq!(r.tokens.cache_read, 30);
    assert_eq!(r.tokens.cache_write, 4);
    assert_eq!(r.ts_ms, 1785594051490);
}

#[test]
fn prices_match_kimi_list() {
    let k3 = price_for("k3").unwrap();
    assert_eq!(
        (k3.input as f64 / 10.0, k3.output as f64 / 10.0, k3.cache_read as f64 / 10.0),
        (20.0, 100.0, 2.0)
    );
    let k3_256k = price_for("k3-256k").unwrap();
    assert_eq!(
        (k3_256k.input as f64 / 10.0, k3_256k.output as f64 / 10.0, k3_256k.cache_read as f64 / 10.0),
        (10.0, 50.0, 1.0)
    );
    assert!(price_for("mystery-model").is_none());
}

#[test]
fn cost_uses_input_rate_for_cache_write() {
    // 1M input + 1M cache write + 1M cache read + 1M output on k3
    // = ¥20 + ¥20 + ¥2 + ¥100 = ¥142
    let t = tokens(1_000_000, 1_000_000, 1_000_000, 1_000_000);
    assert_eq!(cost_of("k3", &t).map(yuan), Some(142.0));
}

#[test]
fn unknown_model_costs_nothing_but_counts_tokens() {
    let now_ms = std::time::SystemTime::now()
        .duration_since(std::time::UNIX_EPOCH)
        .unwrap()
        .as_millis() as i64;
    let records = vec![
        rec(now_ms, "mystery", tokens(1000, 500, 0, 0)),
        rec(now_ms, "k3", tokens(1_000_000, 0, 0, 0)),
    ];
    let report = build_report(&records);
    assert_eq!(report.today_requests, 2);
    assert_eq!(report.today_tokens.input, 1_001_000);
    // Only the k3 request is priced: 1M input @ ¥20.
    assert_eq!(yuan(report.today_cost), 20.0);
    assert!(report.last_request.is_some());
    // Today's daily entry carries both cost and total tokens.
    let (_, day) = &report.daily[0];
    assert_eq!(yuan(day.cost), 20.0);
    assert_eq!(day.tokens.total(), 1_001_500);
}

#[test]
fn model_aliases_normalize_to_lowercase_last_segment() {
    assert_eq!(normalize_model("kimi-code/K3-256K"), "k3-256k");
    assert_eq!(normalize_model("Kimi-For-Coding"), "kimi-for-coding");
    assert_eq!(normalize_model("a/b/c"), "c");
    assert_eq!(normalize_model("trailing/"), "");
}

#[test]
fn wire_line_without_time_or_scope_gives_nothing() {
    let w = WireLine {
        model: Some("k3".to_string()),
        usage: Some(WireUsage { input: 1, output: 1, cache_read: 0, cache_write: 0 }),
        usage_scope: None,
        time: Some(1),
    };
    assert!(record_from_wire(w).is_none());
    let w = WireLine {
        model: Some("k3".to_string()),
        usage: Some(WireUsage { input: 1, output: 1, cache_read: 0, cache_write: 0 }),
        usage_scope: Some("turn".to_string()),
        time: None,
    };
    assert!(record_from_wire(w).is_none());
}

#[test]
fn local_day_follows_the_offset_and_truncates_millis() {
    // 2023-11-14T22:13:20Z
    assert_eq!(local_day(1_700_000_000_999, 0).as_deref(), Some("2023-11-14"));
    assert_eq!(local_day(1_700_000_000_000, 8 * 3600).as_deref(), Some("2023-11-15"));
    // -1 ms rounds toward zero: still the epoch second.
    assert_eq!(local_day(-1, 0).as_deref(), Some("1970-01-01"));
    // A time the calendar cannot hold counts as the epoch.
    assert_eq!(local_day(i64::MAX, 0).as_deref(), Some("1970-01-01"));
}

#[test]
fn report_window_today_and_chart_order() {
    // Clock: 2023-11-14T22:13:20Z, UTC.
    let clock = LocalClock { now: 1_700_000_000, offset: 0 };
    let day = 86_400_000i64;
    let now_ms = 1_700_000_000_000i64;
    let records = vec![
        rec(now_ms - 30 * day, "k3", tokens(1_000_000, 0, 0, 0)), // 2023-10-15: outside
        rec(now_ms - 29 * day, "k3", tokens(1_000_000, 0, 0, 0)), // 2023-10-16: first day
        rec(now_ms - day, "k3-256k", tokens(0, 1_000_000, 0, 0)), // yesterday
        rec(now_ms, "k3", tokens(0, 0, 1_000_000, 0)),            // today
        rec(now_ms - 29 * day + 1, "mystery", tokens(7, 0, 0, 0)),
    ];
    let r = report_at(&records, clock);
    let days: Vec<&str> = r.daily.iter().map(|(d, _)| d.as_str()).collect();
    assert_eq!(days, vec!["2023-10-16", "2023-11-13", "2023-11-14"]);
    assert_eq!(yuan(r.daily[0].1.cost), 20.0);
    assert_eq!(r.daily[0].1.tokens.input, 1_000_007);
    assert_eq!(yuan(r.daily[1].1.cost), 50.0);
    assert_eq!(yuan(r.daily[2].1.cost), 2.0);
    assert_eq!(yuan(r.month_cost), 72.0);
    assert_eq!(r.month_tokens.total(), 3_000_007);
    assert_eq!(r.today_requests, 1);
    assert_eq!(yuan(r.today_cost), 2.0);
    let last = r.last_request.unwrap();
    assert_eq!((last.0, last.1.as_str(), last.2.input), (now_ms - 29 * day + 1, "mystery", 7));
}

#[test]
fn empty_records_give_an_empty_report() {
    let r = report_at(&[], LocalClock { now: 1_700_000_000, offset: 0 });
    assert_eq!(r.today_requests, 0);
    assert_eq!(r.month_cost, 0);
    assert!(r.daily.is_empty());
    assert!(r.last_request.is_none());
}

#[test]
fn stored_scan_is_fresh_until_the_file_changes() {
    let mut cache = empty_cache();
    let path = "/s/w1/agents/a/wire.jsonl".to_string();
    assert!(needs_scan(&cache, &path, 10, 100));
    store_scan(&mut cache, path.clone(), 10, 100, vec![rec(5, "k3", tokens(1, 0, 0, 0))]);
    assert!(!needs_scan(&cache, &path, 10, 100));
    assert!(needs_scan(&cache, &path, 11, 100));
    assert!(needs_scan(&cache, &path, 10, 101));
    // A rescan replaces the file's records.
    store_scan(&mut cache, path.clone(), 11, 120, vec![rec(6, "k3", tokens(2, 0, 0, 0))]);
    assert_eq!(cache.files.len(), 1);
    assert_eq!(cache.files[0].1.records[0].ts_ms, 6);
}

#[test]
fn unseen_files_are_dropped_and_records_come_sorted_by_time() {
    let mut cache = empty_cache();
    store_scan(&mut cache, "b".to_string(), 1, 1, vec![rec(30, "k3", tokens(1, 0, 0, 0)), rec(10, "k3", tokens(2, 0, 0, 0))]);
    store_scan(&mut cache, "a".to_string(), 1, 1, vec![rec(20, "k3", tokens(3, 0, 0, 0)), rec(10, "k3", tokens(4, 0, 0, 0))]);
    store_scan(&mut cache, "c".to_string(), 1, 1, vec![rec(5, "k3", tokens(5, 0, 0, 0))]);
    let keys: Vec<&str> = cache.files.iter().map(|(k, _)| k.as_str()).collect();
    assert_eq!(keys, vec!["a", "b", "c"]);
    let all = all_records(&cache);
    let order: Vec<(i64, u64)> = all.iter().map(|r| (r.ts_ms, r.tokens.input)).collect();
    // Stable: equal times keep path order ("a" before "b").
    assert_eq!(order, vec![(5, 5), (10, 4), (10, 2), (20, 3), (30, 1)]);
    assert!(drop_unseen(&mut cache, &vec!["a".to_string(), "c".to_string()]));
    let keys: Vec<&str> = cache.files.iter().map(|(k, _)| k.as_str()).collect();
    assert_eq!(keys, vec!["a", "c"]);
    assert!(!drop_unseen(&mut cache, &vec!["a".to_string(), "c".to_string(), "z".to_string()]));
}

#[test]
fn token_totals_and_addition() {
    let mut t = tokens(1, 2, 3, 4);
    assert_eq!(t.total(), 10);
    t.add_assign(tokens(10, 20, 30, 40));
    assert_eq!((t.input, t.output, t.cache_read, t.cache_write), (11, 22, 33, 44));
}
