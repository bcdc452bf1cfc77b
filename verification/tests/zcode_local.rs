use memo_pill::balance::zcode_local::{
    build_report, glm_cost_of, glm_price_for, local_day, report_at, zcode_record, ZcodeRecord,
};
use memo_pill::balance::kimi_local::TokenCount;
use memo_pill::clock::LocalClock;

fn yuan(units: u128) -> f64 {
    units as f64 / 1e7
}

fn row(ts_ms: i64, model: &str, source: &str, input: u64, output: u64) -> ZcodeRecord {
    ZcodeRecord {
        ts_ms,
        model: model.to_string(),
        source: source.to_string(),
        tokens: TokenCount { input, output, cache_read: 0, cache_write: 0 },
    }
}

#[test]
fn rows_split_cached_input_and_bill_reasoning_as_output() {
    let r = zcode_record(7, "GLM-5.1", Some("main_turn".to_string()), 1000, 50, Some(300), Some(25));
    assert_eq!(r.ts_ms, 7);
    assert_eq!(r.model, "glm-5.1");
    assert_eq!(r.source, "main_turn");
    assert_eq!((r.tokens.input, r.tokens.output, r.tokens.cache_read, r.tokens.cache_write), (700, 75, 300, 0));
    // Missing optional counts read as 0; negatives clamp to 0.
    let r = zcode_record(7, "glm-5", None, 10, -5, Some(20), None);
    assert_eq!(r.source, "");
    assert_eq!((r.tokens.input, r.tokens.output, r.tokens.cache_read), (0, 0, 20));
}

#[test]
fn glm_prices_and_cost() {
    let p = glm_price_for("glm-5.2").unwrap();
    assert_eq!((p.input, p.output, p.cache_read), (80, 280, 15));
    assert_eq!(glm_price_for("glm-4.7").map(|p| p.output), Some(158));
    assert!(glm_price_for("k3").is_none());
    let t = TokenCount { input: 1_000_000, output: 1_000_000, cache_read: 1_000_000, cache_write: 0 };
    // ¥8 + ¥28 + ¥1.5
    assert_eq!(glm_cost_of("glm-5.1", &t).map(yuan), Some(37.5));
    assert_eq!(glm_cost_of("mystery", &t), None);
}

#[test]
fn out_of_range_rows_count_as_today() {
    let clock = LocalClock { now: 1_700_000_000, offset: 0 };
    assert_eq!(local_day(i64::MIN, clock).as_deref(), Some("2023-11-14"));
    assert_eq!(local_day(1_600_000_000_000, clock).as_deref(), Some("2020-09-13"));
}

#[test]
fn sources_order_by_requests_then_name() {
    let clock = LocalClock { now: 1_700_000_000, offset: 0 };
    let now_ms = 1_700_000_000_000i64;
    let rows = vec![
        row(now_ms, "glm-5", "subagent", 1, 0),
        row(now_ms, "glm-5", "main_turn", 1_000_000, 0),
        row(now_ms, "glm-5", "compact", 1, 0),
        row(now_ms, "glm-5", "main_turn", 1, 0),
        row(now_ms, "glm-5", "compact", 1, 0),
        row(now_ms, "glm-5", "session_title", 1, 0),
    ];
    let r = report_at(&rows, clock);
    let order: Vec<(&str, u64)> = r.by_source.iter().map(|s| (s.name.as_str(), s.requests)).collect();
    assert_eq!(order, vec![("compact", 2), ("main_turn", 2), ("session_title", 1), ("subagent", 1)]);
    assert_eq!(r.by_source[1].tokens.input, 1_000_001);
    assert_eq!(r.by_source[1].cost, 72_000_072);
    assert_eq!(r.today_requests, 6);
    assert_eq!(r.daily.len(), 1);
    assert_eq!(r.daily[0].0, "2023-11-14");
}

#[test]
fn no_rows_no_report() {
    let r = build_report(&[]);
    assert!(r.daily.is_empty());
    assert!(r.by_source.is_empty());
    assert!(r.last_request.is_none());
    assert_eq!(r.today_requests, 0);
}
