use memo_pill::balance::deepseek::{pick_balance, DeepSeekBalance};
use memo_pill::balance::glm::{glm_quotas, ms_to_rfc3339, pct_quota, GlmData, GlmLimit, GlmResponse};
use memo_pill::balance::kimi::{kimi_quotas, parse_u64, window_label, KimiLimit, KimiResponse, KimiUsage, KimiWindow};
use memo_pill::balance::minimax::{minimax_quotas, MiniMaxBaseResp, MiniMaxRemain, MiniMaxResponse};
use memo_pill::balance::{all_providers, failure_line, is_auth_failure, ProviderError, ProviderKind};

fn limit(kind: &str, pct: Option<u64>, reset: Option<i64>) -> GlmLimit {
    GlmLimit {
        kind: kind.to_string(),
        percentage: pct,
        next_reset_time: reset,
        usage: None,
        current_value: None,
        remaining: None,
    }
}

fn usage(limit: &str, used: Option<&str>, remaining: &str) -> KimiUsage {
    KimiUsage {
        limit: limit.to_string(),
        used: used.map(|s| s.to_string()),
        remaining: remaining.to_string(),
        reset_time: None,
    }
}

#[test]
fn reset_timestamps_accept_ms_and_seconds() {
    assert_eq!(ms_to_rfc3339(1_700_000_000_000).as_deref(), Some("2023-11-14T22:13:20Z"));
    assert_eq!(ms_to_rfc3339(1_700_000_000).as_deref(), Some("2023-11-14T22:13:20Z"));
}

#[test]
fn percentage_quota_is_capped_at_hundred() {
    let q = pct_quota("GLM", "5h", Some(130), None);
    assert_eq!((q.limit, q.used, q.remaining), (100, 100, 0));
    let q = pct_quota("GLM", "weekly", Some(42), Some(1_700_000_000_000));
    assert_eq!((q.used, q.remaining), (42, 58));
    assert_eq!(q.reset_at.as_deref(), Some("2023-11-14T22:13:20Z"));
    let q = pct_quota("GLM", "5h", None, None);
    assert_eq!((q.used, q.remaining), (0, 100));
}

#[test]
fn glm_orders_token_windows_by_reset_and_adds_mcp() {
    let mut mcp = limit("TIME_LIMIT", None, None);
    mcp.usage = Some(1000);
    mcp.current_value = Some(300);
    let body = GlmResponse {
        msg: None,
        success: true,
        data: Some(GlmData {
            level: Some("pro".to_string()),
            limits: vec![
                limit("TOKENS_LIMIT", Some(20), Some(1_700_600_000_000)),
                mcp,
                limit("TOKENS_LIMIT", Some(5), Some(1_700_000_000_000)),
            ],
        }),
    };
    let set = glm_quotas(body).ok().unwrap();
    assert_eq!(set.plan.as_deref(), Some("pro"));
    let windows: Vec<(&str, u64, u64, u64)> =
        set.quotas.iter().map(|q| (q.window.as_str(), q.limit, q.used, q.remaining)).collect();
    assert_eq!(windows, vec![("5h", 100, 5, 95), ("weekly", 100, 20, 80), ("MCP", 1000, 300, 700)]);
}

#[test]
fn glm_failure_messages() {
    let body = GlmResponse { msg: Some("bad".to_string()), success: false, data: None };
    match glm_quotas(body) {
        Err(ProviderError::Parse(m)) => assert_eq!(m, "glm api error: bad"),
        _ => panic!("expected a parse error"),
    }
    let body = GlmResponse { msg: None, success: false, data: None };
    match glm_quotas(body) {
        Err(ProviderError::Parse(m)) => assert_eq!(m, "glm api error: unknown error"),
        _ => panic!("expected a parse error"),
    }
    let body = GlmResponse { msg: None, success: true, data: None };
    match glm_quotas(body) {
        Err(ProviderError::Parse(m)) => assert_eq!(m, "no usage data in response"),
        _ => panic!("expected a parse error"),
    }
}

#[test]
fn kimi_counters_and_window_labels() {
    assert_eq!(parse_u64("1234").ok(), Some(1234));
    match parse_u64("12a") {
        Err(ProviderError::Parse(m)) => assert!(m.starts_with("invalid number '12a': ")),
        _ => panic!("expected a parse error"),
    }
    let w = |d: u64, u: &str| KimiWindow { duration: d, time_unit: u.to_string() };
    assert_eq!(window_label(&w(300, "TIME_UNIT_MINUTE")), "300min");
    assert_eq!(window_label(&w(5, "TIME_UNIT_HOUR")), "5h");
    assert_eq!(window_label(&w(7, "TIME_UNIT_DAY")), "7d");
    assert_eq!(window_label(&w(2, "WEEK")), "2 WEEK");
}

#[test]
fn kimi_weekly_and_windows() {
    let body = KimiResponse {
        usage: usage("100", None, "60"),
        limits: vec![
            KimiLimit { window: KimiWindow { duration: 5, time_unit: "TIME_UNIT_HOUR".to_string() }, detail: usage("50", Some(""), "20") },
            KimiLimit { window: KimiWindow { duration: 1, time_unit: "TIME_UNIT_DAY".to_string() }, detail: usage("10", Some("4"), "6") },
        ],
    };
    let set = kimi_quotas(&body).ok().unwrap();
    assert!(set.plan.is_none());
    let windows: Vec<(&str, u64, u64, u64)> =
        set.quotas.iter().map(|q| (q.window.as_str(), q.limit, q.used, q.remaining)).collect();
    assert_eq!(windows, vec![("weekly", 100, 0, 60), ("5h", 50, 30, 20), ("1d", 10, 4, 6)]);

    let bad = KimiResponse { usage: usage("x", None, "1"), limits: vec![] };
    assert!(matches!(kimi_quotas(&bad), Err(ProviderError::Parse(_))));
}

#[test]
fn minimax_windows_and_errors() {
    let body = MiniMaxResponse {
        base_resp: Some(MiniMaxBaseResp { status_code: 0, status_msg: String::new() }),
        remains: Some(vec![MiniMaxRemain {
            window_name: "5h".to_string(),
            total: 1500,
            used: 100,
            remaining: 1400,
            reset_time: Some("r".to_string()),
        }]),
    };
    let set = minimax_quotas(body).ok().unwrap();
    assert_eq!(set.quotas.len(), 1);
    assert_eq!(set.quotas[0].provider, "MiniMax");
    assert_eq!(set.quotas[0].window, "5h");
    assert_eq!((set.quotas[0].limit, set.quotas[0].used, set.quotas[0].remaining), (1500, 100, 1400));

    let body = MiniMaxResponse {
        base_resp: Some(MiniMaxBaseResp { status_code: -3, status_msg: "denied".to_string() }),
        remains: None,
    };
    match minimax_quotas(body) {
        Err(ProviderError::Parse(m)) => assert_eq!(m, "minimax api error -3: denied"),
        _ => panic!("expected a parse error"),
    }
    let body = MiniMaxResponse { base_resp: None, remains: None };
    match minimax_quotas(body) {
        Err(ProviderError::Parse(m)) => assert_eq!(m, "no remains data in response"),
        _ => panic!("expected a parse error"),
    }
}

#[test]
fn deepseek_prefers_usd_balance() {
    let b = |c: &str| DeepSeekBalance {
        currency: c.to_string(),
        total_balance: "1.00".to_string(),
        granted_balance: "0".to_string(),
        topped_up_balance: "1.00".to_string(),
    };
    assert_eq!(pick_balance(&vec![b("CNY"), b("usd")]).ok(), Some(1));
    assert_eq!(pick_balance(&vec![b("CNY"), b("EUR")]).ok(), Some(0));
    match pick_balance(&vec![]) {
        Err(ProviderError::Parse(m)) => assert_eq!(m, "no balance info returned"),
        _ => panic!("expected a parse error"),
    }
}

#[test]
fn registry_and_error_text() {
    let names: Vec<&str> = all_providers().iter().map(|k| k.name()).collect();
    assert_eq!(names, vec!["Kimi", "DeepSeek", "MiniMax", "GLM"]);
    assert_eq!(ProviderKind::named("GLM"), Some(ProviderKind::Glm));
    assert_eq!(ProviderKind::named("glm"), None);
    assert_eq!(ProviderError::Network("down".to_string()).message(), "network: down");
    assert_eq!(ProviderError::Auth("no".to_string()).message(), "auth: no");
    assert_eq!(failure_line("Kimi", &ProviderError::Parse("x".to_string())), "Kimi: parse: x");
    assert!(is_auth_failure(401));
    assert!(is_auth_failure(403));
    assert!(!is_auth_failure(500));
}
