use memo_pill::balance::quota_history::{QuotaHistory, Series};
use memo_pill::balance::{ProviderError, ProviderResult, QuotaInfo, QuotaSet};
use memo_pill::fetch::{fold_outcome, quota_samples, record_quota_samples, same_monitors, should_fetch, should_scan, QuotaSample};
use memo_pill::storage::MonitorEntry;

fn quota(provider: &str, window: &str, used: u64, reset: &str) -> QuotaInfo {
    QuotaInfo {
        provider: provider.to_string(),
        window: window.to_string(),
        limit: 100,
        used,
        remaining: 100 - used,
        reset_at: Some(reset.to_string()),
    }
}

fn glm_set() -> ProviderResult<()> {
    ProviderResult::Quota(QuotaSet {
        plan: None,
        quotas: vec![quota("GLM", "5h", 10, "a"), quota("GLM", "weekly", 30, "b"), quota("GLM", "MCP", 1, "c")],
    })
}

#[test]
fn only_session_and_weekly_windows_are_sampled() {
    let s = quota_samples(&"GLM".to_string(), &glm_set());
    assert_eq!(s.len(), 2);
    assert_eq!(s[0].series, Series::Session);
    assert_eq!(s[1].series, Series::Weekly);
    assert_eq!(s[1].used, 30);
    let b: ProviderResult<()> = ProviderResult::Balance(());
    assert!(quota_samples(&"DeepSeek".to_string(), &b).is_empty());
}

#[test]
fn a_round_folds_into_sorted_maps() {
    let results: Vec<(String, String, Result<ProviderResult<()>, ProviderError>)> = vec![
        ("kimi-mon-2".to_string(), "Kimi".to_string(), Err(ProviderError::Network("down".to_string()))),
        ("glm-mon-1".to_string(), "GLM".to_string(), Ok(glm_set())),
        ("deepseek-mon-1".to_string(), "DeepSeek".to_string(), Err(ProviderError::Auth("bad key".to_string()))),
    ];
    let o = fold_outcome(results);
    let data: Vec<&str> = o.data.iter().map(|(id, _)| id.as_str()).collect();
    assert_eq!(data, vec!["glm-mon-1"]);
    let errors: Vec<(&str, &str)> = o.errors.iter().map(|(a, b)| (a.as_str(), b.as_str())).collect();
    assert_eq!(errors, vec![("deepseek-mon-1", "auth: bad key"), ("kimi-mon-2", "network: down")]);
    let meta: Vec<(&str, &str)> = o.meta.iter().map(|(a, b)| (a.as_str(), b.as_str())).collect();
    assert_eq!(meta, vec![("deepseek-mon-1", "DeepSeek"), ("glm-mon-1", "GLM"), ("kimi-mon-2", "Kimi")]);
    assert_eq!(o.first_error, "Kimi: network: down");
    assert_eq!(o.quota_samples.len(), 2);
}

#[test]
fn samples_go_to_their_provider_history() {
    let sample = |p: &str, series: Series, used: u64| QuotaSample {
        provider: p.to_string(),
        series,
        reset_at: Some("r1".to_string()),
        used,
        limit: 100,
    };
    let samples = vec![sample("Kimi", Series::Weekly, 20), sample("GLM", Series::Session, 5), sample("MiniMax", Series::Session, 9)];
    let mut kimi = QuotaHistory::new();
    let mut glm = QuotaHistory::new();
    let dirty = record_quota_samples(&samples, &mut kimi, &mut glm);
    assert_eq!(dirty, (true, true));
    assert_eq!(kimi.weekly.len(), 1);
    assert!(kimi.session.is_empty());
    assert_eq!(glm.session.len(), 1);
    assert_eq!(glm.session[0].used, 5);
    // The same samples again change nothing.
    assert_eq!(record_quota_samples(&samples, &mut kimi, &mut glm), (false, false));
}

#[test]
fn polling_cadence() {
    assert!(!should_fetch(0, true, None));
    assert!(should_fetch(1, false, None));
    assert!(should_fetch(1, true, Some(10)));
    assert!(!should_fetch(1, false, Some(299)));
    assert!(should_fetch(1, false, Some(300)));
    assert!(should_scan(None));
    assert!(!should_scan(Some(100)));
    assert!(should_scan(Some(300)));
}

#[test]
fn monitor_lists_compare_by_content() {
    let e = |id: &str, key: &str| MonitorEntry { id: id.to_string(), provider: "GLM".to_string(), key: key.to_string() };
    assert!(same_monitors(&vec![e("a", "k")], &vec![e("a", "k")]));
    assert!(!same_monitors(&vec![e("a", "k")], &vec![e("a", "k2")]));
    assert!(!same_monitors(&vec![e("a", "k")], &vec![]));
}
