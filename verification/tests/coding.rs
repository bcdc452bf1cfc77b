use memo_pill::balance::{ProviderError, ProviderResult, QuotaInfo, QuotaSet};
use memo_pill::clock::LocalClock;
use memo_pill::coding::{
    card_order, card_quick, coding_pill_line, empty_panel, mask_key, monitor_key_draft, provider_icon, provider_rank,
    quota_summary, reset_label_at, EmptyPanel,
};
use memo_pill::fetch::fold_outcome;

fn quota(provider: &str, window: &str) -> QuotaInfo {
    QuotaInfo {
        provider: provider.to_string(),
        window: window.to_string(),
        limit: 100,
        used: 20,
        remaining: 80,
        reset_at: None,
    }
}

fn pcts(v: &[&str]) -> Vec<String> {
    v.iter().map(|s| s.to_string()).collect()
}

#[test]
fn providers_rank_in_panel_order() {
    assert_eq!(provider_rank("Kimi"), 0);
    assert_eq!(provider_rank("GLM"), 1);
    assert_eq!(provider_rank("DeepSeek"), 2);
    assert_eq!(provider_rank("MiniMax"), 3);
    assert_eq!(provider_rank("Other"), 99);
}

#[test]
fn cards_order_by_provider_then_id() {
    let results: Vec<(String, String, Result<ProviderResult<()>, ProviderError>)> = vec![
        ("minimax-mon-1".to_string(), "MiniMax".to_string(), Ok(ProviderResult::Balance(()))),
        ("glm-mon-2".to_string(), "GLM".to_string(), Ok(ProviderResult::Balance(()))),
        ("kimi-mon-1".to_string(), "Kimi".to_string(), Err(ProviderError::Network("x".to_string()))),
        ("glm-mon-1".to_string(), "GLM".to_string(), Err(ProviderError::Auth("y".to_string()))),
    ];
    let o = fold_outcome(results);
    assert_eq!(card_order(&o), vec!["kimi-mon-1", "glm-mon-1", "glm-mon-2", "minimax-mon-1"]);
}

#[test]
fn empty_panel_states() {
    assert!(matches!(empty_panel(0, &"boom".to_string()), EmptyPanel::NoKeys));
    match empty_panel(2, &"Kimi: network: x".to_string()) {
        EmptyPanel::FetchFailed(e) => assert_eq!(e, "Kimi: network: x"),
        _ => panic!("expected the failure"),
    }
    assert!(matches!(empty_panel(2, &String::new()), EmptyPanel::Fetching));
}

#[test]
fn icons() {
    assert_eq!(provider_icon("Kimi"), ("K", "provider-card-icon kimi"));
    assert_eq!(provider_icon("DeepSeek"), ("DS", "provider-card-icon deepseek"));
    assert_eq!(provider_icon("MiniMax"), ("MM", "provider-card-icon minimax"));
    assert_eq!(provider_icon("GLM"), ("G", "provider-card-icon glm"));
    assert_eq!(provider_icon("x"), ("?", "provider-card-icon"));
}

#[test]
fn summaries_show_the_first_two_windows() {
    let qs = vec![quota("Kimi", "weekly"), quota("Kimi", "5h"), quota("Kimi", "1d")];
    assert_eq!(quota_summary(&qs, &pcts(&["20", "55", "1"])), "7d 20% · 5h 55%");
    assert_eq!(quota_summary(&vec![quota("Kimi", "weekly")], &pcts(&["3"])), "7d 3%");
    assert_eq!(quota_summary(&vec![], &pcts(&[])), "");

    let r: ProviderResult<()> = ProviderResult::Quota(QuotaSet { plan: None, quotas: vec![quota("GLM", "5h")] });
    let (label, text) = coding_pill_line(&r, &pcts(&["20"]), &("DeepSeek".to_string(), "¥1.00".to_string()));
    assert_eq!(label.as_deref(), Some("GLM"));
    assert_eq!(text, "5h 20%");
    assert_eq!(card_quick(&r, &pcts(&["20"]), &"x".to_string()).as_deref(), Some("5h 20%"));

    let empty: ProviderResult<()> = ProviderResult::Quota(QuotaSet { plan: None, quotas: vec![] });
    assert_eq!(coding_pill_line(&empty, &pcts(&[]), &("a".to_string(), "b".to_string())), (None, "No data".to_string()));
    assert_eq!(card_quick(&empty, &pcts(&[]), &"x".to_string()), None);

    let b: ProviderResult<()> = ProviderResult::Balance(());
    let (label, text) = coding_pill_line(&b, &pcts(&[]), &("DeepSeek".to_string(), "¥1.00".to_string()));
    assert_eq!(label.as_deref(), Some("DeepSeek"));
    assert_eq!(text, "¥1.00");
    assert_eq!(card_quick(&b, &pcts(&[]), &"¥1.00".to_string()).as_deref(), Some("¥1.00"));
}

#[test]
fn keys_are_masked() {
    assert_eq!(mask_key("short"), "••••");
    assert_eq!(mask_key("12345678"), "••••");
    assert_eq!(mask_key("sk-abcdefghijk"), "sk-a…ijk");
}

#[test]
fn reset_labels() {
    let c = LocalClock { now: 1_700_000_000, offset: 0 };
    assert_eq!(reset_label_at("2023-11-14T23:30:00Z", c), "23:30");
    assert_eq!(reset_label_at("2023-11-20T09:05:00Z", c), "11-20 09:05");
    assert_eq!(reset_label_at("2023-11-15T01:00:00+08:00", LocalClock { now: 1_700_000_000, offset: 8 * 3600 }), "01:00");
    assert_eq!(reset_label_at("not a time", c), "not a time");
}

#[test]
fn key_drafts_are_trimmed() {
    assert_eq!(monitor_key_draft("  sk-1 \n"), Some("sk-1".to_string()));
    assert_eq!(monitor_key_draft("   "), None);
}
