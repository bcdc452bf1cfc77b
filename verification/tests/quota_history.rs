use memo_pill::balance::quota_history::{QuotaHistory, Series, SESSION_KEEP, WEEKLY_KEEP};

fn pct(used: u64, limit: u64) -> f64 {
    used as f64 / limit as f64 * 100.0
}

#[test]
fn same_cycle_keeps_peak_only() {
    let mut h = QuotaHistory::new();
    assert!(h.record(Series::Session, Some("r1"), 10, 100));
    assert!(h.record(Series::Session, Some("r1"), 40, 100));
    // A lower sample inside the same cycle must not move the peak.
    assert!(!h.record(Series::Session, Some("r1"), 25, 100));
    assert_eq!(h.session.len(), 1);
    assert_eq!(pct(h.session[0].used, h.session[0].limit), 40.0);
}

#[test]
fn new_reset_starts_new_cycle_and_caps() {
    let mut h = QuotaHistory::new();
    for i in 0..60 {
        h.record(Series::Session, Some(&format!("r{i}")), 1, 2);
    }
    assert_eq!(h.session.len(), SESSION_KEEP);
    // Oldest entries are trimmed first.
    assert_eq!(h.session[0].reset, "r12");
    assert_eq!(h.session.last().unwrap().reset, "r59");
}

#[test]
fn unusable_samples_are_dropped() {
    let mut h = QuotaHistory::new();
    assert!(!h.record(Series::Weekly, None, 10, 100));
    assert!(!h.record(Series::Weekly, Some("r1"), 10, 0));
    assert!(h.weekly.is_empty());
}

#[test]
fn usage_above_limit_is_capped_at_full() {
    let mut h = QuotaHistory::new();
    assert!(h.record(Series::Weekly, Some("w1"), 250, 100));
    assert_eq!(h.weekly[0].used, 100);
    assert_eq!(pct(h.weekly[0].used, h.weekly[0].limit), 100.0);
}

#[test]
fn peak_compares_ratios_across_limits() {
    let mut h = QuotaHistory::new();
    assert!(h.record(Series::Session, Some("r"), 1, 2));
    // 30/100 is below 1/2: no change.
    assert!(!h.record(Series::Session, Some("r"), 30, 100));
    // 3/4 is above: the peak moves.
    assert!(h.record(Series::Session, Some("r"), 3, 4));
    assert_eq!((h.session[0].used, h.session[0].limit), (3, 4));
}

#[test]
fn weekly_series_caps_at_twelve_and_leaves_session_alone() {
    let mut h = QuotaHistory::new();
    for i in 0..15 {
        assert!(h.record(Series::Weekly, Some(&format!("w{i}")), 5, 10));
    }
    assert_eq!(h.weekly.len(), WEEKLY_KEEP);
    assert_eq!(h.weekly[0].reset, "w3");
    assert!(h.session.is_empty());
}
