use impactvault::domain::engine::{DeriskAction, HealthStatus, VaultConfig};
use impactvault::domain::score::Score;
use impactvault::domain::sentinel::{failed_health, record_check, SentinelConfig, SentinelStatus};

fn report(name: &str, score: f64) -> HealthStatus {
    HealthStatus {
        adapter_name: name.to_string(),
        score: Score::from_bits(score.to_bits()),
        oracle_fresh: true,
        liquidity_adequate: true,
        utilisation_rate: Score::from_bits(0.5f64.to_bits()),
        details: String::new(),
    }
}

#[test]
fn test_sentinel_config_defaults() {
    let config = SentinelConfig::default();
    assert_eq!(config.poll_interval_secs, 60);
    assert!(config.auto_derisk_enabled);
}

#[test]
fn test_sentinel_status_default() {
    let status = SentinelStatus::default();
    assert!(!status.running);
    assert!(status.last_check.is_none());
    assert_eq!(status.checks_completed, 0);
    assert!(status.last_health.is_empty());
    assert!(status.last_action.is_none());
}

#[test]
fn test_failed_health_report() {
    let h = failed_health("aave_savings", "connection refused");
    assert_eq!(h.adapter_name, "aave_savings");
    assert_eq!(f64::from_bits(h.score.bits), 0.0);
    assert_eq!(f64::from_bits(h.utilisation_rate.bits), 1.0);
    assert!(!h.oracle_fresh && !h.liquidity_adequate);
    assert_eq!(h.details, "health check error: connection refused");
}

#[test]
fn test_record_check_counts_and_decides() {
    let mut status = SentinelStatus::default();
    let config = VaultConfig::default();
    record_check(&mut status, &config, vec![report("a", 0.9)], "t1".to_string());
    assert_eq!(status.checks_completed, 1);
    assert_eq!(status.last_check.as_deref(), Some("t1"));
    assert!(matches!(status.last_action, Some(DeriskAction::Hold)));
    record_check(
        &mut status,
        &config,
        vec![report("a", 0.9), failed_health("b", "timeout")],
        "t2".to_string(),
    );
    assert_eq!(status.checks_completed, 2);
    assert_eq!(status.last_health.len(), 2);
    assert_eq!(status.last_check.as_deref(), Some("t2"));
    assert!(matches!(status.last_action, Some(DeriskAction::EmergencyWithdraw { ref adapter }) if adapter == "b"));
    assert!(!status.running);
}

#[test]
fn test_record_check_keeps_running_flag() {
    let mut status = SentinelStatus::default();
    status.running = true;
    let config = VaultConfig::default();
    record_check(&mut status, &config, vec![report("a", 0.1)], "2026-03-10T00:00:00+00:00".to_string());
    assert!(status.running);
    assert_eq!(status.checks_completed, 1);
    assert_eq!(status.last_check.as_deref(), Some("2026-03-10T00:00:00+00:00"));
    assert!(matches!(status.last_action, Some(DeriskAction::EmergencyWithdraw { ref adapter }) if adapter == "a"));
}
