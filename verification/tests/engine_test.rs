use impactvault::domain::engine::{
    adapter_name_for, check_rebalance, evaluate_risk, recommend_allocation, should_derisk,
    source_amount, Allocation, Breach, DeriskAction, HealthStatus, Portfolio, RiskSpectrum,
    SourceWeights, VaultConfig,
};
use impactvault::domain::score::Score;

fn s(x: f64) -> Score {
    Score::from_bits(x.to_bits())
}

fn health(name: &str, score: f64, oracle_fresh: bool, liquidity_adequate: bool) -> HealthStatus {
    HealthStatus {
        adapter_name: name.to_string(),
        score: s(score),
        oracle_fresh,
        liquidity_adequate,
        utilisation_rate: s(0.3),
        details: "ok".to_string(),
    }
}

fn allocation(source: RiskSpectrum, name: &str, amount: u128) -> Allocation {
    Allocation { source, adapter_name: name.to_string(), amount }
}

/// Each allocation's share of the total, as the float division gives it.
fn pcts(p: &Portfolio) -> Vec<u8> {
    let total = p.total_deposited();
    p.allocations().iter().map(|a| (a.amount as f64 / total as f64 * 100.0) as u8).collect()
}

fn source_pcts(config: &VaultConfig, p: &Portfolio) -> Vec<u8> {
    let total = p.total_deposited();
    config
        .approved_sources
        .iter()
        .map(|&src| {
            let amount = source_amount(p, src).unwrap();
            (amount as f64 / total as f64 * 100.0) as u8
        })
        .collect()
}

fn is_hold(a: &DeriskAction) -> bool {
    matches!(a, DeriskAction::Hold)
}

#[test]
fn test_risk_spectrum_ordering() {
    assert!(RiskSpectrum::Sovereign < RiskSpectrum::StablecoinSavings);
    assert!(RiskSpectrum::StablecoinSavings < RiskSpectrum::LiquidStaking);
    assert!(RiskSpectrum::DiversifiedLending < RiskSpectrum::MultiStrategy);
    assert_eq!(RiskSpectrum::Sovereign.ordinal(), 0);
    assert_eq!(RiskSpectrum::MultiStrategy.ordinal(), 4);
}

#[test]
fn test_vault_config_default_has_safe_limits() {
    let config = VaultConfig::default();
    assert!(config.max_exposure_per_source <= 100);
    assert!(config.concentration_limit <= 100);
    assert_eq!(config.concentration_limit, 80);
    assert_eq!(config.derisking_health_threshold, s(0.5));
    assert!(config.auto_derisk_enabled);
    assert_eq!(config.approved_sources, vec![RiskSpectrum::Sovereign]);
    assert!(config.source_weights.is_empty());
}

#[test]
fn test_portfolio_empty_on_creation() {
    let portfolio = Portfolio::new();
    assert_eq!(portfolio.total_deposited(), 0);
    assert!(portfolio.allocations().is_empty());
}

#[test]
fn test_portfolio_total_is_sum_of_allocations() {
    let mut p = Portfolio::new();
    p.add_allocation(allocation(RiskSpectrum::Sovereign, "sovereign_bond", 600_000));
    p.add_allocation(allocation(RiskSpectrum::StablecoinSavings, "aave_savings", 400_000));
    assert_eq!(p.total_deposited(), 1_000_000);
    assert_eq!(p.allocations().len(), 2);
    assert_eq!(p.allocations()[1].amount, 400_000);
}

#[test]
fn test_source_weights_read_back() {
    let mut w = SourceWeights::new();
    assert!(w.is_empty());
    assert_eq!(w.get(RiskSpectrum::Sovereign), None);
    w.insert(RiskSpectrum::Sovereign, 60);
    w.insert(RiskSpectrum::LiquidStaking, 40);
    w.insert(RiskSpectrum::Sovereign, 55);
    assert!(!w.is_empty());
    assert_eq!(w.get(RiskSpectrum::Sovereign), Some(55));
    assert_eq!(w.get(RiskSpectrum::LiquidStaking), Some(40));
    assert!(!w.contains_key(RiskSpectrum::MultiStrategy));
}

#[test]
fn test_adapter_names() {
    assert_eq!(adapter_name_for(RiskSpectrum::Sovereign), "sovereign_bond");
    assert_eq!(adapter_name_for(RiskSpectrum::StablecoinSavings), "aave_savings");
    assert_eq!(adapter_name_for(RiskSpectrum::LiquidStaking), "liquid_staking");
    assert_eq!(adapter_name_for(RiskSpectrum::DiversifiedLending), "compound_lending");
    assert_eq!(adapter_name_for(RiskSpectrum::MultiStrategy), "multi_strategy");
}

// --- evaluate_risk ---

#[test]
fn test_evaluate_risk_healthy_portfolio() {
    let config = VaultConfig::default();
    let mut portfolio = Portfolio::new();
    portfolio.add_allocation(allocation(RiskSpectrum::Sovereign, "sovereign_bond", 1_000_000));
    let health = vec![HealthStatus {
        adapter_name: "sovereign_bond".into(),
        score: s(0.95),
        oracle_fresh: true,
        liquidity_adequate: true,
        utilisation_rate: s(0.3),
        details: "healthy".into(),
    }];
    let assessment = evaluate_risk(&config, &portfolio, &health, &pcts(&portfolio));
    assert!(assessment.breaches.is_empty());
    assert!(matches!(assessment.recommended_action, DeriskAction::Hold));
}

#[test]
fn test_evaluate_risk_only_source_outside_portfolio_is_checked() {
    // Only Sovereign is approved, but the whole portfolio sits in Aave: 100% over 80%.
    let config = VaultConfig::default();
    let mut portfolio = Portfolio::new();
    portfolio.add_allocation(allocation(RiskSpectrum::StablecoinSavings, "aave_savings", 1_000_000));
    let health = vec![health("aave_savings", 0.95, true, true)];
    let assessment = evaluate_risk(&config, &portfolio, &health, &pcts(&portfolio));
    assert_eq!(assessment.breaches.len(), 1);
    assert!(matches!(&assessment.breaches[0], Breach::Concentration { pct: 100, limit: 80, .. }));
    // A second approved source means a single holding is concentrated again.
    let mut config = VaultConfig::default();
    config.approved_sources = vec![RiskSpectrum::Sovereign, RiskSpectrum::StablecoinSavings];
    let mut portfolio = Portfolio::new();
    portfolio.add_allocation(allocation(RiskSpectrum::Sovereign, "sovereign_bond", 1_000_000));
    let assessment = evaluate_risk(&config, &portfolio, &[], &pcts(&portfolio));
    assert_eq!(assessment.breaches.len(), 1);
}

#[test]
fn test_vault_config_clone_keeps_settings() {
    let mut config = VaultConfig::default();
    config.approved_sources = vec![RiskSpectrum::Sovereign, RiskSpectrum::LiquidStaking];
    config.source_weights.insert(RiskSpectrum::LiquidStaking, 30);
    let copy = config.clone();
    assert_eq!(copy.approved_sources, config.approved_sources);
    assert_eq!(copy.concentration_limit, 80);
    assert_eq!(copy.source_weights.get(RiskSpectrum::LiquidStaking), Some(30));
    assert_eq!(copy.derisking_health_threshold, config.derisking_health_threshold);
    assert!(format!("{copy:?}").contains("LiquidStaking"));
}

#[test]
fn test_evaluate_risk_unhealthy_triggers_derisk() {
    let config = VaultConfig::default();
    let mut portfolio = Portfolio::new();
    portfolio.add_allocation(allocation(RiskSpectrum::StablecoinSavings, "aave_savings", 1_000_000));
    let health = vec![health("aave_savings", 0.3, false, false)];
    let assessment = evaluate_risk(&config, &portfolio, &health, &pcts(&portfolio));
    // Health, oracle and liquidity breaches, in that order; 100% is over the 80% limit too.
    assert_eq!(assessment.breaches.len(), 4);
    assert!(matches!(&assessment.breaches[0], Breach::Health { adapter, .. } if adapter == "aave_savings"));
    assert!(matches!(&assessment.breaches[1], Breach::OracleStale { adapter } if adapter == "aave_savings"));
    assert!(matches!(&assessment.breaches[2], Breach::LiquidityLow { adapter } if adapter == "aave_savings"));
    assert!(matches!(&assessment.breaches[3], Breach::Concentration { pct: 100, limit: 80, .. }));
    match &assessment.recommended_action {
        DeriskAction::Migrate { from, to } => {
            assert_eq!(from, "aave_savings");
            assert_eq!(*to, RiskSpectrum::Sovereign);
        }
        _ => panic!("expected a migration"),
    }
}

#[test]
fn test_evaluate_risk_concentration_breach() {
    let mut config = VaultConfig::default();
    config.approved_sources = vec![RiskSpectrum::Sovereign, RiskSpectrum::StablecoinSavings];
    config.concentration_limit = 50;
    let mut portfolio = Portfolio::new();
    portfolio.add_allocation(allocation(RiskSpectrum::StablecoinSavings, "aave_savings", 800_000));
    portfolio.add_allocation(allocation(RiskSpectrum::Sovereign, "sovereign_bond", 200_000));
    let health = vec![health("aave_savings", 0.9, true, true), health("sovereign_bond", 0.95, true, true)];
    let assessment = evaluate_risk(&config, &portfolio, &health, &pcts(&portfolio));
    assert_eq!(assessment.breaches.len(), 1);
    match &assessment.breaches[0] {
        Breach::Concentration { adapter, pct, limit } => {
            assert_eq!(adapter, "aave_savings");
            assert_eq!(*pct, 80);
            assert_eq!(*limit, 50);
        }
        _ => panic!("expected a concentration breach"),
    }
    // Only a concentration breach: the lowest-scoring adapter (0.9) is moved away from.
    match &assessment.recommended_action {
        DeriskAction::Migrate { from, .. } => assert_eq!(from, "aave_savings"),
        _ => panic!("expected a migration"),
    }
}

#[test]
fn test_evaluate_risk_critical_adapter_is_emergency() {
    let config = VaultConfig::default();
    let portfolio = Portfolio::new();
    let health = vec![
        health("sovereign_bond", 0.9, true, true),
        health("aave_savings", 0.1, true, true),
        health("liquid_staking", 0.1, true, true),
    ];
    let assessment = evaluate_risk(&config, &portfolio, &health, &[]);
    assert_eq!(assessment.breaches.len(), 2);
    match &assessment.recommended_action {
        DeriskAction::EmergencyWithdraw { adapter } => assert_eq!(adapter, "aave_savings"),
        _ => panic!("expected an emergency withdrawal"),
    }
}

#[test]
fn test_evaluate_risk_breach_without_reports_holds() {
    let mut config = VaultConfig::default();
    config.approved_sources = vec![RiskSpectrum::Sovereign, RiskSpectrum::StablecoinSavings];
    config.concentration_limit = 50;
    let mut portfolio = Portfolio::new();
    portfolio.add_allocation(allocation(RiskSpectrum::Sovereign, "sovereign_bond", 10));
    let assessment = evaluate_risk(&config, &portfolio, &[], &pcts(&portfolio));
    assert_eq!(assessment.breaches.len(), 1);
    assert!(is_hold(&assessment.recommended_action));
}

#[test]
fn test_evaluate_risk_empty_portfolio_has_no_concentration_check() {
    let mut config = VaultConfig::default();
    config.concentration_limit = 0;
    let mut portfolio = Portfolio::new();
    portfolio.allocations.push(allocation(RiskSpectrum::Sovereign, "sovereign_bond", 0));
    let assessment = evaluate_risk(&config, &portfolio, &[], &[100]);
    assert!(assessment.breaches.is_empty());
}

#[test]
fn test_evaluate_risk_float_share_truncates() {
    // 29 of 100 is 28.999999999999996% in floating point: it does not exceed 28%.
    let mut config = VaultConfig::default();
    config.concentration_limit = 28;
    let mut portfolio = Portfolio::new();
    portfolio.add_allocation(allocation(RiskSpectrum::Sovereign, "sovereign_bond", 29));
    portfolio.add_allocation(allocation(RiskSpectrum::StablecoinSavings, "aave_savings", 71));
    let shares = pcts(&portfolio);
    assert_eq!(shares, vec![28, 71]);
    let assessment = evaluate_risk(&config, &portfolio, &[], &shares);
    assert_eq!(assessment.breaches.len(), 1);
}

// --- recommend_allocation ---

#[test]
fn test_recommend_allocation_single_source() {
    let config = VaultConfig::default();
    let plan = recommend_allocation(&config, 1_000_000);
    assert_eq!(plan.allocations.len(), 1);
    assert_eq!(plan.allocations[0].source, RiskSpectrum::Sovereign);
    assert_eq!(plan.allocations[0].adapter_name, "sovereign_bond");
    assert_eq!(plan.allocations[0].amount, 1_000_000);
}

#[test]
fn test_recommend_allocation_two_sources_respects_concentration() {
    let mut config = VaultConfig::default();
    config.approved_sources = vec![RiskSpectrum::Sovereign, RiskSpectrum::StablecoinSavings];
    config.concentration_limit = 60;
    let plan = recommend_allocation(&config, 1_000_000);
    assert_eq!(plan.allocations.len(), 2);
    for a in &plan.allocations {
        let pct = (a.amount as f64 / 1_000_000.0 * 100.0) as u8;
        assert!(pct <= 60, "allocation {}% exceeds limit", pct);
    }
    let total: u128 = plan.allocations.iter().map(|a| a.amount).sum();
    assert_eq!(total, 1_000_000);
    assert_eq!(plan.allocations[0].amount, 500_000);
    assert_eq!(plan.allocations[1].adapter_name, "aave_savings");
}

#[test]
fn test_recommend_allocation_no_sources() {
    let mut config = VaultConfig::default();
    config.approved_sources = vec![];
    assert!(recommend_allocation(&config, 1_000).allocations.is_empty());
}

#[test]
fn test_recommend_allocation_weighted() {
    let mut config = VaultConfig::default();
    config.approved_sources = vec![RiskSpectrum::Sovereign, RiskSpectrum::StablecoinSavings];
    config.source_weights.insert(RiskSpectrum::Sovereign, 70);
    config.source_weights.insert(RiskSpectrum::StablecoinSavings, 30);
    let plan = recommend_allocation(&config, 1_000);
    let amounts: Vec<u128> = plan.allocations.iter().map(|a| a.amount).collect();
    assert_eq!(amounts, vec![700, 300]);

    config.concentration_limit = 60;
    let plan = recommend_allocation(&config, 1_000);
    let amounts: Vec<u128> = plan.allocations.iter().map(|a| a.amount).collect();
    assert_eq!(amounts, vec![600, 400]);
}

#[test]
fn test_recommend_allocation_weighted_cap_leaves_dust() {
    let mut config = VaultConfig::default();
    config.approved_sources =
        vec![RiskSpectrum::Sovereign, RiskSpectrum::StablecoinSavings, RiskSpectrum::LiquidStaking];
    config.concentration_limit = 50;
    config.source_weights.insert(RiskSpectrum::Sovereign, 10);
    config.source_weights.insert(RiskSpectrum::StablecoinSavings, 10);
    config.source_weights.insert(RiskSpectrum::LiquidStaking, 80);
    let plan = recommend_allocation(&config, 100);
    let amounts: Vec<u128> = plan.allocations.iter().map(|a| a.amount).collect();
    assert_eq!(amounts, vec![10, 10, 50]);
}

#[test]
fn test_recommend_allocation_invalid_weights_fall_back_to_equal() {
    let mut config = VaultConfig::default();
    config.approved_sources =
        vec![RiskSpectrum::Sovereign, RiskSpectrum::StablecoinSavings, RiskSpectrum::LiquidStaking];
    config.concentration_limit = 50;
    // The weights add up to 90, not 100.
    config.source_weights.insert(RiskSpectrum::Sovereign, 50);
    config.source_weights.insert(RiskSpectrum::StablecoinSavings, 20);
    config.source_weights.insert(RiskSpectrum::LiquidStaking, 20);
    let plan = recommend_allocation(&config, 100);
    let amounts: Vec<u128> = plan.allocations.iter().map(|a| a.amount).collect();
    assert_eq!(amounts, vec![33, 33, 34]);
}

#[test]
fn test_recommend_allocation_uncapped_allocates_everything() {
    let mut config = VaultConfig::default();
    config.approved_sources = vec![RiskSpectrum::Sovereign, RiskSpectrum::StablecoinSavings, RiskSpectrum::MultiStrategy];
    config.concentration_limit = 100;
    let plan = recommend_allocation(&config, 1_001);
    let amounts: Vec<u128> = plan.allocations.iter().map(|a| a.amount).collect();
    assert_eq!(amounts, vec![333, 333, 335]);
    assert_eq!(plan.allocations[2].adapter_name, "multi_strategy");
}

// --- should_derisk ---

#[test]
fn test_should_derisk_hold_when_healthy() {
    let config = VaultConfig::default();
    let action = should_derisk(&config, &[health("sovereign_bond", 0.9, true, true)]);
    assert!(is_hold(&action));
}

#[test]
fn test_should_derisk_migrate_when_degraded() {
    let config = VaultConfig::default();
    let action = should_derisk(&config, &[health("aave_savings", 0.3, true, true)]);
    match action {
        DeriskAction::Migrate { from, to } => {
            assert_eq!(from, "aave_savings");
            assert_eq!(to, RiskSpectrum::Sovereign);
        }
        _ => panic!("expected a migration"),
    }
}

#[test]
fn test_should_derisk_emergency_when_critical() {
    let config = VaultConfig::default();
    let action = should_derisk(&config, &[health("aave_savings", 0.1, false, false)]);
    assert!(matches!(action, DeriskAction::EmergencyWithdraw { ref adapter } if adapter == "aave_savings"));
}

#[test]
fn test_should_derisk_disabled_always_holds() {
    let mut config = VaultConfig::default();
    config.auto_derisk_enabled = false;
    let action = should_derisk(&config, &[health("aave_savings", 0.0, false, false)]);
    assert!(is_hold(&action));
}

#[test]
fn test_should_derisk_names_first_lowest() {
    let config = VaultConfig::default();
    let reports = [
        health("a", 0.4, true, true),
        health("b", 0.15, true, true),
        health("c", 0.15, true, true),
        health("d", 0.9, true, true),
    ];
    let action = should_derisk(&config, &reports);
    assert!(matches!(action, DeriskAction::EmergencyWithdraw { ref adapter } if adapter == "b"));
}

#[test]
fn test_should_derisk_no_reports_holds() {
    let config = VaultConfig::default();
    assert!(is_hold(&should_derisk(&config, &[])));
}

#[test]
fn test_should_derisk_threshold_above_full_health() {
    // Nothing scores below 1.0, so the worst score stays 1.0, itself under the threshold.
    let mut config = VaultConfig::default();
    config.derisking_health_threshold = s(1.5);
    match should_derisk(&config, &[health("a", 1.0, true, true)]) {
        DeriskAction::Migrate { from, .. } => assert_eq!(from, ""),
        _ => panic!("expected a migration"),
    }
}

// --- check_rebalance ---

fn rebalance_config() -> VaultConfig {
    let mut config = VaultConfig::default();
    config.approved_sources = vec![RiskSpectrum::Sovereign, RiskSpectrum::StablecoinSavings];
    config.source_weights.insert(RiskSpectrum::Sovereign, 60);
    config.source_weights.insert(RiskSpectrum::StablecoinSavings, 40);
    config
}

#[test]
fn test_check_rebalance_drift_beyond_threshold() {
    let config = rebalance_config();
    let mut portfolio = Portfolio::new();
    portfolio.add_allocation(allocation(RiskSpectrum::Sovereign, "sovereign_bond", 700_000));
    portfolio.add_allocation(allocation(RiskSpectrum::StablecoinSavings, "aave_savings", 300_000));
    let rec = check_rebalance(&config, &portfolio, 5, &source_pcts(&config, &portfolio));
    assert!(rec.needs_rebalance);
    assert_eq!(rec.drifts.len(), 2);
    assert_eq!(rec.drifts[0].adapter_name, "sovereign_bond");
    assert_eq!(rec.drifts[0].target_pct, 60);
    assert_eq!(rec.drifts[0].actual_pct, 70);
    assert_eq!(rec.drifts[0].drift_pct, 10);
    assert_eq!(rec.drifts[1].drift_pct, -10);
    assert_eq!(rec.reasoning, "Portfolio drift exceeds 5% threshold, rebalance recommended");
}

#[test]
fn test_check_rebalance_within_threshold() {
    let config = rebalance_config();
    let mut portfolio = Portfolio::new();
    portfolio.add_allocation(allocation(RiskSpectrum::Sovereign, "sovereign_bond", 640_000));
    portfolio.add_allocation(allocation(RiskSpectrum::StablecoinSavings, "aave_savings", 360_000));
    let rec = check_rebalance(&config, &portfolio, 10, &source_pcts(&config, &portfolio));
    assert!(!rec.needs_rebalance);
    assert_eq!(rec.drifts[0].drift_pct, 4);
    assert_eq!(rec.reasoning, "All allocations within 10% drift threshold");
    // A drift equal to the threshold is not beyond it.
    let rec = check_rebalance(&config, &portfolio, 4, &source_pcts(&config, &portfolio));
    assert!(!rec.needs_rebalance);
    assert_eq!(rec.reasoning, "All allocations within 4% drift threshold");
    let rec = check_rebalance(&config, &portfolio, 3, &source_pcts(&config, &portfolio));
    assert!(rec.needs_rebalance);
    assert_eq!(rec.reasoning, "Portfolio drift exceeds 3% threshold, rebalance recommended");
}

#[test]
fn test_check_rebalance_nothing_to_compare() {
    let config = rebalance_config();
    let portfolio = Portfolio::new();
    let rec = check_rebalance(&config, &portfolio, 5, &[0, 0]);
    assert!(!rec.needs_rebalance);
    assert!(rec.drifts.is_empty());
    assert_eq!(rec.reasoning, "No deposits or no target weights configured");

    let mut config = VaultConfig::default();
    config.approved_sources = vec![RiskSpectrum::Sovereign];
    let mut portfolio = Portfolio::new();
    portfolio.add_allocation(allocation(RiskSpectrum::Sovereign, "sovereign_bond", 1));
    let rec = check_rebalance(&config, &portfolio, 5, &[100]);
    assert!(!rec.needs_rebalance);
    assert_eq!(rec.reasoning, "No deposits or no target weights configured");
}

#[test]
fn test_check_rebalance_unweighted_source_targets_zero() {
    let mut config = rebalance_config();
    config.approved_sources.push(RiskSpectrum::LiquidStaking);
    let mut portfolio = Portfolio::new();
    portfolio.add_allocation(allocation(RiskSpectrum::Sovereign, "sovereign_bond", 600));
    portfolio.add_allocation(allocation(RiskSpectrum::LiquidStaking, "liquid_staking", 400));
    let rec = check_rebalance(&config, &portfolio, 100, &source_pcts(&config, &portfolio));
    assert_eq!(rec.drifts[2].target_pct, 0);
    assert_eq!(rec.drifts[2].actual_pct, 40);
    assert_eq!(rec.drifts[1].drift_pct, -40);
    assert!(!rec.needs_rebalance);
    assert_eq!(rec.reasoning, "All allocations within 100% drift threshold");
}

#[test]
fn test_source_amount_sums_and_overflows() {
    let mut portfolio = Portfolio::new();
    portfolio.add_allocation(allocation(RiskSpectrum::Sovereign, "sovereign_bond", 5));
    portfolio.add_allocation(allocation(RiskSpectrum::StablecoinSavings, "aave_savings", 7));
    portfolio.add_allocation(allocation(RiskSpectrum::Sovereign, "sovereign_bond", 11));
    assert_eq!(source_amount(&portfolio, RiskSpectrum::Sovereign), Some(16));
    assert_eq!(source_amount(&portfolio, RiskSpectrum::MultiStrategy), Some(0));
    let mut big = Portfolio::new();
    big.allocations.push(allocation(RiskSpectrum::Sovereign, "sovereign_bond", u128::MAX));
    big.allocations.push(allocation(RiskSpectrum::Sovereign, "sovereign_bond", 1));
    assert_eq!(source_amount(&big, RiskSpectrum::Sovereign), None);
}

#[test]
fn test_breach_messages() {
    let oracle = Breach::OracleStale { adapter: "aave_savings".to_string() };
    assert_eq!(oracle.message().as_deref(), Some("oracle_stale: aave_savings"));
    let liquidity = Breach::LiquidityLow { adapter: "aave_savings".to_string() };
    assert_eq!(liquidity.message().as_deref(), Some("liquidity_low: aave_savings"));
    let concentration = Breach::Concentration { adapter: "aave_savings".to_string(), pct: 80, limit: 5 };
    assert_eq!(
        concentration.message().as_deref(),
        Some("concentration_breach: aave_savings at 80% exceeds 5% limit")
    );
    let wide = Breach::Concentration { adapter: "x".to_string(), pct: 255, limit: 100 };
    assert_eq!(wide.message().as_deref(), Some("concentration_breach: x at 255% exceeds 100% limit"));
    let health = Breach::Health { adapter: "a".to_string(), score: s(0.3), threshold: s(0.5) };
    assert!(health.message().is_none());
}
