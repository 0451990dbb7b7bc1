use impactvault::domain::adapters::aave_savings::AaveSavingsAdapter;
use impactvault::domain::adapters::compound_lending::CompoundLendingAdapter;
use impactvault::domain::adapters::encode_address;
use impactvault::domain::adapters::liquid_staking::LiquidStakingAdapter;
use impactvault::domain::adapters::sovereign_bond::SovereignBondAdapter;
use impactvault::domain::engine::RiskSpectrum;

const ZERO_WORD: &str = "0000000000000000000000000000000000000000000000000000000000000000";

fn word(n: u128) -> String {
    format!("{n:064x}")
}

#[test]
fn test_sovereign_bond_metadata() {
    let adapter = SovereignBondAdapter::new(
        "0x1234567890abcdef".into(),
        11155111,
        "https://rpc.sepolia.org".into(),
    );
    assert_eq!(adapter.name(), "sovereign_bond");
    assert_eq!(adapter.risk_position(), RiskSpectrum::Sovereign);
    assert_eq!(adapter.tvl(), 0);
}

#[test]
fn test_deposit_returns_valid_tx() {
    let adapter = SovereignBondAdapter::new(
        "0x1234567890abcdef".into(),
        11155111,
        "https://rpc.sepolia.org".into(),
    );
    let tx = adapter.deposit(1_000_000);
    assert_eq!(tx.chain_id, 11155111);
    assert!(tx.to.starts_with("0x"));
    assert_eq!(tx.to, "0x1234567890abcdef");
    assert_eq!(tx.value, "0");
    assert_eq!(
        tx.data,
        "0x6e553f65".to_string()
            + "00000000000000000000000000000000000000000000000000000000000f4240"
            + ZERO_WORD
    );
    let tx = adapter.withdraw(u128::MAX);
    assert_eq!(
        tx.data,
        format!("0xb460af94{}{ZERO_WORD}{ZERO_WORD}", word(u128::MAX))
    );
    assert_eq!(tx.data.len(), 2 + 8 + 3 * 64);
}

#[test]
fn test_aave_metadata() {
    let adapter = AaveSavingsAdapter::new(
        "0xPool".into(),
        "0x1c7D4B196Cb0C7B01d743Fbc6116a902379C7238".into(),
        11155111,
        "https://rpc.sepolia.org".into(),
    );
    assert_eq!(adapter.name(), "aave_savings");
    assert_eq!(adapter.risk_position(), RiskSpectrum::StablecoinSavings);
}

#[test]
fn test_aave_deposit_tx() {
    let asset = "0x1c7D4B196Cb0C7B01d743Fbc6116a902379C7238";
    let adapter = AaveSavingsAdapter::new("0xPool".into(), asset.into(), 11155111, "rpc".into());
    let tx = adapter.deposit(255);
    assert_eq!(tx.chain_id, 11155111);
    assert!(tx.data.contains("617ba037"));
    let asset_word = "0000000000000000000000001c7D4B196Cb0C7B01d743Fbc6116a902379C7238";
    assert_eq!(tx.data, format!("0x617ba037{asset_word}{}{ZERO_WORD}{ZERO_WORD}", word(255)));
    assert_eq!(tx.to, "0xPool");
    let tx = adapter.withdraw(16);
    assert_eq!(tx.data, format!("0x69328dec{asset_word}{}{ZERO_WORD}", word(16)));
    let h = adapter.health_check();
    assert_eq!(h.adapter_name, "aave_savings");
    assert_eq!(f64::from_bits(h.score.bits), 0.85);
    assert_eq!(f64::from_bits(h.utilisation_rate.bits), 0.72);
    assert!(h.oracle_fresh && h.liquidity_adequate);
}

#[test]
fn test_compound_txs() {
    let adapter = CompoundLendingAdapter::new("0xComet".into(), "abc".into(), 1, "rpc".into());
    assert_eq!(adapter.name(), "compound_lending");
    assert_eq!(adapter.risk_position(), RiskSpectrum::DiversifiedLending);
    let asset_word = format!("{:0>64}", "abc");
    assert_eq!(adapter.deposit(10).data, format!("0xf2b9fdb8{asset_word}{}", word(10)));
    assert_eq!(adapter.withdraw(10).data, format!("0xf3fef3a3{asset_word}{}", word(10)));
    assert_eq!(f64::from_bits(adapter.health_check().score.bits), 0.82);
    assert_eq!(f64::from_bits(adapter.health_check().utilisation_rate.bits), 0.68);
}

#[test]
fn test_liquid_staking_txs() {
    let adapter = LiquidStakingAdapter::new("0xwsteth".into(), 17000, "rpc".into());
    assert_eq!(adapter.name(), "liquid_staking");
    assert_eq!(adapter.risk_position(), RiskSpectrum::LiquidStaking);
    let tx = adapter.deposit(0xdead_beef);
    assert_eq!(tx.data, format!("0xea598cb0{}", word(0xdead_beef)));
    assert_eq!(tx.chain_id, 17000);
    assert_eq!(adapter.withdraw(1).data, format!("0xde0e9a3e{}", word(1)));
    let h = adapter.health_check();
    assert_eq!(f64::from_bits(h.score.bits), 0.88);
    assert_eq!(f64::from_bits(h.utilisation_rate.bits), 0.0);
    assert_eq!(h.details, "Lido wstETH liquid staking healthy (testnet mock)");
}

#[test]
fn test_sovereign_health() {
    let adapter = SovereignBondAdapter::new("0x1".into(), 1, "rpc".into());
    let h = adapter.health_check();
    assert_eq!(f64::from_bits(h.score.bits), 0.95);
    assert_eq!(h.details, "Sovereign bond vault healthy (testnet mock)");
}

#[test]
fn test_encode_address_matches_padding() {
    for addr in ["0x1234", "1234", "0x", "", "x0abc", "0X12", &"f".repeat(70), "0xé"] {
        let stripped = addr.strip_prefix("0x").unwrap_or(addr);
        assert_eq!(encode_address(addr), format!("{stripped:0>64}"), "{addr}");
    }
}
