use vstd::prelude::*;

use crate::domain::adapters::{
    amount_word, calldata_start, no_value, push_amount_word, TxRequest,
};
use crate::domain::engine::{HealthStatus, RiskSpectrum};
use crate::domain::score::{Score, ZERO_PATTERN};

verus! {

/// Lido's wrapped staked ether, wstETH.
pub struct LiquidStakingAdapter {
    wsteth_address: String,
    chain_id: u64,
    rpc_url: String,
}

/// The pattern of `0.88`, the token's health score.
pub const LIDO_HEALTH_PATTERN: u64 = 0x3FEC_28F5_C28F_5C29;

impl LiquidStakingAdapter {
    /// The wstETH contract address.
    pub closed spec fn wsteth(&self) -> Seq<char> {
        self.wsteth_address@
    }

    /// The chain the token lives on.
    pub closed spec fn chain(&self) -> u64 {
        self.chain_id
    }

    /// The node to query.
    pub closed spec fn rpc(&self) -> Seq<char> {
        self.rpc_url@
    }

    pub fn new(wsteth_address: String, chain_id: u64, rpc_url: String) -> (a: Self)
        ensures
            a.wsteth() == wsteth_address@,
            a.chain() == chain_id,
            a.rpc() == rpc_url@,
    {
        LiquidStakingAdapter { wsteth_address, chain_id, rpc_url }
    }

    pub fn name(&self) -> (n: &'static str)
        ensures
            n@ == "liquid_staking"@,
    {
        "liquid_staking"
    }

    pub fn risk_position(&self) -> (r: RiskSpectrum)
        ensures
            r == RiskSpectrum::LiquidStaking,
    {
        RiskSpectrum::LiquidStaking
    }

    /// wstETH `wrap(uint256 _stETHAmount)`.
    pub fn deposit(&self, amount: u128) -> (tx: TxRequest)
        ensures
            tx.to@ == self.wsteth(),
            tx.data@ == "0xea598cb0"@ + amount_word(amount as nat),
            tx.value@ == "0"@,
            tx.chain_id == self.chain(),
    {
        let mut data = calldata_start("ea598cb0");
        push_amount_word(&mut data, amount);
        proof {
            reveal_strlit("0x");
            reveal_strlit("ea598cb0");
            reveal_strlit("0xea598cb0");
        }
        assert(data@ =~= "0xea598cb0"@ + amount_word(amount as nat));
        TxRequest { to: self.wsteth_address.clone(), data, value: no_value(), chain_id: self.chain_id }
    }

    /// wstETH `unwrap(uint256 _wstETHAmount)`.
    pub fn withdraw(&self, amount: u128) -> (tx: TxRequest)
        ensures
            tx.to@ == self.wsteth(),
            tx.data@ == "0xde0e9a3e"@ + amount_word(amount as nat),
            tx.value@ == "0"@,
            tx.chain_id == self.chain(),
    {
        let mut data = calldata_start("de0e9a3e");
        push_amount_word(&mut data, amount);
        proof {
            reveal_strlit("0x");
            reveal_strlit("de0e9a3e");
            reveal_strlit("0xde0e9a3e");
        }
        assert(data@ =~= "0xde0e9a3e"@ + amount_word(amount as nat));
        TxRequest { to: self.wsteth_address.clone(), data, value: no_value(), chain_id: self.chain_id }
    }

    /// Its health on testnet: a fixed, healthy report.
    pub fn health_check(&self) -> (h: HealthStatus)
        ensures
            h.adapter_name@ == "liquid_staking"@,
            h.score.bits == LIDO_HEALTH_PATTERN,
            h.oracle_fresh,
            h.liquidity_adequate,
            h.utilisation_rate.bits == ZERO_PATTERN,
            h.details@ == "Lido wstETH liquid staking healthy (testnet mock)"@,
    {
        HealthStatus {
            adapter_name: String::from_str(self.name()),
            score: Score::from_bits(LIDO_HEALTH_PATTERN),
            oracle_fresh: true,
            liquidity_adequate: true,
            utilisation_rate: Score::from_bits(ZERO_PATTERN),
            details: String::from_str("Lido wstETH liquid staking healthy (testnet mock)"),
        }
    }

    /// The value locked; not yet queried on chain, so zero.
    pub fn tvl(&self) -> (t: u128)
        ensures
            t == 0,
    {
        0
    }
}

} // verus!
