use vstd::prelude::*;

use crate::domain::adapters::{
    amount_word, calldata_start, no_value, push_amount_word, TxRequest,
};
use crate::domain::engine::{HealthStatus, RiskSpectrum};
use crate::domain::score::{Score, ZERO_PATTERN};

verus! {

/// An ERC-4626 vault of tokenised sovereign bonds.
pub struct SovereignBondAdapter {
    contract_address: String,
    chain_id: u64,
    rpc_url: String,
}

/// The pattern of `0.95`, the sovereign bond vault's health score.
pub const SOVEREIGN_HEALTH_PATTERN: u64 = 0x3FEE_6666_6666_6666;

impl SovereignBondAdapter {
    /// The vault's contract address.
    pub closed spec fn contract(&self) -> Seq<char> {
        self.contract_address@
    }

    /// The chain the vault lives on.
    pub closed spec fn chain(&self) -> u64 {
        self.chain_id
    }

    /// The node to query.
    pub closed spec fn rpc(&self) -> Seq<char> {
        self.rpc_url@
    }

    pub fn new(contract_address: String, chain_id: u64, rpc_url: String) -> (a: Self)
        ensures
            a.contract() == contract_address@,
            a.chain() == chain_id,
            a.rpc() == rpc_url@,
    {
        SovereignBondAdapter { contract_address, chain_id, rpc_url }
    }

    pub fn name(&self) -> (n: &'static str)
        ensures
            n@ == "sovereign_bond"@,
    {
        "sovereign_bond"
    }

    pub fn risk_position(&self) -> (r: RiskSpectrum)
        ensures
            r == RiskSpectrum::Sovereign,
    {
        RiskSpectrum::Sovereign
    }

    /// ERC-4626 `deposit(uint256 assets, address receiver)`; the receiver is
    /// the zero address, replaced by the wallet when it signs.
    pub fn deposit(&self, amount: u128) -> (tx: TxRequest)
        ensures
            tx.to@ == self.contract(),
            tx.data@ == "0x6e553f65"@ + amount_word(amount as nat) + amount_word(0),
            tx.value@ == "0"@,
            tx.chain_id == self.chain(),
    {
        let mut data = calldata_start("6e553f65");
        push_amount_word(&mut data, amount);
        push_amount_word(&mut data, 0);
        proof {
            reveal_strlit("0x");
            reveal_strlit("6e553f65");
            reveal_strlit("0x6e553f65");
        }
        assert(data@ =~= "0x6e553f65"@ + amount_word(amount as nat) + amount_word(0));
        TxRequest { to: self.contract_address.clone(), data, value: no_value(), chain_id: self.chain_id }
    }

    /// ERC-4626 `withdraw(uint256 assets, address receiver, address owner)`;
    /// receiver and owner are the zero address, replaced when signing.
    pub fn withdraw(&self, amount: u128) -> (tx: TxRequest)
        ensures
            tx.to@ == self.contract(),
            tx.data@ == "0xb460af94"@ + amount_word(amount as nat) + amount_word(0) + amount_word(0),
            tx.value@ == "0"@,
            tx.chain_id == self.chain(),
    {
        let mut data = calldata_start("b460af94");
        push_amount_word(&mut data, amount);
        push_amount_word(&mut data, 0);
        push_amount_word(&mut data, 0);
        proof {
            reveal_strlit("0x");
            reveal_strlit("b460af94");
            reveal_strlit("0xb460af94");
        }
        assert(data@ =~= "0xb460af94"@ + amount_word(amount as nat) + amount_word(0) + amount_word(0));
        TxRequest { to: self.contract_address.clone(), data, value: no_value(), chain_id: self.chain_id }
    }

    /// The vault's health on testnet: a fixed, healthy report.
    pub fn health_check(&self) -> (h: HealthStatus)
        ensures
            h.adapter_name@ == "sovereign_bond"@,
            h.score.bits == SOVEREIGN_HEALTH_PATTERN,
            h.oracle_fresh,
            h.liquidity_adequate,
            h.utilisation_rate.bits == ZERO_PATTERN,
            h.details@ == "Sovereign bond vault healthy (testnet mock)"@,
    {
        HealthStatus {
            adapter_name: String::from_str(self.name()),
            score: Score::from_bits(SOVEREIGN_HEALTH_PATTERN),
            oracle_fresh: true,
            liquidity_adequate: true,
            utilisation_rate: Score::from_bits(ZERO_PATTERN),
            details: String::from_str("Sovereign bond vault healthy (testnet mock)"),
        }
    }

    /// The value locked; not yet queried on chain, so zero.
    pub fn tvl(&self) -> (t: u128)
        ensures
            t == 0,
    {
        0
    }
}

} // verus!
