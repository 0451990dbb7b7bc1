use vstd::prelude::*;

use crate::domain::adapters::{
    address_word, amount_word, calldata_start, encode_address, no_value, push_amount_word, TxRequest,
};
use crate::domain::engine::{HealthStatus, RiskSpectrum};
use crate::domain::score::Score;

verus! {

/// A Compound V3 Comet market.
pub struct CompoundLendingAdapter {
    comet_address: String,
    asset_address: String,
    chain_id: u64,
    rpc_url: String,
}

/// The pattern of `0.82`, the market's health score.
pub const COMPOUND_HEALTH_PATTERN: u64 = 0x3FEA_3D70_A3D7_0A3D;

/// The pattern of `0.68`, the share of the market that is lent out.
pub const COMPOUND_UTILISATION_PATTERN: u64 = 0x3FE5_C28F_5C28_F5C3;

impl CompoundLendingAdapter {
    /// The Comet's contract address.
    pub closed spec fn comet(&self) -> Seq<char> {
        self.comet_address@
    }

    /// The supplied asset's address.
    pub closed spec fn asset(&self) -> Seq<char> {
        self.asset_address@
    }

    /// The chain the market lives on.
    pub closed spec fn chain(&self) -> u64 {
        self.chain_id
    }

    /// The node to query.
    pub closed spec fn rpc(&self) -> Seq<char> {
        self.rpc_url@
    }

    pub fn new(comet_address: String, asset_address: String, chain_id: u64, rpc_url: String) -> (a: Self)
        ensures
            a.comet() == comet_address@,
            a.asset() == asset_address@,
            a.chain() == chain_id,
            a.rpc() == rpc_url@,
    {
        CompoundLendingAdapter { comet_address, asset_address, chain_id, rpc_url }
    }

    pub fn name(&self) -> (n: &'static str)
        ensures
            n@ == "compound_lending"@,
    {
        "compound_lending"
    }

    pub fn risk_position(&self) -> (r: RiskSpectrum)
        ensures
            r == RiskSpectrum::DiversifiedLending,
    {
        RiskSpectrum::DiversifiedLending
    }

    /// Compound V3 `Comet.supply(address asset, uint256 amount)`.
    pub fn deposit(&self, amount: u128) -> (tx: TxRequest)
        ensures
            tx.to@ == self.comet(),
            tx.data@ == "0xf2b9fdb8"@ + address_word(self.asset()) + amount_word(amount as nat),
            tx.value@ == "0"@,
            tx.chain_id == self.chain(),
    {
        let mut data = calldata_start("f2b9fdb8");
        data.append(encode_address(self.asset_address.as_str()).as_str());
        push_amount_word(&mut data, amount);
        proof {
            reveal_strlit("0x");
            reveal_strlit("f2b9fdb8");
            reveal_strlit("0xf2b9fdb8");
        }
        assert(data@ =~= "0xf2b9fdb8"@ + address_word(self.asset()) + amount_word(amount as nat));
        TxRequest { to: self.comet_address.clone(), data, value: no_value(), chain_id: self.chain_id }
    }

    /// Compound V3 `Comet.withdraw(address asset, uint256 amount)`.
    pub fn withdraw(&self, amount: u128) -> (tx: TxRequest)
        ensures
            tx.to@ == self.comet(),
            tx.data@ == "0xf3fef3a3"@ + address_word(self.asset()) + amount_word(amount as nat),
            tx.value@ == "0"@,
            tx.chain_id == self.chain(),
    {
        let mut data = calldata_start("f3fef3a3");
        data.append(encode_address(self.asset_address.as_str()).as_str());
        push_amount_word(&mut data, amount);
        proof {
            reveal_strlit("0x");
            reveal_strlit("f3fef3a3");
            reveal_strlit("0xf3fef3a3");
        }
        assert(data@ =~= "0xf3fef3a3"@ + address_word(self.asset()) + amount_word(amount as nat));
        TxRequest { to: self.comet_address.clone(), data, value: no_value(), chain_id: self.chain_id }
    }

    /// Its health on testnet: a fixed, healthy report.
    pub fn health_check(&self) -> (h: HealthStatus)
        ensures
            h.adapter_name@ == "compound_lending"@,
            h.score.bits == COMPOUND_HEALTH_PATTERN,
            h.oracle_fresh,
            h.liquidity_adequate,
            h.utilisation_rate.bits == COMPOUND_UTILISATION_PATTERN,
            h.details@ == "Compound V3 Comet healthy, utilisation moderate (testnet mock)"@,
    {
        HealthStatus {
            adapter_name: String::from_str(self.name()),
            score: Score::from_bits(COMPOUND_HEALTH_PATTERN),
            oracle_fresh: true,
            liquidity_adequate: true,
            utilisation_rate: Score::from_bits(COMPOUND_UTILISATION_PATTERN),
            details: String::from_str("Compound V3 Comet healthy, utilisation moderate (testnet mock)"),
        }
    }

    /// The value locked; not yet queried on chain, so zero.
    pub fn tvl(&self) -> (t: u128)
        ensures
            t == 0,
    {
        0
    }
}

} // verus!
