use vstd::prelude::*;

use crate::domain::adapters::{
    address_word, amount_word, calldata_start, encode_address, no_value, push_amount_word, TxRequest,
};
use crate::domain::engine::{HealthStatus, RiskSpectrum};
use crate::domain::score::Score;

verus! {

/// An Aave V3 pool holding a stablecoin.
pub struct AaveSavingsAdapter {
    pool_address: String,
    asset_address: String,
    chain_id: u64,
    rpc_url: String,
}

/// The pattern of `0.85`, the pool's health score.
pub const AAVE_HEALTH_PATTERN: u64 = 0x3FEB_3333_3333_3333;

/// The pattern of `0.72`, the share of the pool that is lent out.
pub const AAVE_UTILISATION_PATTERN: u64 = 0x3FE7_0A3D_70A3_D70A;

impl AaveSavingsAdapter {
    /// The pool's contract address.
    pub closed spec fn pool(&self) -> Seq<char> {
        self.pool_address@
    }

    /// The stablecoin's address.
    pub closed spec fn asset(&self) -> Seq<char> {
        self.asset_address@
    }

    /// The chain the pool lives on.
    pub closed spec fn chain(&self) -> u64 {
        self.chain_id
    }

    /// The node to query.
    pub closed spec fn rpc(&self) -> Seq<char> {
        self.rpc_url@
    }

    pub fn new(pool_address: String, asset_address: String, chain_id: u64, rpc_url: String) -> (a: Self)
        ensures
            a.pool() == pool_address@,
            a.asset() == asset_address@,
            a.chain() == chain_id,
            a.rpc() == rpc_url@,
    {
        AaveSavingsAdapter { pool_address, asset_address, chain_id, rpc_url }
    }

    pub fn name(&self) -> (n: &'static str)
        ensures
            n@ == "aave_savings"@,
    {
        "aave_savings"
    }

    pub fn risk_position(&self) -> (r: RiskSpectrum)
        ensures
            r == RiskSpectrum::StablecoinSavings,
    {
        RiskSpectrum::StablecoinSavings
    }

    /// Aave V3 `Pool.supply(address asset, uint256 amount, address onBehalfOf, uint16 referralCode)`;
    /// on behalf of the zero address, replaced when signing, with referral code 0.
    pub fn deposit(&self, amount: u128) -> (tx: TxRequest)
        ensures
            tx.to@ == self.pool(),
            tx.data@ == "0x617ba037"@ + address_word(self.asset()) + amount_word(amount as nat) + amount_word(0) + amount_word(0),
            tx.value@ == "0"@,
            tx.chain_id == self.chain(),
    {
        let mut data = calldata_start("617ba037");
        data.append(encode_address(self.asset_address.as_str()).as_str());
        push_amount_word(&mut data, amount);
        push_amount_word(&mut data, 0);
        push_amount_word(&mut data, 0);
        proof {
            reveal_strlit("0x");
            reveal_strlit("617ba037");
            reveal_strlit("0x617ba037");
        }
        assert(data@ =~= "0x617ba037"@ + address_word(self.asset()) + amount_word(amount as nat) + amount_word(0) + amount_word(0));
        TxRequest { to: self.pool_address.clone(), data, value: no_value(), chain_id: self.chain_id }
    }

    /// Aave V3 `Pool.withdraw(address asset, uint256 amount, address to)`; to the zero
    /// address, replaced when signing.
    pub fn withdraw(&self, amount: u128) -> (tx: TxRequest)
        ensures
            tx.to@ == self.pool(),
            tx.data@ == "0x69328dec"@ + address_word(self.asset()) + amount_word(amount as nat) + amount_word(0),
            tx.value@ == "0"@,
            tx.chain_id == self.chain(),
    {
        let mut data = calldata_start("69328dec");
        data.append(encode_address(self.asset_address.as_str()).as_str());
        push_amount_word(&mut data, amount);
        push_amount_word(&mut data, 0);
        proof {
            reveal_strlit("0x");
            reveal_strlit("69328dec");
            reveal_strlit("0x69328dec");
        }
        assert(data@ =~= "0x69328dec"@ + address_word(self.asset()) + amount_word(amount as nat) + amount_word(0));
        TxRequest { to: self.pool_address.clone(), data, value: no_value(), chain_id: self.chain_id }
    }

    /// Its health on testnet: a fixed, healthy report.
    pub fn health_check(&self) -> (h: HealthStatus)
        ensures
            h.adapter_name@ == "aave_savings"@,
            h.score.bits == AAVE_HEALTH_PATTERN,
            h.oracle_fresh,
            h.liquidity_adequate,
            h.utilisation_rate.bits == AAVE_UTILISATION_PATTERN,
            h.details@ == "Aave savings pool healthy, utilisation normal (testnet mock)"@,
    {
        HealthStatus {
            adapter_name: String::from_str(self.name()),
            score: Score::from_bits(AAVE_HEALTH_PATTERN),
            oracle_fresh: true,
            liquidity_adequate: true,
            utilisation_rate: Score::from_bits(AAVE_UTILISATION_PATTERN),
            details: String::from_str("Aave savings pool healthy, utilisation normal (testnet mock)"),
        }
    }

    /// The value locked; not yet queried on chain, so zero.
    pub fn tvl(&self) -> (t: u128)
        ensures
            t == 0,
    {
        0
    }
}

} // verus!
