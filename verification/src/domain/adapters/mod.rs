pub mod aave_savings;
pub mod compound_lending;
pub mod liquid_staking;
pub mod sovereign_bond;

use vstd::prelude::*;

use crate::text::{hex_digits, hex_number, lemma_hex_digits_round_trip, push_hex_digits, push_zeros, zeros};

verus! {

/// An unsigned transaction for a wallet to sign and send.
#[derive(Clone, Debug)]
pub struct TxRequest {
    /// The contract address.
    pub to: String,
    /// The ABI-encoded calldata, as `0x` followed by lowercase hex.
    pub data: String,
    /// The wei sent along, in decimal.
    pub value: String,
    pub chain_id: u64,
}

/// An amount as a 32-byte ABI word: 64 lowercase hex digits.
pub open spec fn amount_word(n: nat) -> Seq<char> {
    hex_digits(n, 64)
}

/// An address without its `0x` prefix, where it has one.
pub open spec fn strip_hex_prefix(a: Seq<char>) -> Seq<char> {
    if a.len() >= 2 && a[0] == '0' && a[1] == 'x' {
        a.skip(2)
    } else {
        a
    }
}

/// Text padded on the left with zeros to `width` characters; longer text is
/// left as it is.
pub open spec fn left_pad_zeros(s: Seq<char>, width: nat) -> Seq<char> {
    if s.len() < width {
        zeros((width - s.len()) as nat) + s
    } else {
        s
    }
}

/// An address as a 32-byte ABI word: its hex digits, left-padded with zeros.
pub open spec fn address_word(a: Seq<char>) -> Seq<char> {
    left_pad_zeros(strip_hex_prefix(a), 64)
}

/// Appends an amount as a 32-byte ABI word.
pub fn push_amount_word(out: &mut String, n: u128)
    ensures
        final(out)@ == old(out)@ + amount_word(n as nat),
{
    push_hex_digits(out, n, 64);
}

/// Encodes an address as a left-zero-padded 32-byte ABI word.
pub fn encode_address(addr: &str) -> (word: String)
    ensures
        word@ == address_word(addr@),
{
    let len = addr.unicode_len();
    let stripped: &str = if len >= 2 && addr.get_char(0) == '0' && addr.get_char(1) == 'x' {
        addr.substring_char(2, len)
    } else {
        addr
    };
    let slen = stripped.unicode_len();
    let mut word = String::new();
    if slen < 64 {
        push_zeros(&mut word, 64 - slen);
    }
    word.append(stripped);
    assert(word@ =~= address_word(addr@));
    word
}

/// Calldata for a call with the given selector (8 hex digits, no `0x`) and
/// no arguments yet.
pub fn calldata_start(selector: &str) -> (data: String)
    ensures
        data@ == "0x"@ + selector@,
{
    let mut data = String::from_str("0x");
    data.append(selector);
    data
}

/// The text of the value sent along with a call that sends none.
pub fn no_value() -> (v: String)
    ensures
        v@ == "0"@,
{
    String::from_str("0")
}

/// An amount word is 64 characters long and reads back as the amount: the
/// calldata carries every amount exactly.
pub proof fn lemma_amount_word_spells_amount(n: u128)
    ensures
        amount_word(n as nat).len() == 64,
        hex_number(amount_word(n as nat)) == n,
{
    lemma_hex_digits_round_trip(n as nat, 64);
    let p = vstd::arithmetic::power::pow(16, 32);
    vstd::arithmetic::power::lemma_pow_adds(16, 32, 32);
    reveal_with_fuel(vstd::arithmetic::power::pow, 33);
    assert(p == 0x1_0000_0000_0000_0000_0000_0000_0000_0000);
    assert(p * p > u128::MAX) by (nonlinear_arith)
        requires
            p == 0x1_0000_0000_0000_0000_0000_0000_0000_0000,
    ;
    vstd::arithmetic::div_mod::lemma_small_mod(n as nat, (p * p) as nat);
}

} // verus!
