use vstd::prelude::*;

verus! {

/// A health score or a rate, held as the bit pattern of the IEEE-754 binary64
/// number it stands for (`f64::to_bits`). The library never computes with the
/// number itself: it only compares scores, through [`rank`], which orders bit
/// patterns the way `<` orders the numbers. Two scores are `==` when their
/// patterns are: `0.0` and `-0.0` differ there, and a NaN equals itself.
#[derive(Clone, Copy, Debug, PartialEq, Eq, Structural)]
pub struct Score {
    pub bits: u64,
}

/// The sign bit of a binary64 pattern.
pub const SIGN_BIT: u64 = 0x8000_0000_0000_0000;

/// The pattern of positive infinity; every larger magnitude is a NaN.
pub const INFINITY_PATTERN: u64 = 0x7FF0_0000_0000_0000;

/// The pattern of `0.0`.
pub const ZERO_PATTERN: u64 = 0x0000_0000_0000_0000;

/// The pattern of `0.2`, under which a degraded adapter calls for an emergency withdrawal.
pub const EMERGENCY_PATTERN: u64 = 0x3FC9_9999_9999_999A;

/// The pattern of `0.5`, the default derisking threshold.
pub const HALF_PATTERN: u64 = 0x3FE0_0000_0000_0000;

/// The pattern of `1.0`, a perfectly healthy score.
pub const ONE_PATTERN: u64 = 0x3FF0_0000_0000_0000;

/// The absolute part of a pattern: the pattern without its sign bit.
pub open spec fn magnitude(bits: u64) -> int {
    if bits >= SIGN_BIT {
        bits - SIGN_BIT
    } else {
        bits as int
    }
}

/// Where a score stands on the real line: `None` for a NaN, which compares
/// with nothing; otherwise a position that grows with the number, with
/// `-0.0` and `0.0` at the same place.
pub open spec fn rank(s: Score) -> Option<int> {
    let m = magnitude(s.bits);
    if m > INFINITY_PATTERN {
        None
    } else if s.bits >= SIGN_BIT {
        Some(SIGN_BIT - m)
    } else {
        Some(SIGN_BIT + m)
    }
}

/// `a < b` on the numbers the scores stand for.
pub open spec fn score_lt(a: Score, b: Score) -> bool {
    &&& rank(a) is Some
    &&& rank(b) is Some
    &&& rank(a)->0 < rank(b)->0
}

/// `a >= b` on the numbers the scores stand for (false where either is a NaN).
pub open spec fn score_ge(a: Score, b: Score) -> bool {
    &&& rank(a) is Some
    &&& rank(b) is Some
    &&& rank(a)->0 >= rank(b)->0
}

pub open spec fn spec_score(bits: u64) -> Score {
    Score { bits }
}

impl Score {
    /// The score whose pattern is `bits`.
    pub fn from_bits(bits: u64) -> (s: Score)
        ensures
            s.bits == bits,
    {
        Score { bits }
    }

    /// The score's rank, computed.
    fn rank_value(&self) -> (r: Option<u64>)
        ensures
            r is None <==> rank(*self) is None,
            r matches Some(v) ==> rank(*self) == Some(v as int),
    {
        let m: u64 = if self.bits >= SIGN_BIT {
            self.bits - SIGN_BIT
        } else {
            self.bits
        };
        if m > INFINITY_PATTERN {
            None
        } else if self.bits >= SIGN_BIT {
            Some(SIGN_BIT - m)
        } else {
            Some(SIGN_BIT + m)
        }
    }

    /// Whether this score is below `other`.
    pub fn is_below(&self, other: &Score) -> (r: bool)
        ensures
            r == score_lt(*self, *other),
    {
        match (self.rank_value(), other.rank_value()) {
            (Some(a), Some(b)) => a < b,
            _ => false,
        }
    }

    /// Whether this score is at least `other`.
    pub fn is_at_least(&self, other: &Score) -> (r: bool)
        ensures
            r == score_ge(*self, *other),
    {
        match (self.rank_value(), other.rank_value()) {
            (Some(a), Some(b)) => a >= b,
            _ => false,
        }
    }
}

/// `<` on scores is a strict order: irreflexive and transitive.
pub proof fn lemma_score_lt_strict_order(a: Score, b: Score, c: Score)
    ensures
        !score_lt(a, a),
        score_lt(a, b) && score_lt(b, c) ==> score_lt(a, c),
        score_lt(a, b) ==> !score_ge(a, b),
{
}

/// Scores compare as the numbers their patterns encode: among non-negative
/// numbers a larger pattern is a larger number; among negative ones a larger
/// pattern is a smaller number; every negative number is below every
/// non-negative one, but `-0.0` equals `0.0`; and a NaN compares with nothing.
pub proof fn lemma_rank_follows_the_numbers(a: Score, b: Score)
    ensures
        a.bits < b.bits <= INFINITY_PATTERN ==> score_lt(a, b),
        SIGN_BIT <= a.bits < b.bits <= SIGN_BIT + INFINITY_PATTERN ==> score_lt(b, a),
        a.bits <= INFINITY_PATTERN && SIGN_BIT <= b.bits <= SIGN_BIT + INFINITY_PATTERN && !(a.bits
            == ZERO_PATTERN && b.bits == SIGN_BIT) ==> score_lt(b, a),
        a.bits == ZERO_PATTERN && b.bits == SIGN_BIT ==> score_ge(a, b) && score_ge(b, a),
        (INFINITY_PATTERN < a.bits < SIGN_BIT || a.bits > SIGN_BIT + INFINITY_PATTERN) ==> {
            &&& !score_lt(a, b)
            &&& !score_lt(b, a)
            &&& !score_ge(a, b)
            &&& !score_ge(b, a)
        },
{
}

} // verus!
