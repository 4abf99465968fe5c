//! Scores as IEEE 754 binary64 bit patterns, with the order of the numbers
//! they encode.
//!
//! A score travels through the library as the 64 bits of a binary64 number.
//! The order of two such numbers can be read off their bit patterns with
//! integer arithmetic alone, which is what the functions here do.

use vstd::prelude::*;

verus! {

/// The bit that holds the sign of a binary64 number.
pub const SIGN_BIT: u64 = 0x8000_0000_0000_0000;

/// The magnitude bits of infinity; every larger magnitude is a NaN.
pub const INFINITY_MAGNITUDE: u64 = 0x7ff0_0000_0000_0000;

/// A numeric score, held as the bit pattern of an IEEE 754 binary64 number.
///
/// `==` on scores compares bit patterns: it tells `0.0` from `-0.0` and finds
/// a NaN equal to itself. The numeric order is given by [`Score::ge`] and
/// [`Score::lt`].
#[derive(Clone, Copy, Debug, PartialEq, Eq)]
pub struct Score {
    pub bits: u64,
}

impl Score {
    /// The bit pattern without its sign bit.
    pub open spec fn magnitude(self) -> int {
        if self.bits >= SIGN_BIT {
            self.bits - SIGN_BIT
        } else {
            self.bits as int
        }
    }

    /// Whether the pattern encodes no number at all.
    pub open spec fn spec_is_nan(self) -> bool {
        self.magnitude() > INFINITY_MAGNITUDE
    }

    /// The place of the encoded number on the number line: two patterns that
    /// encode numbers compare as their ranks do. Both zeros have rank 0, the
    /// infinities have the largest and the smallest rank.
    pub open spec fn rank(self) -> int {
        if self.bits >= SIGN_BIT {
            -self.magnitude()
        } else {
            self.magnitude()
        }
    }

    /// `self >= other` as binary64 numbers: false when either is a NaN.
    pub open spec fn spec_ge(self, other: Score) -> bool {
        !self.spec_is_nan() && !other.spec_is_nan() && self.rank() >= other.rank()
    }

    /// `self < other` as binary64 numbers: false when either is a NaN.
    pub open spec fn spec_lt(self, other: Score) -> bool {
        !self.spec_is_nan() && !other.spec_is_nan() && self.rank() < other.rank()
    }

    /// The score with the given binary64 bit pattern.
    pub fn from_bits(bits: u64) -> (s: Score)
        ensures
            s.bits == bits,
    {
        Score { bits }
    }

    /// The binary64 bit pattern of the score.
    pub fn to_bits(self) -> (bits: u64)
        ensures
            bits == self.bits,
    {
        self.bits
    }

    /// Whether the score is a NaN.
    #[verifier::when_used_as_spec(spec_is_nan)]
    pub fn is_nan(self) -> (nan: bool)
        ensures
            nan == self.spec_is_nan(),
    {
        if self.bits >= SIGN_BIT {
            self.bits - SIGN_BIT > INFINITY_MAGNITUDE
        } else {
            self.bits > INFINITY_MAGNITUDE
        }
    }

    /// The rank of the score as a machine integer.
    fn signed_rank(self) -> (r: i64)
        ensures
            r == self.rank(),
    {
        if self.bits >= SIGN_BIT {
            let magnitude: u64 = self.bits - SIGN_BIT;
            -(magnitude as i64)
        } else {
            self.bits as i64
        }
    }

    /// Numeric `>=`.
    #[verifier::when_used_as_spec(spec_ge)]
    pub fn ge(self, other: Score) -> (holds: bool)
        ensures
            holds == self.spec_ge(other),
    {
        !self.is_nan() && !other.is_nan() && self.signed_rank() >= other.signed_rank()
    }

    /// Numeric `<`.
    #[verifier::when_used_as_spec(spec_lt)]
    pub fn lt(self, other: Score) -> (holds: bool)
        ensures
            holds == self.spec_lt(other),
    {
        !self.is_nan() && !other.is_nan() && self.signed_rank() < other.signed_rank()
    }
}

/// Two scores that both encode numbers are ordered one way or the other, and
/// never both ways.
pub proof fn lemma_numbers_are_totally_ordered(a: Score, b: Score)
    requires
        !a.is_nan(),
        !b.is_nan(),
    ensures
        a.ge(b) != a.lt(b),
{
}

/// A NaN is neither at least nor below any score.
pub proof fn lemma_nan_compares_false(a: Score, b: Score)
    requires
        a.is_nan() || b.is_nan(),
    ensures
        !a.ge(b),
        !a.lt(b),
{
}

} // verus!
