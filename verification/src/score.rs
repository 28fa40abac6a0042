//! Objective scores as binary32 bit patterns.
//!
//! An objective hands back a 32-bit IEEE-754 number. The engines never do
//! arithmetic on a score: they rank scores, ask whether a score is finite and
//! whether one is strictly greater than another. All three questions have exact
//! answers on the bit pattern, so a [`Score`] carries the pattern and nothing else.

use vstd::prelude::*;

verus! {

/// The sign bit of a binary32 pattern.
pub const SIGN: u32 = 0x8000_0000;

/// The eight exponent bits of a binary32 pattern.
pub const EXPONENT: u32 = 0x7F80_0000;

/// Everything but the sign bit: exponent and fraction.
pub const MAGNITUDE: u32 = 0x7FFF_FFFF;

/// The position of a bit pattern in the total order
/// `NaN | -inf | x < 0 | -0 | +0 | x > 0 | +inf | NaN`:
/// patterns with the sign bit clear move to the upper half, the others are
/// mirrored into the lower half.
pub open spec fn rank_of(bits: u32) -> u32 {
    if bits & SIGN == 0 {
        bits | SIGN
    } else {
        !bits
    }
}

/// The pattern is neither an infinity nor a NaN.
pub open spec fn finite_bits(bits: u32) -> bool {
    bits & EXPONENT != EXPONENT
}

/// The pattern is a NaN: all exponent bits set and a fraction that is not zero.
pub open spec fn nan_bits(bits: u32) -> bool {
    bits & MAGNITUDE > EXPONENT
}

/// The pattern read as a sign and a magnitude. On patterns that are not NaN
/// this integer grows exactly as the number does, and both zeros give 0.
pub open spec fn ordinal(bits: u32) -> int {
    if bits & SIGN == 0 {
        (bits & MAGNITUDE) as int
    } else {
        -((bits & MAGNITUDE) as int)
    }
}

/// The IEEE-754 comparison `a > b` on bit patterns: false as soon as either is
/// a NaN, and false between the two zeros.
pub open spec fn greater_bits(a: u32, b: u32) -> bool {
    !nan_bits(a) && !nan_bits(b) && ordinal(a) > ordinal(b)
}

/// The score an objective gave to a candidate.
#[derive(Clone, Copy, Debug, PartialEq, Eq, Structural)]
pub struct Score {
    /// The binary32 bit pattern of the score.
    pub bits: u32,
}

impl Score {
    /// Position in the total order on scores. Two scores have the same rank
    /// only if they are the same pattern.
    pub open spec fn rank(self) -> u32 {
        rank_of(self.bits)
    }

    /// Neither infinite nor NaN.
    pub open spec fn finite(self) -> bool {
        finite_bits(self.bits)
    }

    /// Not a number.
    pub open spec fn nan(self) -> bool {
        nan_bits(self.bits)
    }

    /// Strictly greater as numbers.
    pub open spec fn greater(self, other: Score) -> bool {
        greater_bits(self.bits, other.bits)
    }

    /// Finite and strictly greater than `held`: what makes a score replace
    /// one that is held.
    pub open spec fn betters(self, held: Score) -> bool {
        self.finite() && self.greater(held)
    }

    /// Negative infinity: no number is below it.
    pub open spec fn spec_neg_infinity() -> Score {
        Score { bits: 0xFF80_0000 }
    }

    /// The lowest finite number.
    pub open spec fn spec_lowest() -> Score {
        Score { bits: 0xFF7F_FFFF }
    }

    /// The score with the given bit pattern.
    pub fn from_bits(bits: u32) -> (s: Score)
        ensures
            s.bits == bits,
    {
        Score { bits }
    }

    /// The bit pattern of the score.
    pub fn to_bits(self) -> (bits: u32)
        ensures
            bits == self.bits,
    {
        self.bits
    }

    /// Position of the score in the total order.
    pub fn key(self) -> (k: u32)
        ensures
            k == self.rank(),
    {
        if self.bits & SIGN == 0 {
            self.bits | SIGN
        } else {
            !self.bits
        }
    }

    /// Whether the score is neither infinite nor NaN.
    pub fn is_finite(self) -> (r: bool)
        ensures
            r == self.finite(),
    {
        self.bits & EXPONENT != EXPONENT
    }

    /// Whether the score is a NaN.
    pub fn is_nan(self) -> (r: bool)
        ensures
            r == self.nan(),
    {
        self.bits & MAGNITUDE > EXPONENT
    }

    /// Whether the score is strictly greater than `other`, as numbers compare:
    /// never when either is a NaN, and a zero never exceeds a zero.
    pub fn exceeds(self, other: Score) -> (r: bool)
        ensures
            r == self.greater(other),
    {
        if self.is_nan() || other.is_nan() {
            return false;
        }
        let a: u32 = self.bits & MAGNITUDE;
        let b: u32 = other.bits & MAGNITUDE;
        if self.bits & SIGN == 0 {
            if other.bits & SIGN == 0 {
                a > b
            } else {
                a > 0 || b > 0
            }
        } else {
            if other.bits & SIGN == 0 {
                false
            } else {
                a < b
            }
        }
    }

    /// Whether the score is finite and strictly greater than `held`.
    pub fn improves_on(self, held: Score) -> (r: bool)
        ensures
            r == self.betters(held),
    {
        self.is_finite() && self.exceeds(held)
    }

    /// Negative infinity, the score below every number.
    pub fn neg_infinity() -> (s: Score)
        ensures
            s == Score::spec_neg_infinity(),
    {
        Score { bits: 0xFF80_0000 }
    }

    /// The lowest finite score.
    pub fn lowest() -> (s: Score)
        ensures
            s == Score::spec_lowest(),
    {
        Score { bits: 0xFF7F_FFFF }
    }
}

/// Two scores that stand at the same place of the total order are the same
/// score.
pub proof fn lemma_rank_is_injective(a: Score, b: Score)
    requires
        a.rank() == b.rank(),
    ensures
        a == b,
{
    let x = a.bits;
    let y = b.bits;
    assert((if x & 0x8000_0000u32 == 0 {
        x | 0x8000_0000u32
    } else {
        !x
    }) == (if y & 0x8000_0000u32 == 0 {
        y | 0x8000_0000u32
    } else {
        !y
    }) ==> x == y) by (bit_vector);
}

/// The lowest finite score is finite.
pub proof fn lemma_lowest_is_finite()
    ensures
        Score::spec_lowest().finite(),
{
    assert(0xFF7F_FFFFu32 & 0x7F80_0000u32 != 0x7F80_0000u32) by (bit_vector);
}

/// A finite score that is not strictly greater than the lowest finite score
/// is the lowest finite score.
pub proof fn lemma_not_above_lowest(s: Score)
    requires
        s.finite(),
        !s.greater(Score::spec_lowest()),
    ensures
        s == Score::spec_lowest(),
{
    let x = s.bits;
    assert(0xFF7F_FFFFu32 & 0x8000_0000u32 != 0 && 0xFF7F_FFFFu32 & 0x7FFF_FFFFu32
        == 0x7F7F_FFFFu32) by (bit_vector);
    assert(x & 0x7F80_0000u32 != 0x7F80_0000u32 ==> (x & 0x7FFF_FFFFu32) <= 0x7F7F_FFFFu32)
        by (bit_vector);
    assert(x & 0x8000_0000u32 != 0 && (x & 0x7FFF_FFFFu32) == 0x7F7F_FFFFu32 ==> x
        == 0xFF7F_FFFFu32) by (bit_vector);
}

/// Every finite score stands above negative infinity in the total order.
pub proof fn lemma_finite_above_neg_infinity(s: Score)
    requires
        s.finite(),
    ensures
        s.rank() > Score::spec_neg_infinity().rank(),
{
    lemma_nothing_below_neg_infinity(s);
    lemma_greater_raises_rank(s, Score::spec_neg_infinity());
}

/// A score that is strictly greater as a number stands strictly higher in the
/// total order.
pub proof fn lemma_greater_raises_rank(a: Score, b: Score)
    requires
        a.greater(b),
    ensures
        a.rank() > b.rank(),
{
    let x = a.bits;
    let y = b.bits;
    assert(x & 0x8000_0000u32 == 0 && y & 0x8000_0000u32 == 0 && (x & 0x7FFF_FFFFu32) > (y
        & 0x7FFF_FFFFu32) ==> (x | 0x8000_0000u32) > (y | 0x8000_0000u32)) by (bit_vector);
    assert(x & 0x8000_0000u32 == 0 && y & 0x8000_0000u32 != 0 ==> (x | 0x8000_0000u32) > !y)
        by (bit_vector);
    assert(x & 0x8000_0000u32 != 0 && y & 0x8000_0000u32 != 0 && (x & 0x7FFF_FFFFu32) < (y
        & 0x7FFF_FFFFu32) ==> !x > !y) by (bit_vector);
}

/// Negative infinity is strictly greater than nothing, and every finite
/// score is strictly greater than negative infinity.
pub proof fn lemma_nothing_below_neg_infinity(s: Score)
    ensures
        !Score::spec_neg_infinity().greater(s),
        s.finite() ==> s.greater(Score::spec_neg_infinity()),
{
    let x = s.bits;
    assert(0xFF80_0000u32 & 0x8000_0000u32 != 0 && 0xFF80_0000u32 & 0x7FFF_FFFFu32
        == 0x7F80_0000u32) by (bit_vector);
    assert(x & 0x7F80_0000u32 != 0x7F80_0000u32 ==> (x & 0x7FFF_FFFFu32) < 0x7F80_0000u32)
        by (bit_vector);
}

} // verus!
