use vstd::prelude::*;

verus! {

/// The sign bit of a binary64 encoding.
pub const SIGN_BIT: u64 = 0x8000_0000_0000_0000;

/// Position of `-f64::MAX`, the least finite quantity.
pub const LEAST_FINITE: u64 = 0x0010_0000_0000_0000;

/// Position of `f64::MAX`, the greatest finite quantity.
pub const GREATEST_FINITE: u64 = 0xFFEF_FFFF_FFFF_FFFF;

/// Position of negative infinity, below every other quantity but negative not-a-number values.
pub const NEG_INFINITY_POSITION: u64 = 0x000F_FFFF_FFFF_FFFF;

/// Position of positive infinity, above every other quantity but positive not-a-number values.
pub const INFINITY_POSITION: u64 = 0xFFF0_0000_0000_0000;

/// Position of `0.0` (and of `-0.0`).
pub const ZERO_POSITION: u64 = 0x8000_0000_0000_0000;

/// Position of `1.0`.
pub const ONE_POSITION: u64 = 0xBFF0_0000_0000_0000;

/// The place of a binary64 bit pattern in the order of the quantities it denotes.
///
/// Non-negative patterns keep their bits with the sign bit set; negative patterns
/// are complemented; the negative zero is placed with the positive one.
pub open spec fn position_of_bits(bits: u64) -> u64 {
    if bits == SIGN_BIT {
        ZERO_POSITION
    } else if bits < SIGN_BIT {
        (bits + SIGN_BIT) as u64
    } else {
        (u64::MAX - bits) as u64
    }
}

/// A measured quantity, known by its place in the order of the values it can take.
///
/// Two finite quantities compare as their positions do; infinities and
/// not-a-number values fall outside `[LEAST_FINITE, GREATEST_FINITE]`.
#[derive(Clone, Copy, PartialEq, Eq, Structural, Debug)]
pub struct Level {
    pub position: u64,
}

impl Level {
    /// The level of the binary64 quantity whose bit pattern is `bits`
    /// (as `f64::to_bits` gives it).
    pub fn from_bits(bits: u64) -> (l: Level)
        ensures
            l.position == position_of_bits(bits),
    {
        if bits == SIGN_BIT {
            Level { position: ZERO_POSITION }
        } else if bits < SIGN_BIT {
            Level { position: bits + SIGN_BIT }
        } else {
            Level { position: u64::MAX - bits }
        }
    }

    /// The level of `0.0`.
    pub fn zero() -> (l: Level)
        ensures
            l.position == ZERO_POSITION,
    {
        Level { position: ZERO_POSITION }
    }

    /// The level of `1.0`.
    pub fn one() -> (l: Level)
        ensures
            l.position == ONE_POSITION,
    {
        Level { position: ONE_POSITION }
    }

    /// Whether the quantity is not a number.
    pub open spec fn spec_is_nan(self) -> bool {
        self.position < NEG_INFINITY_POSITION || self.position > INFINITY_POSITION
    }

    /// Whether the quantity is not a number.
    #[verifier::when_used_as_spec(spec_is_nan)]
    pub fn is_nan(self) -> (b: bool)
        ensures
            b == self.spec_is_nan(),
    {
        self.position < NEG_INFINITY_POSITION || self.position > INFINITY_POSITION
    }

    /// Whether the quantity is finite.
    pub open spec fn spec_is_finite(self) -> bool {
        LEAST_FINITE <= self.position <= GREATEST_FINITE
    }

    /// Whether the quantity is finite.
    #[verifier::when_used_as_spec(spec_is_finite)]
    pub fn is_finite(self) -> (b: bool)
        ensures
            b == self.spec_is_finite(),
    {
        LEAST_FINITE <= self.position && self.position <= GREATEST_FINITE
    }
}

/// The positions of zero and one are those of their bit patterns.
pub proof fn lemma_constant_positions()
    ensures
        position_of_bits(0) == ZERO_POSITION,
        position_of_bits(SIGN_BIT) == ZERO_POSITION,
        position_of_bits(0x3FF0_0000_0000_0000) == ONE_POSITION,
        position_of_bits(0x7FEF_FFFF_FFFF_FFFF) == GREATEST_FINITE,
        position_of_bits(0xFFEF_FFFF_FFFF_FFFF) == LEAST_FINITE,
        position_of_bits(0x7FF0_0000_0000_0000) == INFINITY_POSITION,
        position_of_bits(0xFFF0_0000_0000_0000) == NEG_INFINITY_POSITION,
{
}

/// Different bit patterns have different positions, but for the two zeros; the
/// negative patterns lie below zero and the positive ones above.
pub proof fn lemma_positions(a: u64, b: u64)
    ensures
        a != b && !(a == 0 && b == SIGN_BIT) && !(a == SIGN_BIT && b == 0) ==> position_of_bits(a)
            != position_of_bits(b),
        a > SIGN_BIT ==> position_of_bits(a) < ZERO_POSITION,
        0 < a < SIGN_BIT ==> position_of_bits(a) > ZERO_POSITION,
{
}

} // verus!
