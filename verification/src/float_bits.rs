//! Real-valued parameters, held as IEEE-754 binary64 bit patterns.
//!
//! Angles and other real parameters travel through the graph untouched except
//! for two operations: negation and the comparison of a magnitude against the
//! elision threshold.  Both are exact on the bit pattern, so the library keeps
//! the pattern (what `f64::to_bits` gives) and never computes in floating
//! point.

use vstd::prelude::*;

verus! {

/// The sign bit of a binary64 pattern.
pub const SIGN_BIT: u64 = 0x8000_0000_0000_0000;

/// The pattern of positive infinity.  A larger magnitude is a NaN.
pub const INFINITY_BITS: u64 = 0x7ff0_0000_0000_0000;

/// The pattern of `1e-10`, the magnitude up to which a rotation is dropped.
pub const EPSILON_BITS: u64 = 0x3ddb_7cdf_d9d7_bdbb;

/// A binary64 value, identified by its bit pattern.
#[derive(Clone, Copy, Debug, PartialEq, Eq, Structural)]
pub struct FloatBits {
    pub bits: u64,
}

impl FloatBits {
    /// The pattern with the sign bit cleared: the pattern of the absolute
    /// value.  On non-NaN values the order of magnitudes as integers is the
    /// order of the absolute values as reals.
    pub open spec fn magnitude(self) -> u64 {
        if self.bits >= SIGN_BIT {
            (self.bits - SIGN_BIT) as u64
        } else {
            self.bits
        }
    }

    /// Whether the pattern encodes a NaN.
    pub open spec fn is_nan(self) -> bool {
        self.magnitude() > INFINITY_BITS
    }

    /// Whether the absolute value is strictly greater than `1e-10`.  As in
    /// IEEE-754 comparison, this is false of every NaN and true of both
    /// infinities.
    pub open spec fn exceeds_epsilon(self) -> bool {
        EPSILON_BITS < self.magnitude() <= INFINITY_BITS
    }

    /// The pattern with the sign bit flipped.
    pub open spec fn negated(self) -> FloatBits {
        if self.bits >= SIGN_BIT {
            FloatBits { bits: (self.bits - SIGN_BIT) as u64 }
        } else {
            FloatBits { bits: (self.bits + SIGN_BIT) as u64 }
        }
    }

    /// Wraps a bit pattern.
    pub fn from_bits(bits: u64) -> (r: FloatBits)
        ensures
            r.bits == bits,
    {
        FloatBits { bits }
    }

    /// The bit pattern.
    pub fn to_bits(self) -> (bits: u64)
        ensures
            bits == self.bits,
    {
        self.bits
    }

    /// The absolute value's pattern.
    pub fn abs_bits(self) -> (m: u64)
        ensures
            m == self.magnitude(),
            m < SIGN_BIT,
    {
        if self.bits >= SIGN_BIT {
            self.bits - SIGN_BIT
        } else {
            self.bits
        }
    }

    /// Flips the sign, as unary minus does on a binary64, NaNs included.
    pub fn neg(self) -> (r: FloatBits)
        ensures
            r == self.negated(),
    {
        if self.bits >= SIGN_BIT {
            FloatBits { bits: self.bits - SIGN_BIT }
        } else {
            FloatBits { bits: self.bits + SIGN_BIT }
        }
    }

    /// Tests `|x| > 1e-10`.
    pub fn abs_exceeds_epsilon(self) -> (b: bool)
        ensures
            b == self.exceeds_epsilon(),
    {
        let m: u64 = self.abs_bits();
        EPSILON_BITS < m && m <= INFINITY_BITS
    }
}

/// Negation changes the sign only: it is its own inverse and keeps the
/// magnitude, hence also the outcome of the threshold test.
pub proof fn lemma_negation_keeps_magnitude(x: FloatBits)
    ensures
        x.negated().negated() == x,
        x.negated().magnitude() == x.magnitude(),
        x.negated().exceeds_epsilon() == x.exceeds_epsilon(),
        x.negated().is_nan() == x.is_nan(),
{
}

} // verus!
