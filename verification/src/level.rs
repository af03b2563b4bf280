//! Measured levels, carried as IEEE-754 binary64 bit patterns.
//!
//! The detectors only ever order levels and pass them on, so a level is kept
//! as the 64 bits of its binary64 encoding and compared with integer
//! arithmetic on sign and magnitude.

use vstd::prelude::*;

verus! {

/// The sign bit of a binary64 encoding.
pub const SIGN_BIT: u64 = 0x8000_0000_0000_0000;

/// The encoding of positive infinity; every larger magnitude is a NaN.
pub const INFINITY_BITS: u64 = 0x7FF0_0000_0000_0000;

/// The encoding of negative infinity, the value of an unmeasurable level and
/// the padding sentinel of level maps.
pub const NEG_INFINITY_BITS: u64 = 0xFFF0_0000_0000_0000;

/// A level in decibel-like units (LUFS, dB), as binary64 bits.
#[derive(Clone, Copy, Debug, PartialEq, Eq, Structural)]
pub struct Level {
    pub bits: u64,
}

impl Level {
    /// The encoding without its sign bit.
    pub open spec fn magnitude(self) -> int {
        if self.bits >= SIGN_BIT {
            self.bits - SIGN_BIT
        } else {
            self.bits as int
        }
    }

    /// Whether the sign bit is set.
    pub open spec fn is_negative(self) -> bool {
        self.bits >= SIGN_BIT
    }

    /// Whether the encoding is a NaN: exponent all ones, fraction not zero.
    pub open spec fn spec_is_nan(self) -> bool {
        self.magnitude() > INFINITY_BITS
    }

    /// An integer that orders the numbers as their values do. Both zeros map
    /// to 0, positive numbers to their magnitude and negative ones to its
    /// negation.
    pub open spec fn key(self) -> int {
        if self.is_negative() {
            -self.magnitude()
        } else {
            self.magnitude()
        }
    }

    /// The binary64 comparison `self < other`: false when either is a NaN.
    pub open spec fn spec_lt(self, other: Level) -> bool {
        !self.spec_is_nan() && !other.spec_is_nan() && self.key() < other.key()
    }

    /// Whether this is the negative-infinity sentinel.
    pub open spec fn spec_is_sentinel(self) -> bool {
        self.bits == NEG_INFINITY_BITS
    }

    /// The level that takes the place of an unmeasurable one.
    pub open spec fn spec_or_unmeasurable(self) -> Level {
        if self.spec_is_nan() {
            Level { bits: NEG_INFINITY_BITS }
        } else {
            self
        }
    }

    pub fn from_bits(bits: u64) -> (r: Level)
        ensures
            r.bits == bits,
    {
        Level { bits }
    }

    pub fn to_bits(&self) -> (r: u64)
        ensures
            r == self.bits,
    {
        self.bits
    }

    /// Negative infinity: below every number, the level of digital silence.
    pub fn neg_infinity() -> (r: Level)
        ensures
            r.bits == NEG_INFINITY_BITS,
            !r.spec_is_nan(),
            forall|x: Level| !x.spec_lt(r),
    {
        Level { bits: NEG_INFINITY_BITS }
    }

    /// Positive zero.
    pub fn zero() -> (r: Level)
        ensures
            r.bits == 0,
            r.key() == 0,
            !r.spec_is_nan(),
    {
        Level { bits: 0 }
    }

    pub fn is_nan(&self) -> (r: bool)
        ensures
            r == self.spec_is_nan(),
    {
        if self.bits >= SIGN_BIT {
            self.bits - SIGN_BIT > INFINITY_BITS
        } else {
            self.bits > INFINITY_BITS
        }
    }

    pub fn is_sentinel(&self) -> (r: bool)
        ensures
            r == self.spec_is_sentinel(),
    {
        self.bits == NEG_INFINITY_BITS
    }

    /// `self < other` as binary64 numbers.
    pub fn lt(&self, other: &Level) -> (r: bool)
        ensures
            r == self.spec_lt(*other),
    {
        if self.is_nan() || other.is_nan() {
            return false;
        }
        let a_neg = self.bits >= SIGN_BIT;
        let b_neg = other.bits >= SIGN_BIT;
        if a_neg {
            let a_mag: u64 = self.bits - SIGN_BIT;
            if b_neg {
                let b_mag: u64 = other.bits - SIGN_BIT;
                a_mag > b_mag
            } else {
                a_mag > 0 || other.bits > 0
            }
        } else {
            if b_neg {
                false
            } else {
                self.bits < other.bits
            }
        }
    }

    /// Replaces a NaN by negative infinity; any number is returned unchanged.
    pub fn or_unmeasurable(self) -> (r: Level)
        ensures
            r == self.spec_or_unmeasurable(),
            !r.spec_is_nan(),
    {
        if self.is_nan() {
            Level { bits: NEG_INFINITY_BITS }
        } else {
            self
        }
    }
}

/// Among numbers, `<` is a strict total order up to the two zeros: it is
/// irreflexive and transitive, and of two numbers with different keys one is
/// below the other.
pub proof fn lemma_lt_orders_numbers(a: Level, b: Level, c: Level)
    requires
        !a.spec_is_nan(),
        !b.spec_is_nan(),
        !c.spec_is_nan(),
    ensures
        !a.spec_lt(a),
        a.spec_lt(b) && b.spec_lt(c) ==> a.spec_lt(c),
        a.spec_lt(b) ==> !b.spec_lt(a),
        a.key() != b.key() ==> a.spec_lt(b) || b.spec_lt(a),
{
}

} // verus!
