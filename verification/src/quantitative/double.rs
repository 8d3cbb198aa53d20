//! Double-precision values as bit patterns.
//!
//! A `Double` holds the 64 bits of an IEEE 754 binary64 number: one sign bit,
//! eleven exponent bits, fifty-two fraction bits. Classification and
//! comparison are functions of those bits alone and are defined here on
//! integers. Nothing in this module rounds: sums, products and roots are the
//! caller's business.

use vstd::prelude::*;

verus! {

/// The sign bit of a double.
pub const SIGN_BIT: u64 = 0x8000_0000_0000_0000;

/// Bits of positive infinity; every larger magnitude is a NaN.
pub const INFINITY_BITS: u64 = 0x7FF0_0000_0000_0000;

/// Bits of `1.0`.
pub const ONE_BITS: u64 = 0x3FF0_0000_0000_0000;

/// An IEEE 754 double-precision number, held by its bit pattern.
///
/// `==` on this type compares bit patterns; [`Double::eq_value`] is numeric
/// equality, under which `-0.0` equals `0.0` and a NaN equals nothing.
#[derive(Clone, Copy, Debug, PartialEq, Eq, Structural)]
pub struct Double {
    pub bits: u64,
}

impl Double {
    /// Whether the sign bit is set.
    pub open spec fn sign_negative(self) -> bool {
        self.bits >= SIGN_BIT
    }

    /// The bit pattern with the sign bit cleared.
    pub open spec fn magnitude(self) -> int {
        if self.bits >= SIGN_BIT {
            self.bits - SIGN_BIT
        } else {
            self.bits as int
        }
    }

    /// Whether the value is a NaN: exponent all ones, fraction not zero.
    pub open spec fn nan(self) -> bool {
        self.magnitude() > INFINITY_BITS
    }

    /// Whether the value is positive or negative infinity.
    pub open spec fn infinite(self) -> bool {
        self.magnitude() == INFINITY_BITS
    }

    /// Whether the value is `0.0` or `-0.0`.
    pub open spec fn zero(self) -> bool {
        self.magnitude() == 0
    }

    /// Position of the value on the number line, as an integer: the
    /// magnitude bits, negated under a set sign bit. For values that are not
    /// NaN, a smaller number has a smaller rank, and both zeros have rank 0.
    pub open spec fn rank(self) -> int {
        if self.sign_negative() {
            -self.magnitude()
        } else {
            self.magnitude()
        }
    }

    /// Numeric `<`: false whenever either side is a NaN.
    pub open spec fn less(self, other: Double) -> bool {
        !self.nan() && !other.nan() && self.rank() < other.rank()
    }

    /// Numeric `<=`: false whenever either side is a NaN.
    pub open spec fn at_most(self, other: Double) -> bool {
        !self.nan() && !other.nan() && self.rank() <= other.rank()
    }

    /// Numeric `==`: false whenever either side is a NaN.
    pub open spec fn same(self, other: Double) -> bool {
        !self.nan() && !other.nan() && self.rank() == other.rank()
    }

    /// The value with its sign bit cleared.
    pub open spec fn absolute(self) -> Double {
        Double { bits: self.magnitude() as u64 }
    }

    /// Wraps a bit pattern.
    pub fn from_bits(bits: u64) -> (r: Double)
        ensures
            r.bits == bits,
    {
        Double { bits }
    }

    /// The bit pattern.
    pub fn to_bits(self) -> (r: u64)
        ensures
            r == self.bits,
    {
        self.bits
    }

    /// Positive zero.
    pub fn positive_zero() -> (r: Double)
        ensures
            r.bits == 0,
    {
        Double { bits: 0 }
    }

    /// `1.0`.
    pub fn one() -> (r: Double)
        ensures
            r.bits == ONE_BITS,
    {
        Double { bits: ONE_BITS }
    }

    /// Positive infinity.
    pub fn infinity() -> (r: Double)
        ensures
            r.bits == INFINITY_BITS,
    {
        Double { bits: INFINITY_BITS }
    }

    /// Negative infinity.
    pub fn neg_infinity() -> (r: Double)
        ensures
            r.bits == SIGN_BIT + INFINITY_BITS,
    {
        Double { bits: 0xFFF0_0000_0000_0000 }
    }

    /// The bit pattern with the sign bit cleared.
    pub fn magnitude_bits(self) -> (r: u64)
        ensures
            r == self.magnitude(),
    {
        if self.bits >= SIGN_BIT {
            self.bits - SIGN_BIT
        } else {
            self.bits
        }
    }

    /// Whether the sign bit is set.
    pub fn is_sign_negative(self) -> (r: bool)
        ensures
            r == self.sign_negative(),
    {
        self.bits >= SIGN_BIT
    }

    /// Whether the value is a NaN.
    pub fn is_nan(self) -> (r: bool)
        ensures
            r == self.nan(),
    {
        self.magnitude_bits() > INFINITY_BITS
    }

    /// Whether the value is positive or negative infinity.
    pub fn is_infinite(self) -> (r: bool)
        ensures
            r == self.infinite(),
    {
        self.magnitude_bits() == INFINITY_BITS
    }

    /// Whether the value is `0.0` or `-0.0`.
    pub fn is_zero(self) -> (r: bool)
        ensures
            r == self.zero(),
    {
        self.magnitude_bits() == 0
    }

    /// The rank as a machine integer.
    pub fn rank_key(self) -> (r: i64)
        ensures
            r == self.rank(),
    {
        let m: u64 = self.magnitude_bits();
        if self.bits >= SIGN_BIT {
            0 - (m as i64)
        } else {
            m as i64
        }
    }

    /// Numeric `<`.
    pub fn lt(self, other: Double) -> (r: bool)
        ensures
            r == self.less(other),
    {
        !self.is_nan() && !other.is_nan() && self.rank_key() < other.rank_key()
    }

    /// Numeric `<=`.
    pub fn le(self, other: Double) -> (r: bool)
        ensures
            r == self.at_most(other),
    {
        !self.is_nan() && !other.is_nan() && self.rank_key() <= other.rank_key()
    }

    /// Numeric `==`.
    pub fn eq_value(self, other: Double) -> (r: bool)
        ensures
            r == self.same(other),
    {
        !self.is_nan() && !other.is_nan() && self.rank_key() == other.rank_key()
    }

    /// The absolute value: the same bits with the sign cleared.
    pub fn abs(self) -> (r: Double)
        ensures
            r == self.absolute(),
            !r.sign_negative(),
            r.nan() == self.nan(),
            r.rank() == self.magnitude(),
    {
        Double { bits: self.magnitude_bits() }
    }
}

} // verus!
