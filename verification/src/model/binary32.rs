//! Sensor values as IEEE 754 single-precision encodings.
//!
//! A value is carried as the 32 bits of its binary32 encoding and compared by
//! integer arithmetic on those bits. For encodings that are not NaN, the sign
//! and magnitude of the bit pattern order exactly as the encoded numbers do,
//! with both zeros in the same place; a NaN is neither below nor above
//! anything, itself included.
use vstd::prelude::*;

verus! {

/// The bit that holds the sign.
pub const SIGN_BIT: u32 = 0x8000_0000;

/// The magnitude of both infinities; every larger magnitude is a NaN.
pub const INFINITY_MAGNITUDE: u32 = 0x7f80_0000;

/// The encoding of 0.
pub const ZERO: u32 = 0x0000_0000;

/// The encoding of 1.
pub const ONE: u32 = 0x3f80_0000;

/// The encoding of 5.
pub const FIVE: u32 = 0x40a0_0000;

/// The encoding of 9.
pub const NINE: u32 = 0x4110_0000;

/// The encoding of 10.
pub const TEN: u32 = 0x4120_0000;

/// The encoding of 20.
pub const TWENTY: u32 = 0x41a0_0000;

/// The encoding of 30.
pub const THIRTY: u32 = 0x41f0_0000;

/// The encoding of 40.
pub const FORTY: u32 = 0x4220_0000;

/// The encoding of 80.
pub const EIGHTY: u32 = 0x42a0_0000;

/// The encoding of 90.
pub const NINETY: u32 = 0x42b4_0000;

/// The encoding of 100.
pub const HUNDRED: u32 = 0x42c8_0000;

/// A single-precision number, held as its encoding.
#[derive(Clone, Copy, Debug)]
pub struct Binary32 {
    pub bits: u32,
}

impl Binary32 {
    /// The encoding without its sign bit.
    pub open spec fn magnitude(self) -> int {
        if self.bits >= SIGN_BIT {
            self.bits - SIGN_BIT
        } else {
            self.bits as int
        }
    }

    /// Whether the encoding is a NaN.
    pub open spec fn is_nan(self) -> bool {
        self.magnitude() > INFINITY_MAGNITUDE
    }

    /// The place of the number on the line of all numbers that are not NaN:
    /// the magnitude, negated where the sign bit is set.
    pub open spec fn rank(self) -> int {
        if self.bits >= SIGN_BIT {
            -self.magnitude()
        } else {
            self.magnitude()
        }
    }

    /// `self < other` as IEEE 754 defines it.
    pub open spec fn below(self, other: Binary32) -> bool {
        !self.is_nan() && !other.is_nan() && self.rank() < other.rank()
    }

    /// `self == other` as IEEE 754 defines it.
    pub open spec fn same_number(self, other: Binary32) -> bool {
        !self.is_nan() && !other.is_nan() && self.rank() == other.rank()
    }

    /// `self <= other` as IEEE 754 defines it.
    pub open spec fn at_most(self, other: Binary32) -> bool {
        self.below(other) || self.same_number(other)
    }

    /// The number with the given encoding.
    pub fn from_bits(bits: u32) -> (value: Binary32)
        ensures
            value.bits == bits,
    {
        Binary32 { bits }
    }

    /// The encoding of the number.
    pub fn to_bits(self) -> (bits: u32)
        ensures
            bits == self.bits,
    {
        self.bits
    }

    /// Whether the encoding is a NaN.
    pub fn nan(self) -> (yes: bool)
        ensures
            yes == self.is_nan(),
    {
        if self.bits >= SIGN_BIT {
            self.bits - SIGN_BIT > INFINITY_MAGNITUDE
        } else {
            self.bits > INFINITY_MAGNITUDE
        }
    }

    /// The rank as a machine integer.
    fn place(self) -> (rank: i64)
        ensures
            rank == self.rank(),
    {
        if self.bits >= SIGN_BIT {
            -((self.bits - SIGN_BIT) as i64)
        } else {
            self.bits as i64
        }
    }

    /// `self < other`.
    pub fn lt(self, other: Binary32) -> (yes: bool)
        ensures
            yes == self.below(other),
    {
        !self.nan() && !other.nan() && self.place() < other.place()
    }

    /// `self > other`.
    pub fn gt(self, other: Binary32) -> (yes: bool)
        ensures
            yes == other.below(self),
    {
        other.lt(self)
    }
}

/// Of two numbers at most one is below the other, and none is below itself.
pub proof fn law_below_is_strict(a: Binary32, b: Binary32)
    ensures
        !a.below(a),
        a.below(b) ==> !b.below(a),
{
}

/// Two numbers that are not NaN are equal, or one is below the other.
pub proof fn law_below_is_total(a: Binary32, b: Binary32)
    requires
        !a.is_nan(),
        !b.is_nan(),
    ensures
        a.below(b) || b.below(a) || a.same_number(b),
{
}

/// `below` is transitive.
pub proof fn law_below_is_transitive(a: Binary32, b: Binary32, c: Binary32)
    requires
        a.below(b),
        b.below(c),
    ensures
        a.below(c),
{
}

} // verus!
