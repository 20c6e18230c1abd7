//! Floating-point values by their bits.
//!
//! The library never computes with floating-point numbers: it carries them,
//! and it compares them. A value is held as its IEEE 754 bit pattern, and the
//! comparisons here are those of the standard: a NaN is neither below, above
//! nor equal to anything, and the two zeros are equal.

use vstd::prelude::*;

verus! {

/// A single-precision value.
#[derive(Debug, Clone, Copy, PartialEq, Eq, Structural)]
pub struct Real32 {
    pub bits: u32,
}

/// A double-precision value.
#[derive(Debug, Clone, Copy, PartialEq, Eq, Structural)]
pub struct Real64 {
    pub bits: u64,
}

/// Bits of positive infinity, single precision.
pub const INFINITY_32: u32 = 0x7f80_0000;

/// Bits of negative infinity, single precision.
pub const NEG_INFINITY_32: u32 = 0xff80_0000;

/// Bits of `2^-23`, the spacing of single-precision values just above one.
pub const EPSILON_32: u32 = 0x3400_0000;

/// Bits of one, single precision.
pub const ONE_32: u32 = 0x3f80_0000;

/// Bits of positive infinity, double precision.
pub const INFINITY_64: u64 = 0x7ff0_0000_0000_0000;

/// Bits of negative infinity, double precision.
pub const NEG_INFINITY_64: u64 = 0xfff0_0000_0000_0000;

impl Real32 {
    /// The place of this value on the number line: values that are not NaN are
    /// ordered as these integers are, and both zeros stand at 0.
    pub open spec fn place(self) -> int {
        if self.bits < 0x8000_0000 {
            self.bits as int
        } else {
            0x8000_0000 - self.bits
        }
    }

    pub open spec fn nan(self) -> bool {
        self.place() > INFINITY_32 || self.place() < -INFINITY_32
    }

    pub open spec fn less(self, other: Real32) -> bool {
        !self.nan() && !other.nan() && self.place() < other.place()
    }

    pub open spec fn at_most(self, other: Real32) -> bool {
        !self.nan() && !other.nan() && self.place() <= other.place()
    }

    pub open spec fn finite(self) -> bool {
        -INFINITY_32 < self.place() < INFINITY_32
    }

    pub fn new(bits: u32) -> (r: Real32)
        ensures
            r.bits == bits,
    {
        Real32 { bits }
    }

    fn place_of(self) -> (r: i64)
        ensures
            r == self.place(),
    {
        if self.bits < 0x8000_0000 {
            self.bits as i64
        } else {
            0x8000_0000 - self.bits as i64
        }
    }

    /// Whether this value is not a number.
    pub fn is_nan(self) -> (r: bool)
        ensures
            r == self.nan(),
    {
        let p: i64 = self.place_of();
        p > INFINITY_32 as i64 || p < -(INFINITY_32 as i64)
    }

    /// `self < other`.
    pub fn lt(self, other: Real32) -> (r: bool)
        ensures
            r == self.less(other),
    {
        !self.is_nan() && !other.is_nan() && self.place_of() < other.place_of()
    }

    /// `self <= other`.
    pub fn le(self, other: Real32) -> (r: bool)
        ensures
            r == self.at_most(other),
    {
        !self.is_nan() && !other.is_nan() && self.place_of() <= other.place_of()
    }

    /// This value without its sign.
    pub open spec fn magnitude(self) -> Real32 {
        if self.bits < 0x8000_0000 {
            self
        } else {
            Real32 { bits: (self.bits - 0x8000_0000) as u32 }
        }
    }

    /// This value without its sign.
    pub fn abs(self) -> (r: Real32)
        ensures
            r == self.magnitude(),
    {
        if self.bits < 0x8000_0000 {
            self
        } else {
            Real32 { bits: self.bits - 0x8000_0000 }
        }
    }

    /// Whether this value is neither infinite nor NaN.
    pub fn is_finite(self) -> (r: bool)
        ensures
            r == self.finite(),
    {
        let p: i64 = self.place_of();
        -(INFINITY_32 as i64) < p && p < INFINITY_32 as i64
    }
}

impl Real64 {
    /// The place of this value on the number line: values that are not NaN are
    /// ordered as these integers are, and both zeros stand at 0.
    pub open spec fn place(self) -> int {
        if self.bits < 0x8000_0000_0000_0000 {
            self.bits as int
        } else {
            0x8000_0000_0000_0000 - self.bits
        }
    }

    pub open spec fn nan(self) -> bool {
        self.place() > INFINITY_64 || self.place() < -INFINITY_64
    }

    pub open spec fn less(self, other: Real64) -> bool {
        !self.nan() && !other.nan() && self.place() < other.place()
    }

    pub open spec fn at_most(self, other: Real64) -> bool {
        !self.nan() && !other.nan() && self.place() <= other.place()
    }

    pub fn new(bits: u64) -> (r: Real64)
        ensures
            r.bits == bits,
    {
        Real64 { bits }
    }

    fn place_of(self) -> (r: i128)
        ensures
            r == self.place(),
    {
        if self.bits < 0x8000_0000_0000_0000 {
            self.bits as i128
        } else {
            0x8000_0000_0000_0000 - self.bits as i128
        }
    }

    /// Whether this value is not a number.
    pub fn is_nan(self) -> (r: bool)
        ensures
            r == self.nan(),
    {
        let p: i128 = self.place_of();
        p > INFINITY_64 as i128 || p < -(INFINITY_64 as i128)
    }

    /// `self < other`.
    pub fn lt(self, other: Real64) -> (r: bool)
        ensures
            r == self.less(other),
    {
        !self.is_nan() && !other.is_nan() && self.place_of() < other.place_of()
    }

    /// `self <= other`.
    pub fn le(self, other: Real64) -> (r: bool)
        ensures
            r == self.at_most(other),
    {
        !self.is_nan() && !other.is_nan() && self.place_of() <= other.place_of()
    }

    /// The place of this value in the total order of all bit patterns: the
    /// numbers as they are, negative zero just below zero, and the NaNs beyond
    /// the infinities of their sign.
    pub open spec fn total_place(self) -> int {
        if self.bits < 0x8000_0000_0000_0000 {
            self.bits as int
        } else {
            0x8000_0000_0000_0000 - 1 - self.bits
        }
    }

    /// Whether this value comes after `other` in the total order.
    pub fn total_gt(self, other: Real64) -> (r: bool)
        ensures
            r == (self.total_place() > other.total_place()),
    {
        let a: i128 = if self.bits < 0x8000_0000_0000_0000 {
            self.bits as i128
        } else {
            0x7fff_ffff_ffff_ffff - self.bits as i128
        };
        let b: i128 = if other.bits < 0x8000_0000_0000_0000 {
            other.bits as i128
        } else {
            0x7fff_ffff_ffff_ffff - other.bits as i128
        };
        a > b
    }
}

/// For numbers, the total order refines the usual one.
pub proof fn law_total_order_refines(a: Real64, b: Real64)
    requires
        a.less(b),
    ensures
        a.total_place() < b.total_place(),
{
}

/// The comparison of numbers is a strict weak order: nothing is below itself,
/// and below is transitive.
pub proof fn law_less_is_strict(a: Real64, b: Real64, c: Real64)
    ensures
        !a.less(a),
        a.less(b) && b.less(c) ==> a.less(c),
        !a.nan() && !b.nan() ==> (a.less(b) || b.at_most(a)),
{
}

} // verus!
