//! Floating-point numbers as bits: how they compare.

use vstd::prelude::*;

use crate::ieee::{Real32, Real64};

verus! {

/// Not a number is what has all exponent bits and a fraction, whatever its sign;
/// finite is what lacks one of the exponent bits.
pub proof fn law_kinds_of_singles(a: Real32)
    ensures
        a.nan() <==> a.bits % 0x8000_0000 > 0x7f80_0000,
        a.finite() <==> a.bits % 0x8000_0000 < 0x7f80_0000,
        a.magnitude().bits == a.bits % 0x8000_0000,
{
}

/// Numbers of one sign compare by their bits: positive ones with them, negative
/// ones against them. A negative one is less than a positive one, unless both are
/// zero; and what is not a number compares with nothing.
pub proof fn law_singles_compare_by_bits(a: Real32, b: Real32)
    ensures
        a.nan() || b.nan() ==> !a.less(b) && !a.at_most(b),
        !a.nan() && !b.nan() && a.bits < 0x8000_0000 && b.bits < 0x8000_0000 ==> (a.less(b)
            <==> a.bits < b.bits),
        !a.nan() && !b.nan() && a.bits >= 0x8000_0000 && b.bits >= 0x8000_0000 ==> (a.less(b)
            <==> a.bits > b.bits),
        !a.nan() && !b.nan() && a.bits >= 0x8000_0000 && b.bits < 0x8000_0000 ==> (a.less(b)
            <==> !(a.bits == 0x8000_0000 && b.bits == 0)),
        !a.nan() && !b.nan() && a.bits < 0x8000_0000 && b.bits >= 0x8000_0000 ==> !a.less(b),
        !a.nan() && !b.nan() ==> (a.at_most(b) <==> !b.less(a)),
{
}

/// As for single numbers: not a number, and finite.
pub proof fn law_kinds_of_doubles(a: Real64)
    ensures
        a.nan() <==> a.bits % 0x8000_0000_0000_0000 > 0x7ff0_0000_0000_0000,
{
}

/// As for single numbers: doubles compare by their bits.
pub proof fn law_doubles_compare_by_bits(a: Real64, b: Real64)
    ensures
        a.nan() || b.nan() ==> !a.less(b) && !a.at_most(b),
        !a.nan() && !b.nan() && a.bits < 0x8000_0000_0000_0000 && b.bits < 0x8000_0000_0000_0000
            ==> (a.less(b) <==> a.bits < b.bits),
        !a.nan() && !b.nan() && a.bits >= 0x8000_0000_0000_0000 && b.bits >= 0x8000_0000_0000_0000
            ==> (a.less(b) <==> a.bits > b.bits),
        !a.nan() && !b.nan() && a.bits >= 0x8000_0000_0000_0000 && b.bits < 0x8000_0000_0000_0000
            ==> (a.less(b) <==> !(a.bits == 0x8000_0000_0000_0000 && b.bits == 0)),
        !a.nan() && !b.nan() && a.bits < 0x8000_0000_0000_0000 && b.bits >= 0x8000_0000_0000_0000
            ==> !a.less(b),
        !a.nan() && !b.nan() ==> (a.at_most(b) <==> !b.less(a)),
{
}

/// The total order tells any two numbers apart that differ in a bit: it follows
/// the bits of positive ones, runs against those of negative ones, and puts every
/// negative one before every positive one.
pub proof fn law_total_order(a: Real64, b: Real64)
    ensures
        a.total_place() == b.total_place() <==> a.bits == b.bits,
        a.bits < 0x8000_0000_0000_0000 && b.bits < 0x8000_0000_0000_0000 ==> (a.total_place()
            < b.total_place() <==> a.bits < b.bits),
        a.bits >= 0x8000_0000_0000_0000 && b.bits >= 0x8000_0000_0000_0000 ==> (a.total_place()
            < b.total_place() <==> a.bits > b.bits),
        a.bits >= 0x8000_0000_0000_0000 && b.bits < 0x8000_0000_0000_0000 ==> a.total_place()
            < b.total_place(),
{
}

} // verus!
