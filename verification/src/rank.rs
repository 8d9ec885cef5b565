//! How reals are numbered.
//!
//! The rank of a real is the bit pattern of its IEEE-754 double, read as a
//! signed integer, with the low 63 bits flipped where the sign bit is set. The
//! caller ranks both zeros as 0. Ranks then stand in the order of the reals
//! they number: zero has rank 0, the positive reals have the positive ranks up
//! to that of infinity, and the negative reals have the ranks from -2 down to
//! that of negative infinity. What lies beyond the two infinities numbers no
//! real: those are the patterns that are not a number.
use vstd::prelude::*;

verus! {

/// The rank of zero.
pub const ZERO: i64 = 0;

/// The rank of one.
pub const ONE: i64 = 0x3ff0_0000_0000_0000;

/// The rank of positive infinity.
pub const INFINITY: i64 = 0x7ff0_0000_0000_0000;

/// The rank of negative infinity.
pub const NEG_INFINITY: i64 = -0x7ff0_0000_0000_0001;

/// Whether the rank numbers a real, the infinities included.
pub open spec fn is_number(r: i64) -> bool {
    NEG_INFINITY <= r <= INFINITY
}

/// `a < b` as reals compare: false where either is not a number.
pub open spec fn less(a: i64, b: i64) -> bool {
    is_number(a) && is_number(b) && a < b
}

/// `a <= b` as reals compare: false where either is not a number.
pub open spec fn at_most(a: i64, b: i64) -> bool {
    is_number(a) && is_number(b) && a <= b
}

/// The smaller of two reals; where one is not a number, the other.
pub open spec fn min_of(a: i64, b: i64) -> i64 {
    if !is_number(a) {
        b
    } else if !is_number(b) {
        a
    } else if a <= b {
        a
    } else {
        b
    }
}

/// Whether the rank numbers a real.
pub fn number(r: i64) -> (yes: bool)
    ensures
        yes == is_number(r),
{
    NEG_INFINITY <= r && r <= INFINITY
}

/// `a < b` as reals compare.
pub fn lt(a: i64, b: i64) -> (yes: bool)
    ensures
        yes == less(a, b),
{
    number(a) && number(b) && a < b
}

/// `a <= b` as reals compare.
pub fn le(a: i64, b: i64) -> (yes: bool)
    ensures
        yes == at_most(a, b),
{
    number(a) && number(b) && a <= b
}

/// The smaller of two reals; where one is not a number, the other.
pub fn min(a: i64, b: i64) -> (least: i64)
    ensures
        least == min_of(a, b),
{
    if !number(a) {
        b
    } else if !number(b) {
        a
    } else if a <= b {
        a
    } else {
        b
    }
}

} // verus!
