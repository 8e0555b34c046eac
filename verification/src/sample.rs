//! Binary64 samples as bit patterns.
//!
//! A pattern is a sign bit, eleven exponent bits and fifty-two fraction bits.
//! Read as an unsigned integer with the sign bit taken off, the patterns of
//! the non-negative numbers rise with the numbers they stand for, positive
//! infinity comes directly after the largest finite number, and every
//! pattern above it is a NaN.

use vstd::prelude::*;

verus! {

/// The pattern with only the sign bit set; also the pattern of negative zero.
pub const SIGN: u64 = 0x8000_0000_0000_0000;

/// The pattern of positive infinity.
pub const INFINITY: u64 = 0x7ff0_0000_0000_0000;

/// The pattern of positive zero.
pub const ZERO: u64 = 0;

/// The pattern of the number one.
pub const ONE: u64 = 0x3ff0_0000_0000_0000;

/// The pattern with its sign bit taken off.
pub open spec fn magnitude(bits: u64) -> int {
    if bits < SIGN {
        bits as int
    } else {
        bits - SIGN
    }
}

/// The sign bit is set.
pub open spec fn sign_set(bits: u64) -> bool {
    bits >= SIGN
}

/// The pattern stands for a number that is neither infinite nor a NaN.
pub open spec fn finite(bits: u64) -> bool {
    magnitude(bits) < INFINITY
}

/// The pattern stands for zero, of either sign.
pub open spec fn zero(bits: u64) -> bool {
    magnitude(bits) == 0
}

/// The pattern stands for a number greater than zero (infinity included).
pub open spec fn above_zero(bits: u64) -> bool {
    0 < bits <= INFINITY
}

/// The pattern stands for a number less than zero (infinity included).
pub open spec fn below_zero(bits: u64) -> bool {
    SIGN < bits <= SIGN + INFINITY
}

/// The place of a pattern in the total order of binary64: negative patterns
/// come before positive ones, and among negative patterns a larger magnitude
/// comes first. Two patterns have the same rank only if they are the same
/// pattern.
pub open spec fn rank(bits: u64) -> int {
    if sign_set(bits) {
        -magnitude(bits) - 1
    } else {
        magnitude(bits)
    }
}

/// Whether `bits` is finite.
pub fn is_finite(bits: u64) -> (r: bool)
    ensures
        r == finite(bits),
{
    if bits < SIGN {
        bits < INFINITY
    } else {
        bits - SIGN < INFINITY
    }
}

/// Whether `bits` is a zero of either sign.
pub fn is_zero(bits: u64) -> (r: bool)
    ensures
        r == zero(bits),
{
    bits == ZERO || bits == SIGN
}

/// Whether `bits` is greater than zero.
pub fn is_above_zero(bits: u64) -> (r: bool)
    ensures
        r == above_zero(bits),
{
    0 < bits && bits <= INFINITY
}

/// Whether `bits` is less than zero.
pub fn is_below_zero(bits: u64) -> (r: bool)
    ensures
        r == below_zero(bits),
{
    SIGN < bits && bits - SIGN <= INFINITY
}

/// Whether `a` comes no later than `b` in the total order.
pub fn precedes(a: u64, b: u64) -> (r: bool)
    ensures
        r == (rank(a) <= rank(b)),
{
    if a < SIGN {
        b < SIGN && a <= b
    } else {
        b < SIGN || b <= a
    }
}

} // verus!
