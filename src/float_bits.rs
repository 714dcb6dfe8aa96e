//! Ordering of `f32` values given by their IEEE-754 bit patterns.

use vstd::prelude::*;

verus! {

/// Bit pattern of the sign bit.
pub const SIGN_BIT: u32 = 0x8000_0000;

/// Bit pattern of positive infinity: all exponent bits set, zero mantissa.
pub const POSITIVE_INFINITY: u32 = 0x7f80_0000;

/// The magnitude part of a bit pattern: everything but the sign bit.
pub open spec fn magnitude(a: u32) -> int {
    (a as int) % 0x8000_0000
}

/// A bit pattern is a NaN when its exponent bits are all set and its
/// mantissa is not zero.
pub open spec fn is_nan_bits(a: u32) -> bool {
    magnitude(a) > POSITIVE_INFINITY as int
}

/// A position on the number line that orders every non-NaN value as IEEE-754
/// does: negative values mirror their magnitude, and both zeros meet at 0.
pub open spec fn order_key(a: u32) -> int {
    if a >= SIGN_BIT {
        -magnitude(a)
    } else {
        magnitude(a)
    }
}

/// `a > b` on the `f32` values with bit patterns `a` and `b`: false when
/// either is NaN, and `+0.0` and `-0.0` compare equal.
pub open spec fn f32_gt(a: u32, b: u32) -> bool {
    !is_nan_bits(a) && !is_nan_bits(b) && order_key(a) > order_key(b)
}

/// The ordering position of a bit pattern, as an integer.
fn order_key_of(a: u32) -> (r: i64)
    ensures
        r as int == order_key(a),
{
    let m: u32 = a % SIGN_BIT;
    if a >= SIGN_BIT {
        -(m as i64)
    } else {
        m as i64
    }
}

/// Strict `>` on two `f32` values given by their bit patterns.
pub fn f32_bits_gt(a: u32, b: u32) -> (r: bool)
    ensures
        r == f32_gt(a, b),
{
    if a % SIGN_BIT > POSITIVE_INFINITY || b % SIGN_BIT > POSITIVE_INFINITY {
        false
    } else {
        order_key_of(a) > order_key_of(b)
    }
}

} // verus!
