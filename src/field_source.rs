//! The bounce rule of the moving sources: after a move, a velocity
//! component reverses when the position along that axis lies beyond half
//! the field's extent on either side.

use vstd::prelude::*;

use crate::float_bits::{f32_bits_gt, f32_gt, SIGN_BIT};

verus! {

/// The bit pattern of `-a`: the sign bit flipped.
pub open spec fn neg_bits(a: u32) -> u32 {
    if a >= SIGN_BIT {
        (a - SIGN_BIT) as u32
    } else {
        (a + SIGN_BIT) as u32
    }
}

/// The coordinate `p` lies beyond `half` or below `-half`.
pub open spec fn beyond(p: u32, half: u32) -> bool {
    f32_gt(p, half) || f32_gt(neg_bits(half), p)
}

/// Negates an `f32` given by its bit pattern.
pub fn negate(a: u32) -> (r: u32)
    ensures
        r == neg_bits(a),
{
    if a >= SIGN_BIT {
        a - SIGN_BIT
    } else {
        a + SIGN_BIT
    }
}

/// The velocity component `v` after a move that left the source at
/// coordinate `p` on an axis whose half extent is `half`: negated when `p`
/// lies outside `[-half, half]`, unchanged otherwise.
pub fn reflect_velocity(p: u32, v: u32, half: u32) -> (r: u32)
    ensures
        r == if beyond(p, half) {
            neg_bits(v)
        } else {
            v
        },
{
    if f32_bits_gt(p, half) || f32_bits_gt(negate(half), p) {
        negate(v)
    } else {
        v
    }
}

} // verus!
