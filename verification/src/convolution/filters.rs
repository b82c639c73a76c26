//! Kernels that fixed-point arithmetic evaluates exactly.
use super::WEIGHT_ONE;
use vstd::prelude::*;

verus! {

/// The box kernel: one on `(-1/2, 1/2]`, zero elsewhere.
pub open spec fn box_weight(x: int) -> int {
    if -(WEIGHT_ONE / 2) < x <= WEIGHT_ONE / 2 {
        WEIGHT_ONE as int
    } else {
        0
    }
}

/// The triangle kernel: `1 - |x|` on `(-1, 1)`, zero elsewhere.
pub open spec fn bilinear_weight(x: int) -> int {
    if -WEIGHT_ONE < x < 0 {
        WEIGHT_ONE + x
    } else if 0 <= x < WEIGHT_ONE {
        WEIGHT_ONE - x
    } else {
        0
    }
}

/// Support radius of the box kernel.
pub const BOX_SUPPORT: i64 = 0x8_0000_0000_0000;

/// Support radius of the triangle kernel.
pub const BILINEAR_SUPPORT: i64 = 0x10_0000_0000_0000;

/// Evaluates the box kernel.
pub fn box_filter(x: i64) -> (w: i64)
    ensures
        w == box_weight(x as int),
{
    if x > -(WEIGHT_ONE / 2) && x <= WEIGHT_ONE / 2 {
        WEIGHT_ONE
    } else {
        0
    }
}

/// Evaluates the triangle kernel.
pub fn bilinear_filter(x: i64) -> (w: i64)
    ensures
        w == bilinear_weight(x as int),
{
    if x > -WEIGHT_ONE && x < 0 {
        WEIGHT_ONE + x
    } else if x >= 0 && x < WEIGHT_ONE {
        WEIGHT_ONE - x
    } else {
        0
    }
}

} // verus!
