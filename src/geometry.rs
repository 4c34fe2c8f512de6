use vstd::arithmetic::div_mod::{lemma_div_is_ordered, lemma_fundamental_div_mod, lemma_mod_bound};
use vstd::prelude::*;

verus! {

/// A pair of coordinates.
#[derive(Debug, Clone, Copy, PartialEq, Eq, Structural)]
pub struct Point<T> {
    pub x: T,
    pub y: T,
}

/// World coordinates are fixed-point numbers: one pixel is this many units.
pub const SUBPIXELS: i64 = 1024;

/// World coordinates stay strictly between minus and plus this bound.
pub const COORD_LIMIT: i64 = 0x1_0000_0000;

/// A world coordinate within the supported range.
pub open spec fn in_world(v: int) -> bool {
    -COORD_LIMIT < v < COORD_LIMIT
}

/// Integer division rounding toward zero, for a positive divisor.
pub open spec fn div_toward_zero(a: int, d: int) -> int
    recommends
        d > 0,
{
    if a >= 0 {
        a / d
    } else {
        -((-a) / d)
    }
}

/// The pixel index of a world coordinate, truncated toward zero.
pub open spec fn trunc_pixel(v: int) -> int {
    div_toward_zero(v, SUBPIXELS as int)
}

/// The pixel index of a world coordinate as an unsigned index: truncated
/// toward zero, with negative results saturating at zero.
pub open spec fn pixel_index(v: int) -> int {
    if trunc_pixel(v) < 0 {
        0
    } else {
        trunc_pixel(v)
    }
}

/// `v` rounded to the nearest pixel, ties upward, saturating at zero.
pub open spec fn round_pixel(v: int) -> int {
    pixel_index(v + SUBPIXELS / 2)
}

pub fn div_toward_zero_exec(a: i64, d: i64) -> (q: i64)
    requires
        d > 0,
        a > i64::MIN,
    ensures
        q == div_toward_zero(a as int, d as int),
        0 <= a ==> 0 <= d * q <= a,
        a < 0 ==> a <= d * q <= 0,
{
    if a >= 0 {
        proof {
            lemma_div_bounds(a as int, d as int);
        }
        a / d
    } else {
        proof {
            lemma_div_bounds(-a, d as int);
            let ai: int = -(a as int);
            let di: int = d as int;
            assert(di * (-(ai / di)) == -(di * (ai / di))) by (nonlinear_arith);
        }
        -((-a) / d)
    }
}

proof fn lemma_div_bounds(a: int, d: int)
    requires
        0 <= a,
        0 < d,
    ensures
        0 <= d * (a / d) <= a,
{
    lemma_fundamental_div_mod(a, d);
    lemma_mod_bound(a, d);
    lemma_div_is_ordered(0, a, d);
    assert(0 <= d * (a / d)) by (nonlinear_arith)
        requires
            0 <= a / d,
            0 < d,
    ;
}

/// The pixel index of a world coordinate, truncated toward zero.
pub fn trunc_pixel_exec(v: i64) -> (p: i64)
    requires
        -0x100_0000_0000 < v < 0x100_0000_0000,
    ensures
        p == trunc_pixel(v as int),
        -0x4000_0000 <= p <= 0x4000_0000,
        in_world(v as int) ==> -0x40_0000 <= p <= 0x40_0000,
{
    div_toward_zero_exec(v, SUBPIXELS)
}

/// The pixel index of a world coordinate, saturating at zero.
pub fn pixel_index_exec(v: i64) -> (p: usize)
    requires
        -0x100_0000_0000 < v < 0x100_0000_0000,
    ensures
        p == pixel_index(v as int),
        p <= 0x4000_0000,
        in_world(v as int) ==> p <= 0x40_0000,
{
    let t = trunc_pixel_exec(v);
    if t < 0 {
        0
    } else {
        t as usize
    }
}

} // verus!
