//! Trigonometric helpers on the grid: a range-reduced sine polynomial and
//! the half-angle tangent the camera derives its viewport from.

use crate::fixed::{div_fx, floor_div, floor_div_i128, fx_div, lemma_floor_div_bound, lemma_floor_div_fund, lemma_prod_bound};
use vstd::prelude::*;

verus! {

/// Two pi on the grid.
pub const TWO_PI_FX: i64 = 411775;

/// Pi on the grid.
pub const PI_FX: i64 = 205887;

/// Half pi on the grid.
pub const HALF_PI_FX: i64 = 102944;

/// Reduce an angle into `(-pi, pi]` (up to the grid's rounding of two pi).
pub open spec fn sin_reduce(x: int) -> int {
    let y0 = x - floor_div(x, 411775) * 411775;
    if y0 > 205887 {
        y0 - 411775
    } else {
        y0
    }
}

/// The degree-seven Taylor polynomial of sine, with each power formed
/// exactly and floored once.
pub open spec fn sin_taylor(y: int) -> int {
    y - floor_div(y * y * y, 0x600000000) + floor_div(
        y * y * y * y * y,
        0x780000000000000000,
    ) - floor_div(y * y * y * y * y * y * y, 0x13B0000000000000000000000000)
}

/// Sine of a grid angle: the reduced Taylor polynomial, clamped to one in
/// magnitude (the polynomial can overshoot by well under a percent).
pub open spec fn fx_sin(x: int) -> int {
    let t = sin_taylor(sin_reduce(x));
    if t > 65536 {
        65536
    } else if t < -65536 {
        -65536
    } else {
        t
    }
}

/// The camera's half-angle tangent of a field of view given in degrees:
/// convert to radians, halve, and divide the sine by the cosine (the sine a
/// quarter turn later), with the cosine floored at one grid unit.
pub open spec fn fx_tan_half(deg: int) -> int {
    let half = floor_div(deg * 205887, 23592960);
    let s = fx_sin(half);
    let c0 = fx_sin(half + 102944);
    let c = if c0 < 1 {
        1
    } else {
        c0
    };
    fx_div(s, c)
}

/// Sine on the grid; total, with the result within one in magnitude.
pub fn sin_fx(x: i64) -> (r: i64)
    ensures
        r == fx_sin(x as int),
        -65536 <= r <= 65536,
{
    proof {
        lemma_floor_div_fund(x as int, 411775);
        lemma_floor_div_bound(x as int, 411775, 0x8000000000000000);
    }
    let m = floor_div_i128(x as i128, 411775);
    let y0: i128 = (x as i128) - m * 411775;
    let y: i128 = if y0 > 205887 {
        y0 - 411775
    } else {
        y0
    };
    proof {
        let yi = y as int;
        lemma_prod_bound(yi, yi, 205888, 205888);
        lemma_prod_bound(yi * yi, yi, (205888 * 205888) as int, 205888);
        lemma_prod_bound(yi * yi * yi, yi, (205888 * 205888 * 205888) as int, 205888);
        lemma_prod_bound(yi * yi * yi * yi, yi, (205888 * 205888 * 205888 * 205888) as int, 205888);
        lemma_prod_bound(
            yi * yi * yi * yi * yi,
            yi,
            (205888 * 205888 * 205888 * 205888 * 205888) as int,
            205888,
        );
        lemma_prod_bound(
            yi * yi * yi * yi * yi * yi,
            yi,
            (205888 * 205888 * 205888 * 205888 * 205888 * 205888) as int,
            205888,
        );
        lemma_floor_div_fund(yi * yi * yi, 0x600000000);
        lemma_floor_div_fund(yi * yi * yi * yi * yi, 0x780000000000000000);
        lemma_floor_div_fund(yi * yi * yi * yi * yi * yi * yi, 0x13B0000000000000000000000000);
    }
    let y3: i128 = y * y * y;
    let y5: i128 = y3 * y * y;
    let y7: i128 = y5 * y * y;
    let t3 = floor_div_i128(y3, 0x600000000);
    let t5 = floor_div_i128(y5, 0x780000000000000000);
    let t7 = floor_div_i128(y7, 0x13B0000000000000000000000000);
    let r0: i128 = y - t3 + t5 - t7;
    let r: i128 = if r0 > 65536 {
        65536
    } else if r0 < -65536 {
        -65536
    } else {
        r0
    };
    r as i64
}

/// Tangent of half the given field of view (degrees).
pub fn tan_half_deg(deg: i64) -> (r: i64)
    requires
        0 < deg < 11796480,
    ensures
        r == fx_tan_half(deg as int),
        -0x2000000000 <= r <= 0x2000000000,
{
    proof {
        lemma_floor_div_fund(deg as int * 205887, 23592960);
    }
    let half = floor_div_i128((deg as i128) * 205887, 23592960) as i64;
    let s = sin_fx(half);
    let c0 = sin_fx(half + 102944);
    let c: i64 = if c0 < 1 {
        1
    } else {
        c0
    };
    proof {
        crate::fixed::lemma_floor_div_bound(s as int * 65536, c as int, 0x1000000000);
    }
    div_fx(s, c)
}

} // verus!
