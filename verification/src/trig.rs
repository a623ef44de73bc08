//! Fixed-point sine, cosine and tangent on one turn, by quadrant
//! reduction and a short odd/even polynomial.  The polynomial value is
//! clamped into the unit interval, so callers always have the range
//! bound; the contracts state the computed value exactly.

use vstd::prelude::*;
use crate::fx::{
    ONE, HALF_PI_FX, TWO_PI_FX, fxm, fxd, clamp_s, fx_mul, fx_div, clamp_i, lemma_fxm_le,
};

verus! {

/// The sine polynomial on the first quadrant:
/// `x - x^3/6 + x^5/120 - x^7/5040`, clamped into the unit interval.
pub open spec fn sin_poly_s(x: int) -> int {
    let x2 = fxm(x, x);
    let x3 = fxm(x2, x);
    let x5 = fxm(x3, x2);
    let x7 = fxm(x5, x2);
    clamp_s(
        x - fxd(x3, 6 * (ONE as int)) + fxd(x5, 120 * (ONE as int)) - fxd(
            x7,
            5040 * (ONE as int),
        ),
        -(ONE as int),
        ONE as int,
    )
}

/// The cosine polynomial on the first quadrant:
/// `1 - x^2/2 + x^4/24 - x^6/720`, clamped into the unit interval.
pub open spec fn cos_poly_s(x: int) -> int {
    let x2 = fxm(x, x);
    let x4 = fxm(x2, x2);
    let x6 = fxm(x4, x2);
    clamp_s(
        (ONE as int) - fxd(x2, 2 * (ONE as int)) + fxd(x4, 24 * (ONE as int)) - fxd(
            x6,
            720 * (ONE as int),
        ),
        -(ONE as int),
        ONE as int,
    )
}

/// Sine over a full turn, by quadrant reduction.
pub open spec fn sin_s(x: int) -> int {
    if x < HALF_PI_FX as int {
        sin_poly_s(x)
    } else if x < 2 * (HALF_PI_FX as int) {
        cos_poly_s(x - HALF_PI_FX as int)
    } else if x < 3 * (HALF_PI_FX as int) {
        -sin_poly_s(x - 2 * (HALF_PI_FX as int))
    } else {
        -cos_poly_s(x - 3 * (HALF_PI_FX as int))
    }
}

/// Cosine over a full turn, by quadrant reduction.
pub open spec fn cos_s(x: int) -> int {
    if x < HALF_PI_FX as int {
        cos_poly_s(x)
    } else if x < 2 * (HALF_PI_FX as int) {
        -sin_poly_s(x - HALF_PI_FX as int)
    } else if x < 3 * (HALF_PI_FX as int) {
        -cos_poly_s(x - 2 * (HALF_PI_FX as int))
    } else {
        sin_poly_s(x - 3 * (HALF_PI_FX as int))
    }
}

/// The sine polynomial on `[0, HALF_PI_FX]`.
fn sin_poly(x: i64) -> (r: i64)
    requires
        0 <= x <= HALF_PI_FX,
    ensures
        r as int == sin_poly_s(x as int),
        -ONE <= r <= ONE,
{
    proof {
        lemma_fxm_le(x as int, x as int, HALF_PI_FX as int, HALF_PI_FX as int);
        lemma_fxm_le(fxm(x as int, x as int), x as int, 161702, HALF_PI_FX as int);
        lemma_fxm_le(
            fxm(fxm(x as int, x as int), x as int),
            fxm(x as int, x as int),
            254000,
            161702,
        );
        lemma_fxm_le(
            fxm(fxm(fxm(x as int, x as int), x as int), fxm(x as int, x as int)),
            fxm(x as int, x as int),
            630000,
            161702,
        );
    }
    let x2 = fx_mul(x, x);
    let x3 = fx_mul(x2, x);
    let x5 = fx_mul(x3, x2);
    let x7 = fx_mul(x5, x2);
    let t3 = fx_div(x3, 6 * ONE);
    let t5 = fx_div(x5, 120 * ONE);
    let t7 = fx_div(x7, 5040 * ONE);
    clamp_i(x - t3 + t5 - t7, -ONE, ONE)
}

/// The cosine polynomial on `[0, HALF_PI_FX]`.
fn cos_poly(x: i64) -> (r: i64)
    requires
        0 <= x <= HALF_PI_FX,
    ensures
        r as int == cos_poly_s(x as int),
        -ONE <= r <= ONE,
{
    proof {
        lemma_fxm_le(x as int, x as int, HALF_PI_FX as int, HALF_PI_FX as int);
        lemma_fxm_le(
            fxm(x as int, x as int),
            fxm(x as int, x as int),
            161702,
            161702,
        );
        lemma_fxm_le(
            fxm(fxm(x as int, x as int), fxm(x as int, x as int)),
            fxm(x as int, x as int),
            400000,
            161702,
        );
    }
    let x2 = fx_mul(x, x);
    let x4 = fx_mul(x2, x2);
    let x6 = fx_mul(x4, x2);
    let t2 = fx_div(x2, 2 * ONE);
    let t4 = fx_div(x4, 24 * ONE);
    let t6 = fx_div(x6, 720 * ONE);
    clamp_i(ONE - t2 + t4 - t6, -ONE, ONE)
}

/// Fixed-point sine of an angle in `[0, TWO_PI_FX)` radians.
pub fn fx_sin(x: i64) -> (r: i64)
    requires
        0 <= x < TWO_PI_FX,
    ensures
        r as int == sin_s(x as int),
        -ONE <= r <= ONE,
{
    if x < HALF_PI_FX {
        sin_poly(x)
    } else if x < 2 * HALF_PI_FX {
        cos_poly(x - HALF_PI_FX)
    } else if x < 3 * HALF_PI_FX {
        -sin_poly(x - 2 * HALF_PI_FX)
    } else {
        -cos_poly(x - 3 * HALF_PI_FX)
    }
}

/// Fixed-point cosine of an angle in `[0, TWO_PI_FX)` radians.
pub fn fx_cos(x: i64) -> (r: i64)
    requires
        0 <= x < TWO_PI_FX,
    ensures
        r as int == cos_s(x as int),
        -ONE <= r <= ONE,
{
    if x < HALF_PI_FX {
        cos_poly(x)
    } else if x < 2 * HALF_PI_FX {
        -sin_poly(x - HALF_PI_FX)
    } else if x < 3 * HALF_PI_FX {
        -cos_poly(x - 2 * HALF_PI_FX)
    } else {
        sin_poly(x - 3 * HALF_PI_FX)
    }
}

/// Fixed-point tangent, as the quotient of sine by cosine.
pub fn fx_tan(x: i64) -> (r: i64)
    requires
        0 <= x < TWO_PI_FX,
        cos_s(x as int) != 0,
    ensures
        r as int == fxd(sin_s(x as int), cos_s(x as int)),
{
    let s = fx_sin(x);
    let c = fx_cos(x);
    fx_div(s, c)
}

} // verus!
