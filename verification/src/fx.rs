//! Fixed-point scalar arithmetic: 16 fractional bits in an `i64`.
//!
//! The spec layer works on unbounded `int`s with truncating (round
//! toward zero) division, which is what the executable code computes
//! through sign-magnitude `u128` arithmetic.  Executable functions
//! carry `requires` only where the machine word forces them.

use vstd::prelude::*;
use vstd::arithmetic::div_mod::{lemma_div_is_ordered, lemma_div_pos_is_pos};
use vstd::arithmetic::mul::lemma_mul_upper_bound;

verus! {

/// The fixed-point unit: the representation of the real number 1.
pub const ONE: i64 = 65536;

/// Largest magnitude an `i64` scalar may take; the minimum word value
/// is excluded so that negation never overflows.
pub const MAXI: i64 = 0x7fff_ffff_ffff_ffff;

/// Fixed-point approximations of pi and its multiples; the half-pi
/// value is exact in the sense that the other two are its doublings,
/// which keeps quadrant reduction exact.
pub const HALF_PI_FX: i64 = 102943;

pub const PI_FX: i64 = 205886;

pub const TWO_PI_FX: i64 = 411772;

/// The magnitude of an integer.
pub open spec fn mag(x: int) -> int {
    if x >= 0 {
        x
    } else {
        -x
    }
}

/// Truncating (round toward zero) integer division, total over `int`.
pub open spec fn sdiv(a: int, b: int) -> int {
    if (a >= 0) == (b >= 0) {
        mag(a) / mag(b)
    } else {
        -(mag(a) / mag(b))
    }
}

/// Fixed-point product: `(a * b) / ONE`, rounded toward zero.
pub open spec fn fxm(a: int, b: int) -> int {
    sdiv(a * b, ONE as int)
}

/// Fixed-point quotient: `(a * ONE) / b`, rounded toward zero.
pub open spec fn fxd(a: int, b: int) -> int {
    sdiv(a * (ONE as int), b)
}

/// `r` is the integer square root of `x`.
pub open spec fn is_sqrt(x: int, r: int) -> bool {
    0 <= r && r * r <= x && x < (r + 1) * (r + 1)
}

/// The integer square root, as chosen from its defining property.
pub open spec fn sqrt_floor(x: int) -> int {
    choose|r: int| is_sqrt(x, r)
}

/// Fixed-point square root of a nonnegative scalar.
pub open spec fn fx_sqrt_s(a: int) -> int {
    sqrt_floor(a * (ONE as int))
}

/// The value is representable in the symmetric `i64` range.
pub open spec fn fits(x: int) -> bool {
    -(MAXI as int) <= x <= MAXI as int
}

/// Clamping into a closed interval.
pub open spec fn clamp_s(x: int, lo: int, hi: int) -> int {
    if x < lo {
        lo
    } else if x > hi {
        hi
    } else {
        x
    }
}

/// The magnitude of a product is the product of the magnitudes.
pub proof fn lemma_abs_mul(a: int, b: int)
    ensures
        mag(a * b) == mag(a) * mag(b),
{
    assert(mag(a * b) == mag(a) * mag(b)) by (nonlinear_arith);
}

/// The sign of a product follows the signs of its factors.
pub proof fn lemma_sign_of_product(a: int, b: int)
    ensures
        a * b > 0 <==> (a > 0 && b > 0) || (a < 0 && b < 0),
        a * b == 0 <==> a == 0 || b == 0,
        a * b < 0 <==> (a < 0 && b > 0) || (a > 0 && b < 0),
{
    assert(a * b > 0 <==> (a > 0 && b > 0) || (a < 0 && b < 0)) by (nonlinear_arith);
    assert(a * b == 0 <==> a == 0 || b == 0) by (nonlinear_arith);
}

/// The magnitude of a truncating quotient is the quotient of magnitudes.
pub proof fn lemma_sdiv_mag(a: int, b: int)
    requires
        b != 0,
    ensures
        mag(sdiv(a, b)) == mag(a) / mag(b),
        sdiv(a, b) == if (a >= 0) == (b >= 0) {
            mag(a) / mag(b)
        } else {
            -(mag(a) / mag(b))
        },
{
    lemma_div_pos_is_pos(mag(a), mag(b));
}

/// Magnitude bound for a fixed-point product.
pub proof fn lemma_fxm_le(a: int, b: int, m: int, n: int)
    requires
        mag(a) <= m,
        mag(b) <= n,
    ensures
        mag(fxm(a, b)) <= (m * n) / (ONE as int),
        -((m * n) / (ONE as int)) <= fxm(a, b) <= (m * n) / (ONE as int),
{
    lemma_abs_mul(a, b);
    lemma_mul_upper_bound(mag(a), m, mag(b), n);
    lemma_sdiv_mag(a * b, ONE as int);
    lemma_div_is_ordered(mag(a * b), m * n, ONE as int);
    lemma_div_pos_is_pos(mag(a * b), ONE as int);
}

/// Magnitude bound for a fixed-point quotient with a unit-or-larger divisor.
pub proof fn lemma_fxd_le(a: int, b: int, m: int)
    requires
        mag(a) <= m,
        1 <= mag(b),
    ensures
        mag(fxd(a, b)) <= m * (ONE as int),
        -(m * (ONE as int)) <= fxd(a, b) <= m * (ONE as int),
{
    lemma_abs_mul(a, ONE as int);
    lemma_sdiv_mag(a * (ONE as int), b);
    assert(mag(a * (ONE as int)) / mag(b) <= mag(a * (ONE as int))) by {
        vstd::arithmetic::div_mod::lemma_div_is_ordered_by_denominator(
            mag(a * (ONE as int)),
            1,
            mag(b),
        );
    }
    lemma_mul_upper_bound(mag(a), m, ONE as int, ONE as int);
    lemma_div_pos_is_pos(mag(a * (ONE as int)), mag(b));
}

/// Negating one factor negates a fixed-point product.
pub proof fn lemma_fxm_neg(a: int, b: int)
    ensures
        fxm(a, -b) == -fxm(a, b),
        fxm(-a, b) == -fxm(a, b),
{
    assert(a * (-b) == -(a * b)) by (nonlinear_arith);
    assert((-a) * b == -(a * b)) by (nonlinear_arith);
}

/// Scaling a nonnegative value by a unit-interval factor keeps it in
/// `[0, value]`.
pub proof fn lemma_fxm_unit(d: int, s: int)
    requires
        0 <= d <= ONE as int,
        0 <= s,
    ensures
        0 <= fxm(d, s) <= s,
{
    lemma_fxm_le(d, s, ONE as int, s);
    assert(((ONE as int) * s) / (ONE as int) == s) by {
        vstd::arithmetic::div_mod::lemma_div_multiples_vanish(s, ONE as int);
    }
    lemma_sign_of_product(d, s);
    lemma_sdiv_mag(d * s, ONE as int);
    lemma_div_pos_is_pos(mag(d * s), ONE as int);
}

/// Every nonnegative integer has an integer square root, so the chosen
/// one satisfies the defining property.
pub proof fn lemma_sqrt_exists(x: int)
    requires
        0 <= x,
    ensures
        is_sqrt(x, sqrt_floor(x)),
    decreases x,
{
    if x == 0 {
        assert(is_sqrt(0, 0));
    } else {
        lemma_sqrt_exists(x - 1);
        let r = sqrt_floor(x - 1);
        if (r + 1) * (r + 1) <= x {
            assert(is_sqrt(x, r + 1)) by (nonlinear_arith)
                requires
                    is_sqrt(x - 1, r),
                    (r + 1) * (r + 1) <= x,
            ;
        } else {
            assert(is_sqrt(x, r));
        }
    }
}

/// A fixed-point value of at least one has a square root of at least
/// the unit.
pub proof fn lemma_fx_sqrt_ge_one(a: int)
    requires
        1 <= a,
    ensures
        fx_sqrt_s(a) >= 256,
{
    assert(a * (ONE as int) >= 65536) by (nonlinear_arith)
        requires
            1 <= a,
            ONE == 65536,
    ;
    lemma_sqrt_exists(a * (ONE as int));
    let r = sqrt_floor(a * (ONE as int));
    assert(r >= 256) by (nonlinear_arith)
        requires
            is_sqrt(a * (ONE as int), r),
            a * (ONE as int) >= 65536,
    ;
}

/// Scaling a positive value by a factor strictly below the unit stays
/// strictly below the value.
pub proof fn lemma_fxm_unit_strict(d: int, s: int)
    requires
        0 <= d < ONE as int,
        1 <= s,
    ensures
        0 <= fxm(d, s) <= s - 1,
{
    lemma_fxm_unit(d, s);
    assert(d * s <= (ONE as int) * s - s) by (nonlinear_arith)
        requires
            d <= ONE as int - 1,
            s >= 0,
    ;
    assert((ONE as int) * s - s <= (ONE as int) * (s - 1) + (ONE as int - 1));
    lemma_sign_of_product(d, s);
    lemma_sdiv_mag(d * s, ONE as int);
    vstd::arithmetic::div_mod::lemma_div_is_ordered(
        d * s,
        (ONE as int) * (s - 1) + (ONE as int - 1),
        ONE as int,
    );
    vstd::arithmetic::div_mod::lemma_div_multiples_vanish_fancy(s - 1, ONE as int - 1, ONE as int);
}

/// An integer square root is unique.
pub proof fn lemma_sqrt_unique(x: int, r: int)
    requires
        is_sqrt(x, r),
    ensures
        sqrt_floor(x) == r,
{
    assert(is_sqrt(x, sqrt_floor(x)));
    let s = sqrt_floor(x);
    assert(s == r) by (nonlinear_arith)
        requires
            is_sqrt(x, s),
            is_sqrt(x, r),
    ;
}

/// Truncating fixed-point multiplication.
pub fn fx_mul(a: i64, b: i64) -> (r: i64)
    requires
        fits(fxm(a as int, b as int)),
    ensures
        r as int == fxm(a as int, b as int),
{
    proof {
        lemma_abs_mul(a as int, b as int);
        lemma_sdiv_mag(a as int * b as int, ONE as int);
    }
    let aa: i128 = a as i128;
    let bb: i128 = b as i128;
    let neg: bool = (aa < 0) != (bb < 0);
    let ma: u128 = if aa < 0 {
        (-aa) as u128
    } else {
        aa as u128
    };
    let mb: u128 = if bb < 0 {
        (-bb) as u128
    } else {
        bb as u128
    };
    let q: u128 = (ma * mb) / 65536;
    assert(q == mag(a as int * b as int) / (ONE as int));
    assert(q <= MAXI as u128);
    proof {
        lemma_sign_of_product(a as int, b as int);
        if a as int * b as int == 0 {
            vstd::arithmetic::div_mod::lemma_basic_div(0, ONE as int);
        }
    }
    if neg {
        -(q as i64)
    } else {
        q as i64
    }
}

/// Truncating fixed-point division.
pub fn fx_div(a: i64, b: i64) -> (r: i64)
    requires
        b != 0,
        mag(a as int) <= 0x4000_0000_0000,
    ensures
        r as int == fxd(a as int, b as int),
{
    proof {
        lemma_abs_mul(a as int, ONE as int);
        lemma_sdiv_mag(a as int * ONE as int, b as int);
        lemma_fxd_le(a as int, b as int, 0x4000_0000_0000);
    }
    let aa: i128 = a as i128;
    let bb: i128 = b as i128;
    let neg: bool = (aa < 0) != (bb < 0);
    let ma: u128 = if aa < 0 {
        (-aa) as u128
    } else {
        aa as u128
    };
    let mb: u128 = if bb < 0 {
        (-bb) as u128
    } else {
        bb as u128
    };
    let q: u128 = (ma * 65536) / mb;
    assert(q == mag(a as int * ONE as int) / mag(b as int));
    assert(q <= MAXI as u128);
    if neg {
        -(q as i64)
    } else {
        q as i64
    }
}

/// Fixed-point square root of a nonnegative scalar, rounded down.
pub fn fx_sqrt(a: i64) -> (r: i64)
    requires
        0 <= a,
    ensures
        r as int == fx_sqrt_s(a as int),
        is_sqrt(a as int * ONE as int, r as int),
        0 <= r,
{
    let x: u128 = (a as u128) * 65536;
    let mut lo: u128 = 0;
    let mut hi: u128 = 0x200_0000_0000;
    assert(hi * hi > x) by (nonlinear_arith)
        requires
            hi == 0x200_0000_0000,
            x <= 0x7fff_ffff_ffff_ffff * 65536,
    ;
    while lo + 1 < hi
        invariant
            lo < hi,
            lo * lo <= x,
            hi * hi > x,
            hi <= 0x200_0000_0000,
        decreases hi - lo,
    {
        let mid: u128 = lo + (hi - lo) / 2;
        assert(lo < mid < hi);
        assert(mid * mid <= 0x200_0000_0000 * 0x200_0000_0000) by (nonlinear_arith)
            requires
                0 <= mid <= 0x200_0000_0000,
        ;
        if mid * mid <= x {
            lo = mid;
        } else {
            hi = mid;
        }
    }
    assert(is_sqrt(x as int, lo as int)) by {
        assert((lo + 1) * (lo + 1) >= hi * hi) by (nonlinear_arith)
            requires
                lo + 1 >= hi,
                lo < hi,
        ;
    }
    proof {
        lemma_sqrt_unique(x as int, lo as int);
        assert(lo * lo <= x);
        assert(lo <= 0x200_0000_0000);
    }
    lo as i64
}

/// Clamps a scalar into a closed interval.
pub fn clamp_i(x: i64, lo: i64, hi: i64) -> (r: i64)
    requires
        lo <= hi,
    ensures
        r as int == clamp_s(x as int, lo as int, hi as int),
        lo <= r <= hi,
{
    if x < lo {
        lo
    } else if x > hi {
        hi
    } else {
        x
    }
}

} // verus!
