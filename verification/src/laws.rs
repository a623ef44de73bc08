//! Global properties of the renderer, stated and proved over the same
//! spec functions that the executable functions' contracts use.

use vstd::prelude::*;
use crate::fx::{
    ONE, mag, fxm, is_sqrt, fx_sqrt_s, clamp_s, lemma_fxm_neg, lemma_fxm_unit, lemma_sdiv_mag,
    lemma_sqrt_unique, lemma_sign_of_product,
};
use crate::vec3::{add_s, sub_s, neg_s, scale_s, dot_s, nsq_s, reflect_s, refract_s};
use crate::sphere::Sphere;
use crate::hittable::list_hit_s;
use crate::render::{bg_s, bg_mix_s, bg_tt_s, color_ok, SKY_R, SKY_G};
use crate::rt::{T_EPS, T_FAR};

verus! {

/// The normal is a unit vector along a coordinate axis; for such
/// normals fixed-point products introduce no rounding.
pub open spec fn axis_unit_s(n: (int, int, int)) -> bool {
    ||| (mag(n.0) == ONE as int && n.1 == 0 && n.2 == 0)
    ||| (n.0 == 0 && mag(n.1) == ONE as int && n.2 == 0)
    ||| (n.0 == 0 && n.1 == 0 && mag(n.2) == ONE as int)
}

/// Multiplying by the fixed-point unit or by zero is exact.
pub proof fn lemma_fxm_one(x: int)
    ensures
        fxm(x, ONE as int) == x,
        fxm(ONE as int, x) == x,
        fxm(x, -(ONE as int)) == -x,
        fxm(-(ONE as int), x) == -x,
        fxm(x, 0) == 0,
        fxm(0, x) == 0,
{
    lemma_sdiv_mag(x * (ONE as int), ONE as int);
    assert(x * (ONE as int) == (ONE as int) * x) by (nonlinear_arith);
    vstd::arithmetic::div_mod::lemma_div_multiples_vanish(mag(x), ONE as int);
    assert(mag(x * (ONE as int)) == mag(x) * (ONE as int)) by {
        crate::fx::lemma_abs_mul(x, ONE as int);
    }
    assert(mag(x) * (ONE as int) == (ONE as int) * mag(x)) by (nonlinear_arith);
    lemma_fxm_neg(x, ONE as int);
    lemma_fxm_neg(ONE as int, x);
    assert((-(ONE as int)) * x == x * (-(ONE as int))) by (nonlinear_arith);
    assert(x * 0 == 0) by (nonlinear_arith);
    assert(0 * x == 0) by (nonlinear_arith);
}

/// Reflecting about an axis-aligned unit normal is exact in fixed
/// point, and doing it twice returns the original vector: the mirror
/// involution.
pub proof fn lemma_reflect_involutive_axis(v: (int, int, int), n: (int, int, int))
    requires
        axis_unit_s(n),
    ensures
        reflect_s(reflect_s(v, n), n) == v,
{
    lemma_fxm_one(v.0);
    lemma_fxm_one(v.1);
    lemma_fxm_one(v.2);
    if mag(n.0) == ONE as int && n.1 == 0 && n.2 == 0 {
        let d = dot_s(v, n);
        lemma_fxm_one(2 * d);
        let r1 = reflect_s(v, n);
        lemma_fxm_one(r1.0);
        lemma_fxm_one(2 * dot_s(r1, n));
    } else if n.0 == 0 && mag(n.1) == ONE as int && n.2 == 0 {
        let d = dot_s(v, n);
        lemma_fxm_one(2 * d);
        let r1 = reflect_s(v, n);
        lemma_fxm_one(r1.1);
        lemma_fxm_one(2 * dot_s(r1, n));
    } else {
        let d = dot_s(v, n);
        lemma_fxm_one(2 * d);
        let r1 = reflect_s(v, n);
        lemma_fxm_one(r1.2);
        lemma_fxm_one(2 * dot_s(r1, n));
    }
}

/// The exact-arithmetic mirror law behind the reflection formula:
/// with integer components and no fixed-point rounding, reflecting
/// twice scales the vector by the squared norm of the normal squared,
/// so for an exact unit normal it is the identity.
pub open spec fn dot_e(u: (int, int, int), v: (int, int, int)) -> int {
    u.0 * v.0 + u.1 * v.1 + u.2 * v.2
}

pub open spec fn scale_e(u: (int, int, int), k: int) -> (int, int, int) {
    (u.0 * k, u.1 * k, u.2 * k)
}

pub open spec fn reflect_e(v: (int, int, int), n: (int, int, int)) -> (int, int, int) {
    sub_s(scale_e(v, dot_e(n, n)), scale_e(n, 2 * dot_e(v, n)))
}

pub proof fn lemma_reflect_exact_involution(v: (int, int, int), n: (int, int, int))
    ensures
        reflect_e(reflect_e(v, n), n) == scale_e(v, dot_e(n, n) * dot_e(n, n)),
{
    let m = dot_e(n, n);
    let d = dot_e(v, n);
    let r1 = reflect_e(v, n);
    assert(r1.0 == v.0 * m - n.0 * (2 * d));
    assert(r1.1 == v.1 * m - n.1 * (2 * d));
    assert(r1.2 == v.2 * m - n.2 * (2 * d));
    assert((v.0 * m - n.0 * (2 * d)) * n.0 == m * (v.0 * n.0) - (2 * d) * (n.0 * n.0))
        by (nonlinear_arith);
    assert((v.1 * m - n.1 * (2 * d)) * n.1 == m * (v.1 * n.1) - (2 * d) * (n.1 * n.1))
        by (nonlinear_arith);
    assert((v.2 * m - n.2 * (2 * d)) * n.2 == m * (v.2 * n.2) - (2 * d) * (n.2 * n.2))
        by (nonlinear_arith);
    assert(m * (v.0 * n.0) + m * (v.1 * n.1) + m * (v.2 * n.2) == m * d) by (nonlinear_arith)
        requires
            d == v.0 * n.0 + v.1 * n.1 + v.2 * n.2,
    ;
    assert((2 * d) * (n.0 * n.0) + (2 * d) * (n.1 * n.1) + (2 * d) * (n.2 * n.2) == (2 * d) * m)
        by (nonlinear_arith)
        requires
            m == n.0 * n.0 + n.1 * n.1 + n.2 * n.2,
    ;
    assert(m * d - (2 * d) * m == -(m * d)) by (nonlinear_arith);
    assert(dot_e(r1, n) == -(m * d));
    assert(reflect_e(r1, n).0 == r1.0 * m - n.0 * (2 * dot_e(r1, n)));
    assert(r1.0 * m - n.0 * (2 * (-(m * d))) == v.0 * (m * m)) by (nonlinear_arith)
        requires
            r1.0 == v.0 * m - n.0 * (2 * d),
    ;
    assert(r1.1 * m - n.1 * (2 * (-(m * d))) == v.1 * (m * m)) by (nonlinear_arith)
        requires
            r1.1 == v.1 * m - n.1 * (2 * d),
    ;
    assert(r1.2 * m - n.2 * (2 * (-(m * d))) == v.2 * (m * m)) by (nonlinear_arith)
        requires
            r1.2 == v.2 * m - n.2 * (2 * d),
    ;
}

/// At normal incidence the refraction formula is exact for an
/// axis-aligned unit normal and passes the ray straight through,
/// whatever the index ratio; applying it twice, with any pair of
/// ratios — in particular reciprocal ones — recovers the original
/// direction exactly.
pub proof fn lemma_refract_normal_incidence(n: (int, int, int), eta: int, eta2: int)
    requires
        axis_unit_s(n),
    ensures
        refract_s(neg_s(n), n, eta) == neg_s(n),
        refract_s(refract_s(neg_s(n), n, eta), n, eta2) == neg_s(n),
{
    lemma_refract_straight(n, eta);
    lemma_refract_straight(n, eta2);
}

proof fn lemma_refract_straight(n: (int, int, int), eta: int)
    requires
        axis_unit_s(n),
    ensures
        refract_s(neg_s(n), n, eta) == neg_s(n),
{
    let uv = neg_s(n);
    lemma_fxm_one(n.0);
    lemma_fxm_one(n.1);
    lemma_fxm_one(n.2);
    lemma_fxm_neg(n.0, n.0);
    lemma_fxm_neg(n.1, n.1);
    lemma_fxm_neg(n.2, n.2);
    assert(dot_s(neg_s(uv), n) == ONE as int);
    let cos = clamp_s(dot_s(neg_s(uv), n), -(ONE as int), ONE as int);
    assert(cos == ONE as int);
    assert(scale_s(n, cos) == n);
    assert(add_s(uv, scale_s(n, cos)) == (0int, 0int, 0int));
    lemma_fxm_one(eta);
    let perp = scale_s(add_s(uv, scale_s(n, cos)), eta);
    assert(perp == (0int, 0int, 0int));
    assert(nsq_s(perp) == 0) by {
        lemma_fxm_one(0);
    }
    assert(mag((ONE as int) - nsq_s(perp)) == ONE as int);
    assert(is_sqrt((ONE as int) * (ONE as int), ONE as int)) by (nonlinear_arith);
    lemma_sqrt_unique((ONE as int) * (ONE as int), ONE as int);
    assert(fx_sqrt_s(ONE as int) == ONE as int);
    assert(scale_s(n, -(ONE as int)) == neg_s(n)) by {
        lemma_fxm_one(n.0);
        lemma_fxm_one(n.1);
        lemma_fxm_one(n.2);
    }
    assert(refract_s(uv, n, eta) == add_s((0int, 0int, 0int), neg_s(n)));
    assert(add_s((0int, 0int, 0int), neg_s(n)) == neg_s(n));
}

/// The background gradient stays between its two endpoints: every
/// channel lies between the sky color and white, and the blue channel
/// is exactly white's.
pub proof fn lemma_background_bounds(rd: (int, int, int))
    ensures
        SKY_R as int <= bg_s(rd).0 <= ONE as int,
        SKY_G as int <= bg_s(rd).1 <= ONE as int,
        bg_s(rd).2 == ONE as int,
{
    lemma_bg_tt_range(rd);
    lemma_mix_bounds(bg_tt_s(rd));
}

/// The gradient parameter is a unit-interval value.
pub proof fn lemma_bg_tt_range(rd: (int, int, int))
    ensures
        0 <= bg_tt_s(rd) <= ONE as int,
{
}

/// Channel bounds of the background mix at any unit-interval
/// parameter.
pub proof fn lemma_mix_bounds(tt: int)
    requires
        0 <= tt <= ONE as int,
    ensures
        SKY_R as int <= bg_mix_s(tt).0 <= ONE as int,
        SKY_G as int <= bg_mix_s(tt).1 <= ONE as int,
        bg_mix_s(tt).2 == ONE as int,
{
    lemma_channel_bounds(SKY_R as int, tt);
    lemma_channel_bounds(SKY_G as int, tt);
    lemma_fxm_one(ONE as int - tt);
}

/// One channel of the mix: `sky * (1 - tt) + tt` stays in
/// `[sky, 1]` for a unit-interval `tt`.
proof fn lemma_channel_bounds(sky: int, tt: int)
    requires
        0 <= sky <= ONE as int,
        0 <= tt <= ONE as int,
    ensures
        sky <= fxm(sky, ONE as int - tt) + tt <= ONE as int,
{
    lemma_fxm_unit(sky, ONE as int - tt);
    assert(sky * (ONE as int - tt) == (ONE as int - tt) * sky) by (nonlinear_arith);
    assert(sky * (ONE as int - tt) >= (sky - tt) * (ONE as int)) by (nonlinear_arith)
        requires
            0 <= sky <= ONE as int,
            0 <= tt <= ONE as int,
    ;
    if sky - tt >= 0 {
        lemma_sdiv_mag(sky * (ONE as int - tt), ONE as int);
        lemma_sign_of_product(sky, ONE as int - tt);
        vstd::arithmetic::div_mod::lemma_div_pos_is_pos(mag(sky * (ONE as int - tt)), ONE as int);
        vstd::arithmetic::div_mod::lemma_div_is_ordered(
            (sky - tt) * (ONE as int),
            sky * (ONE as int - tt),
            ONE as int,
        );
        vstd::arithmetic::div_mod::lemma_div_multiples_vanish(sky - tt, ONE as int);
        assert((sky - tt) * (ONE as int) == (ONE as int) * (sky - tt)) by (nonlinear_arith);
        assert((sky - tt) * (ONE as int) >= 0) by (nonlinear_arith)
            requires
                sky - tt >= 0,
        ;
    } else {
        lemma_sdiv_mag(sky * (ONE as int - tt), ONE as int);
        lemma_sign_of_product(sky, ONE as int - tt);
        vstd::arithmetic::div_mod::lemma_div_pos_is_pos(mag(sky * (ONE as int - tt)), ONE as int);
    }
}

/// The background gradient is monotone: a larger gradient parameter
/// gives a channel at least as close to white, so the color moves
/// from the sky endpoint toward white as the direction's vertical
/// component grows.
pub proof fn lemma_background_monotone(t1: int, t2: int)
    requires
        0 <= t1 <= t2 <= ONE as int,
    ensures
        bg_mix_s(t1).0 <= bg_mix_s(t2).0,
        bg_mix_s(t1).1 <= bg_mix_s(t2).1,
        bg_mix_s(t1).2 == bg_mix_s(t2).2,
{
    lemma_channel_monotone(SKY_R as int, t1, t2);
    lemma_channel_monotone(SKY_G as int, t1, t2);
    lemma_fxm_one(ONE as int - t1);
    lemma_fxm_one(ONE as int - t2);
}

/// One channel of the mix is monotone in the gradient parameter.
proof fn lemma_channel_monotone(sky: int, t1: int, t2: int)
    requires
        0 <= sky <= ONE as int,
        0 <= t1 <= t2 <= ONE as int,
    ensures
        fxm(sky, ONE as int - t1) + t1 <= fxm(sky, ONE as int - t2) + t2,
{
    let x1 = sky * (ONE as int - t1);
    let x2 = sky * (ONE as int - t2);
    let k = t2 - t1;
    lemma_sign_of_product(sky, ONE as int - t1);
    lemma_sign_of_product(sky, ONE as int - t2);
    lemma_sdiv_mag(x1, ONE as int);
    lemma_sdiv_mag(x2, ONE as int);
    assert(x1 <= x2 + k * (ONE as int)) by (nonlinear_arith)
        requires
            x1 == sky * (ONE as int - t1),
            x2 == sky * (ONE as int - t2),
            k == t2 - t1,
            0 <= sky <= ONE as int,
            0 <= t1 <= t2 <= ONE as int,
    ;
    vstd::arithmetic::div_mod::lemma_hoist_over_denominator(x2, k, ONE as nat);
    vstd::arithmetic::div_mod::lemma_div_is_ordered(x1, x2 + k * (ONE as int), ONE as int);
}

/// A scene with no primitives colors every positive-depth ray with the
/// background gradient of its direction alone, whatever its origin.
pub proof fn lemma_empty_scene_background(
    objs: Seq<Sphere>,
    ro: (int, int, int),
    rd: (int, int, int),
    depth: int,
    c: (int, int, int),
)
    requires
        objs.len() == 0,
        depth >= 1,
        color_ok(objs, ro, rd, depth, c),
    ensures
        c == bg_s(rd),
{
    assert(list_hit_s(objs, ro, rd, T_EPS as int, T_FAR as int, 0).is_none());
}

/// A ray fired from the origin straight at a sphere's center hits at
/// `t` equal to the center's distance minus the radius, with the unit
/// outward normal pointing from the center back at the ray; exact
/// whenever the squared radius is representable without rounding.
pub proof fn lemma_hit_head_on(s: Sphere, c: int)
    requires
        s.center@ == (0int, 0int, -c),
        1 <= s.radius,
        (s.radius as int) < c <= crate::rt::COORD_LIM as int,
        (s.radius as int) * (s.radius as int) % (ONE as int) == 0,
    ensures
        crate::sphere::sphere_hit_s(s, (0int, 0int, 0int), (0int, 0int, -(ONE as int)), 0, T_FAR as int)
            == Some((c - s.radius as int, (0int, 0int, -(c - s.radius as int)), (0int, 0int, ONE as int))),
        dot_s((0int, 0int, -(ONE as int)), (0int, 0int, ONE as int)) < 0,
{
    let rr = s.radius as int;
    let ro = (0int, 0int, 0int);
    let rd = (0int, 0int, -(ONE as int));
    let oc = sub_s(ro, s.center@);
    lemma_fxm_one(0);
    lemma_fxm_one(ONE as int);
    lemma_fxm_one(c);
    lemma_fxm_one(c - rr);
    lemma_fxm_neg(ONE as int, ONE as int);
    lemma_fxm_neg(-(ONE as int), ONE as int);
    lemma_fxm_neg(c, c);
    lemma_fxm_neg(-c, c);
    assert(dot_s(rd, rd) == ONE as int);
    assert(dot_s(oc, rd) == -c);
    assert(fxm(-c, -c) == fxm(c, c));
    let cterm = dot_s(oc, oc) - fxm(rr, rr);
    assert(fxm(ONE as int, cterm) == cterm);
    let q = fxm(rr, rr);
    assert(fxm(-c, -c) - cterm == q);
    lemma_sdiv_mag(rr * rr, ONE as int);
    lemma_sign_of_product(rr, rr);
    vstd::arithmetic::div_mod::lemma_div_pos_is_pos(mag(rr * rr), ONE as int);
    assert(q >= 0);
    assert(q * (ONE as int) == rr * rr) by {
        vstd::arithmetic::div_mod::lemma_fundamental_div_mod(rr * rr, ONE as int);
        assert((ONE as int) * ((rr * rr) / (ONE as int)) == ((rr * rr) / (ONE as int)) * (
        ONE as int)) by (nonlinear_arith);
    }
    assert(is_sqrt(q * (ONE as int), rr)) by (nonlinear_arith)
        requires
            q * (ONE as int) == rr * rr,
            rr >= 1,
    ;
    lemma_sqrt_unique(q * (ONE as int), rr);
    assert(fx_sqrt_s(q) == rr);
    assert(crate::fx::fxd(c - rr, ONE as int) == c - rr);
    let p = crate::ray::ray_at_s(ro, rd, c - rr);
    assert(p == (0int, 0int, -(c - rr)));
    let pc = sub_s(p, s.center@);
    assert(pc == (0int, 0int, rr));
    assert(crate::fx::fxd(0, rr) == 0) by {
        lemma_sdiv_mag(0 * (ONE as int), rr);
        assert(0 * (ONE as int) == 0) by (nonlinear_arith);
        vstd::arithmetic::div_mod::lemma_basic_div(0, rr);
    }
    assert(crate::fx::fxd(rr, rr) == ONE as int) by {
        lemma_sdiv_mag(rr * (ONE as int), rr);
        vstd::arithmetic::div_mod::lemma_div_multiples_vanish(ONE as int, rr);
        assert(rr * (ONE as int) == (ONE as int) * rr) by (nonlinear_arith);
        vstd::arithmetic::div_mod::lemma_div_pos_is_pos(mag(rr * (ONE as int)), rr);
    }
    let out = crate::vec3::divs_s(pc, rr);
    assert(out == (0int, 0int, ONE as int));
    assert(crate::vec3::in_range_s(p, crate::rt::COORD_LIM as int));
    assert(crate::vec3::in_range_s(out, crate::rt::NORM_LIM as int));
    assert(dot_s(rd, out) == -(ONE as int));
}

/// When the scene scan reports a miss, no primitive intersects the
/// ray anywhere in the searched interval: a miss is global, not an
/// artifact of the shrinking scan bound.
pub proof fn lemma_scene_miss_is_global(
    objs: Seq<Sphere>,
    ro: (int, int, int),
    rd: (int, int, int),
    t_min: int,
    t_max: int,
    i: int,
)
    requires
        0 <= i <= objs.len(),
        list_hit_s(objs, ro, rd, t_min, t_max, i).is_none(),
    ensures
        forall|k: int|
            0 <= k < i ==> (#[trigger] crate::sphere::sphere_hit_s(
                objs[k],
                ro,
                rd,
                t_min,
                t_max,
            )).is_none(),
    decreases i,
{
    if i > 0 {
        assert(list_hit_s(objs, ro, rd, t_min, t_max, i - 1).is_none());
        lemma_scene_miss_is_global(objs, ro, rd, t_min, t_max, i - 1);
    }
}

} // verus!
