//! Three-component fixed-point vectors: points, directions and colors.
//!
//! The spec layer computes on unbounded integer triples, mirroring
//! exactly what the executable operations produce; `requires` clauses
//! exist only to keep every intermediate inside the `i64` word.

use vstd::prelude::*;
use crate::fx::{
    ONE, MAXI, mag, fxm, fxd, fx_sqrt_s, is_sqrt, fits, clamp_s, fx_mul, fx_div, fx_sqrt,
    lemma_fxm_le, lemma_sign_of_product, lemma_sdiv_mag,
};
use crate::rng::Rng;

verus! {

/// A vector of three fixed-point scalars.
#[derive(Clone, Copy, PartialEq, Eq, Structural, Debug)]
pub struct Vec3(pub i64, pub i64, pub i64);

impl View for Vec3 {
    type V = (int, int, int);

    open spec fn view(&self) -> (int, int, int) {
        (self.0 as int, self.1 as int, self.2 as int)
    }
}

/// Every component's magnitude is at most `m`.
pub open spec fn in_range_s(v: (int, int, int), m: int) -> bool {
    mag(v.0) <= m && mag(v.1) <= m && mag(v.2) <= m
}

pub open spec fn add_s(u: (int, int, int), v: (int, int, int)) -> (int, int, int) {
    (u.0 + v.0, u.1 + v.1, u.2 + v.2)
}

pub open spec fn sub_s(u: (int, int, int), v: (int, int, int)) -> (int, int, int) {
    (u.0 - v.0, u.1 - v.1, u.2 - v.2)
}

pub open spec fn neg_s(u: (int, int, int)) -> (int, int, int) {
    (-u.0, -u.1, -u.2)
}

/// Component-wise fixed-point product.
pub open spec fn cmul_s(u: (int, int, int), v: (int, int, int)) -> (int, int, int) {
    (fxm(u.0, v.0), fxm(u.1, v.1), fxm(u.2, v.2))
}

/// The vector scaled by a fixed-point scalar.
pub open spec fn scale_s(u: (int, int, int), k: int) -> (int, int, int) {
    (fxm(u.0, k), fxm(u.1, k), fxm(u.2, k))
}

/// The vector divided by a fixed-point scalar.
pub open spec fn divs_s(u: (int, int, int), k: int) -> (int, int, int) {
    (fxd(u.0, k), fxd(u.1, k), fxd(u.2, k))
}

/// Fixed-point dot product.
pub open spec fn dot_s(u: (int, int, int), v: (int, int, int)) -> int {
    fxm(u.0, v.0) + fxm(u.1, v.1) + fxm(u.2, v.2)
}

/// Fixed-point cross product.
pub open spec fn cross_s(u: (int, int, int), v: (int, int, int)) -> (int, int, int) {
    (
        fxm(u.1, v.2) - fxm(u.2, v.1),
        fxm(u.2, v.0) - fxm(u.0, v.2),
        fxm(u.0, v.1) - fxm(u.1, v.0),
    )
}

/// Squared norm.
pub open spec fn nsq_s(u: (int, int, int)) -> int {
    dot_s(u, u)
}

/// Norm: the fixed-point square root of the squared norm.
pub open spec fn norm_s(u: (int, int, int)) -> int {
    fx_sqrt_s(nsq_s(u))
}

/// The vector divided by its norm.
pub open spec fn unit_s(u: (int, int, int)) -> (int, int, int) {
    divs_s(u, norm_s(u))
}

/// Mirror reflection of `v` about the normal `n`.
pub open spec fn reflect_s(v: (int, int, int), n: (int, int, int)) -> (int, int, int) {
    sub_s(v, scale_s(n, 2 * dot_s(v, n)))
}

/// Refraction of the unit direction `uv` at a surface with normal `n`
/// and refraction ratio `eta`; the incoming cosine is clamped to the
/// unit interval against rounding overshoot.
pub open spec fn refract_s(uv: (int, int, int), n: (int, int, int), eta: int) -> (int, int, int) {
    let cos = clamp_s(dot_s(neg_s(uv), n), -(ONE as int), ONE as int);
    let perp = scale_s(add_s(uv, scale_s(n, cos)), eta);
    let par = scale_s(n, -fx_sqrt_s(mag((ONE as int) - nsq_s(perp))));
    add_s(perp, par)
}

/// The unit-sphere point parametrized by an angle `a` and a height `z`.
pub open spec fn sph_dir_s(a: int, z: int) -> (int, int, int) {
    let rr = fx_sqrt_s((ONE as int) - fxm(z, z));
    (fxm(rr, crate::trig::cos_s(a)), fxm(rr, crate::trig::sin_s(a)), z)
}

/// Magnitude bound for a dot product of range-bounded vectors.
pub proof fn lemma_dot_le(u: (int, int, int), v: (int, int, int), m: int, n: int)
    requires
        in_range_s(u, m),
        in_range_s(v, n),
        0 <= m,
        0 <= n,
    ensures
        mag(dot_s(u, v)) <= 3 * ((m * n) / (ONE as int)),
        in_range_s(cmul_s(u, v), (m * n) / (ONE as int)),
        in_range_s(cross_s(u, v), 2 * ((m * n) / (ONE as int))),
        in_range_s((fxm(u.1, v.2), fxm(u.2, v.0), fxm(u.0, v.1)), (m * n) / (ONE as int)),
        in_range_s((fxm(u.2, v.1), fxm(u.0, v.2), fxm(u.1, v.0)), (m * n) / (ONE as int)),
        mag(nsq_s(u)) <= 3 * ((m * m) / (ONE as int)),
{
    lemma_fxm_le(u.0, v.0, m, n);
    lemma_fxm_le(u.1, v.1, m, n);
    lemma_fxm_le(u.2, v.2, m, n);
    lemma_fxm_le(u.1, v.2, m, n);
    lemma_fxm_le(u.2, v.1, m, n);
    lemma_fxm_le(u.2, v.0, m, n);
    lemma_fxm_le(u.0, v.2, m, n);
    lemma_fxm_le(u.0, v.1, m, n);
    lemma_fxm_le(u.1, v.0, m, n);
    lemma_fxm_le(u.0, u.0, m, m);
    lemma_fxm_le(u.1, u.1, m, m);
    lemma_fxm_le(u.2, u.2, m, m);
}

/// Magnitude bound for a scaled vector.
pub proof fn lemma_scale_le(u: (int, int, int), k: int, m: int, n: int)
    requires
        in_range_s(u, m),
        mag(k) <= n,
        0 <= m,
        0 <= n,
    ensures
        in_range_s(scale_s(u, k), (m * n) / (ONE as int)),
{
    lemma_fxm_le(u.0, k, m, n);
    lemma_fxm_le(u.1, k, m, n);
    lemma_fxm_le(u.2, k, m, n);
}

/// A squared norm is nonnegative.
pub proof fn lemma_nsq_nonneg(u: (int, int, int))
    ensures
        nsq_s(u) >= 0,
        fxm(u.0, u.0) >= 0,
        fxm(u.1, u.1) >= 0,
        fxm(u.2, u.2) >= 0,
{
    lemma_sign_of_product(u.0, u.0);
    lemma_sign_of_product(u.1, u.1);
    lemma_sign_of_product(u.2, u.2);
    lemma_sdiv_mag(u.0 * u.0, ONE as int);
    lemma_sdiv_mag(u.1 * u.1, ONE as int);
    lemma_sdiv_mag(u.2 * u.2, ONE as int);
    vstd::arithmetic::div_mod::lemma_div_pos_is_pos(mag(u.0 * u.0), ONE as int);
    vstd::arithmetic::div_mod::lemma_div_pos_is_pos(mag(u.1 * u.1), ONE as int);
    vstd::arithmetic::div_mod::lemma_div_pos_is_pos(mag(u.2 * u.2), ONE as int);
}

/// Dot products flip sign with either argument.
pub proof fn lemma_dot_neg(u: (int, int, int), v: (int, int, int))
    ensures
        dot_s(u, neg_s(v)) == -dot_s(u, v),
        dot_s(neg_s(u), v) == -dot_s(u, v),
{
    crate::fx::lemma_fxm_neg(u.0, v.0);
    crate::fx::lemma_fxm_neg(u.1, v.1);
    crate::fx::lemma_fxm_neg(u.2, v.2);
}

/// Tests whether every component's magnitude is at most `m`.
pub fn in_range_v(v: &Vec3, m: i64) -> (r: bool)
    requires
        0 <= m,
    ensures
        r == in_range_s(v@, m as int),
{
    -m <= v.0 && v.0 <= m && -m <= v.1 && v.1 <= m && -m <= v.2 && v.2 <= m
}

impl Vec3 {
    /// The zero vector.
    pub fn new() -> (r: Vec3)
        ensures
            r@ == (0int, 0int, 0int),
    {
        Vec3(0, 0, 0)
    }

    pub fn add(self, rhs: Vec3) -> (r: Vec3)
        requires
            fits(self@.0 + rhs@.0),
            fits(self@.1 + rhs@.1),
            fits(self@.2 + rhs@.2),
        ensures
            r@ == add_s(self@, rhs@),
    {
        Vec3(self.0 + rhs.0, self.1 + rhs.1, self.2 + rhs.2)
    }

    pub fn sub(self, rhs: Vec3) -> (r: Vec3)
        requires
            fits(self@.0 - rhs@.0),
            fits(self@.1 - rhs@.1),
            fits(self@.2 - rhs@.2),
        ensures
            r@ == sub_s(self@, rhs@),
    {
        Vec3(self.0 - rhs.0, self.1 - rhs.1, self.2 - rhs.2)
    }

    pub fn neg(self) -> (r: Vec3)
        requires
            in_range_s(self@, MAXI as int),
        ensures
            r@ == neg_s(self@),
    {
        Vec3(-self.0, -self.1, -self.2)
    }

    /// Component-wise product, as used for color attenuation.
    pub fn mul(self, rhs: Vec3) -> (r: Vec3)
        requires
            fits(fxm(self@.0, rhs@.0)),
            fits(fxm(self@.1, rhs@.1)),
            fits(fxm(self@.2, rhs@.2)),
        ensures
            r@ == cmul_s(self@, rhs@),
    {
        Vec3(fx_mul(self.0, rhs.0), fx_mul(self.1, rhs.1), fx_mul(self.2, rhs.2))
    }

    /// Scalar product.
    pub fn scale(self, k: i64) -> (r: Vec3)
        requires
            fits(fxm(self@.0, k as int)),
            fits(fxm(self@.1, k as int)),
            fits(fxm(self@.2, k as int)),
        ensures
            r@ == scale_s(self@, k as int),
    {
        Vec3(fx_mul(self.0, k), fx_mul(self.1, k), fx_mul(self.2, k))
    }

    /// Scalar division.
    pub fn div(self, k: i64) -> (r: Vec3)
        requires
            k != 0,
            in_range_s(self@, 0x4000_0000_0000),
        ensures
            r@ == divs_s(self@, k as int),
    {
        Vec3(fx_div(self.0, k), fx_div(self.1, k), fx_div(self.2, k))
    }

    pub fn dot(lhs: Vec3, rhs: Vec3) -> (r: i64)
        requires
            in_range_s(lhs@, 0x40_0000_0000),
            in_range_s(rhs@, 0x40_0000_0000),
        ensures
            r as int == dot_s(lhs@, rhs@),
    {
        proof {
            lemma_dot_le(lhs@, rhs@, 0x40_0000_0000, 0x40_0000_0000);
        }
        fx_mul(lhs.0, rhs.0) + fx_mul(lhs.1, rhs.1) + fx_mul(lhs.2, rhs.2)
    }

    pub fn cross(lhs: Vec3, rhs: Vec3) -> (r: Vec3)
        requires
            in_range_s(lhs@, 0x40_0000_0000),
            in_range_s(rhs@, 0x40_0000_0000),
        ensures
            r@ == cross_s(lhs@, rhs@),
    {
        proof {
            lemma_dot_le(lhs@, rhs@, 0x40_0000_0000, 0x40_0000_0000);
        }
        Vec3(
            fx_mul(lhs.1, rhs.2) - fx_mul(lhs.2, rhs.1),
            fx_mul(lhs.2, rhs.0) - fx_mul(lhs.0, rhs.2),
            fx_mul(lhs.0, rhs.1) - fx_mul(lhs.1, rhs.0),
        )
    }

    pub fn norm_squared(&self) -> (r: i64)
        requires
            in_range_s(self@, 0x40_0000_0000),
        ensures
            r as int == nsq_s(self@),
            r >= 0,
    {
        proof {
            lemma_dot_le(self@, self@, 0x40_0000_0000, 0x40_0000_0000);
            lemma_nsq_nonneg(self@);
        }
        fx_mul(self.0, self.0) + fx_mul(self.1, self.1) + fx_mul(self.2, self.2)
    }

    pub fn norm(&self) -> (r: i64)
        requires
            in_range_s(self@, 0x40_0000_0000),
        ensures
            r as int == norm_s(self@),
            is_sqrt(nsq_s(self@) * (ONE as int), r as int),
            r >= 0,
    {
        let nsq = self.norm_squared();
        fx_sqrt(nsq)
    }

    /// The unit vector in this vector's direction.  The squared norm
    /// must be a positive fixed-point value: normalizing a vector of
    /// near-zero length is the one degenerate case the encoding
    /// cannot express.
    pub fn normalize(&self) -> (r: Vec3)
        requires
            in_range_s(self@, 0x40_0000_0000),
            nsq_s(self@) >= 1,
        ensures
            r@ == unit_s(self@),
    {
        let n = self.norm();
        assert(n >= 1) by (nonlinear_arith)
            requires
                is_sqrt(nsq_s(self@) * (ONE as int), n as int),
                nsq_s(self@) >= 1,
        ;
        self.div(n)
    }

    /// The reflection of `v` about the unit normal `n`.
    pub fn reflect(v: Vec3, n: Vec3) -> (r: Vec3)
        requires
            in_range_s(v@, 0x4000_0000),
            in_range_s(n@, 0x4000_0000),
        ensures
            r@ == reflect_s(v@, n@),
    {
        let d = Vec3::dot(v, n);
        proof {
            lemma_dot_le(v@, n@, 0x4000_0000, 0x4000_0000);
            lemma_scale_le(n@, 2 * dot_s(v@, n@), 0x4000_0000, 0x6000_0000_0000);
        }
        v.sub(n.scale(2 * d))
    }

    /// Refraction of the unit direction `uv` with refraction ratio `eta`.
    pub fn refract(uv: Vec3, n: Vec3, eta: i64) -> (r: Vec3)
        requires
            in_range_s(uv@, 0x10_0000),
            in_range_s(n@, 0x10_0000),
            0 <= eta <= 0x10_0000,
        ensures
            r@ == refract_s(uv@, n@, eta as int),
    {
        proof {
            lemma_dot_le(neg_s(uv@), n@, 0x10_0000, 0x10_0000);
        }
        let cos_raw = Vec3::dot(uv.neg(), n);
        let cos = crate::fx::clamp_i(cos_raw, -ONE, ONE);
        proof {
            lemma_scale_le(n@, cos as int, 0x10_0000, ONE as int);
            lemma_scale_le(
                add_s(uv@, scale_s(n@, cos as int)),
                eta as int,
                0x20_0000,
                0x10_0000,
            );
            lemma_dot_le(
                scale_s(add_s(uv@, scale_s(n@, cos as int)), eta as int),
                scale_s(add_s(uv@, scale_s(n@, cos as int)), eta as int),
                0x200_0000,
                0x200_0000,
            );
        }
        let perp = uv.add(n.scale(cos)).scale(eta);
        let k = perp.norm_squared();
        let rest = if ONE >= k {
            ONE - k
        } else {
            k - ONE
        };
        assert(rest as int == mag((ONE as int) - nsq_s(perp@)));
        let sq = fx_sqrt(rest);
        proof {
            assert(sq as int * sq as int <= rest as int * (ONE as int));
            assert(sq as int <= 0x200_0000_0000) by (nonlinear_arith)
                requires
                    0 <= sq,
                    sq as int * sq as int <= rest as int * (ONE as int),
                    rest <= 0x3_0000_0000_0000,
            ;
            lemma_scale_le(n@, -(sq as int), 0x10_0000, 0x200_0000_0000);
        }
        let par = n.scale(-sq);
        perp.add(par)
    }

    /// A vector whose components are three uniform draws in `[0, ONE)`.
    pub fn random(rng: &mut Rng) -> (r: Vec3)
        ensures
            in_range_s(r@, ONE as int),
            0 <= r@.0 < ONE,
            0 <= r@.1 < ONE,
            0 <= r@.2 < ONE,
    {
        Vec3(rng.next_unit(), rng.next_unit(), rng.next_unit())
    }

    /// A vector whose components are three uniform draws in
    /// `[min, max)` for `min < max`, each of the form
    /// `min + d * (max - min)` for a unit-interval draw `d`.
    pub fn random_range(min: i64, max: i64, rng: &mut Rng) -> (r: Vec3)
        requires
            min <= max,
            mag(max as int - min as int) <= 0x100_0000_0000,
            fits(min as int + (max as int - min as int)),
            fits(min as int),
        ensures
            in_range_s(r@, if mag(min as int) >= mag(max as int) {
                mag(min as int)
            } else {
                mag(max as int)
            }),
            min <= r@.0 <= max,
            min <= r@.1 <= max,
            min <= r@.2 <= max,
            min < max ==> r@.0 < max && r@.1 < max && r@.2 < max,
            exists|d: int|
                0 <= d < ONE as int && r@.0 == min as int + #[trigger] fxm(
                    d,
                    max as int - min as int,
                ),
            exists|d: int|
                0 <= d < ONE as int && r@.1 == min as int + #[trigger] fxm(
                    d,
                    max as int - min as int,
                ),
            exists|d: int|
                0 <= d < ONE as int && r@.2 == min as int + #[trigger] fxm(
                    d,
                    max as int - min as int,
                ),
    {
        Vec3(
            crate::rt::random_double_range(min, max, rng),
            crate::rt::random_double_range(min, max, rng),
            crate::rt::random_double_range(min, max, rng),
        )
    }

    /// A point on the unit sphere, from the trigonometric
    /// parametrization by an angle draw `a` and a height draw `z`.
    pub fn random_unit_vector(rng: &mut Rng) -> (r: Vec3)
        ensures
            in_range_s(r@, ONE as int),
            exists|a: int, z: int|
                0 <= a < crate::fx::TWO_PI_FX as int && -(ONE as int) <= z < ONE as int
                    && r@ == #[trigger] sph_dir_s(a, z),
    {
        let a = crate::rt::random_double_range(0, crate::fx::TWO_PI_FX - 1, rng);
        let z = crate::rt::random_double_range(-ONE, ONE, rng);
        proof {
            lemma_fxm_le(z as int, z as int, ONE as int, ONE as int);
            lemma_nsq_nonneg((z as int, 0int, 0int));
        }
        let zz = fx_mul(z, z);
        let rr = fx_sqrt(ONE - zz);
        assert(rr <= ONE) by (nonlinear_arith)
            requires
                0 <= rr,
                is_sqrt((ONE - zz) as int * (ONE as int), rr as int),
                0 <= zz,
                ONE == 65536,
        ;
        let ca = crate::trig::fx_cos(a);
        let sa = crate::trig::fx_sin(a);
        proof {
            lemma_fxm_le(rr as int, ca as int, ONE as int, ONE as int);
            lemma_fxm_le(rr as int, sa as int, ONE as int, ONE as int);
        }
        let r = Vec3(fx_mul(rr, ca), fx_mul(rr, sa), z);
        proof {
            assert(r@ == sph_dir_s(a as int, z as int));
        }
        r
    }

    /// Rejection sampling of a point inside the unit sphere.  The draw
    /// is retried a bounded number of times; if every attempt lands in
    /// the corner shell outside the sphere — overwhelmingly unlikely —
    /// the center is returned, which is inside the sphere as required.
    pub fn random_in_unit_sphere(rng: &mut Rng) -> (r: Vec3)
        ensures
            in_range_s(r@, ONE as int),
            nsq_s(r@) < ONE,
    {
        let mut tries: u32 = 0;
        while tries < 64
            invariant
                true,
            decreases 64 - tries,
        {
            let p = Vec3::random_range(-ONE, ONE, rng);
            if p.norm_squared() < ONE {
                return p;
            }
            tries = tries + 1;
        }
        proof {
            lemma_nsq_nonneg((0int, 0int, 0int));
        }
        Vec3(0, 0, 0)
    }

    /// Rejection sampling of a point inside the unit disk in the
    /// `z = 0` plane, with the same bounded retry as the sphere sampler.
    pub fn random_in_unit_disk(rng: &mut Rng) -> (r: Vec3)
        ensures
            in_range_s(r@, ONE as int),
            nsq_s(r@) < ONE,
            r@.2 == 0,
    {
        let mut tries: u32 = 0;
        while tries < 64
            invariant
                true,
            decreases 64 - tries,
        {
            let p = Vec3(
                crate::rt::random_double_range(-ONE, ONE, rng),
                crate::rt::random_double_range(-ONE, ONE, rng),
                0,
            );
            if p.norm_squared() < ONE {
                return p;
            }
            tries = tries + 1;
        }
        proof {
            lemma_nsq_nonneg((0int, 0int, 0int));
        }
        Vec3(0, 0, 0)
    }
}

} // verus!
