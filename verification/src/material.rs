//! Surface materials and the scattering protocol: diffuse, fuzzy
//! specular, and refractive with Schlick's reflectance approximation.
//!
//! Scattering consumes random draws; every contract states the result
//! as an exact function of the incoming ray, the hit record and the
//! draws, quantifying over the draws the generator may have produced.

use vstd::prelude::*;
use crate::fx::{
    ONE, fxm, fxd, fx_sqrt_s, is_sqrt, clamp_s, fx_mul, fx_div, fx_sqrt, clamp_i, lemma_fxm_le,
    lemma_fxm_unit,
};
use crate::vec3::{
    Vec3, in_range_s, add_s, neg_s, scale_s, dot_s, nsq_s, unit_s, reflect_s, refract_s,
    lemma_dot_le, lemma_scale_le, lemma_nsq_nonneg, lemma_dot_neg, in_range_v,
};
use crate::ray::Ray;
use crate::rng::Rng;
use crate::rt::{COORD_LIM, RAY_LIM, NORM_LIM};

verus! {

/// A diffuse surface.
#[derive(Clone, Copy)]
pub struct Lambertian {
    pub albedo: Vec3,
}

/// A specular surface with fuzz in the unit interval.
#[derive(Clone, Copy)]
pub struct Metal {
    pub albedo: Vec3,
    pub fuzz: i64,
}

/// A refractive surface with its refraction index.
#[derive(Clone, Copy)]
pub struct Dielectric {
    pub ir: i64,
}

/// The closed set of surface variants.
#[derive(Clone, Copy)]
pub enum Material {
    Lambertian(Lambertian),
    Metal(Metal),
    Dielectric(Dielectric),
}

/// A color with every channel in the unit interval.
pub open spec fn rgb_wf(c: (int, int, int)) -> bool {
    &&& 0 <= c.0 <= ONE as int
    &&& 0 <= c.1 <= ONE as int
    &&& 0 <= c.2 <= ONE as int
}

/// Well-formed material parameters: unit-interval albedo and fuzz, and
/// a refraction index representable together with its reciprocal.
pub open spec fn mat_wf(m: Material) -> bool {
    match m {
        Material::Lambertian(l) => rgb_wf(l.albedo@),
        Material::Metal(mm) => rgb_wf(mm.albedo@) && 0 <= mm.fuzz <= ONE,
        Material::Dielectric(d) => 4096 <= d.ir <= 16 * ONE,
    }
}

impl Lambertian {
    /// A black diffuse surface, the default material of a blank record.
    pub fn new() -> (r: Lambertian)
        ensures
            r.albedo@ == (0int, 0int, 0int),
            mat_wf(Material::Lambertian(r)),
    {
        Lambertian { albedo: Vec3::new() }
    }
}

impl Metal {
    /// A specular surface; the fuzz parameter is clamped into the unit
    /// interval.
    pub fn new_albedo_fuzz(albedo: Vec3, fuzz: i64) -> (r: Metal)
        requires
            rgb_wf(albedo@),
        ensures
            r.albedo == albedo,
            r.fuzz as int == clamp_s(fuzz as int, 0, ONE as int),
            mat_wf(Material::Metal(r)),
    {
        Metal { albedo, fuzz: clamp_i(fuzz, 0, ONE) }
    }
}

impl Dielectric {
    /// A refractive surface; the index must be representable together
    /// with its reciprocal, which bounds it within `[1/16, 16]`.
    pub fn new(ir: i64) -> (r: Dielectric)
        requires
            4096 <= ir <= 16 * ONE,
        ensures
            r.ir == ir,
            mat_wf(Material::Dielectric(r)),
    {
        Dielectric { ir }
    }
}

/// Schlick's reflectance approximation:
/// `r0 + (1 - r0) * (1 - cos)^5` with `r0 = ((1 - idx)/(1 + idx))^2`.
pub open spec fn reflectance_s(cos: int, idx: int) -> int {
    let r0 = fxd((ONE as int) - idx, (ONE as int) + idx);
    let r0sq = fxm(r0, r0);
    let m1 = (ONE as int) - cos;
    let p2 = fxm(m1, m1);
    let p4 = fxm(p2, p2);
    let p5 = fxm(p4, m1);
    r0sq + fxm((ONE as int) - r0sq, p5)
}

/// What a material scatters, as a function of the incoming direction
/// `rd`, the hit point `p`, the oriented normal `n`, the front-face
/// flag, and the random draws `uv` (a sampled vector) and `d` (a
/// unit-interval scalar): the attenuation and the scattered direction,
/// or `None` for absorption.  A scattered direction that leaves the
/// representable range is absorbed.
pub open spec fn scatter_s(
    m: Material,
    rd: (int, int, int),
    p: (int, int, int),
    n: (int, int, int),
    ff: bool,
    uv: (int, int, int),
    d: int,
) -> Option<((int, int, int), (int, int, int))> {
    match m {
        Material::Lambertian(l) => Some((l.albedo@, add_s(n, uv))),
        Material::Metal(mm) => {
            if nsq_s(rd) < 1 {
                None
            } else {
                let u = unit_s(rd);
                if !in_range_s(u, 2 * ONE as int) {
                    None
                } else {
                    let dir = add_s(reflect_s(u, n), scale_s(uv, mm.fuzz as int));
                    if dot_s(dir, n) > 0 && in_range_s(dir, COORD_LIM as int) {
                        Some((mm.albedo@, dir))
                    } else {
                        None
                    }
                }
            }
        },
        Material::Dielectric(dd) => {
            if nsq_s(rd) < 1 {
                None
            } else {
                let u = unit_s(rd);
                if !in_range_s(u, 2 * ONE as int) {
                    None
                } else {
                    let ratio = if ff {
                        fxd(ONE as int, dd.ir as int)
                    } else {
                        dd.ir as int
                    };
                    let cos = clamp_s(dot_s(neg_s(u), n), -(ONE as int), ONE as int);
                    let sin = fx_sqrt_s((ONE as int) - fxm(cos, cos));
                    let cannot_refract = fxm(ratio, sin) > ONE as int;
                    let dir = if cannot_refract || reflectance_s(cos, ratio) > d {
                        reflect_s(u, n)
                    } else {
                        refract_s(u, n, ratio)
                    };
                    if in_range_s(dir, COORD_LIM as int) {
                        Some(((ONE as int, ONE as int, ONE as int), dir))
                    } else {
                        None
                    }
                }
            }
        },
    }
}

/// The draws a scattering step may consume, as the samplers guarantee
/// them: for a diffuse surface a point of the unit-sphere
/// parametrization, for a specular surface a point strictly inside the
/// unit ball, and for a refractive surface only the unit-interval
/// scalar that picks between reflection and refraction.
pub open spec fn draws_ok_for(m: Material, uv: (int, int, int), d: int) -> bool {
    0 <= d < ONE as int && match m {
        Material::Lambertian(_) => exists|a: int, z: int|
            0 <= a < crate::fx::TWO_PI_FX as int && -(ONE as int) <= z < ONE as int && uv
                == #[trigger] crate::vec3::sph_dir_s(a, z),
        Material::Metal(_) => in_range_s(uv, ONE as int) && nsq_s(uv) < ONE as int,
        Material::Dielectric(_) => uv == (0int, 0int, 0int),
    }
}

impl Material {
    /// Scatters the incoming ray at the hit described by `rec`,
    /// consuming random draws; returns the attenuation and scattered
    /// ray, or `None` for absorption.  The result is exactly
    /// `scatter_s` at some admissible draws.
    pub fn scatter(&self, r_in: &Ray, rec: &crate::hittable::HitRecord, rng: &mut Rng) -> (res:
        Option<(Vec3, Ray)>)
        requires
            mat_wf(*self),
            in_range_s(r_in.direction@, RAY_LIM as int),
            in_range_s(rec.p@, COORD_LIM as int),
            in_range_s(rec.normal@, NORM_LIM as int),
        ensures
            exists|uv: (int, int, int), d: int|
                #[trigger] draws_ok_for(*self, uv, d) && res_matches_scatter(
                    *self,
                    r_in.direction@,
                    rec.p@,
                    rec.normal@,
                    rec.front_face,
                    uv,
                    d,
                    res,
                ),
            res.is_some() ==> {
                &&& rgb_wf(res.unwrap().0@)
                &&& res.unwrap().1.origin == rec.p
                &&& in_range_s(res.unwrap().1.direction@, COORD_LIM as int)
            },
    {
        let ghost rd = r_in.direction@;
        let ghost n = rec.normal@;
        match self {
            Material::Lambertian(l) => {
                let uv = Vec3::random_unit_vector(rng);
                proof {
                    lemma_fxm_unit(0, 0);
                }
                let dir = rec.normal.add(uv);
                let res = Some((l.albedo, Ray { origin: rec.p, direction: dir }));
                proof {
                    assert(draws_ok_for(*self, uv@, 0) && res_matches_scatter(
                        *self, rd, rec.p@, n, rec.front_face, uv@, 0, res,
                    ));
                }
                res
            },
            Material::Metal(mm) => {
                let uv = Vec3::random_in_unit_sphere(rng);
                if r_in.direction.norm_squared() < 1 {
                    let res: Option<(Vec3, Ray)> = None;
                    proof {
                        assert(draws_ok_for(*self, uv@, 0) && res_matches_scatter(
                            *self, rd, rec.p@, n, rec.front_face, uv@, 0, res,
                        ));
                    }
                    return res;
                }
                let u = r_in.direction.normalize();
                if !in_range_v(&u, 2 * ONE) {
                    let res: Option<(Vec3, Ray)> = None;
                    proof {
                        assert(draws_ok_for(*self, uv@, 0) && res_matches_scatter(
                            *self, rd, rec.p@, n, rec.front_face, uv@, 0, res,
                        ));
                    }
                    return res;
                }
                let refl = Vec3::reflect(u, rec.normal);
                proof {
                    lemma_dot_le(u@, n, 2 * ONE as int, NORM_LIM as int);
                    lemma_scale_le(n, 2 * dot_s(u@, n), NORM_LIM as int, 0x30_0000);
                    lemma_scale_le(uv@, mm.fuzz as int, ONE as int, ONE as int);
                }
                let dir = refl.add(uv.scale(mm.fuzz));
                proof {
                    lemma_dot_le(dir@, n, 0x7fff_ffff_ffff, NORM_LIM as int);
                }
                let res: Option<(Vec3, Ray)> = if Vec3::dot(dir, rec.normal) > 0 && in_range_v(
                    &dir,
                    COORD_LIM,
                ) {
                    Some((mm.albedo, Ray { origin: rec.p, direction: dir }))
                } else {
                    None
                };
                proof {
                    assert(draws_ok_for(*self, uv@, 0) && res_matches_scatter(
                        *self, rd, rec.p@, n, rec.front_face, uv@, 0, res,
                    ));
                }
                res
            },
            Material::Dielectric(dd) => {
                let d = rng.next_unit();
                let ghost gz = (0int, 0int, 0int);
                if r_in.direction.norm_squared() < 1 {
                    let res: Option<(Vec3, Ray)> = None;
                    proof {
                        assert(draws_ok_for(*self, gz, d as int) && res_matches_scatter(
                            *self, rd, rec.p@, n, rec.front_face, gz, d as int, res,
                        ));
                    }
                    return res;
                }
                let u = r_in.direction.normalize();
                if !in_range_v(&u, 2 * ONE) {
                    let res: Option<(Vec3, Ray)> = None;
                    proof {
                        assert(draws_ok_for(*self, gz, d as int) && res_matches_scatter(
                            *self, rd, rec.p@, n, rec.front_face, gz, d as int, res,
                        ));
                    }
                    return res;
                }
                let ratio = if rec.front_face {
                    proof {
                        crate::fx::lemma_sdiv_mag((ONE as int) * (ONE as int), dd.ir as int);
                        vstd::arithmetic::div_mod::lemma_div_is_ordered_by_denominator(
                            (ONE as int) * (ONE as int),
                            dd.ir as int,
                            16 * ONE as int,
                        );
                        vstd::arithmetic::div_mod::lemma_div_is_ordered_by_denominator(
                            (ONE as int) * (ONE as int),
                            4096,
                            dd.ir as int,
                        );
                    }
                    fx_div(ONE, dd.ir)
                } else {
                    dd.ir
                };
                assert(1 <= ratio <= 0x10_0000);
                proof {
                    lemma_dot_le(neg_s(u@), n, 2 * ONE as int, NORM_LIM as int);
                    lemma_dot_neg(u@, n);
                }
                let cos = clamp_i(-Vec3::dot(u, rec.normal), -ONE, ONE);
                proof {
                    lemma_fxm_le(cos as int, cos as int, ONE as int, ONE as int);
                    lemma_nsq_nonneg((cos as int, 0int, 0int));
                }
                let zz = fx_mul(cos, cos);
                let sin = fx_sqrt(ONE - zz);
                assert(sin <= ONE) by (nonlinear_arith)
                    requires
                        0 <= sin,
                        is_sqrt((ONE - zz) as int * (ONE as int), sin as int),
                        0 <= zz,
                        ONE == 65536,
                ;
                proof {
                    lemma_fxm_le(ratio as int, sin as int, 0x10_0000, ONE as int);
                }
                let cannot_refract = fx_mul(ratio, sin) > ONE;
                let use_reflect = if cannot_refract {
                    true
                } else {
                    reflectance(cos, ratio) > d
                };
                let dir = if use_reflect {
                    Vec3::reflect(u, rec.normal)
                } else {
                    Vec3::refract(u, rec.normal, ratio)
                };
                let res: Option<(Vec3, Ray)> = if in_range_v(&dir, COORD_LIM) {
                    Some((Vec3(ONE, ONE, ONE), Ray { origin: rec.p, direction: dir }))
                } else {
                    None
                };
                proof {
                    assert(draws_ok_for(*self, gz, d as int) && res_matches_scatter(
                        *self, rd, rec.p@, n, rec.front_face, gz, d as int, res,
                    ));
                }
                res
            },
        }
    }
}

/// Relates an executable scattering result to the spec-level one.
pub open spec fn res_matches_scatter(
    m: Material,
    rd: (int, int, int),
    p: (int, int, int),
    n: (int, int, int),
    ff: bool,
    uv: (int, int, int),
    d: int,
    res: Option<(Vec3, Ray)>,
) -> bool {
    match scatter_s(m, rd, p, n, ff, uv, d) {
        None => res.is_none(),
        Some((att, sdir)) => {
            &&& res.is_some()
            &&& res.unwrap().0@ == att
            &&& res.unwrap().1.origin@ == p
            &&& res.unwrap().1.direction@ == sdir
        },
    }
}

/// Executable Schlick reflectance.
pub fn reflectance(cos: i64, idx: i64) -> (r: i64)
    requires
        -ONE <= cos <= ONE,
        1 <= idx <= 0x10_0000,
    ensures
        r as int == reflectance_s(cos as int, idx as int),
{
    let r0 = fx_div(ONE - idx, ONE + idx);
    proof {
        crate::fx::lemma_fxd_le((ONE as int) - idx, (ONE as int) + idx, 0x10_0000);
        lemma_fxm_le(r0 as int, r0 as int, 0x10_0000_0000, 0x10_0000_0000);
    }
    let r0sq = fx_mul(r0, r0);
    let m1 = ONE - cos;
    proof {
        lemma_fxm_le(m1 as int, m1 as int, 2 * ONE as int, 2 * ONE as int);
        lemma_fxm_le(
            fxm(m1 as int, m1 as int),
            fxm(m1 as int, m1 as int),
            4 * ONE as int,
            4 * ONE as int,
        );
        lemma_fxm_le(
            fxm(fxm(m1 as int, m1 as int), fxm(m1 as int, m1 as int)),
            m1 as int,
            16 * ONE as int,
            2 * ONE as int,
        );
        lemma_fxm_le(
            (ONE as int) - fxm(r0 as int, r0 as int),
            fxm(
                fxm(fxm(m1 as int, m1 as int), fxm(m1 as int, m1 as int)),
                m1 as int,
            ),
            0x200_0000_0000_0000,
            32 * ONE as int,
        );
    }
    let p2 = fx_mul(m1, m1);
    let p4 = fx_mul(p2, p2);
    let p5 = fx_mul(p4, m1);
    r0sq + fx_mul(ONE - r0sq, p5)
}

} // verus!
