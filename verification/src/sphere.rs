//! Ray–sphere intersection through the quadratic discriminant.

use vstd::prelude::*;
use crate::fx::{ONE, fxm, fxd, fx_sqrt_s, is_sqrt, fx_mul, fx_sqrt, fx_div, lemma_fxm_le};
use crate::vec3::{
    Vec3, in_range_s, sub_s, neg_s, dot_s, divs_s, lemma_dot_le, lemma_nsq_nonneg,
    lemma_scale_le, in_range_v,
};
use crate::ray::{Ray, ray_at_s};
use crate::material::{Material, mat_wf};
use crate::hittable::{HitRecord, Hittable, rec_wf};
use crate::rt::{COORD_LIM, RAY_LIM, NORM_LIM, T_FAR};

verus! {

/// A sphere with its material; immutable once the scene is built.
#[derive(Clone, Copy)]
pub struct Sphere {
    pub center: Vec3,
    pub radius: i64,
    pub mat: Material,
}

/// A representable sphere: bounded center, positive bounded radius,
/// well-formed material.
pub open spec fn sphere_wf(s: Sphere) -> bool {
    &&& in_range_s(s.center@, COORD_LIM as int)
    &&& 1 <= s.radius <= COORD_LIM
    &&& mat_wf(s.mat)
}

/// The nearest accepted intersection of the ray with the sphere in
/// `[t_min, t_max]`, as `(t, point, outward normal)`.  The quadratic
/// `|ro + t rd - center|^2 = radius^2` is solved in fixed point; the
/// smaller root is preferred; a candidate whose point or normal falls
/// outside the representable range is rejected.
pub open spec fn sphere_hit_s(
    s: Sphere,
    ro: (int, int, int),
    rd: (int, int, int),
    t_min: int,
    t_max: int,
) -> Option<(int, (int, int, int), (int, int, int))> {
    let oc = sub_s(ro, s.center@);
    let a = dot_s(rd, rd);
    let half_b = dot_s(oc, rd);
    let c = dot_s(oc, oc) - fxm(s.radius as int, s.radius as int);
    let disc = fxm(half_b, half_b) - fxm(a, c);
    if a <= 0 || disc < 0 {
        None
    } else {
        let sq = fx_sqrt_s(disc);
        let root1 = fxd(-half_b - sq, a);
        let root = if t_min <= root1 <= t_max {
            root1
        } else {
            fxd(-half_b + sq, a)
        };
        if !(t_min <= root <= t_max) {
            None
        } else {
            let p = ray_at_s(ro, rd, root);
            let out = divs_s(sub_s(p, s.center@), s.radius as int);
            if in_range_s(p, COORD_LIM as int) && in_range_s(out, NORM_LIM as int) {
                Some((root, p, out))
            } else {
                None
            }
        }
    }
}

impl Sphere {
    /// The nearest hit in `[t_min, t_max]`, filling the record.
    pub fn hit(&self, r: Ray, t_min: i64, t_max: i64, rec: &mut HitRecord) -> (b: bool)
        requires
            sphere_wf(*self),
            in_range_s(r.origin@, RAY_LIM as int),
            in_range_s(r.direction@, RAY_LIM as int),
            0 <= t_min,
            t_max <= T_FAR,
        ensures
            b == sphere_hit_s(
                *self,
                r.origin@,
                r.direction@,
                t_min as int,
                t_max as int,
            ).is_some(),
            b ==> {
                let h = sphere_hit_s(
                    *self,
                    r.origin@,
                    r.direction@,
                    t_min as int,
                    t_max as int,
                ).unwrap();
                &&& final(rec).t as int == h.0
                &&& final(rec).p@ == h.1
                &&& final(rec).front_face == (dot_s(r.direction@, h.2) < 0)
                &&& final(rec).normal@ == if dot_s(r.direction@, h.2) < 0 {
                    h.2
                } else {
                    neg_s(h.2)
                }
                &&& final(rec).mat == self.mat
                &&& rec_wf(*final(rec))
                &&& t_min <= final(rec).t <= t_max
                &&& dot_s(r.direction@, final(rec).normal@) <= 0
            },
            !b ==> *final(rec) == *old(rec),
    {
        let ghost ro = r.origin@;
        let ghost rd = r.direction@;
        let oc = r.origin.sub(self.center);
        proof {
            lemma_dot_le(rd, rd, RAY_LIM as int, RAY_LIM as int);
            lemma_dot_le(oc@, rd, 0x300_0000, RAY_LIM as int);
            lemma_dot_le(oc@, oc@, 0x300_0000, 0x300_0000);
            lemma_fxm_le(self.radius as int, self.radius as int, COORD_LIM as int, COORD_LIM as int);
            lemma_nsq_nonneg(rd);
        }
        let a = Vec3::dot(r.direction, r.direction);
        let half_b = Vec3::dot(oc, r.direction);
        let c = Vec3::dot(oc, oc) - fx_mul(self.radius, self.radius);
        proof {
            lemma_fxm_le(half_b as int, half_b as int, 0x12_0000_0000, 0x12_0000_0000);
            lemma_fxm_le(a as int, c as int, 0xC_0000_0000, 0x1C_0000_0000);
        }
        let disc = fx_mul(half_b, half_b) - fx_mul(a, c);
        if a <= 0 || disc < 0 {
            return false;
        }
        let sq = fx_sqrt(disc);
        assert(sq <= 0x20_0000_0000) by (nonlinear_arith)
            requires
                0 <= sq,
                is_sqrt(disc as int * (ONE as int), sq as int),
                disc <= 0x2A0_0000_0000_0000,
        ;
        let root1 = fx_div(-half_b - sq, a);
        let root = if t_min <= root1 && root1 <= t_max {
            root1
        } else {
            fx_div(-half_b + sq, a)
        };
        if !(t_min <= root && root <= t_max) {
            return false;
        }
        let p = r.at(root);
        proof {
            lemma_scale_le(rd, root as int, RAY_LIM as int, T_FAR as int);
        }
        let pc = p.sub(self.center);
        let out = pc.div(self.radius);
        if !(in_range_v(&p, COORD_LIM) && in_range_v(&out, NORM_LIM)) {
            return false;
        }
        rec.t = root;
        rec.p = p;
        rec.mat = self.mat;
        rec.set_face_normal(r, out);
        true
    }
}

impl Hittable for Sphere {
    open spec fn wf(&self) -> bool {
        sphere_wf(*self)
    }

    fn hit(&self, r: Ray, t_min: i64, t_max: i64, rec: &mut HitRecord) -> (b: bool) {
        Sphere::hit(self, r, t_min, t_max, rec)
    }
}

} // verus!
