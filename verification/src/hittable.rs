//! The intersection protocol: hit records, the `Hittable` capability,
//! and the scene aggregate that answers nearest-hit queries.

use vstd::prelude::*;
use crate::vec3::{Vec3, in_range_s, neg_s, dot_s, lemma_dot_le, lemma_dot_neg};
use crate::ray::Ray;
use crate::material::{Material, Lambertian, mat_wf};
use crate::rt::{COORD_LIM, RAY_LIM, NORM_LIM, T_FAR};
use crate::sphere::{Sphere, sphere_wf, sphere_hit_s};

verus! {

/// Where and how a ray struck a surface.
#[derive(Clone, Copy)]
pub struct HitRecord {
    pub p: Vec3,
    pub normal: Vec3,
    pub mat: Material,
    pub t: i64,
    pub front_face: bool,
}

/// A well-formed record: representable point, bounded normal oriented
/// against the ray, a parameter in the searched interval, and a
/// well-formed material.
pub open spec fn rec_wf(rec: HitRecord) -> bool {
    &&& in_range_s(rec.p@, COORD_LIM as int)
    &&& in_range_s(rec.normal@, NORM_LIM as int)
    &&& 0 <= rec.t <= T_FAR
    &&& mat_wf(rec.mat)
}

impl HitRecord {
    /// A blank record, to be filled by a successful intersection test.
    pub fn new() -> (r: HitRecord)
        ensures
            r.p@ == (0int, 0int, 0int),
            r.normal@ == (0int, 0int, 0int),
            r.t == 0,
            r.front_face == false,
            r.mat == Material::Lambertian((Lambertian { albedo: Vec3(0, 0, 0) })),
            rec_wf(r),
    {
        HitRecord {
            p: Vec3::new(),
            normal: Vec3::new(),
            mat: Material::Lambertian(Lambertian::new()),
            t: 0,
            front_face: false,
        }
    }

    /// Orients the stored normal against the incoming ray: the front
    /// face is hit exactly when the ray runs against the outward
    /// normal, and the stored normal never points along the ray.
    pub fn set_face_normal(&mut self, r: Ray, outward_normal: Vec3)
        requires
            in_range_s(r.direction@, RAY_LIM as int),
            in_range_s(outward_normal@, NORM_LIM as int),
        ensures
            final(self).front_face == (dot_s(r.direction@, outward_normal@) < 0),
            final(self).normal@ == if dot_s(r.direction@, outward_normal@) < 0 {
                outward_normal@
            } else {
                neg_s(outward_normal@)
            },
            dot_s(r.direction@, final(self).normal@) <= 0,
            final(self).p == old(self).p,
            final(self).mat == old(self).mat,
            final(self).t == old(self).t,
    {
        proof {
            lemma_dot_le(r.direction@, outward_normal@, RAY_LIM as int, NORM_LIM as int);
            lemma_dot_neg(r.direction@, outward_normal@);
        }
        let d = Vec3::dot(r.direction, outward_normal);
        self.front_face = d < 0;
        self.normal = if self.front_face {
            outward_normal
        } else {
            outward_normal.neg()
        };
    }
}

/// The capability of reporting ray intersections inside an interval.
pub trait Hittable {
    /// The shape's own well-formedness.
    spec fn wf(&self) -> bool;

    /// Reports whether the ray hits inside `[t_min, t_max]`, filling
    /// the record on success with a well-formed, interval-bounded hit
    /// whose normal is oriented against the ray.
    fn hit(&self, r: Ray, t_min: i64, t_max: i64, rec: &mut HitRecord) -> (b: bool)
        requires
            self.wf(),
            in_range_s(r.origin@, RAY_LIM as int),
            in_range_s(r.direction@, RAY_LIM as int),
            0 <= t_min,
            t_max <= T_FAR,
        ensures
            b ==> rec_wf(*final(rec)) && t_min <= final(rec).t <= t_max && dot_s(
                r.direction@,
                final(rec).normal@,
            ) <= 0,
            !b ==> *final(rec) == *old(rec),
    ;
}

/// The scene: an ordered sequence of primitives queried by linear scan.
pub struct HittableList {
    pub objects: Vec<Sphere>,
}

/// Every primitive of the scene is well-formed.
pub open spec fn list_wf(objs: Seq<Sphere>) -> bool {
    forall|i: int| 0 <= i < objs.len() ==> sphere_wf(#[trigger] objs[i])
}

/// The scan's result after the first `i` primitives: the record of the
/// nearest accepted hit, as `(t, point, outward normal, material)`.
pub open spec fn list_hit_s(
    objs: Seq<Sphere>,
    ro: (int, int, int),
    rd: (int, int, int),
    t_min: int,
    t_max: int,
    i: int,
) -> Option<(int, (int, int, int), (int, int, int), Material)>
    decreases i,
{
    if i <= 0 {
        None
    } else {
        let prev = list_hit_s(objs, ro, rd, t_min, t_max, i - 1);
        let cur_max = match prev {
            Some(h) => h.0,
            None => t_max,
        };
        match sphere_hit_s(objs[i - 1], ro, rd, t_min, cur_max) {
            None => prev,
            Some(h) => Some((h.0, h.1, h.2, objs[i - 1].mat)),
        }
    }
}

impl HittableList {
    /// An empty scene.
    pub fn new() -> (r: HittableList)
        ensures
            r.objects@.len() == 0,
    {
        HittableList { objects: Vec::new() }
    }

    /// Appends a primitive; order of insertion is kept.
    pub fn add(&mut self, object: Sphere)
        requires
            sphere_wf(object),
        ensures
            final(self).objects@ == old(self).objects@.push(object),
    {
        self.objects.push(object);
    }

    /// The nearest hit across all primitives, by linear scan with a
    /// shrinking search interval.
    pub fn hit(&self, r: Ray, t_min: i64, t_max: i64, rec: &mut HitRecord) -> (b: bool)
        requires
            list_wf(self.objects@),
            in_range_s(r.origin@, RAY_LIM as int),
            in_range_s(r.direction@, RAY_LIM as int),
            0 <= t_min,
            t_max <= T_FAR,
        ensures
            b == list_hit_s(
                self.objects@,
                r.origin@,
                r.direction@,
                t_min as int,
                t_max as int,
                self.objects@.len() as int,
            ).is_some(),
            b ==> {
                let h = list_hit_s(
                    self.objects@,
                    r.origin@,
                    r.direction@,
                    t_min as int,
                    t_max as int,
                    self.objects@.len() as int,
                ).unwrap();
                &&& final(rec).t as int == h.0
                &&& final(rec).p@ == h.1
                &&& final(rec).front_face == (dot_s(r.direction@, h.2) < 0)
                &&& final(rec).normal@ == if dot_s(r.direction@, h.2) < 0 {
                    h.2
                } else {
                    neg_s(h.2)
                }
                &&& final(rec).mat == h.3
                &&& rec_wf(*final(rec))
                &&& t_min <= final(rec).t <= t_max
                &&& dot_s(r.direction@, final(rec).normal@) <= 0
            },
            !b ==> *final(rec) == *old(rec),
    {
        let ghost ro = r.origin@;
        let ghost rd = r.direction@;
        let mut temp_rec = HitRecord::new();
        let mut hit_anything: bool = false;
        let mut closest_so_far: i64 = t_max;
        let n = self.objects.len();
        let mut i: usize = 0;
        while i < n
            invariant
                n == self.objects@.len(),
                0 <= i <= n,
                list_wf(self.objects@),
                in_range_s(ro, RAY_LIM as int),
                in_range_s(rd, RAY_LIM as int),
                ro == r.origin@,
                rd == r.direction@,
                0 <= t_min,
                t_max <= T_FAR,
                hit_anything == list_hit_s(
                    self.objects@,
                    ro,
                    rd,
                    t_min as int,
                    t_max as int,
                    i as int,
                ).is_some(),
                hit_anything ==> {
                    let h = list_hit_s(
                        self.objects@,
                        ro,
                        rd,
                        t_min as int,
                        t_max as int,
                        i as int,
                    ).unwrap();
                    &&& closest_so_far as int == h.0
                    &&& temp_rec.t as int == h.0
                    &&& temp_rec.p@ == h.1
                    &&& temp_rec.front_face == (dot_s(rd, h.2) < 0)
                    &&& temp_rec.normal@ == if dot_s(rd, h.2) < 0 {
                        h.2
                    } else {
                        neg_s(h.2)
                    }
                    &&& temp_rec.mat == h.3
                    &&& rec_wf(temp_rec)
                    &&& t_min <= temp_rec.t <= t_max
                    &&& dot_s(rd, temp_rec.normal@) <= 0
                },
                !hit_anything ==> closest_so_far == t_max,
                t_min <= closest_so_far || !hit_anything,
            decreases n - i,
        {
            let obj = &self.objects[i];
            if obj.hit(r, t_min, closest_so_far, &mut temp_rec) {
                hit_anything = true;
                closest_so_far = temp_rec.t;
            }
            i = i + 1;
        }
        if hit_anything {
            *rec = temp_rec;
        }
        hit_anything
    }
}

impl Hittable for HittableList {
    open spec fn wf(&self) -> bool {
        list_wf(self.objects@)
    }

    fn hit(&self, r: Ray, t_min: i64, t_max: i64, rec: &mut HitRecord) -> (b: bool) {
        HittableList::hit(self, r, t_min, t_max, rec)
    }
}

} // verus!
