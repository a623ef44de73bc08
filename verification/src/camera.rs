//! The camera: maps normalized image-plane coordinates to world rays,
//! modeling field of view, aspect ratio, aperture and orientation.

use vstd::prelude::*;
use crate::fx::{ONE, HALF_PI_FX, PI_FX, mag, fxm, fxd, fx_mul, fx_div, lemma_fxm_le};
use crate::vec3::{
    Vec3, in_range_s, add_s, sub_s, scale_s, divs_s, cross_s, nsq_s, unit_s, lemma_dot_le,
    lemma_scale_le, in_range_v,
};
use crate::ray::Ray;
use crate::rng::Rng;
use crate::rt::{CAM_LIM, RAY_LIM, COORD_LIM, d2r_s, degrees_to_radians};
use crate::trig::{sin_s, cos_s, fx_sin, fx_cos};

verus! {

/// A camera, computed once at construction and immutable thereafter.
pub struct Camera {
    pub origin: Vec3,
    pub lower_left_corner: Vec3,
    pub horizontal: Vec3,
    pub vertical: Vec3,
    pub u: Vec3,
    pub v: Vec3,
    pub w: Vec3,
    pub lens_radius: i64,
}

/// A representable camera: bounded frame vectors, near-unit basis,
/// bounded lens radius.
pub open spec fn camera_wf(c: Camera) -> bool {
    &&& in_range_s(c.origin@, CAM_LIM as int)
    &&& in_range_s(c.lower_left_corner@, CAM_LIM as int)
    &&& in_range_s(c.horizontal@, CAM_LIM as int)
    &&& in_range_s(c.vertical@, CAM_LIM as int)
    &&& in_range_s(c.u@, 8 * ONE as int)
    &&& in_range_s(c.v@, 8 * ONE as int)
    &&& in_range_s(c.w@, 8 * ONE as int)
    &&& 0 <= c.lens_radius <= 8 * ONE
}

/// The construction mirror: the camera's parts as
/// `(origin, lower left corner, horizontal, vertical, u, v, w, lens
/// radius)`, or `None` where a guard rejects a degenerate or
/// unrepresentable configuration.
pub open spec fn camera_s(
    lf: (int, int, int),
    la: (int, int, int),
    vup: (int, int, int),
    vfov: int,
    aspect: int,
    aperture: int,
    focus: int,
) -> Option<
    (
        (int, int, int),
        (int, int, int),
        (int, int, int),
        (int, int, int),
        (int, int, int),
        (int, int, int),
        (int, int, int),
        int,
    ),
> {
    let half = fxd(d2r_s(vfov), 2 * ONE as int);
    if !(0 <= half <= HALF_PI_FX as int) || cos_s(half) <= 0 {
        None
    } else {
        let h = fxd(sin_s(half), cos_s(half));
        if !(0 <= h <= 16 * ONE as int) {
            None
        } else {
            let vh = fxm(2 * ONE as int, h);
            let vw = fxm(aspect, vh);
            let wr = sub_s(lf, la);
            if nsq_s(wr) < 1 {
                None
            } else {
                let w = unit_s(wr);
                if !in_range_s(w, 2 * ONE as int) {
                    None
                } else {
                    let ur = cross_s(vup, w);
                    if nsq_s(ur) < 1 {
                        None
                    } else {
                        let u = unit_s(ur);
                        if !in_range_s(u, 2 * ONE as int) {
                            None
                        } else {
                            let v = cross_s(w, u);
                            let horizontal = scale_s(u, fxm(vw, focus));
                            let vertical = scale_s(v, fxm(vh, focus));
                            if !(in_range_s(horizontal, CAM_LIM as int) && in_range_s(
                                vertical,
                                CAM_LIM as int,
                            )) {
                                None
                            } else {
                                let llc = sub_s(
                                    sub_s(
                                        sub_s(lf, divs_s(horizontal, 2 * ONE as int)),
                                        divs_s(vertical, 2 * ONE as int),
                                    ),
                                    scale_s(w, focus),
                                );
                                if !in_range_s(llc, CAM_LIM as int) {
                                    None
                                } else {
                                    let lens = fxd(aperture, 2 * ONE as int);
                                    Some((lf, llc, horizontal, vertical, u, v, w, lens))
                                }
                            }
                        }
                    }
                }
            }
        }
    }
}

/// The ray generated for image-plane coordinates `(s, t)` and a lens
/// draw `dk`: origin offset on the lens disk, direction at the
/// corresponding viewport point.
pub open spec fn get_ray_s(
    c: Camera,
    s: int,
    t: int,
    dk: (int, int, int),
) -> ((int, int, int), (int, int, int)) {
    let rd = scale_s(dk, c.lens_radius as int);
    let offset = add_s(scale_s(c.u@, rd.0), scale_s(c.v@, rd.1));
    let origin = add_s(c.origin@, offset);
    let dir = sub_s(
        sub_s(
            add_s(add_s(c.lower_left_corner@, scale_s(c.horizontal@, s)), scale_s(c.vertical@, t)),
            c.origin@,
        ),
        offset,
    );
    (origin, dir)
}

impl Camera {
    /// Builds a camera from orientation, vertical field of view in
    /// fixed-point degrees, aspect ratio, aperture and focus distance;
    /// `None` exactly where a degenerate or unrepresentable
    /// configuration is rejected.
    pub fn new(
        lookfrom: Vec3,
        lookat: Vec3,
        vup: Vec3,
        vfov: i64,
        aspect_ratio: i64,
        aperture: i64,
        focus_dist: i64,
    ) -> (r: Option<Camera>)
        requires
            in_range_s(lookfrom@, CAM_LIM as int),
            in_range_s(lookat@, CAM_LIM as int),
            in_range_s(vup@, CAM_LIM as int),
            0 < vfov <= 179 * ONE,
            0 < aspect_ratio <= 16 * ONE,
            0 <= aperture <= 16 * ONE,
            1 <= focus_dist <= COORD_LIM,
        ensures
            r.is_some() == camera_s(
                lookfrom@,
                lookat@,
                vup@,
                vfov as int,
                aspect_ratio as int,
                aperture as int,
                focus_dist as int,
            ).is_some(),
            r.is_some() ==> {
                let c = r.unwrap();
                let m = camera_s(
                    lookfrom@,
                    lookat@,
                    vup@,
                    vfov as int,
                    aspect_ratio as int,
                    aperture as int,
                    focus_dist as int,
                ).unwrap();
                &&& c.origin@ == m.0
                &&& c.lower_left_corner@ == m.1
                &&& c.horizontal@ == m.2
                &&& c.vertical@ == m.3
                &&& c.u@ == m.4
                &&& c.v@ == m.5
                &&& c.w@ == m.6
                &&& c.lens_radius as int == m.7
                &&& camera_wf(c)
            },
    {
        let theta = degrees_to_radians(vfov);
        proof {
            lemma_fxm_le(vfov as int, PI_FX as int, 179 * ONE as int, PI_FX as int);
            crate::fx::lemma_fxd_le(
                fxm(vfov as int, PI_FX as int),
                180 * ONE as int,
                0x4_0000_0000,
            );
        }
        let half = fx_div(theta, 2 * ONE);
        if !(0 <= half && half <= HALF_PI_FX) {
            return None;
        }
        let c = fx_cos(half);
        if c <= 0 {
            return None;
        }
        let s = fx_sin(half);
        let h = fx_div(s, c);
        if !(0 <= h && h <= 16 * ONE) {
            return None;
        }
        proof {
            lemma_fxm_le(2 * ONE as int, h as int, 2 * ONE as int, 16 * ONE as int);
            lemma_fxm_le(
                aspect_ratio as int,
                fxm(2 * ONE as int, h as int),
                16 * ONE as int,
                32 * ONE as int,
            );
        }
        let viewport_height = fx_mul(2 * ONE, h);
        let viewport_width = fx_mul(aspect_ratio, viewport_height);
        let wr = lookfrom.sub(lookat);
        if wr.norm_squared() < 1 {
            return None;
        }
        let w = wr.normalize();
        if !in_range_v(&w, 2 * ONE) {
            return None;
        }
        let ur = Vec3::cross(vup, w);
        proof {
            lemma_dot_le(vup@, w@, CAM_LIM as int, 2 * ONE as int);
        }
        if ur.norm_squared() < 1 {
            return None;
        }
        let u = ur.normalize();
        if !in_range_v(&u, 2 * ONE) {
            return None;
        }
        let v = Vec3::cross(w, u);
        proof {
            lemma_dot_le(w@, u@, 2 * ONE as int, 2 * ONE as int);
            lemma_fxm_le(viewport_width as int, focus_dist as int, 512 * ONE as int, COORD_LIM as int);
            lemma_fxm_le(viewport_height as int, focus_dist as int, 32 * ONE as int, COORD_LIM as int);
            lemma_scale_le(u@, fxm(viewport_width as int, focus_dist as int), 2 * ONE as int, 0x2_0000_0000_0000);
            lemma_scale_le(
                cross_s(w@, u@),
                fxm(viewport_height as int, focus_dist as int),
                8 * ONE as int,
                0x2000_0000_0000,
            );
        }
        let horizontal = u.scale(fx_mul(viewport_width, focus_dist));
        let vertical = v.scale(fx_mul(viewport_height, focus_dist));
        if !(in_range_v(&horizontal, CAM_LIM) && in_range_v(&vertical, CAM_LIM)) {
            return None;
        }
        proof {
            lemma_scale_le(w@, focus_dist as int, 2 * ONE as int, COORD_LIM as int);
        }
        let llc = lookfrom.sub(horizontal.div(2 * ONE)).sub(vertical.div(2 * ONE)).sub(
            w.scale(focus_dist),
        );
        if !in_range_v(&llc, CAM_LIM) {
            return None;
        }
        let lens_radius = fx_div(aperture, 2 * ONE);
        proof {
            crate::fx::lemma_fxd_le(aperture as int, 2 * ONE as int, 16 * ONE as int);
            crate::fx::lemma_sdiv_mag(aperture as int * (ONE as int), 2 * ONE as int);
            vstd::arithmetic::div_mod::lemma_div_pos_is_pos(
                mag(aperture as int * (ONE as int)),
                2 * ONE as int,
            );
        }
        assert(0 <= lens_radius && lens_radius <= 8 * ONE) by (nonlinear_arith)
            requires
                lens_radius as int == fxd(aperture as int, 2 * ONE as int),
                0 <= aperture <= 16 * ONE,
                ONE == 65536,
                fxd(aperture as int, 2 * ONE as int) == (aperture as int * (ONE as int)) / (2
                    * ONE as int),
        ;
        Some(
            Camera {
                origin: lookfrom,
                lower_left_corner: llc,
                horizontal,
                vertical,
                u,
                v,
                w,
                lens_radius,
            },
        )
    }

    /// The ray through normalized image-plane coordinates `(s, t)`,
    /// with a random lens-disk offset for defocus blur.
    pub fn get_ray(&self, s: i64, t: i64, rng: &mut Rng) -> (r: Ray)
        requires
            camera_wf(*self),
            0 <= s <= 2 * ONE,
            0 <= t <= 2 * ONE,
        ensures
            in_range_s(r.origin@, RAY_LIM as int),
            in_range_s(r.direction@, RAY_LIM as int),
            exists|dk: (int, int, int)|
                (#[trigger] in_range_s(dk, ONE as int)) && nsq_s(dk) < ONE && dk.2 == 0 && {
                    let m = get_ray_s(*self, s as int, t as int, dk);
                    r.origin@ == m.0 && r.direction@ == m.1
                },
    {
        let ghost cam = *self;
        let dk = Vec3::random_in_unit_disk(rng);
        proof {
            lemma_scale_le(dk@, self.lens_radius as int, ONE as int, 8 * ONE as int);
        }
        let rd = dk.scale(self.lens_radius);
        assert(mag(rd@.0) <= 8 * ONE && mag(rd@.1) <= 8 * ONE);
        proof {
            lemma_scale_le(self.u@, rd@.0, 8 * ONE as int, 8 * ONE as int);
            lemma_scale_le(self.v@, rd@.1, 8 * ONE as int, 8 * ONE as int);
            lemma_scale_le(self.horizontal@, s as int, CAM_LIM as int, 2 * ONE as int);
            lemma_scale_le(self.vertical@, t as int, CAM_LIM as int, 2 * ONE as int);
        }
        assert((8 * ONE as int * (8 * ONE as int)) / (ONE as int) == 64 * ONE as int)
            by (nonlinear_arith);
        assert((CAM_LIM as int * (2 * ONE as int)) / (ONE as int) == 2 * CAM_LIM as int)
            by (nonlinear_arith);
        let offset = self.u.scale(rd.0).add(self.v.scale(rd.1));
        let origin = self.origin.add(offset);
        let dir = self.lower_left_corner.add(self.horizontal.scale(s)).add(
            self.vertical.scale(t),
        ).sub(self.origin).sub(offset);
        let r = Ray { origin, direction: dir };
        proof {
            let m = get_ray_s(cam, s as int, t as int, dk@);
            assert(r.origin@ == m.0 && r.direction@ == m.1);
        }
        r
    }
}

} // verus!
