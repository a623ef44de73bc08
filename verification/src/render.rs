//! The recursive color integrator, the background gradient, and the
//! per-pixel sampling driver with gamma correction.

use vstd::prelude::*;
use crate::fx::{
    ONE, mag, sdiv, fxm, fxd, fx_sqrt_s, is_sqrt, clamp_s, fx_mul, fx_div, fx_sqrt, clamp_i,
    lemma_fxm_unit, lemma_fxd_le,
};
use crate::vec3::{Vec3, in_range_s, add_s, neg_s, cmul_s, dot_s, nsq_s, unit_s};
use crate::ray::Ray;
use crate::rng::Rng;
use crate::hittable::{HittableList, HitRecord, list_wf, list_hit_s};
use crate::sphere::Sphere;
use crate::material::{Material, scatter_s, draws_ok_for, res_matches_scatter, rgb_wf};
use crate::camera::{Camera, camera_wf};
use crate::rt::{T_EPS, T_FAR, RAY_LIM};

verus! {

/// The sky color at the top of the background gradient's blue end.
pub const SKY_R: i64 = 32768;

pub const SKY_G: i64 = 45875;

pub const SKY_B: i64 = 65536;

/// The gradient parameter of a ray direction: its normalized vertical
/// component mapped from `[-1, 1]` into `[0, 1]`, clamped against
/// rounding overshoot.  A direction too short to normalize gets the
/// midpoint.
pub open spec fn bg_tt_s(rd: (int, int, int)) -> int {
    if nsq_s(rd) < 1 {
        32768
    } else {
        clamp_s(fxd(unit_s(rd).1 + ONE as int, 2 * ONE as int), 0, ONE as int)
    }
}

/// The background mix at gradient parameter `tt`: the sky color at
/// `tt = 0`, blending linearly to white at `tt = 1`.
pub open spec fn bg_mix_s(tt: int) -> (int, int, int) {
    (
        fxm(SKY_R as int, ONE as int - tt) + tt,
        fxm(SKY_G as int, ONE as int - tt) + tt,
        fxm(SKY_B as int, ONE as int - tt) + tt,
    )
}

/// The background color of a ray direction.
pub open spec fn bg_s(rd: (int, int, int)) -> (int, int, int) {
    bg_mix_s(bg_tt_s(rd))
}

/// The integrator's defining relation: `c` is a color the integrator
/// may return for this ray, scene and depth budget, for some
/// admissible random draws.  At depth zero the color is black; on a
/// miss it is the background; on a hit it is the scattered
/// attenuation times a color of the recursive call, or black on
/// absorption.
pub open spec fn color_ok(
    objs: Seq<Sphere>,
    ro: (int, int, int),
    rd: (int, int, int),
    depth: int,
    c: (int, int, int),
) -> bool
    decreases depth, 1int,
{
    if depth <= 0 {
        c == (0int, 0int, 0int)
    } else {
        let hit = list_hit_s(objs, ro, rd, T_EPS as int, T_FAR as int, objs.len() as int);
        if hit.is_none() {
            c == bg_s(rd)
        } else {
            exists|uv: (int, int, int), d: int|
                #[trigger] draws_ok_for(hit.unwrap().3, uv, d) && scatter_step_ok(
                    objs,
                    hit.unwrap(),
                    rd,
                    depth,
                    c,
                    uv,
                    d,
                )
        }
    }
}

/// One scattering step of the integrator's relation: at the hit `h`,
/// with draws `(uv, d)`, the color `c` is black on absorption and
/// otherwise the attenuation times a recursively valid color.
pub open spec fn scatter_step_ok(
    objs: Seq<Sphere>,
    h: (int, (int, int, int), (int, int, int), Material),
    rd: (int, int, int),
    depth: int,
    c: (int, int, int),
    uv: (int, int, int),
    d: int,
) -> bool
    decreases depth, 0int,
{
    if depth <= 0 {
        c == (0int, 0int, 0int)
    } else if step_scatter(h, rd, uv, d).is_none() {
        c == (0int, 0int, 0int)
    } else {
        exists|sub: (int, int, int)|
            color_ok(objs, h.1, step_scatter(h, rd, uv, d).unwrap().1, depth - 1, sub) && c == (
            #[trigger] cmul_s(step_scatter(h, rd, uv, d).unwrap().0, sub))
    }
}

/// The oriented normal of a hit: the outward normal turned against the
/// incoming ray.
pub open spec fn oriented_s(rd: (int, int, int), out: (int, int, int)) -> (int, int, int) {
    if dot_s(rd, out) < 0 {
        out
    } else {
        neg_s(out)
    }
}

/// The scattering outcome at a hit, for given draws.
pub open spec fn step_scatter(
    h: (int, (int, int, int), (int, int, int), Material),
    rd: (int, int, int),
    uv: (int, int, int),
    d: int,
) -> Option<((int, int, int), (int, int, int))> {
    scatter_s(h.3, rd, h.1, oriented_s(rd, h.2), dot_s(rd, h.2) < 0, uv, d)
}

/// The background gradient for a ray direction: white toward rays
/// pointing up, the sky color toward rays pointing down.
pub fn background(d: Vec3) -> (r: Vec3)
    requires
        in_range_s(d@, RAY_LIM as int),
    ensures
        r@ == bg_s(d@),
        rgb_wf(r@),
{
    let n2 = d.norm_squared();
    let tt: i64 = if n2 < 1 {
        32768
    } else {
        let u = d.normalize();
        proof {
            crate::fx::lemma_fx_sqrt_ge_one(nsq_s(d@));
            lemma_fxd_le(d@.1, crate::vec3::norm_s(d@), RAY_LIM as int);
        }
        clamp_i(fx_div(u.1 + ONE, 2 * ONE), 0, ONE)
    };
    proof {
        lemma_fxm_unit(ONE as int - tt, SKY_R as int);
        lemma_fxm_unit(ONE as int - tt, SKY_G as int);
        lemma_fxm_unit(ONE as int - tt, SKY_B as int);
        lemma_fxm_unit(SKY_R as int, ONE as int - tt);
        lemma_fxm_unit(SKY_G as int, ONE as int - tt);
        lemma_fxm_unit(SKY_B as int, ONE as int - tt);
        assert((SKY_R as int) * (ONE as int - tt) == (ONE as int - tt) * (SKY_R as int))
            by (nonlinear_arith);
        assert((SKY_G as int) * (ONE as int - tt) == (ONE as int - tt) * (SKY_G as int))
            by (nonlinear_arith);
        assert((SKY_B as int) * (ONE as int - tt) == (ONE as int - tt) * (SKY_B as int))
            by (nonlinear_arith);
    }
    Vec3(
        fx_mul(SKY_R, ONE - tt) + tt,
        fx_mul(SKY_G, ONE - tt) + tt,
        fx_mul(SKY_B, ONE - tt) + tt,
    )
}

impl Ray {
    /// The color seen along this ray: black once the depth budget is
    /// exhausted, the background on a miss, and otherwise the
    /// scattered attenuation times the recursively traced color.
    pub fn color(&self, world: &HittableList, depth: u32, rng: &mut Rng) -> (c: Vec3)
        requires
            list_wf(world.objects@),
            in_range_s(self.origin@, RAY_LIM as int),
            in_range_s(self.direction@, RAY_LIM as int),
        ensures
            rgb_wf(c@),
            color_ok(world.objects@, self.origin@, self.direction@, depth as int, c@),
            depth == 0 ==> c@ == (0int, 0int, 0int),
            depth > 0 && list_hit_s(
                world.objects@,
                self.origin@,
                self.direction@,
                T_EPS as int,
                T_FAR as int,
                world.objects@.len() as int,
            ).is_none() ==> c@ == bg_s(self.direction@),
        decreases depth,
    {
        let ghost ro = self.origin@;
        let ghost rd = self.direction@;
        let ghost objs = world.objects@;
        if depth == 0 {
            return Vec3::new();
        }
        let mut rec = HitRecord::new();
        if world.hit(*self, T_EPS, T_FAR, &mut rec) {
            let ghost h = list_hit_s(
                objs,
                ro,
                rd,
                T_EPS as int,
                T_FAR as int,
                objs.len() as int,
            ).unwrap();
            let res = rec.mat.scatter(self, &rec, rng);
            match res {
                Some(pair) => {
                    let (att, sray) = pair;
                    let sub = sray.color(world, depth - 1, rng);
                    proof {
                        lemma_fxm_unit(att@.0, sub@.0);
                        lemma_fxm_unit(att@.1, sub@.1);
                        lemma_fxm_unit(att@.2, sub@.2);
                    }
                    let out = att.mul(sub);
                    proof {
                        let (uv, d) = choose|uv: (int, int, int), d: int|
                            #[trigger] draws_ok_for(rec.mat, uv, d) && res_matches_scatter(
                                rec.mat,
                                rd,
                                rec.p@,
                                rec.normal@,
                                rec.front_face,
                                uv,
                                d,
                                res,
                            );
                        let sres = step_scatter(h, rd, uv, d);
                        assert(sres == scatter_s(
                            rec.mat,
                            rd,
                            rec.p@,
                            rec.normal@,
                            rec.front_face,
                            uv,
                            d,
                        ));
                        assert(sres.is_some());
                        let a2 = sres.unwrap().0;
                        let sdir = sres.unwrap().1;
                        assert(sdir == sray.direction@);
                        assert(a2 == att@);
                        assert(color_ok(objs, h.1, sdir, depth as int - 1, sub@));
                        assert(out@ == cmul_s(a2, sub@));
        assert(color_ok(objs, h.1, sres.unwrap().1, depth as int - 1, sub@) && out@
                            == cmul_s(sres.unwrap().0, sub@));
                        assert(scatter_step_ok(objs, h, rd, depth as int, out@, uv, d));
                        assert(color_ok(objs, ro, rd, depth as int, out@));
                    }
                    out
                },
                None => {
                    let out = Vec3::new();
                    proof {
                        let (uv, d) = choose|uv: (int, int, int), d: int|
                            #[trigger] draws_ok_for(rec.mat, uv, d) && res_matches_scatter(
                                rec.mat,
                                rd,
                                rec.p@,
                                rec.normal@,
                                rec.front_face,
                                uv,
                                d,
                                res,
                            );
                        assert(step_scatter(h, rd, uv, d) == scatter_s(
                            rec.mat,
                            rd,
                            rec.p@,
                            rec.normal@,
                            rec.front_face,
                            uv,
                            d,
                        ));
                        assert(step_scatter(h, rd, uv, d).is_none());
                        assert(scatter_step_ok(objs, h, rd, depth as int, out@, uv, d));
                        assert(color_ok(objs, ro, rd, depth as int, out@));
                    }
                    out
                },
            }
        } else {
            background(self.direction)
        }
    }
}

/// Averages an accumulated color over the sample count and applies
/// gamma-2 correction (the square root of each channel).
pub open spec fn adjust_s(x: int, n: int) -> int {
    fx_sqrt_s(fxd(x, n * (ONE as int)))
}

/// Finalizes a pixel: divide by the sample count, gamma-correct.
pub fn adjust_color(c: Vec3, samples_per_pixel: u32) -> (r: Vec3)
    requires
        1 <= samples_per_pixel <= 65536,
        0 <= c@.0 <= samples_per_pixel * (ONE as int),
        0 <= c@.1 <= samples_per_pixel * (ONE as int),
        0 <= c@.2 <= samples_per_pixel * (ONE as int),
    ensures
        r@.0 == adjust_s(c@.0, samples_per_pixel as int),
        r@.1 == adjust_s(c@.1, samples_per_pixel as int),
        r@.2 == adjust_s(c@.2, samples_per_pixel as int),
        rgb_wf(r@),
{
    let n: i64 = (samples_per_pixel as i64) * ONE;
    let a0 = avg_channel(c.0, n);
    let a1 = avg_channel(c.1, n);
    let a2 = avg_channel(c.2, n);
    Vec3(a0, a1, a2)
}

/// One channel of `adjust_color`: truncating average, then square root.
fn avg_channel(x: i64, n: i64) -> (r: i64)
    requires
        ONE <= n <= 65536 * (ONE as int),
        0 <= x <= n,
    ensures
        r as int == fx_sqrt_s(fxd(x as int, n as int)),
        0 <= r <= ONE,
{
    proof {
        crate::fx::lemma_sdiv_mag(x as int * (ONE as int), n as int);
        vstd::arithmetic::div_mod::lemma_div_pos_is_pos(mag(x as int * (ONE as int)), n as int);
        vstd::arithmetic::div_mod::lemma_div_is_ordered(
            x as int * (ONE as int),
            n as int * (ONE as int),
            n as int,
        );
        vstd::arithmetic::div_mod::lemma_div_multiples_vanish(ONE as int, n as int);
        assert(x as int * (ONE as int) <= n as int * (ONE as int)) by (nonlinear_arith)
            requires
                0 <= x <= n,
                ONE == 65536,
        ;
        assert(x as int * (ONE as int) >= 0) by (nonlinear_arith)
            requires
                0 <= x,
        ;
    }
    let avg = fx_div(x, n);
    assert(0 <= avg && avg <= ONE);
    let g = fx_sqrt(avg);
    assert(g <= ONE) by (nonlinear_arith)
        requires
            0 <= g,
            is_sqrt(avg as int * (ONE as int), g as int),
            0 <= avg <= ONE,
            ONE == 65536,
    ;
    g
}

/// Quantizes a unit-interval channel to an 8-bit value:
/// `floor(256 * clamp(x, 0, 1 - 1/ONE))`.
pub open spec fn byte_s(x: int) -> int {
    sdiv(clamp_s(x, 0, ONE as int - 1) * 256, ONE as int)
}

/// The 8-bit display value of a channel.
pub fn channel_to_byte(x: i64) -> (r: u8)
    ensures
        r as int == byte_s(x as int),
{
    let c = clamp_i(x, 0, ONE - 1);
    proof {
        crate::fx::lemma_sdiv_mag(c as int * 256, ONE as int);
        vstd::arithmetic::div_mod::lemma_div_pos_is_pos(mag(c as int * 256), ONE as int);
        vstd::arithmetic::div_mod::lemma_div_is_ordered(
            c as int * 256,
            (65535 * 256) as int,
            ONE as int,
        );
        assert(c as int * 256 <= 65535 * 256) by (nonlinear_arith)
            requires
                c <= 65535,
        ;
        assert(c as int * 256 >= 0) by (nonlinear_arith)
            requires
                0 <= c,
        ;
        assert(65535 * 256 / 65536 == 255) by (nonlinear_arith);
    }
    let b = ((c as u64) * 256) / 65536;
    b as u8
}

/// The clamped jittered image-plane coordinate of pixel index `i` out
/// of `w`, for a unit-interval jitter draw `du`.
pub open spec fn jitter_s(i: int, w: int, du: int) -> int {
    clamp_s(fxd(i * (ONE as int) + du, (w - 1) * (ONE as int)), 0, 2 * ONE as int)
}

/// One sample of a pixel: for some jitter draws and lens-disk draw,
/// `c` is a color the integrator may return for the camera ray
/// through the jittered coordinates of pixel `(i, j)`.
pub open spec fn sample_ok(
    cam: Camera,
    objs: Seq<Sphere>,
    i: int,
    j: int,
    w: int,
    h: int,
    depth: int,
    c: (int, int, int),
) -> bool {
    exists|du: int, dv: int, dk: (int, int, int)|
        #![trigger jitter_s(i, w, du), jitter_s(j, h, dv), nsq_s(dk)]
        0 <= du < ONE as int && 0 <= dv < ONE as int && in_range_s(dk, ONE as int) && nsq_s(dk)
            < ONE as int && dk.2 == 0 && {
            let ray = crate::camera::get_ray_s(cam, jitter_s(i, w, du), jitter_s(j, h, dv), dk);
            color_ok(objs, ray.0, ray.1, depth, c)
        }
}

/// The component sums of a sequence of colors.
pub open spec fn csum(cs: Seq<(int, int, int)>) -> (int, int, int)
    decreases cs.len(),
{
    if cs.len() == 0 {
        (0int, 0int, 0int)
    } else {
        let rest = csum(cs.drop_last());
        (rest.0 + cs.last().0, rest.1 + cs.last().1, rest.2 + cs.last().2)
    }
}

/// The pixel driver's relation: `r` is the gamma-corrected average of
/// `spp` sample colors, each a possible integrator outcome for a
/// jittered camera ray of this pixel.
pub open spec fn pixel_ok(
    cam: Camera,
    objs: Seq<Sphere>,
    i: int,
    j: int,
    w: int,
    h: int,
    spp: int,
    depth: int,
    r: (int, int, int),
) -> bool {
    exists|cs: Seq<(int, int, int)>|
        #![trigger cs.len()]
        cs.len() == spp && (forall|k: int|
            0 <= k < cs.len() ==> #[trigger] sample_ok(cam, objs, i, j, w, h, depth, cs[k])
                && rgb_wf(cs[k])) && r.0 == adjust_s(csum(cs).0, spp) && r.1 == adjust_s(
            csum(cs).1,
            spp,
        ) && r.2 == adjust_s(csum(cs).2, spp)
}

/// Renders one pixel: `samples_per_pixel` jittered camera rays are
/// traced and averaged, then gamma-corrected.  Pixel `(0, 0)` is the
/// lower-left corner of the image.
pub fn render_pixel(
    camera: &Camera,
    world: &HittableList,
    i: usize,
    j: usize,
    width: usize,
    height: usize,
    samples_per_pixel: u32,
    max_depth: u32,
    rng: &mut Rng,
) -> (r: Vec3)
    requires
        camera_wf(*camera),
        list_wf(world.objects@),
        2 <= width <= 65536,
        2 <= height <= 65536,
        i < width,
        j < height,
        1 <= samples_per_pixel <= 65536,
    ensures
        rgb_wf(r@),
        pixel_ok(
            *camera,
            world.objects@,
            i as int,
            j as int,
            width as int,
            height as int,
            samples_per_pixel as int,
            max_depth as int,
            r@,
        ),
{
    let ghost cam = *camera;
    let ghost objs = world.objects@;
    let mut acc = Vec3::new();
    let mut s: u32 = 0;
    let ghost mut cs: Seq<(int, int, int)> = Seq::empty();
    while s < samples_per_pixel
        invariant
            s <= samples_per_pixel,
            1 <= samples_per_pixel <= 65536,
            0 <= acc@.0 <= s * (ONE as int),
            0 <= acc@.1 <= s * (ONE as int),
            0 <= acc@.2 <= s * (ONE as int),
            camera_wf(*camera),
            list_wf(world.objects@),
            2 <= width <= 65536,
            2 <= height <= 65536,
            i < width,
            j < height,
            cam == *camera,
            objs == world.objects@,
            cs.len() == s as int,
            acc@ == csum(cs),
            forall|k: int|
                0 <= k < cs.len() ==> #[trigger] sample_ok(
                    cam,
                    objs,
                    i as int,
                    j as int,
                    width as int,
                    height as int,
                    max_depth as int,
                    cs[k],
                ) && rgb_wf(cs[k]),
        decreases samples_per_pixel - s,
    {
        let du = crate::rt::random_double(rng);
        let dv = crate::rt::random_double(rng);
        let nu = (i as i64) * ONE + du;
        let nv = (j as i64) * ONE + dv;
        let u = clamp_i(fx_div(nu, ((width - 1) as i64) * ONE), 0, 2 * ONE);
        let v = clamp_i(fx_div(nv, ((height - 1) as i64) * ONE), 0, 2 * ONE);
        assert(u as int == jitter_s(i as int, width as int, du as int));
        assert(v as int == jitter_s(j as int, height as int, dv as int));
        let ray = camera.get_ray(u, v, rng);
        let col = ray.color(world, max_depth, rng);
        proof {
            let dk = choose|dk: (int, int, int)|
                (#[trigger] in_range_s(dk, ONE as int)) && nsq_s(dk) < ONE as int && dk.2 == 0
                    && {
                    let m = crate::camera::get_ray_s(cam, u as int, v as int, dk);
                    ray.origin@ == m.0 && ray.direction@ == m.1
                };
            assert(sample_ok(
                cam,
                objs,
                i as int,
                j as int,
                width as int,
                height as int,
                max_depth as int,
                col@,
            ));
            let cs2 = cs.push(col@);
            assert(cs2.drop_last() =~= cs);
            assert(csum(cs2) == add_s(csum(cs), col@));
            cs = cs2;
        }
        acc = acc.add(col);
        s = s + 1;
    }
    let r = adjust_color(acc, samples_per_pixel);
    proof {
        assert(pixel_ok(
            cam,
            objs,
            i as int,
            j as int,
            width as int,
            height as int,
            samples_per_pixel as int,
            max_depth as int,
            r@,
        ));
    }
    r
}

} // verus!
