use raytrace::fx::{fx_mul, fx_div, fx_sqrt, ONE, HALF_PI_FX, PI_FX, TWO_PI_FX};
use raytrace::rng::Rng;
use raytrace::rt::{clamp, degrees_to_radians, random_double, random_double_range, T_FAR};
use raytrace::trig::{fx_cos, fx_sin, fx_tan};
use raytrace::vec3::Vec3;
use raytrace::ray::Ray;
use raytrace::sphere::Sphere;
use raytrace::hittable::{HitRecord, Hittable, HittableList};
use raytrace::material::{Dielectric, Lambertian, Material, Metal};
use raytrace::camera::Camera;
use raytrace::render::{adjust_color, background, channel_to_byte, render_pixel, SKY_G, SKY_R};

#[test]
fn fixed_point_multiply() {
    assert_eq!(fx_mul(ONE, ONE), ONE);
    assert_eq!(fx_mul(3 * ONE, ONE / 2), 3 * ONE / 2);
    assert_eq!(fx_mul(-ONE, ONE), -ONE);
    // rounds toward zero on both sides
    assert_eq!(fx_mul(-1, 1), 0);
    assert_eq!(fx_mul(1, 1), 0);
}

#[test]
fn fixed_point_divide() {
    assert_eq!(fx_div(ONE, 2 * ONE), ONE / 2);
    assert_eq!(fx_div(-3 * ONE, 2 * ONE), -(3 * ONE / 2));
    assert_eq!(fx_div(ONE, -ONE), -ONE);
}

#[test]
fn fixed_point_sqrt() {
    assert_eq!(fx_sqrt(4 * ONE), 2 * ONE);
    assert_eq!(fx_sqrt(0), 0);
    assert_eq!(fx_sqrt(ONE), ONE);
    assert_eq!(fx_sqrt(2 * ONE), 92681);
}

#[test]
fn clamp_behaviour() {
    assert_eq!(clamp(5 * ONE, 0, 3 * ONE), 3 * ONE);
    assert_eq!(clamp(-ONE, 0, 3 * ONE), 0);
    assert_eq!(clamp(ONE, 0, 3 * ONE), ONE);
}

#[test]
fn degrees_conversion() {
    assert_eq!(degrees_to_radians(90 * ONE), HALF_PI_FX);
    assert_eq!(degrees_to_radians(180 * ONE), PI_FX);
    assert_eq!(degrees_to_radians(0), 0);
}

#[test]
fn trig_values() {
    assert_eq!(fx_sin(0), 0);
    assert_eq!(fx_cos(0), ONE);
    assert!((ONE - fx_sin(HALF_PI_FX)).abs() <= 64);
    assert!(fx_cos(HALF_PI_FX).abs() <= 64);
    assert!((ONE + fx_cos(PI_FX)).abs() <= 64);
    assert!(fx_sin(TWO_PI_FX - 1).abs() <= 64);
    // tan(pi/4) = 1
    assert!((fx_tan(HALF_PI_FX / 2) - ONE).abs() <= 256);
}

#[test]
fn vector_algebra() {
    let a = Vec3(ONE, 2 * ONE, 3 * ONE);
    let b = Vec3(4 * ONE, 5 * ONE, 6 * ONE);
    assert_eq!(a.add(b), Vec3(5 * ONE, 7 * ONE, 9 * ONE));
    assert_eq!(b.sub(a), Vec3(3 * ONE, 3 * ONE, 3 * ONE));
    assert_eq!(a.neg(), Vec3(-ONE, -2 * ONE, -3 * ONE));
    assert_eq!(a.mul(b), Vec3(4 * ONE, 10 * ONE, 18 * ONE));
    assert_eq!(a.scale(2 * ONE), Vec3(2 * ONE, 4 * ONE, 6 * ONE));
    assert_eq!(a.div(2 * ONE), Vec3(ONE / 2, ONE, 3 * ONE / 2));
    assert_eq!(Vec3::dot(a, b), 32 * ONE);
    assert_eq!(
        Vec3::cross(Vec3(ONE, 0, 0), Vec3(0, ONE, 0)),
        Vec3(0, 0, ONE)
    );
    assert_eq!(Vec3::new(), Vec3(0, 0, 0));
}

#[test]
fn norms_and_normalize() {
    let v = Vec3(3 * ONE, 4 * ONE, 0);
    assert_eq!(v.norm_squared(), 25 * ONE);
    assert_eq!(v.norm(), 5 * ONE);
    let u = v.normalize();
    assert_eq!(u, Vec3(39321, 52428, 0));
    // the normalized vector has near-unit length
    assert!((u.norm_squared() - ONE).abs() <= 64);
}

#[test]
fn reflect_mirror_involution() {
    // reflecting twice about an axis-aligned unit normal is the identity
    let n = Vec3(0, ONE, 0);
    let v = Vec3(ONE, -ONE, 3 * ONE / 2);
    let r1 = Vec3::reflect(v, n);
    assert_eq!(r1, Vec3(ONE, ONE, 3 * ONE / 2));
    assert_eq!(Vec3::reflect(r1, n), v);
}

#[test]
fn refract_normal_incidence_round_trip() {
    let n = Vec3(0, 0, ONE);
    let uv = Vec3(0, 0, -ONE);
    let eta_in = fx_div(ONE, 98304);
    let eta_out = 98304;
    let r1 = Vec3::refract(uv, n, eta_in);
    assert_eq!(r1, uv);
    let r2 = Vec3::refract(r1, n, eta_out);
    assert_eq!(r2, uv);
}

#[test]
fn refract_slanted_round_trip() {
    // entering and leaving a parallel slab with reciprocal ratios
    // approximately recovers the original direction
    let n = Vec3(0, ONE, 0);
    let uv = Vec3(ONE, -ONE, 0).normalize();
    let eta_in = fx_div(ONE, 98304);
    let eta_out = 98304;
    let r1 = Vec3::refract(uv, n, eta_in);
    // the refracted ray still travels downward
    assert!(r1.1 < 0);
    let r2 = Vec3::refract(r1.normalize(), n, eta_out);
    assert!((r2.0 - uv.0).abs() <= 2000);
    assert!((r2.1 - uv.1).abs() <= 2000);
    assert!((r2.2 - uv.2).abs() <= 2000);
}

fn gray(v: i64) -> Material {
    Material::Lambertian(Lambertian {
        albedo: Vec3(v, v, v),
    })
}

#[test]
fn sphere_head_on_hit() {
    // a ray aimed at the center hits at distance minus radius, with the
    // normal pointing from the center back at the ray
    let s = Sphere {
        center: Vec3(0, 0, -2 * ONE),
        radius: ONE / 2,
        mat: gray(ONE / 2),
    };
    let r = Ray {
        origin: Vec3(0, 0, 0),
        direction: Vec3(0, 0, -ONE),
    };
    let mut rec = HitRecord::new();
    assert!(s.hit(r, 0, T_FAR, &mut rec));
    assert_eq!(rec.t, 3 * ONE / 2);
    assert_eq!(rec.normal, Vec3(0, 0, ONE));
    assert!(rec.front_face);
    assert_eq!(rec.p, Vec3(0, 0, -(3 * ONE / 2)));
}

#[test]
fn sphere_miss() {
    let s = Sphere {
        center: Vec3(0, 0, -2 * ONE),
        radius: ONE / 2,
        mat: gray(ONE / 2),
    };
    let r = Ray {
        origin: Vec3(0, 0, 0),
        direction: Vec3(0, 2 * ONE, -ONE),
    };
    let mut rec = HitRecord::new();
    assert!(!s.hit(r, 0, T_FAR, &mut rec));
}

#[test]
fn face_normal_orientation() {
    // front_face is true iff the ray runs against the outward normal,
    // and the stored normal never points along the ray
    let mut rec = HitRecord::new();
    let down = Ray {
        origin: Vec3(0, 0, 0),
        direction: Vec3(0, 0, -ONE),
    };
    rec.set_face_normal(down, Vec3(0, 0, ONE));
    assert!(rec.front_face);
    assert_eq!(rec.normal, Vec3(0, 0, ONE));

    rec.set_face_normal(down, Vec3(0, 0, -ONE));
    assert!(!rec.front_face);
    assert_eq!(rec.normal, Vec3(0, 0, ONE));
    assert!(Vec3::dot(down.direction, rec.normal) <= 0);
}

#[test]
fn scene_reports_nearest_hit() {
    let near = Sphere {
        center: Vec3(0, 0, -2 * ONE),
        radius: ONE / 2,
        mat: gray(ONE / 2),
    };
    let far = Sphere {
        center: Vec3(0, 0, -4 * ONE),
        radius: ONE / 2,
        mat: gray(ONE / 4),
    };
    let r = Ray {
        origin: Vec3(0, 0, 0),
        direction: Vec3(0, 0, -ONE),
    };
    for order in 0..2 {
        let mut world = HittableList::new();
        if order == 0 {
            world.add(near);
            world.add(far);
        } else {
            world.add(far);
            world.add(near);
        }
        let mut rec = HitRecord::new();
        assert!(world.hit(r, 0, T_FAR, &mut rec));
        assert_eq!(rec.t, 3 * ONE / 2);
        match rec.mat {
            Material::Lambertian(l) => assert_eq!(l.albedo, Vec3(ONE / 2, ONE / 2, ONE / 2)),
            _ => panic!("wrong material"),
        }
    }
}

#[test]
fn hittable_trait_dispatch() {
    let s = Sphere {
        center: Vec3(0, 0, -2 * ONE),
        radius: ONE / 2,
        mat: gray(ONE / 2),
    };
    let r = Ray {
        origin: Vec3(0, 0, 0),
        direction: Vec3(0, 0, -ONE),
    };
    let mut rec = HitRecord::new();
    assert!(Hittable::hit(&s, r, 0, T_FAR, &mut rec));
    assert_eq!(rec.t, 3 * ONE / 2);
}

#[test]
fn material_constructors() {
    let l = Lambertian::new();
    assert_eq!(l.albedo, Vec3(0, 0, 0));
    let m = Metal::new_albedo_fuzz(Vec3(ONE / 2, ONE / 2, ONE / 2), 3 * ONE);
    assert_eq!(m.fuzz, ONE);
    let m2 = Metal::new_albedo_fuzz(Vec3(ONE / 2, ONE / 2, ONE / 2), -ONE);
    assert_eq!(m2.fuzz, 0);
    let d = Dielectric::new(98304);
    assert_eq!(d.ir, 98304);
}

#[test]
fn metal_reflects_and_absorbs() {
    let mut rng = Rng::from_seed(7);
    let mat = Material::Metal(Metal::new_albedo_fuzz(Vec3(ONE / 2, ONE / 2, ONE / 2), 0));
    let mut rec = HitRecord::new();
    rec.p = Vec3(0, 0, 0);
    rec.normal = Vec3(0, ONE, 0);
    rec.front_face = true;

    // a grazing ray reflects about the normal
    let r_in = Ray {
        origin: Vec3(0, ONE, 0),
        direction: Vec3(ONE, -ONE, 0),
    };
    let res = mat.scatter(&r_in, &rec, &mut rng);
    let (att, scattered) = res.expect("metal should reflect");
    assert_eq!(att, Vec3(ONE / 2, ONE / 2, ONE / 2));
    assert_eq!(scattered.origin, Vec3(0, 0, 0));
    assert_eq!(scattered.direction, Vec3(46341, 46341, 0));

    // a ray leaving along the normal reflects into the surface and is
    // absorbed
    let r_up = Ray {
        origin: Vec3(0, 0, 0),
        direction: Vec3(0, ONE, 0),
    };
    assert!(mat.scatter(&r_up, &rec, &mut rng).is_none());
}

#[test]
fn dielectric_total_internal_reflection() {
    let mut rng = Rng::from_seed(11);
    let mat = Material::Dielectric(Dielectric::new(98304));
    let mut rec = HitRecord::new();
    rec.p = Vec3(0, 0, 0);
    rec.normal = Vec3(0, ONE, 0);
    // leaving the medium: the ratio is the index itself
    rec.front_face = false;
    let r_in = Ray {
        origin: Vec3(0, ONE, 0),
        direction: Vec3(ONE, -6554, 0),
    };
    let res = mat.scatter(&r_in, &rec, &mut rng);
    let (att, scattered) = res.expect("dielectric never absorbs a representable ray");
    assert_eq!(att, Vec3(ONE, ONE, ONE));
    // total internal reflection: the ray is reflected back up
    assert!(scattered.direction.1 > 0);
}

#[test]
fn lambertian_scatters_near_normal() {
    let mut rng = Rng::from_seed(3);
    let mat = Material::Lambertian(Lambertian {
        albedo: Vec3(ONE / 2, ONE / 4, ONE / 8),
    });
    let mut rec = HitRecord::new();
    rec.p = Vec3(ONE, 0, 0);
    rec.normal = Vec3(0, ONE, 0);
    let r_in = Ray {
        origin: Vec3(0, ONE, 0),
        direction: Vec3(0, -ONE, 0),
    };
    for _ in 0..16 {
        let (att, scattered) = mat.scatter(&r_in, &rec, &mut rng).expect("never absorbs");
        assert_eq!(att, Vec3(ONE / 2, ONE / 4, ONE / 8));
        assert_eq!(scattered.origin, Vec3(ONE, 0, 0));
        // normal plus a unit vector: length at most 2, biased upward
        assert!(scattered.direction.1 >= -ONE);
        assert!(scattered.direction.0.abs() <= ONE);
    }
}

#[test]
fn integrator_depth_zero_is_black() {
    let mut rng = Rng::from_seed(1);
    let mut world = HittableList::new();
    world.add(Sphere {
        center: Vec3(0, 0, -2 * ONE),
        radius: ONE / 2,
        mat: gray(ONE / 2),
    });
    let r = Ray {
        origin: Vec3(0, 0, 0),
        direction: Vec3(0, 0, -ONE),
    };
    assert_eq!(r.color(&world, 0, &mut rng), Vec3(0, 0, 0));
}

#[test]
fn empty_scene_is_background_gradient() {
    let mut rng = Rng::from_seed(1);
    let world = HittableList::new();
    // straight up: white
    let up = Ray {
        origin: Vec3(0, 0, 0),
        direction: Vec3(0, ONE, 0),
    };
    assert_eq!(up.color(&world, 8, &mut rng), Vec3(ONE, ONE, ONE));
    // straight down: the sky color
    let down = Ray {
        origin: Vec3(0, 0, 0),
        direction: Vec3(0, -ONE, 0),
    };
    assert_eq!(down.color(&world, 8, &mut rng), Vec3(32768, 45875, ONE));
    // level: exactly halfway
    let level = Ray {
        origin: Vec3(0, 0, 0),
        direction: Vec3(ONE, 0, 0),
    };
    assert_eq!(level.color(&world, 8, &mut rng), Vec3(49152, 55705, ONE));
    // independent of the origin
    let level_elsewhere = Ray {
        origin: Vec3(-5 * ONE, 3 * ONE, 7 * ONE),
        direction: Vec3(ONE, 0, 0),
    };
    assert_eq!(
        level_elsewhere.color(&world, 8, &mut rng),
        Vec3(49152, 55705, ONE)
    );
}

#[test]
fn background_between_endpoints() {
    let c = background(Vec3(ONE, ONE / 2, -ONE));
    assert!(SKY_R <= c.0 && c.0 <= ONE);
    assert!(SKY_G <= c.1 && c.1 <= ONE);
    assert_eq!(c.2, ONE);
}

#[test]
fn miss_returns_background() {
    let mut rng = Rng::from_seed(5);
    let mut world = HittableList::new();
    world.add(Sphere {
        center: Vec3(0, 0, -2 * ONE),
        radius: ONE / 2,
        mat: gray(ONE / 2),
    });
    // aimed well away from the sphere
    let r = Ray {
        origin: Vec3(0, 0, 0),
        direction: Vec3(0, ONE, 0),
    };
    assert_eq!(r.color(&world, 8, &mut rng), Vec3(ONE, ONE, ONE));
}

#[test]
fn adjust_color_averages_and_gamma_corrects() {
    let c = adjust_color(Vec3(4 * ONE, ONE, 0), 4);
    assert_eq!(c, Vec3(ONE, 32768, 0));
}

#[test]
fn channel_quantization() {
    assert_eq!(channel_to_byte(0), 0);
    assert_eq!(channel_to_byte(ONE - 1), 255);
    assert_eq!(channel_to_byte(ONE), 255);
    assert_eq!(channel_to_byte(2 * ONE), 255);
    assert_eq!(channel_to_byte(-ONE), 0);
    assert_eq!(channel_to_byte(ONE / 2), 128);
}

#[test]
fn random_draws_are_in_range_and_vary() {
    let mut rng = Rng::from_seed(99);
    let mut distinct = false;
    let mut prev = random_double(&mut rng);
    for _ in 0..100 {
        let d = random_double(&mut rng);
        assert!(0 <= d && d < ONE);
        if d != prev {
            distinct = true;
        }
        prev = d;
    }
    assert!(distinct);
    for _ in 0..100 {
        let d = random_double_range(-ONE, ONE, &mut rng);
        // half-open: the upper endpoint is never drawn
        assert!(-ONE <= d && d < ONE);
    }
}

#[test]
fn seeds_give_independent_streams() {
    let mut a = Rng::from_seed(1);
    let mut b = Rng::from_seed(2);
    let mut differ = false;
    for _ in 0..10 {
        if random_double(&mut a) != random_double(&mut b) {
            differ = true;
        }
    }
    assert!(differ);
}

#[test]
fn samplers_respect_their_regions() {
    let mut rng = Rng::from_seed(12);
    for _ in 0..20 {
        let p = Vec3::random_in_unit_sphere(&mut rng);
        assert!(p.norm_squared() < ONE);
        let d = Vec3::random_in_unit_disk(&mut rng);
        assert!(d.norm_squared() < ONE);
        assert_eq!(d.2, 0);
        let u = Vec3::random_unit_vector(&mut rng);
        assert!(u.0.abs() <= ONE && u.1.abs() <= ONE && u.2.abs() <= ONE);
        assert!((u.norm_squared() - ONE).abs() <= 2048);
        let v = Vec3::random(&mut rng);
        assert!(0 <= v.0 && v.0 < ONE);
        let w = Vec3::random_range(-ONE, ONE, &mut rng);
        assert!(-ONE <= w.0 && w.0 < ONE);
        assert!(-ONE <= w.1 && w.1 < ONE);
        assert!(-ONE <= w.2 && w.2 < ONE);
    }
}

fn test_camera() -> Camera {
    Camera::new(
        Vec3(0, 0, 0),
        Vec3(0, 0, -ONE),
        Vec3(0, ONE, 0),
        90 * ONE,
        116508,
        0,
        ONE,
    )
    .expect("camera configuration is representable")
}

#[test]
fn camera_builds_and_aims() {
    let cam = test_camera();
    let mut rng = Rng::from_seed(2);
    let r = cam.get_ray(ONE / 2, ONE / 2, &mut rng);
    // zero aperture: the ray starts at the eye
    assert_eq!(r.origin, Vec3(0, 0, 0));
    // and points toward the look-at direction
    assert!(r.direction.2 < 0);
    assert!(r.direction.0.abs() <= ONE / 4);
    assert!(r.direction.1.abs() <= ONE / 4);
}

#[test]
fn camera_rejects_degenerate_orientation() {
    let r = Camera::new(
        Vec3(0, 0, 0),
        Vec3(0, 0, 0),
        Vec3(0, ONE, 0),
        90 * ONE,
        116508,
        0,
        ONE,
    );
    assert!(r.is_none());
}

fn demo_world() -> HittableList {
    let mut world = HittableList::new();
    world.add(Sphere {
        center: Vec3(0, -6586368, -65536),
        radius: 100 * ONE,
        mat: Material::Lambertian(Lambertian {
            albedo: Vec3(52428, 52428, 0),
        }),
    });
    world.add(Sphere {
        center: Vec3(0, 0, -ONE),
        radius: ONE / 2,
        mat: Material::Lambertian(Lambertian {
            albedo: Vec3(45875, 19660, 19660),
        }),
    });
    world.add(Sphere {
        center: Vec3(-ONE, 0, -ONE),
        radius: ONE / 2,
        mat: Material::Metal(Metal::new_albedo_fuzz(Vec3(52428, 52428, 52428), 19660)),
    });
    world.add(Sphere {
        center: Vec3(ONE, 0, -ONE),
        radius: ONE / 2,
        mat: Material::Metal(Metal::new_albedo_fuzz(Vec3(52428, 39321, 13107), ONE)),
    });
    world
}

#[test]
fn render_is_reproducible_for_a_fixed_seed() {
    let world = demo_world();
    let cam = test_camera();
    let render = |seed: u64| {
        let mut rng = Rng::from_seed(seed);
        let mut out: Vec<u8> = Vec::new();
        for j in 0..4usize {
            for i in 0..4usize {
                let c = render_pixel(&cam, &world, i, j, 4, 4, 4, 8, &mut rng);
                out.push(channel_to_byte(c.0));
                out.push(channel_to_byte(c.1));
                out.push(channel_to_byte(c.2));
            }
        }
        out
    };
    let first = render(42);
    let second = render(42);
    assert_eq!(first, second);
    assert_eq!(first.len(), 48);
    // the image is not uniformly black
    assert!(first.iter().any(|&b| b > 0));
}

#[test]
fn rendered_pixel_is_a_unit_color() {
    let world = demo_world();
    let cam = test_camera();
    let mut rng = Rng::from_seed(8);
    let c = render_pixel(&cam, &world, 1, 2, 4, 4, 3, 6, &mut rng);
    assert!(0 <= c.0 && c.0 <= ONE);
    assert!(0 <= c.1 && c.1 <= ONE);
    assert!(0 <= c.2 && c.2 <= ONE);
}
