//! Small renderer-wide utilities: angle conversion, clamping, and the
//! uniform scalar draws every sampler is built from.

use vstd::prelude::*;
use crate::fx::{
    ONE, PI_FX, mag, fxm, fxd, fits, clamp_s, fx_mul, fx_div, clamp_i, lemma_fxm_le,
    lemma_fxm_unit,
};
use crate::rng::Rng;

verus! {

/// The farthest ray parameter the scene query will consider.
pub const T_FAR: i64 = 0x4_0000_0000;

/// The lower ray-parameter bound used by the integrator to avoid
/// re-hitting the surface a ray scattered from (shadow acne).
pub const T_EPS: i64 = 64;

/// Magnitude bound on scene coordinates: centers, radii and hit points.
pub const COORD_LIM: i64 = 0x100_0000;

/// Magnitude bound on ray origins and directions handed to the scene
/// query; camera rays and scattered rays both stay inside it.
pub const RAY_LIM: i64 = 0x200_0000;

/// Magnitude bound on surface normals handed around by hit records.
pub const NORM_LIM: i64 = 0x4_0000;

/// Magnitude bound on the camera's stored vectors.
pub const CAM_LIM: i64 = 0x20_0000;

/// Angle conversion in fixed point: `deg * pi / 180`.
pub open spec fn d2r_s(deg: int) -> int {
    fxd(fxm(deg, PI_FX as int), 180 * (ONE as int))
}

/// Converts a fixed-point angle in degrees to radians.
pub fn degrees_to_radians(degrees: i64) -> (r: i64)
    requires
        mag(degrees as int) <= 360 * (ONE as int),
    ensures
        r as int == d2r_s(degrees as int),
{
    proof {
        lemma_fxm_le(degrees as int, PI_FX as int, 360 * (ONE as int), PI_FX as int);
    }
    let p = fx_mul(degrees, PI_FX);
    fx_div(p, 180 * ONE)
}

/// One uniform draw in `[0, ONE)`.
pub fn random_double(rng: &mut Rng) -> (r: i64)
    ensures
        0 <= r < ONE,
{
    rng.next_unit()
}

/// One uniform draw in `[min, max)` for `min < max` (and exactly `min`
/// for an empty span): `min + d * (max - min)` for a unit-interval
/// draw `d`, which keeps the result strictly below `max`.
pub fn random_double_range(min: i64, max: i64, rng: &mut Rng) -> (r: i64)
    requires
        min <= max,
        mag(max as int - min as int) <= 0x100_0000_0000,
        fits(min as int + (max as int - min as int)),
        fits(min as int),
    ensures
        min <= r <= max,
        min < max ==> r < max,
        exists|d: int|
            0 <= d < ONE as int && r as int == min as int + #[trigger] fxm(
                d,
                max as int - min as int,
            ),
{
    let d = rng.next_unit();
    let span = max - min;
    proof {
        lemma_fxm_le(d as int, span as int, ONE as int, 0x100_0000_0000);
        lemma_fxm_unit(d as int, span as int);
        if span >= 1 {
            crate::fx::lemma_fxm_unit_strict(d as int, span as int);
        }
    }
    let r = min + fx_mul(d, span);
    proof {
        assert(0 <= d < ONE as int && r as int == min as int + fxm(d as int, span as int));
    }
    r
}

/// Clamps a fixed-point scalar into `[min, max]`.
pub fn clamp(x: i64, min: i64, max: i64) -> (r: i64)
    requires
        min <= max,
    ensures
        r as int == clamp_s(x as int, min as int, max as int),
        min <= r <= max,
{
    clamp_i(x, min, max)
}

} // verus!
