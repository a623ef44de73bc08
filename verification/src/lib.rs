//! A small path-tracing renderer over fixed-point arithmetic.
//!
//! Scalars are `i64` values carrying a binary fixed-point encoding with
//! 16 fractional bits, so the real number `x` is represented by the
//! integer `x * 65536` rounded toward zero.  Every operation of the
//! renderer — vector algebra, ray/sphere intersection, material
//! scattering, camera ray generation and the recursive color
//! integrator — is specified exactly over that encoding and verified.
//! Randomness enters only through an explicit, seedable generator, so a
//! whole render is a deterministic function of its inputs and seed.

pub mod camera;
pub mod fx;
pub mod hittable;
pub mod laws;
pub mod material;
pub mod ray;
pub mod render;
pub mod rng;
pub mod rt;
pub mod sphere;
pub mod trig;
pub mod vec3;

use vstd::prelude::*;

verus! {

} // verus!
