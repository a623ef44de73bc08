//! Rays: an origin, a direction, and the point-at-parameter evaluator.

use vstd::prelude::*;
use crate::fx::{mag};
use crate::vec3::{Vec3, add_s, scale_s, in_range_s, lemma_scale_le};
use crate::rt::{RAY_LIM, T_FAR};

verus! {

/// A ray, owned by the call frame that created it.
#[derive(Clone, Copy)]
pub struct Ray {
    pub origin: Vec3,
    pub direction: Vec3,
}

/// The point `origin + t * direction`.
pub open spec fn ray_at_s(o: (int, int, int), d: (int, int, int), t: int) -> (int, int, int) {
    add_s(o, scale_s(d, t))
}

impl Ray {
    /// Evaluates the ray at parameter `t`.
    pub fn at(&self, t: i64) -> (r: Vec3)
        requires
            in_range_s(self.origin@, RAY_LIM as int),
            in_range_s(self.direction@, RAY_LIM as int),
            mag(t as int) <= T_FAR as int,
        ensures
            r@ == ray_at_s(self.origin@, self.direction@, t as int),
    {
        proof {
            lemma_scale_le(self.direction@, t as int, RAY_LIM as int, T_FAR as int);
        }
        self.origin.add(self.direction.scale(t))
    }
}

} // verus!
