//! The uniform random source, consumed as an explicit capability.
//!
//! The generator is `rand`'s seedable `StdRng`, held opaquely; the
//! library draws raw 64-bit words from it and reduces them to
//! fixed-point scalars in verified code.  Nothing is assumed about the
//! values drawn: every contract downstream states what holds of any
//! outcome.

use vstd::prelude::*;
use rand::rngs::StdRng;
use crate::fx::ONE;

verus! {

#[verifier::external_type_specification]
#[verifier::external_body]
pub struct ExStdRng(StdRng);

/// Relies on rand::SeedableRng::seed_from_u64 for rand::rngs::StdRng:
/// it builds a generator from a 64-bit seed.
#[verifier::external_body]
fn stdrng_from_seed(seed: u64) -> StdRng {
    <StdRng as rand::SeedableRng>::seed_from_u64(seed)
}

/// Relies on rand::RngCore::next_u64 for rand::rngs::StdRng: it draws
/// the generator's next 64-bit word and advances its state.
#[verifier::external_body]
fn stdrng_next(rng: &mut StdRng) -> u64 {
    rand::RngCore::next_u64(rng)
}

/// A seedable stream of uniform fixed-point scalars.
pub struct Rng {
    inner: StdRng,
}

impl Rng {
    /// A generator whose draws are a fixed function of the seed.
    pub fn from_seed(seed: u64) -> Rng {
        Rng { inner: stdrng_from_seed(seed) }
    }

    /// One draw in `[0, ONE)`, the fixed-point unit interval.
    pub fn next_unit(&mut self) -> (r: i64)
        ensures
            0 <= r < ONE,
    {
        let w = stdrng_next(&mut self.inner);
        (w % 65536) as i64
    }
}

} // verus!
