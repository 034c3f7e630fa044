//! The random source of the samplers.

use rand::rngs::OsRng;
use rand::rngs::StdRng;
use rand::Rng;
use rand::SeedableRng;
use vstd::prelude::*;

verus! {

/// `rand::rngs::StdRng`, carried from draw to draw as a value of which
/// nothing is known.
#[verifier::external_type_specification]
#[verifier::external_body]
pub struct ExStdRng(rand::rngs::StdRng);

/// Calls `StdRng::from_rng` on the operating system's generator. Nothing is
/// claimed of the generator that comes back; `None` stands for the error
/// that the system's source may report.
#[verifier::external_body]
pub(crate) fn rng_from_system() -> (rng: Option<StdRng>) {
    StdRng::from_rng(OsRng).ok()
}

/// Calls `StdRng::seed_from_u64`. Nothing is claimed of the generator.
#[verifier::external_body]
pub(crate) fn rng_from_seed(seed: u64) -> (rng: StdRng) {
    StdRng::seed_from_u64(seed)
}

/// Calls `Rng::gen_range(0, bound)`, which draws from the half-open range
/// and panics on an empty one: hence the bound on `bound`. All that holds of
/// every draw is that it lies in the range.
#[verifier::external_body]
pub(crate) fn random_below(rng: &mut StdRng, bound: u64) -> (draw: u64)
    requires
        bound > 0,
    ensures
        draw < bound,
{
    rng.gen_range(0, bound)
}

/// A generator seeded by the operating system, or by a fixed seed where the
/// system has no entropy to give.
pub fn new_rng() -> StdRng {
    match rng_from_system() {
        Some(rng) => rng,
        None => rng_from_seed(0),
    }
}

} // verus!
