//! Trusted boundary to the `rand` crate: a seedable generator and a single
//! bounded draw. Everything the engine concludes about generated fields holds
//! for every value these draws may return.

use vstd::prelude::*;

verus! {

/// rand's standard generator, declared so the engine can hold one and thread
/// it through its draws; the engine never looks inside it.
#[verifier::external_type_specification]
#[verifier::external_body]
pub struct ExStdRng(rand::rngs::StdRng);

/// Relies on rand's `StdRng::seed_from_u64`: builds a generator from a 64-bit
/// seed. Nothing is assumed about the stream it produces.
#[verifier::external_body]
pub(crate) fn rng_from_seed(seed: u64) -> rand::rngs::StdRng {
    <rand::rngs::StdRng as rand::SeedableRng>::seed_from_u64(seed)
}

/// Relies on rand's `Rng::gen_range` over `0..bound`: the draw lies in
/// `[0, bound)`, and the call panics only on an empty range, which the
/// precondition rules out.
#[verifier::external_body]
pub(crate) fn sample_below(rng: &mut rand::rngs::StdRng, bound: usize) -> (r: usize)
    requires
        1 <= bound,
    ensures
        r < bound,
{
    rand::Rng::gen_range(rng, 0..bound)
}

} // verus!
