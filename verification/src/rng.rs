//! Trusted boundary to the `rand` crate.
//!
//! Level generation and enemy-tier rolls are the only places the
//! simulation draws randomness.  Both go through a seeded `StdRng`, so
//! a run is reproducible from its seed; nothing is promised about the
//! values drawn beyond their range.

use vstd::prelude::*;

verus! {

/// Declares `rand::rngs::StdRng` so the generator can live in a
/// field and pass through signatures; its value stays opaque.
#[verifier::external_type_specification]
#[verifier::external_body]
pub struct ExStdRng(rand::rngs::StdRng);

/// Relies on `rand::SeedableRng::seed_from_u64`: builds a generator
/// from a seed.  Nothing is stated about the stream it produces.
#[verifier::external_body]
pub(crate) fn rng_from_seed(seed: u64) -> rand::rngs::StdRng {
    <rand::rngs::StdRng as rand::SeedableRng>::seed_from_u64(seed)
}

/// Relies on `rand::Rng::gen_range` over `0..n`: returns a value below
/// `n` and panics only when the range is empty, which the precondition
/// rules out.
#[verifier::external_body]
pub(crate) fn rand_below(rng: &mut rand::rngs::StdRng, n: usize) -> (r: usize)
    requires
        n > 0,
    ensures
        r < n,
{
    rand::Rng::gen_range(rng, 0..n)
}

} // verus!
