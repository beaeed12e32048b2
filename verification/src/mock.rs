//! A deterministic in-process network simulator, for tests and demos.
//!
//! Channels delay each message by a configurable mean latency plus Gaussian
//! jitter and drop a configurable fraction; a mock net aggregates a pair of
//! channels per player. All randomness comes from one seedable generator, so
//! a run is reproducible from its seed.

pub mod channel;
pub mod net;

use vstd::prelude::*;

verus! {

/// The standard random generator of the rand crate, used as the simulator's
/// seedable entropy source. Verus sees the type as opaque.
#[verifier::external_type_specification]
#[verifier::external_body]
pub struct ExStdRng(rand::rngs::StdRng);

/// Relies on rand's `SeedableRng::seed_from_u64`: builds a generator whose
/// output is a deterministic function of the seed. Nothing about the output
/// is assumed.
#[verifier::external_body]
pub(crate) fn rng_from_seed(seed: u64) -> rand::rngs::StdRng {
    <rand::rngs::StdRng as rand::SeedableRng>::seed_from_u64(seed)
}

/// Relies on rand's `RngCore::next_u32` for the next word of the generator's
/// stream. The result depends on the generator's state, so nothing is
/// promised of it; callers must hold for every outcome.
#[verifier::external_body]
pub(crate) fn rng_next_u32(rng: &mut rand::rngs::StdRng) -> u32 {
    rand::RngCore::next_u32(rng)
}

} // verus!
