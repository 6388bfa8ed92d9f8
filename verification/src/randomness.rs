//! The seeded source of randomness of reproducible runs.

use rand_chacha::ChaCha8Rng;
use rand_core::SeedableRng;
use vstd::prelude::*;

verus! {

/// The generator of the crate `rand_chacha`; nothing is known of what is inside.
#[verifier::external_type_specification]
#[verifier::external_body]
pub struct ExChaCha8Rng(rand_chacha::ChaCha8Rng);

/// The generator that a seed gives: what `SeedableRng::seed_from_u64` returns for
/// `ChaCha8Rng`.
pub uninterp spec fn seeded(seed: u64) -> rand_chacha::ChaCha8Rng;

/// The generator of a seed. Calls `SeedableRng::seed_from_u64` of `rand_core` for
/// `ChaCha8Rng`, which expands the seed by a fixed arithmetic rule and reads nothing
/// else: two generators of one seed are the same.
#[verifier::external_body]
pub(crate) fn seeded_generator(seed: u64) -> (r: ChaCha8Rng)
    ensures
        r == seeded(seed),
{
    ChaCha8Rng::seed_from_u64(seed)
}

} // verus!
