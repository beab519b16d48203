use vstd::prelude::*;
use rand::rngs::StdRng;
use rand::{Rng, SeedableRng};

verus! {

#[verifier::external_type_specification]
#[verifier::external_body]
pub struct ExStdRng(StdRng);

/// Relies on rand_core's `SeedableRng::seed_from_u64` for `StdRng`: a
/// generator whose stream is fixed by the seed. Nothing is stated of it.
#[verifier::external_body]
pub(crate) fn seeded_rng(seed: u64) -> (r: StdRng) {
    StdRng::seed_from_u64(seed)
}

/// Relies on rand's `Rng::random_range` over the inclusive range `lo..=hi`:
/// the value lies in the range. It panics only on an empty range, which
/// `lo <= hi` excludes.
#[verifier::external_body]
pub(crate) fn random_between(rng: &mut StdRng, lo: i64, hi: i64) -> (r: i64)
    requires
        lo <= hi,
    ensures
        lo <= r <= hi,
{
    rng.random_range(lo..=hi)
}

} // verus!
