//! Source of randomness for sampling: a seeded xoshiro256** generator.
//!
//! The kernel threads one `Rng` value through every call that samples,
//! so a render is reproducible from its seed. Verified code learns only
//! the range of each draw; which value comes back is left open.

use vstd::prelude::*;

verus! {

#[verifier::external_type_specification]
#[verifier::external_body]
pub struct ExXoshiro256StarStar(rand_xoshiro::Xoshiro256StarStar);

/// A deterministic pseudo-random generator, owned by one sampling task.
pub struct Rng {
    inner: rand_xoshiro::Xoshiro256StarStar,
}

impl Rng {
    /// Relies on `rand_core::SeedableRng::seed_from_u64`: builds a
    /// generator whose stream is a function of the seed alone.
    #[verifier::external_body]
    pub fn new(seed: u64) -> Rng {
        Rng { inner: rand::SeedableRng::seed_from_u64(seed) }
    }

    /// Relies on `rand::Rng::gen_range`: a draw from a non-empty
    /// half-open integer range lies in that range.
    #[verifier::external_body]
    pub(crate) fn gen_range(&mut self, lo: i64, hi: i64) -> (r: i64)
        requires
            lo < hi,
        ensures
            lo <= r < hi,
    {
        rand::Rng::gen_range(&mut self.inner, lo..hi)
    }
}

} // verus!
