use vstd::prelude::*;
use rand::Rng;
use rand::SeedableRng;

verus! {

#[verifier::external_type_specification]
#[verifier::external_body]
pub struct ExStdRng(rand::rngs::StdRng);

/// Deterministic source of uniform integer draws. Every random decision of
/// the simulation (room placement, wander targets, attack and damage rolls)
/// draws from one of these, so a run is reproducible from its seed.
pub struct DiceRng {
    inner: rand::rngs::StdRng,
}

impl DiceRng {
    /// Relies on rand's `SeedableRng::seed_from_u64` for `StdRng`: builds a
    /// generator from the seed; the same seed always yields the same
    /// generator state.
    #[verifier::external_body]
    pub fn seeded(seed: u64) -> DiceRng {
        DiceRng { inner: rand::rngs::StdRng::seed_from_u64(seed) }
    }

    /// Relies on rand's `Rng::gen_range` on the inclusive range `lo..=hi`:
    /// it returns a value inside the range and panics only when the range is
    /// empty, which the precondition rules out. Which value comes back is
    /// deliberately left unstated.
    #[verifier::external_body]
    pub fn range(&mut self, lo: i32, hi: i32) -> (r: i32)
        requires
            lo <= hi,
        ensures
            lo <= r <= hi,
    {
        self.inner.gen_range(lo..=hi)
    }
}

} // verus!
