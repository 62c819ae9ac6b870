//! Injected source of uniform randomness.
//!
//! The interaction rule needs a uniform choice of agents and of tie-break
//! winners. It is injected as a value of `SimRng`, a seedable generator, so
//! a caller can reproduce a run by reusing a seed. The generator itself
//! comes from the rand crate; the library states of each draw only what
//! holds of every outcome.

use vstd::prelude::*;
use crate::agent::{sampled_from, sampled_without_repetition, Agent};
use rand::Rng;
use rand::SeedableRng;
use rand::seq::SliceRandom;

verus! {

#[verifier::external_type_specification]
#[verifier::external_body]
pub struct ExStdRng(rand::rngs::StdRng);

/// Uniform random source driving agent selection, sampling and tie-breaks.
pub struct SimRng {
    rng: rand::rngs::StdRng,
}

/// Relies on rand's `StdRng::seed_from_u64`: a generator derived from the
/// given seed.
#[verifier::external_body]
fn seeded_std_rng(seed: u64) -> rand::rngs::StdRng {
    rand::rngs::StdRng::seed_from_u64(seed)
}

/// Relies on rand's `StdRng::from_entropy`: a generator seeded from fresh
/// operating-system entropy.
#[verifier::external_body]
fn entropy_std_rng() -> rand::rngs::StdRng {
    rand::rngs::StdRng::from_entropy()
}

impl SimRng {
    /// A reproducible source: the same seed yields the same draw sequence
    /// within one build of the program.
    pub fn from_seed(seed: u64) -> SimRng {
        SimRng { rng: seeded_std_rng(seed) }
    }

    /// A fresh, unpredictable source.
    pub fn from_entropy() -> SimRng {
        SimRng { rng: entropy_std_rng() }
    }

    /// Relies on rand's `Rng::gen_range` over `0..bound`: a uniform draw
    /// from `[0, bound)`; it panics on an empty range, which the `requires`
    /// rules out.
    #[verifier::external_body]
    pub(crate) fn below(&mut self, bound: u64) -> (r: u64)
        requires
            bound > 0,
        ensures
            r < bound,
    {
        self.rng.gen_range(0..bound)
    }

    /// Relies on rand's `SliceRandom::choose_multiple` on `pool[skip..]`:
    /// `amount` elements drawn without repetition — copies of pool elements
    /// at pairwise distinct positions (all of them when fewer than `amount`
    /// remain).
    #[verifier::external_body]
    pub(crate) fn sample_agents(&mut self, pool: &Vec<Agent>, skip: usize, amount: usize) -> (r:
        Vec<Agent>)
        requires
            skip <= pool@.len(),
        ensures
            r@.len() == if amount as int <= pool@.len() - skip {
                amount as int
            } else {
                pool@.len() - skip
            },
            sampled_from(r@, pool@, skip as int),
            sampled_without_repetition(r@, pool@, skip as int),
    {
        pool[skip..].choose_multiple(&mut self.rng, amount).cloned().collect()
    }
}

} // verus!
