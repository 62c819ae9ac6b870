//! Run configuration and its validation.
//!
//! A sweep is configured by the number of agents, the sample size, the
//! largest opinion count to simulate, and the interaction model. A single
//! phase can instead be configured directly, with an explicit initial
//! weight per opinion. All validation happens here, synchronously, before
//! any simulation starts.

use vstd::prelude::*;
use crate::counting::{lemma_sum_prefix_le, lemma_sum_push, sum_counts};
use crate::error::SimulationError;
use crate::opinion_distribution::copy_counts;
use crate::Model;

verus! {

/// Configuration of a whole sweep: phases k = 2, ..., `upper_bound_k` over
/// `agent_count` agents, each interaction sampling `sample_size` peers;
/// `simulation_count` instances run concurrently.
#[derive(Clone, Copy, Debug, PartialEq, Eq, Structural)]
pub struct Config {
    pub agent_count: u64,
    pub sample_size: u8,
    pub upper_bound_k: u16,
    pub simulation_count: u8,
    pub model: Model,
}

impl Config {
    /// The admissible configurations: at least one agent more than the
    /// sample size, a positive sample, and at least two opinions to sweep.
    pub open spec fn valid(self) -> bool {
        &&& self.sample_size > 0
        &&& (self.sample_size as u64) < self.agent_count
        &&& self.upper_bound_k >= 2
    }

    /// Reject a configuration whose sample size or opinion bound is out of
    /// range, before any thread starts.
    pub fn validate(&self) -> (r: Result<(), SimulationError>)
        ensures
            r is Ok <==> self.valid(),
            r is Err ==> r == Result::<(), SimulationError>::Err(SimulationError::InvalidConfig),
    {
        if self.sample_size == 0 {
            return Err(SimulationError::InvalidConfig);
        }
        if (self.sample_size as u64) >= self.agent_count {
            return Err(SimulationError::InvalidConfig);
        }
        if self.upper_bound_k < 2 {
            return Err(SimulationError::InvalidConfig);
        }
        Ok(())
    }
}

impl Default for Config {
    /// The defaults of the interactive front end.
    fn default() -> (r: Config)
        ensures
            r.agent_count == 100000,
            r.sample_size == 3,
            r.upper_bound_k == 5,
            r.simulation_count == 5,
            r.model == Model::Population,
    {
        Config {
            agent_count: 100000,
            sample_size: 3,
            upper_bound_k: 5,
            simulation_count: 5,
            model: Model::Population,
        }
    }
}

/// Configuration of a single phase: `n` agents over `k` opinions, sample
/// size `j`, with an explicit initial occupancy `config[o]` for each
/// opinion `o`.
#[derive(Clone, Debug)]
pub struct PhaseConfig {
    pub n: u64,
    pub j: u8,
    pub k: u16,
    pub config: Vec<u64>,
    pub model: Model,
}

/// Sum of the given weights, or `None` when it exceeds the range of `u64`.
pub(crate) fn checked_sum(v: &Vec<u64>) -> (r: Option<u64>)
    ensures
        r matches Some(s) ==> s as int == sum_counts(v@),
        r is None ==> sum_counts(v@) > u64::MAX,
{
    let mut acc: u64 = 0;
    let mut i: usize = 0;
    while i < v.len()
        invariant
            i <= v@.len(),
            acc as int == sum_counts(v@.subrange(0, i as int)),
        decreases v@.len() - i,
    {
        proof {
            assert(v@.subrange(0, i + 1).drop_last() =~= v@.subrange(0, i as int));
            assert(v@.subrange(0, i + 1).last() == v@[i as int]);
        }
        if v[i] > u64::MAX - acc {
            proof {
                lemma_sum_prefix_le(v@, i + 1);
            }
            return None;
        }
        acc = acc + v[i];
        i = i + 1;
    }
    proof {
        assert(v@.subrange(0, v@.len() as int) =~= v@);
    }
    Some(acc)
}

/// The evenly spread initial configuration: every opinion starts with
/// `n / k` agents and the first `n % k` opinions take one more, so the
/// weights sum to exactly `n`.
fn even_spread(n: u64, k: u16) -> (r: Vec<u64>)
    requires
        k >= 1,
    ensures
        r@.len() == k as int,
        sum_counts(r@) == n as int,
        forall|o: int|
            0 <= o < k as int ==> r@[o] == if o < (n % (k as u64)) as int {
                (n / (k as u64) + 1) as u64
            } else {
                n / (k as u64)
            },
{
    let q = n / (k as u64);
    let rem = n % (k as u64);
    proof {
        vstd::arithmetic::div_mod::lemma_fundamental_div_mod(n as int, k as u64 as int);
        assert(rem < k as u64) by {
            vstd::arithmetic::div_mod::lemma_mod_bound(n as int, k as u64 as int);
        }
    }
    let mut weights: Vec<u64> = Vec::new();
    let mut i: u64 = 0;
    while i < k as u64
        invariant
            i <= k as u64,
            q == n / (k as u64),
            rem == n % (k as u64),
            rem < k as u64,
            n as int == (k as u64 as int) * (q as int) + rem as int,
            weights@.len() == i as int,
            sum_counts(weights@) == (i as int) * (q as int) + (if i <= rem {
                i as int
            } else {
                rem as int
            }),
            forall|o: int|
                0 <= o < i as int ==> weights@[o] == if o < rem as int {
                    (q + 1) as u64
                } else {
                    q
                },
        decreases k as u64 - i,
    {
        let w: u64;
        if i < rem {
            proof {
                assert(q < u64::MAX) by {
                    assert((k as u64 as int) * (q as int) >= 2 * (q as int))
                        by (nonlinear_arith)
                        requires
                            k as u64 >= 2,
                            q >= 0,
                    ;
                }
            }
            w = q + 1;
        } else {
            w = q;
        }
        proof {
            lemma_sum_push(weights@, w);
            assert((i as int + 1) * (q as int) == (i as int) * (q as int) + q as int)
                by (nonlinear_arith);
        }
        weights.push(w);
        i = i + 1;
    }
    weights
}

/// Turn sweep parameters into a valid single-phase configuration. A
/// supplied initial configuration is accepted exactly when it has one
/// weight per opinion and the weights sum to the number of agents; when
/// none is supplied, the evenly spread one is used.
pub fn get_simulation_config(
    n: u64,
    j: u8,
    k: u16,
    initial_config: &Option<Vec<u64>>,
    model: Model,
) -> (r: Result<PhaseConfig, SimulationError>)
    requires
        k >= 1,
    ensures
        r is Ok <==> match initial_config {
            Some(w) => w@.len() == k as int && sum_counts(w@) == n as int,
            None => true,
        },
        r is Err ==> r == Result::<PhaseConfig, SimulationError>::Err(
            SimulationError::InvalidConfig,
        ),
        r matches Ok(c) ==> {
            &&& c.n == n
            &&& c.j == j
            &&& c.k == k
            &&& c.model == model
            &&& c.config@.len() == k as int
            &&& sum_counts(c.config@) == n as int
            &&& match initial_config {
                Some(w) => c.config@ == w@,
                None => forall|o: int|
                    0 <= o < k as int ==> c.config@[o] == if o < (n % (k as u64)) as int {
                        (n / (k as u64) + 1) as u64
                    } else {
                        n / (k as u64)
                    },
            }
        },
{
    let config = match initial_config {
        Some(w) => {
            if w.len() != k as usize {
                return Err(SimulationError::InvalidConfig);
            }
            let total = checked_sum(w);
            match total {
                Some(s) => {
                    if s != n {
                        return Err(SimulationError::InvalidConfig);
                    }
                },
                None => {
                    return Err(SimulationError::InvalidConfig);
                },
            }
            copy_counts(w)
        },
        None => even_spread(n, k),
    };
    Ok(PhaseConfig { n, j, k, config, model })
}

} // verus!
