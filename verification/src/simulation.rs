//! The simulation engine.
//!
//! A `Simulation` owns the agent population of the current phase, the
//! opinion distribution that mirrors it exactly, and the results
//! accumulated so far: the convergence curve and the entropy snapshots.
//! `execute` runs one phase to consensus; `step` performs one interaction
//! of a sweep and advances the phase on consensus, which is what the
//! control-plane driver calls between control checks; `run` is the whole
//! sweep.
//!
//! The central invariant, `wf`, ties the distribution to the population:
//! entry `o` of the occupancy counts equals the number of agents holding
//! opinion `o`. Every operation preserves it, and from it the occupancy
//! counts provably sum to the number of agents in every reachable state.

use vstd::prelude::*;
use crate::agent::{
    is_strict_majority, lemma_opinions_push, lemma_opinions_update, opinions_of, sampled_from,
    sampled_without_repetition, Agent,
};
use crate::config::{checked_sum, Config, PhaseConfig};
use crate::counting::{
    counts_match, lemma_count_full_iff_all_eq, lemma_count_le_len, lemma_count_pos_iff_contains,
    lemma_count_push, lemma_count_swap, lemma_count_update, lemma_counts_match_sum,
    lemma_sum_ge_entry, lemma_sum_two_entries, max_count, seq_count, sum_counts,
};
use crate::entropy::{checkpoint_recorded, Entropy};
use crate::error::SimulationError;
use crate::export::OpinionPlot;
use crate::opinion_distribution::OpinionDistribution;
use crate::rng::SimRng;
use crate::Model;

verus! {

/// What one control-plane step of the sweep did.
#[derive(Clone, Copy, Debug, PartialEq, Eq, Structural)]
pub enum StepEvent {
    /// One interaction was performed; the phase goes on.
    Interacted,
    /// The phase reached consensus and the next phase was prepared.
    PhaseDone,
    /// The last phase reached consensus; the sweep is complete.
    SweepDone,
}

/// One witness to a Population-model interaction: position `x` was swapped
/// to the front, `sample` was drawn without repetition from the remaining
/// agents, and the front agent adopted `new_op`, an opinion attaining the
/// sample's maximal occurrence count (hence the strict majority, where one
/// exists). The population changes only at the front, and the occupancy
/// counts move exactly one unit from the active agent's old opinion to
/// `new_op`.
pub open spec fn population_interaction_witness(
    pre_agents: Seq<Agent>,
    pre_counts: Seq<u64>,
    j: u8,
    post_agents: Seq<Agent>,
    post_counts: Seq<u64>,
    x: int,
    sample: Seq<Agent>,
    new_op: u16,
) -> bool {
    let swapped = pre_agents.update(0, pre_agents[x]).update(x, pre_agents[0]);
    let old_op = swapped[0].opinion;
    let dec = pre_counts.update(old_op as int, (pre_counts[old_op as int] - 1) as u64);
    &&& 0 <= x < pre_agents.len()
    &&& sample.len() == if j as int <= pre_agents.len() - 1 {
        j as int
    } else {
        pre_agents.len() - 1
    }
    &&& sampled_without_repetition(sample, swapped, 1)
    &&& opinions_of(sample).contains(new_op)
    &&& seq_count(opinions_of(sample), new_op) == max_count(opinions_of(sample))
    &&& (forall|y: u16| is_strict_majority(opinions_of(sample), y) ==> new_op == y)
    &&& post_agents == swapped.update(0, Agent { opinion: new_op })
    &&& post_counts == dec.update(new_op as int, (dec[new_op as int] + 1) as u64)
}

/// The effect of one Population-model interaction, §4.2's rule as seen from
/// outside: exactly one uniformly chosen agent changes opinion, adopting
/// the majority of its sample, and the distribution follows by moving one
/// unit.
pub open spec fn population_interaction(
    pre_agents: Seq<Agent>,
    pre_counts: Seq<u64>,
    j: u8,
    post_agents: Seq<Agent>,
    post_counts: Seq<u64>,
) -> bool {
    exists|x: int, sample: Seq<Agent>, new_op: u16|
        population_interaction_witness(
            pre_agents,
            pre_counts,
            j,
            post_agents,
            post_counts,
            x,
            sample,
            new_op,
        )
}

/// One witness to a Gossip adoption: a sample of `min(j, n)` snapshot
/// agents, drawn without repetition, in which `opinion` attains the
/// maximal occurrence count.
pub open spec fn gossip_sample_witness(
    snapshot: Seq<Agent>,
    j: u8,
    opinion: u16,
    sample: Seq<Agent>,
) -> bool {
    &&& sample.len() == if j as int <= snapshot.len() {
        j as int
    } else {
        snapshot.len() as int
    }
    &&& sampled_without_repetition(sample, snapshot, 0)
    &&& opinions_of(sample).contains(opinion)
    &&& seq_count(opinions_of(sample), opinion) == max_count(opinions_of(sample))
}

/// One agent's adoption in a Gossip round: its new opinion attains the
/// maximal occurrence count of a sample of `min(j, n)` agents drawn without
/// repetition from the frozen pre-round snapshot.
pub open spec fn gossip_adoption(snapshot: Seq<Agent>, j: u8, opinion: u16) -> bool {
    exists|sample: Seq<Agent>| gossip_sample_witness(snapshot, j, opinion, sample)
}

/// One simulation instance: the population and distribution of the current
/// phase, and the results accumulated across phases.
#[derive(Clone, Debug)]
pub struct Simulation {
    /// Collection of agents of the current phase.
    pub agents: Vec<Agent>,
    /// Number of agents.
    pub n: u64,
    /// Sample size.
    pub j: u8,
    /// Number of opinions of the current phase.
    pub k: u16,
    /// Last opinion count of the sweep; the sweep finishes when the phase
    /// with this many opinions reaches consensus.
    pub upper_bound_k: u16,
    /// Initial occupancy per opinion, where one was supplied.
    pub config: Vec<u64>,
    /// Occupancy count per opinion, mirrored from the population.
    pub opinion_distribution: OpinionDistribution,
    /// Entropy snapshots accumulated across the phases.
    pub entropy: Entropy,
    /// One `(k, interaction_count)` point per completed phase.
    pub plot: OpinionPlot,
    /// Interaction scheme of the run.
    pub model: Model,
}

impl Simulation {
    /// The engine's invariant: the distribution belongs to the current
    /// phase and mirrors the population exactly, and every agent holds an
    /// opinion of the phase.
    pub open spec fn wf(self) -> bool {
        &&& self.opinion_distribution.wf()
        &&& self.k == self.opinion_distribution.opinion
        &&& self.k >= 1
        &&& self.agents@.len() == self.n as int
        &&& counts_match(opinions_of(self.agents@), self.opinion_distribution.counts@)
        &&& forall|i: int|
            0 <= i < self.agents@.len() ==> (#[trigger] self.agents@[i]).opinion < self.k
    }

    /// Consensus of the current phase: some opinion is held by all agents.
    pub open spec fn consensus(self) -> bool {
        exists|o: int|
            0 <= o < self.opinion_distribution.counts@.len()
                && self.opinion_distribution.counts@[o] == self.n
    }
}

/// In every reachable (well-formed) state the occupancy counts of the
/// distribution sum to exactly the number of agents.
pub proof fn lemma_distribution_total(sim: Simulation)
    requires
        sim.wf(),
    ensures
        sim.opinion_distribution.total() == sim.n as int,
{
    let ops = opinions_of(sim.agents@);
    let counts = sim.opinion_distribution.counts@;
    assert forall|i: int| 0 <= i < ops.len() implies (#[trigger] ops[i]) < counts.len() by {
        assert(sim.agents@[i].opinion < sim.k);
    }
    lemma_counts_match_sum(ops, counts);
}

/// Consensus detection is exact: opinion `o`'s count equals the number of
/// agents exactly when every agent holds `o`.
pub proof fn lemma_consensus_iff_uniform(sim: Simulation, o: u16)
    requires
        sim.wf(),
        (o as int) < sim.opinion_distribution.counts@.len(),
    ensures
        sim.opinion_distribution.counts@[o as int] == sim.n <==> (forall|i: int|
            0 <= i < sim.agents@.len() ==> (#[trigger] sim.agents@[i]).opinion == o),
{
    let ops = opinions_of(sim.agents@);
    lemma_count_full_iff_all_eq(ops, o);
    assert(sim.opinion_distribution.counts@[o as int] as nat == seq_count(ops, o));
    if sim.opinion_distribution.counts@[o as int] == sim.n {
        assert(seq_count(ops, o) == ops.len());
        assert forall|i: int|
            0 <= i < sim.agents@.len() implies (#[trigger] sim.agents@[i]).opinion == o by {
            assert(ops[i] == o);
        }
    }
    if forall|i: int| 0 <= i < sim.agents@.len() ==> (#[trigger] sim.agents@[i]).opinion == o {
        assert forall|i: int| 0 <= i < ops.len() implies ops[i] == o by {
            assert(sim.agents@[i].opinion == o);
        }
    }
}

/// An element-wise copy of the population.
fn clone_agents(v: &Vec<Agent>) -> (r: Vec<Agent>)
    ensures
        r@ == v@,
{
    let mut r: Vec<Agent> = Vec::new();
    let mut i: usize = 0;
    while i < v.len()
        invariant
            i <= v@.len(),
            r@.len() == i,
            forall|jj: int| 0 <= jj < i ==> r@[jj] == v@[jj],
        decreases v@.len() - i,
    {
        r.push(v[i]);
        i = i + 1;
    }
    proof {
        assert(r@ =~= v@);
    }
    r
}

/// A population of `n` agents with uniformly random opinions below `k`,
/// accounted one by one into the (initially empty) distribution.
fn random_population(n: u64, k: u16, rng: &mut SimRng, distribution: &mut OpinionDistribution) -> (r:
    Vec<Agent>)
    requires
        k >= 1,
        n <= usize::MAX as u64,
        old(distribution).wf(),
        old(distribution).opinion == k,
        forall|p: int|
            0 <= p < old(distribution).counts@.len() ==> old(distribution).counts@[p] == 0,
    ensures
        final(distribution).wf(),
        final(distribution).opinion == k,
        final(distribution).interaction_count == old(distribution).interaction_count,
        final(distribution).total() == n as int,
        r@.len() == n as int,
        counts_match(opinions_of(r@), final(distribution).counts@),
        forall|i: int| 0 <= i < r@.len() ==> (#[trigger] r@[i]).opinion < k,
{
    proof {
        crate::counting::lemma_sum_zero(distribution.counts@);
    }
    let mut agents: Vec<Agent> = Vec::new();
    let mut t: u64 = 0;
    while t < n
        invariant
            t <= n,
            n <= usize::MAX as u64,
            k >= 1,
            distribution.wf(),
            distribution.opinion == k,
            distribution.interaction_count == old(distribution).interaction_count,
            distribution.total() == t as int,
            agents@.len() == t as int,
            counts_match(opinions_of(agents@), distribution.counts@),
            forall|i: int| 0 <= i < agents@.len() ==> (#[trigger] agents@[i]).opinion < k,
        decreases n - t,
    {
        let op = rng.below(k as u64) as u16;
        proof {
            lemma_sum_ge_entry(distribution.counts@, op as int);
        }
        let ghost pre_agents = agents@;
        let ghost pre_ops = opinions_of(agents@);
        let ghost pre_counts = distribution.counts@;
        let _ = distribution.update(None, op);
        agents.push(Agent::new(op));
        proof {
            lemma_opinions_push(pre_agents, Agent { opinion: op });
            assert forall|p: int|
                0 <= p < distribution.counts@.len() implies #[trigger] distribution.counts@[p]
                as nat == seq_count(opinions_of(agents@), p as u16) by {
                lemma_count_push(pre_ops, op, p as u16);
                assert(pre_counts[p] as nat == seq_count(pre_ops, p as u16));
            }
        }
        t = t + 1;
    }
    agents
}

impl Simulation {
    /// A single-phase simulation from an explicit initial configuration:
    /// opinion `o` starts with `config.config[o]` agents. Accepted exactly
    /// when there is one weight per opinion, the weights sum to the number
    /// of agents, there is at least one opinion, and the population fits in
    /// memory; the distribution then mirrors the weights exactly.
    pub fn new(config: PhaseConfig) -> (r: Result<Simulation, SimulationError>)
        ensures
            r is Ok <==> {
                &&& config.config@.len() == config.k as int
                &&& sum_counts(config.config@) == config.n as int
                &&& config.k >= 1
                &&& config.n <= usize::MAX as u64
            },
            r is Err ==> r == Result::<Simulation, SimulationError>::Err(
                SimulationError::InvalidConfig,
            ),
            r matches Ok(sim) ==> {
                &&& sim.wf()
                &&& sim.n == config.n
                &&& sim.j == config.j
                &&& sim.k == config.k
                &&& sim.upper_bound_k == config.k
                &&& sim.model == config.model
                &&& sim.config@ == config.config@
                &&& sim.opinion_distribution.interaction_count == 0
                &&& sim.opinion_distribution.counts@ == config.config@
                &&& sim.plot.points@.len() == 0
                &&& sim.entropy.records@.len() == 0
                &&& sim.entropy.sample_size == config.j
            },
    {
        if config.k == 0 {
            return Err(SimulationError::InvalidConfig);
        }
        if config.config.len() != config.k as usize {
            return Err(SimulationError::InvalidConfig);
        }
        if config.n > usize::MAX as u64 {
            return Err(SimulationError::InvalidConfig);
        }
        let total = checked_sum(&config.config);
        match total {
            Some(s) => {
                if s != config.n {
                    return Err(SimulationError::InvalidConfig);
                }
            },
            None => {
                return Err(SimulationError::InvalidConfig);
            },
        }

        let mut distribution = OpinionDistribution::new(config.k);
        let mut agents: Vec<Agent> = Vec::new();
        let mut o: u16 = 0;
        while o < config.k
            invariant
                o <= config.k,
                config.k >= 1,
                config.config@.len() == config.k as int,
                sum_counts(config.config@) == config.n as int,
                config.n <= usize::MAX as u64,
                distribution.wf(),
                distribution.opinion == config.k,
                distribution.interaction_count == 0,
                forall|p: int|
                    0 <= p < o as int ==> distribution.counts@[p] == config.config@[p],
                forall|p: int|
                    o as int <= p < config.k as int ==> distribution.counts@[p] == 0,
                agents@.len() == sum_counts(config.config@.subrange(0, o as int)),
                counts_match(opinions_of(agents@), distribution.counts@),
                forall|i: int| 0 <= i < agents@.len() ==> (#[trigger] agents@[i]).opinion < o,
            decreases config.k - o,
        {
            let w = config.config[o as usize];
            let ghost pre_counts = distribution.counts@;
            distribution.batch(o, w);
            let ghost base_len = agents@.len();
            let ghost base_ops = opinions_of(agents@);
            proof {
                lemma_count_pos_iff_contains(base_ops, o);
                if seq_count(base_ops, o) > 0 {
                    let i = choose|i: int| 0 <= i < base_ops.len() && base_ops[i] == o;
                    assert(agents@[i].opinion < o);
                    assert(false);
                }
            }
            let mut t: u64 = 0;
            while t < w
                invariant
                    t <= w,
                    (o as int) < config.config@.len(),
                    w == config.config@[o as int],
                    distribution.wf(),
                    distribution.opinion == config.k,
                    distribution.interaction_count == 0,
                    distribution.counts@ == pre_counts.update(o as int, w),
                    agents@.len() == base_len + t,
                    seq_count(opinions_of(agents@), o) == t,
                    forall|p: u16|
                        p != o ==> seq_count(opinions_of(agents@), p) == seq_count(base_ops, p),
                    forall|i: int| 0 <= i < agents@.len() ==> (#[trigger] agents@[i]).opinion <= o,
                decreases w - t,
            {
                let ghost pre_agents = agents@;
                let ghost pre_ops = opinions_of(agents@);
                agents.push(Agent::new(o));
                proof {
                    lemma_opinions_push(pre_agents, Agent { opinion: o });
                    assert forall|p: u16|
                        p != o implies seq_count(opinions_of(agents@), p) == seq_count(
                        base_ops,
                        p,
                    ) by {
                        lemma_count_push(pre_ops, o, p);
                    }
                    lemma_count_push(pre_ops, o, o);
                }
                t = t + 1;
            }
            proof {
                assert forall|p: int|
                    0 <= p < distribution.counts@.len() implies (#[trigger] distribution.counts@[p])
                    as nat == seq_count(opinions_of(agents@), p as u16) by {
                    if p != o as int {
                        assert(pre_counts[p] as nat == seq_count(base_ops, p as u16));
                        assert(seq_count(opinions_of(agents@), p as u16) == seq_count(
                            base_ops,
                            p as u16,
                        ));
                    }
                }
                assert(config.config@.subrange(0, o as int + 1).drop_last()
                    =~= config.config@.subrange(0, o as int));
                assert(agents@.len() == sum_counts(config.config@.subrange(0, o as int + 1)));
            }
            o = o + 1;
        }
        proof {
            assert(config.config@.subrange(0, config.k as int) =~= config.config@);
        }

        Ok(
            Simulation {
                agents,
                n: config.n,
                j: config.j,
                k: config.k,
                upper_bound_k: config.k,
                config: config.config,
                opinion_distribution: distribution,
                entropy: Entropy::new(config.j),
                plot: OpinionPlot::new(),
                model: config.model,
            },
        )
    }

    /// A sweep starting at the two-opinion phase, with every agent drawing
    /// a uniformly random starting opinion. Accepted exactly for validated
    /// configurations whose population fits in memory.
    pub fn with_random_opinions(config: &Config, rng: &mut SimRng) -> (r: Result<
        Simulation,
        SimulationError,
    >)
        ensures
            r is Ok <==> config.valid() && config.agent_count <= usize::MAX as u64,
            r is Err ==> r == Result::<Simulation, SimulationError>::Err(
                SimulationError::InvalidConfig,
            ),
            r matches Ok(sim) ==> {
                &&& sim.wf()
                &&& sim.n == config.agent_count
                &&& sim.j == config.sample_size
                &&& sim.k == 2
                &&& sim.upper_bound_k == config.upper_bound_k
                &&& sim.k <= sim.upper_bound_k
                &&& sim.model == config.model
                &&& sim.opinion_distribution.interaction_count == 0
                &&& sim.plot.points@.len() == 0
                &&& sim.entropy.records@.len() == 0
                &&& sim.entropy.sample_size == config.sample_size
            },
    {
        let valid = config.validate();
        if valid.is_err() {
            return Err(SimulationError::InvalidConfig);
        }
        if config.agent_count > usize::MAX as u64 {
            return Err(SimulationError::InvalidConfig);
        }
        let mut distribution = OpinionDistribution::new(2);
        let agents = random_population(config.agent_count, 2, rng, &mut distribution);
        Ok(
            Simulation {
                agents,
                n: config.agent_count,
                j: config.sample_size,
                k: 2,
                upper_bound_k: config.upper_bound_k,
                config: Vec::new(),
                opinion_distribution: distribution,
                entropy: Entropy::new(config.sample_size),
                plot: OpinionPlot::new(),
                model: config.model,
            },
        )
    }

    /// Advance to the next phase: one more opinion, a fresh distribution,
    /// and a freshly drawn random population. Accumulated results are kept.
    pub fn prepare_next_simulation(&mut self, rng: &mut SimRng)
        requires
            old(self).wf(),
            old(self).k < u16::MAX,
        ensures
            final(self).wf(),
            final(self).k == old(self).k + 1,
            final(self).n == old(self).n,
            final(self).j == old(self).j,
            final(self).upper_bound_k == old(self).upper_bound_k,
            final(self).model == old(self).model,
            final(self).config == old(self).config,
            final(self).entropy == old(self).entropy,
            final(self).plot == old(self).plot,
            final(self).opinion_distribution.interaction_count == 0,
    {
        // The population is held in a vector, so its size — and with it
        // `n` — fits the machine's address range.
        let len = self.agents.len();
        proof {
            assert(len as int == self.n as int);
        }
        let mut distribution = OpinionDistribution::next(self.k);
        let n = self.n;
        let k = self.k + 1;
        let agents = random_population(n, k, rng, &mut distribution);
        self.opinion_distribution = distribution;
        self.k = k;
        self.agents = agents;
    }

    /// Choose the active agent uniformly at random, swap it to the front,
    /// and draw the interaction sample from the remaining agents. Fails
    /// with `EmptyAgents` on an empty population, leaving it untouched;
    /// otherwise the population is permuted by one swap and the sample
    /// holds `min(sample_size, n - 1)` copies of remaining agents.
    pub fn prepare_interaction(agents: &mut Vec<Agent>, sample_size: u8, rng: &mut SimRng) -> (r:
        Result<Vec<Agent>, SimulationError>)
        ensures
            r is Ok <==> old(agents)@.len() > 0,
            r is Err ==> r == Result::<Vec<Agent>, SimulationError>::Err(
                SimulationError::EmptyAgents,
            ) && final(agents)@ == old(agents)@,
            r matches Ok(sample) ==> {
                &&& exists|x: int|
                    0 <= x < old(agents)@.len() && final(agents)@ == old(agents)@.update(
                        0,
                        old(agents)@[x],
                    ).update(x, old(agents)@[0])
                &&& sample@.len() == if sample_size as int <= old(agents)@.len() - 1 {
                    sample_size as int
                } else {
                    old(agents)@.len() - 1
                }
                &&& sampled_from(sample@, final(agents)@, 1)
                &&& sampled_without_repetition(sample@, final(agents)@, 1)
            },
    {
        let n = agents.len();
        if n == 0 {
            return Err(SimulationError::EmptyAgents);
        }
        let x = rng.below(n as u64) as usize;
        let a0 = agents[0];
        let ax = agents[x];
        agents.set(0, ax);
        agents.set(x, a0);
        let sample = rng.sample_agents(agents, 1, sample_size as usize);
        proof {
            let orig = old(agents)@;
            assert(agents@ == orig.update(0, orig[x as int]).update(x as int, orig[0]));
        }
        Ok(sample)
    }

    /// One interaction of the Population model: one uniformly chosen agent
    /// adopts the majority opinion of a sample of `j` distinct other
    /// agents, the distribution follows, and the interaction counter
    /// advances by one. Succeeds exactly when an agent and a non-empty
    /// sample exist, that is when `n >= 2` and `j >= 1`; an empty
    /// population gives `EmptyAgents`, an empty sample `EmptySample`, and
    /// either failure leaves the distribution unchanged.
    pub fn interact(&mut self, rng: &mut SimRng) -> (r: Result<(), SimulationError>)
        requires
            old(self).wf(),
            old(self).opinion_distribution.interaction_count < u64::MAX,
        ensures
            final(self).wf(),
            final(self).n == old(self).n,
            final(self).j == old(self).j,
            final(self).k == old(self).k,
            final(self).upper_bound_k == old(self).upper_bound_k,
            final(self).model == old(self).model,
            final(self).config == old(self).config,
            final(self).entropy == old(self).entropy,
            final(self).plot == old(self).plot,
            r is Ok <==> old(self).n >= 2 && old(self).j >= 1,
            r is Ok ==> final(self).opinion_distribution.interaction_count == old(
                self,
            ).opinion_distribution.interaction_count + 1,
            r is Ok ==> population_interaction(
                old(self).agents@,
                old(self).opinion_distribution.counts@,
                old(self).j,
                final(self).agents@,
                final(self).opinion_distribution.counts@,
            ),
            r matches Err(e) ==> {
                &&& (e == SimulationError::EmptyAgents <==> old(self).n == 0)
                &&& (e == SimulationError::EmptyAgents || e == SimulationError::EmptySample)
                &&& final(self).opinion_distribution == old(self).opinion_distribution
            },
    {
        let ghost pre = *self;
        let sample_res = Self::prepare_interaction(&mut self.agents, self.j, rng);
        let sample = match sample_res {
            Ok(s) => s,
            Err(e) => {
                return Err(e);
            },
        };
        proof {
            let x = choose|x: int|
                0 <= x < pre.agents@.len() && self.agents@ == pre.agents@.update(
                    0,
                    pre.agents@[x],
                ).update(x, pre.agents@[0]);
            lemma_opinions_update(pre.agents@, 0, pre.agents@[x]);
            lemma_opinions_update(
                pre.agents@.update(0, pre.agents@[x]),
                x,
                pre.agents@[0],
            );
            assert forall|p: int|
                0 <= p < self.opinion_distribution.counts@.len() implies (
            #[trigger] self.opinion_distribution.counts@[p]) as nat == seq_count(
                opinions_of(self.agents@),
                p as u16,
            ) by {
                lemma_count_swap(opinions_of(pre.agents@), 0, x, p as u16);
                assert(opinions_of(pre.agents@).update(0, opinions_of(pre.agents@)[x]).update(
                    x,
                    opinions_of(pre.agents@)[0],
                ) == opinions_of(self.agents@));
            }
            assert forall|i: int|
                0 <= i < self.agents@.len() implies (#[trigger] self.agents@[i]).opinion
                < self.k by {
                assert(self.agents@[i] == pre.agents@[i] || self.agents@[i] == pre.agents@[0]
                    || self.agents@[i] == pre.agents@[x]);
            }
        }
        let mut active = self.agents[0];
        let old_op = active.opinion;
        let update_res = active.update(&sample, rng);
        let new_op = match update_res {
            Ok(v) => v,
            Err(e) => {
                return Err(e);
            },
        };
        proof {
            let swapped_ops = opinions_of(self.agents@);
            let counts = self.opinion_distribution.counts@;
            // The adopted opinion is one of a sampled agent, hence an
            // opinion of the current phase.
            assert(opinions_of(sample@).contains(new_op));
            let s = choose|s: int|
                0 <= s < opinions_of(sample@).len() && opinions_of(sample@)[s] == new_op;
            assert(sample@[s].opinion == new_op);
            let jj = choose|jj: int| 1 <= jj < self.agents@.len() && sample@[s] == self.agents@[jj];
            assert(self.agents@[jj].opinion == new_op);
            assert((new_op as int) < counts.len());
            // The active agent's opinion is occupied.
            assert(swapped_ops[0] == old_op);
            lemma_count_pos_iff_contains(swapped_ops, old_op);
            assert(swapped_ops.contains(old_op));
            assert(counts[old_op as int] >= 1);
            // The new opinion's count stays in range.
            if old_op != new_op {
                lemma_sum_two_entries(counts, old_op as int, new_op as int);
                assert forall|i: int|
                    0 <= i < swapped_ops.len() implies (#[trigger] swapped_ops[i])
                    < counts.len() by {
                    assert(self.agents@[i].opinion < self.k);
                }
                lemma_counts_match_sum(swapped_ops, counts);
            }
        }
        let ghost swapped = *self;
        let _ = self.opinion_distribution.update(Some(old_op), new_op);
        self.agents.set(0, active);
        proof {
            let sops = opinions_of(swapped.agents@);
            lemma_opinions_update(swapped.agents@, 0, active);
            assert forall|p: int|
                0 <= p < self.opinion_distribution.counts@.len() implies (
            #[trigger] self.opinion_distribution.counts@[p]) as nat == seq_count(
                opinions_of(self.agents@),
                p as u16,
            ) by {
                lemma_count_update(sops, 0, new_op, p as u16);
                assert(swapped.opinion_distribution.counts@[p] as nat == seq_count(sops, p as u16));
            }
            // The step's outward effect is exactly one majority adoption.
            let x = choose|x: int|
                0 <= x < pre.agents@.len() && swapped.agents@ == pre.agents@.update(
                    0,
                    pre.agents@[x],
                ).update(x, pre.agents@[0]);
            assert(active == Agent { opinion: new_op });
            assert(sampled_without_repetition(sample@, swapped.agents@, 1));
            assert(population_interaction_witness(
                pre.agents@,
                pre.opinion_distribution.counts@,
                pre.j,
                self.agents@,
                self.opinion_distribution.counts@,
                x,
                sample@,
                new_op,
            ));
            assert(population_interaction(
                pre.agents@,
                pre.opinion_distribution.counts@,
                pre.j,
                self.agents@,
                self.opinion_distribution.counts@,
            ));
        }
        self.opinion_distribution.interaction_count = self.opinion_distribution.interaction_count
            + 1;
        Ok(())
    }

    /// One interaction of the Population model.
    pub fn interact_population_model(&mut self, rng: &mut SimRng) -> (r: Result<
        (),
        SimulationError,
    >)
        requires
            old(self).wf(),
            old(self).opinion_distribution.interaction_count < u64::MAX,
        ensures
            final(self).wf(),
            final(self).n == old(self).n,
            final(self).j == old(self).j,
            final(self).k == old(self).k,
            final(self).upper_bound_k == old(self).upper_bound_k,
            final(self).model == old(self).model,
            final(self).config == old(self).config,
            final(self).entropy == old(self).entropy,
            final(self).plot == old(self).plot,
            r is Ok <==> old(self).n >= 2 && old(self).j >= 1,
            r is Ok ==> final(self).opinion_distribution.interaction_count == old(
                self,
            ).opinion_distribution.interaction_count + 1,
            r is Ok ==> population_interaction(
                old(self).agents@,
                old(self).opinion_distribution.counts@,
                old(self).j,
                final(self).agents@,
                final(self).opinion_distribution.counts@,
            ),
            r is Err ==> final(self).opinion_distribution == old(self).opinion_distribution,
    {
        self.interact(rng)
    }

    /// One round of the Gossip model: every agent, in order, adopts the
    /// majority opinion of a sample of `j` agents drawn from a frozen
    /// snapshot of the population taken before the round began; the round
    /// counter advances by one. Succeeds exactly when there are agents and
    /// the sample size is positive; an empty population gives
    /// `EmptyAgents`, a zero sample size `EmptySample`, and either failure
    /// leaves everything unchanged.
    pub fn interact_gossip_model(&mut self, rng: &mut SimRng) -> (r: Result<(), SimulationError>)
        requires
            old(self).wf(),
            old(self).opinion_distribution.interaction_count < u64::MAX,
        ensures
            final(self).wf(),
            final(self).n == old(self).n,
            final(self).j == old(self).j,
            final(self).k == old(self).k,
            final(self).upper_bound_k == old(self).upper_bound_k,
            final(self).model == old(self).model,
            final(self).config == old(self).config,
            final(self).entropy == old(self).entropy,
            final(self).plot == old(self).plot,
            r is Ok <==> old(self).n >= 1 && old(self).j >= 1,
            r is Ok ==> final(self).opinion_distribution.interaction_count == old(
                self,
            ).opinion_distribution.interaction_count + 1,
            r is Ok ==> forall|i: int|
                0 <= i < final(self).agents@.len() ==> gossip_adoption(
                    old(self).agents@,
                    old(self).j,
                    (#[trigger] final(self).agents@[i]).opinion,
                ),
            r matches Err(e) ==> {
                &&& (e == SimulationError::EmptyAgents <==> old(self).n == 0)
                &&& (e == SimulationError::EmptyAgents || e == SimulationError::EmptySample)
                &&& *final(self) == *old(self)
            },
    {
        if self.agents.len() == 0 {
            return Err(SimulationError::EmptyAgents);
        }
        if self.j == 0 {
            return Err(SimulationError::EmptySample);
        }
        let snapshot = clone_agents(&self.agents);
        let ghost snap = snapshot@;
        let n = self.agents.len();
        let mut idx: usize = 0;
        while idx < n
            invariant
                idx <= n,
                self.j >= 1,
                snapshot@ == snap,
                snap.len() == n as int,
                n as int == self.n as int,
                self.wf(),
                self.n == old(self).n,
                self.j == old(self).j,
                self.k == old(self).k,
                self.upper_bound_k == old(self).upper_bound_k,
                self.model == old(self).model,
                self.config == old(self).config,
                self.entropy == old(self).entropy,
                self.plot == old(self).plot,
                self.opinion_distribution.interaction_count == old(
                    self,
                ).opinion_distribution.interaction_count,
                forall|i: int| 0 <= i < snap.len() ==> (#[trigger] snap[i]).opinion < self.k,
                forall|i: int|
                    0 <= i < idx ==> gossip_adoption(
                        snap,
                        old(self).j,
                        (#[trigger] self.agents@[i]).opinion,
                    ),
            decreases n - idx,
        {
            let sample = rng.sample_agents(&snapshot, 0, self.j as usize);
            let mut a = self.agents[idx];
            let old_op = a.opinion;
            let update_res = a.update(&sample, rng);
            let new_op = match update_res {
                Ok(v) => v,
                Err(e) => {
                    proof {
                        assert(sample@.len() > 0);
                        assert(false);
                    }
                    return Err(e);
                },
            };
            proof {
                let ops = opinions_of(self.agents@);
                let counts = self.opinion_distribution.counts@;
                assert(opinions_of(sample@).contains(new_op));
                let s = choose|s: int|
                    0 <= s < opinions_of(sample@).len() && opinions_of(sample@)[s] == new_op;
                assert(sample@[s].opinion == new_op);
                let jj = choose|jj: int| 0 <= jj < snap.len() && sample@[s] == snap[jj];
                assert(snap[jj].opinion == new_op);
                assert((new_op as int) < counts.len());
                assert(ops[idx as int] == old_op);
                lemma_count_pos_iff_contains(ops, old_op);
                assert(ops.contains(old_op));
                assert(counts[old_op as int] >= 1);
                if old_op != new_op {
                    lemma_sum_two_entries(counts, old_op as int, new_op as int);
                    assert forall|i: int|
                        0 <= i < ops.len() implies (#[trigger] ops[i]) < counts.len() by {
                        assert(self.agents@[i].opinion < self.k);
                    }
                    lemma_counts_match_sum(ops, counts);
                }
            }
            let ghost pre = *self;
            let _ = self.opinion_distribution.update(Some(old_op), new_op);
            self.agents.set(idx, a);
            proof {
                let pops = opinions_of(pre.agents@);
                lemma_opinions_update(pre.agents@, idx as int, a);
                assert forall|p: int|
                    0 <= p < self.opinion_distribution.counts@.len() implies (
                #[trigger] self.opinion_distribution.counts@[p]) as nat == seq_count(
                    opinions_of(self.agents@),
                    p as u16,
                ) by {
                    lemma_count_update(pops, idx as int, new_op, p as u16);
                    assert(pre.opinion_distribution.counts@[p] as nat == seq_count(
                        pops,
                        p as u16,
                    ));
                }
                // The updated agent's new opinion is a majority of a
                // without-repetition sample of the frozen snapshot;
                // earlier agents keep the adoptions already shown.
                assert(sample@.len() == if old(self).j as int <= snap.len() {
                    old(self).j as int
                } else {
                    snap.len() as int
                });
                assert(sampled_without_repetition(sample@, snap, 0));
                assert(gossip_sample_witness(snap, old(self).j, new_op, sample@));
                assert(gossip_adoption(snap, old(self).j, new_op));
                assert forall|i: int|
                    0 <= i < idx + 1 implies gossip_adoption(
                    snap,
                    old(self).j,
                    (#[trigger] self.agents@[i]).opinion,
                ) by {
                    if i < idx {
                        assert(self.agents@[i] == pre.agents@[i]);
                        assert(gossip_adoption(snap, old(self).j, pre.agents@[i].opinion));
                    } else {
                        assert(self.agents@[i].opinion == new_op);
                    }
                }
            }
            idx = idx + 1;
        }
        self.opinion_distribution.interaction_count = self.opinion_distribution.interaction_count
            + 1;
        Ok(())
    }

    /// Exact consensus detection: true exactly when some opinion's count
    /// equals the number of agents — equivalently, when every agent holds
    /// one same opinion. On consensus the convergence point
    /// `(k, interaction_count)` is appended to the plot; otherwise nothing
    /// changes.
    pub fn reached_consensus(&mut self) -> (r: bool)
        requires
            old(self).wf(),
        ensures
            final(self).wf(),
            final(self).agents == old(self).agents,
            final(self).n == old(self).n,
            final(self).j == old(self).j,
            final(self).k == old(self).k,
            final(self).upper_bound_k == old(self).upper_bound_k,
            final(self).model == old(self).model,
            final(self).config == old(self).config,
            final(self).entropy == old(self).entropy,
            final(self).opinion_distribution == old(self).opinion_distribution,
            r <==> old(self).consensus(),
            r ==> final(self).plot.points@ == old(self).plot.points@.push(
                (old(self).k, old(self).opinion_distribution.interaction_count),
            ) && final(self).plot.j == old(self).j,
            !r ==> final(self).plot == old(self).plot,
    {
        if self.opinion_distribution.check_occurence_with(self.n) {
            self.plot.j = self.j;
            let point = (self.k, self.opinion_distribution.interaction_count);
            self.plot.points.push(point);
            return true;
        }
        false
    }

    /// With no consensus the population must hold at least two agents: with
    /// zero or one agent every opinion trivially agrees.
    proof fn lemma_no_consensus_needs_two(self)
        requires
            self.wf(),
            !self.consensus(),
        ensures
            self.n >= 2,
    {
        let ops = opinions_of(self.agents@);
        let counts = self.opinion_distribution.counts@;
        if self.n == 0 {
            lemma_count_le_len(ops, 0u16);
            assert(counts[0] as nat == seq_count(ops, 0u16));
            assert(counts[0] == self.n);
        } else if self.n == 1 {
            let op = self.agents@[0].opinion;
            assert(counts[op as int] as nat == seq_count(ops, op));
            assert(ops[0] == op);
            lemma_count_pos_iff_contains(ops, op);
            assert(ops.contains(op));
            lemma_count_le_len(ops, op);
            assert(counts[op as int] == self.n);
        }
    }

    /// A Population-model interaction on a consensual population cannot
    /// break the consensus: the sample holds only the consensus opinion,
    /// so the active agent re-adopts it and the occupancy counts are
    /// unchanged.
    proof fn lemma_population_interaction_keeps_consensus(
        self,
        post_agents: Seq<Agent>,
        post_counts: Seq<u64>,
    )
        requires
            self.wf(),
            self.consensus(),
            population_interaction(
                self.agents@,
                self.opinion_distribution.counts@,
                self.j,
                post_agents,
                post_counts,
            ),
        ensures
            post_counts == self.opinion_distribution.counts@,
    {
        let counts = self.opinion_distribution.counts@;
        let o = choose|o: int| 0 <= o < counts.len() && counts[o] == self.n;
        lemma_consensus_iff_uniform(self, o as u16);
        let (x, sample, new_op) = choose|x: int, sample: Seq<Agent>, new_op: u16|
            population_interaction_witness(
                self.agents@,
                counts,
                self.j,
                post_agents,
                post_counts,
                x,
                sample,
                new_op,
            );
        let swapped = self.agents@.update(0, self.agents@[x]).update(x, self.agents@[0]);
        assert forall|jj: int|
            0 <= jj < swapped.len() implies (#[trigger] swapped[jj]).opinion == o as u16 by {
            assert(swapped[jj] == self.agents@[jj] || swapped[jj] == self.agents@[0]
                || swapped[jj] == self.agents@[x]);
        }
        assert(opinions_of(sample).contains(new_op));
        let s = choose|s: int|
            0 <= s < opinions_of(sample).len() && opinions_of(sample)[s] == new_op;
        assert(sample[s].opinion == new_op);
        let positions = choose|positions: Seq<int>|
            crate::agent::sample_positions(sample, swapped, 1, positions);
        assert(sample[s] == swapped[positions[s]]);
        assert(new_op == o as u16);
        assert(swapped[0].opinion == o as u16);
        assert(post_counts =~= counts);
    }

    /// With two agents, one Population-model interaction always reaches
    /// consensus: the single other agent fully determines the sample, so
    /// the active agent adopts its opinion.
    proof fn lemma_two_agents_interaction_decides(
        self,
        post_agents: Seq<Agent>,
        post_counts: Seq<u64>,
    )
        requires
            self.wf(),
            self.n == 2,
            self.j >= 1,
            population_interaction(
                self.agents@,
                self.opinion_distribution.counts@,
                self.j,
                post_agents,
                post_counts,
            ),
        ensures
            exists|o: int| 0 <= o < post_counts.len() && post_counts[o] == 2,
    {
        let counts = self.opinion_distribution.counts@;
        let ops = opinions_of(self.agents@);
        let (x, sample, new_op) = choose|x: int, sample: Seq<Agent>, new_op: u16|
            population_interaction_witness(
                self.agents@,
                counts,
                self.j,
                post_agents,
                post_counts,
                x,
                sample,
                new_op,
            );
        let swapped = self.agents@.update(0, self.agents@[x]).update(x, self.agents@[0]);
        let old_op = swapped[0].opinion;
        // The sample is exactly the one remaining agent.
        assert(sample.len() == 1);
        let positions = choose|positions: Seq<int>|
            crate::agent::sample_positions(sample, swapped, 1, positions);
        assert(positions[0] == 1);
        assert(sample[0] == swapped[1]);
        let s = choose|s: int|
            0 <= s < opinions_of(sample).len() && opinions_of(sample)[s] == new_op;
        assert(new_op == swapped[1].opinion);
        // Both occupied opinions are accounted for in the two counts.
        lemma_opinions_update(self.agents@, 0, self.agents@[x]);
        lemma_opinions_update(self.agents@.update(0, self.agents@[x]), x, self.agents@[0]);
        let swapped_ops = ops.update(0, ops[x]).update(x, ops[0]);
        assert(swapped_ops == opinions_of(swapped));
        assert(counts[old_op as int] as nat == seq_count(ops, old_op));
        assert(counts[new_op as int] as nat == seq_count(ops, new_op));
        lemma_count_swap(ops, 0, x, old_op);
        lemma_count_swap(ops, 0, x, new_op);
        let dec = counts.update(old_op as int, (counts[old_op as int] - 1) as u64);
        if old_op == new_op {
            // Both agents already hold the same opinion.
            assert(swapped_ops[0] == old_op && swapped_ops[1] == old_op);
            lemma_count_full_iff_all_eq(swapped_ops, old_op);
            assert forall|i: int| 0 <= i < swapped_ops.len() implies swapped_ops[i] == old_op by {
                assert(i == 0 || i == 1);
            }
            assert(seq_count(swapped_ops, old_op) == 2);
            assert(post_counts =~= counts);
            assert(post_counts[old_op as int] == 2);
        } else {
            // One unit moves over: both counts were one.
            lemma_count_pos_iff_contains(swapped_ops, old_op);
            lemma_count_pos_iff_contains(swapped_ops, new_op);
            assert(swapped_ops[0] == old_op);
            assert(swapped_ops[1] == new_op);
            assert(swapped_ops.contains(old_op));
            assert(swapped_ops.contains(new_op));
            assert forall|i: int| 0 <= i < ops.len() implies (#[trigger] ops[i]) < counts.len() by {
                assert(self.agents@[i].opinion < self.k);
            }
            lemma_counts_match_sum(ops, counts);
            lemma_sum_two_entries(counts, old_op as int, new_op as int);
            assert(counts[old_op as int] == 1 && counts[new_op as int] == 1);
            assert(post_counts[new_op as int] == 2);
        }
    }

    /// A Gossip round on a consensual population cannot break the
    /// consensus: every sample holds only the consensus opinion, so every
    /// agent re-adopts it.
    proof fn lemma_gossip_round_keeps_consensus(self, post: Simulation)
        requires
            self.wf(),
            self.consensus(),
            post.wf(),
            post.n == self.n,
            post.k == self.k,
            forall|i: int|
                0 <= i < post.agents@.len() ==> gossip_adoption(
                    self.agents@,
                    self.j,
                    (#[trigger] post.agents@[i]).opinion,
                ),
        ensures
            post.consensus(),
    {
        let counts = self.opinion_distribution.counts@;
        let o = choose|o: int| 0 <= o < counts.len() && counts[o] == self.n;
        lemma_consensus_iff_uniform(self, o as u16);
        assert forall|i: int|
            0 <= i < post.agents@.len() implies (#[trigger] post.agents@[i]).opinion
            == o as u16 by {
            let opinion = post.agents@[i].opinion;
            let sample = choose|sample: Seq<Agent>|
                gossip_sample_witness(self.agents@, self.j, opinion, sample);
            let s = choose|s: int|
                0 <= s < opinions_of(sample).len() && opinions_of(sample)[s] == opinion;
            assert(sample[s].opinion == opinion);
            let positions = choose|positions: Seq<int>|
                crate::agent::sample_positions(sample, self.agents@, 0, positions);
            assert(sample[s] == self.agents@[positions[s]]);
            assert(self.agents@[positions[s]].opinion == o as u16);
        }
        lemma_consensus_iff_uniform(post, o as u16);
        assert(post.opinion_distribution.counts@[o] == post.n);
    }

    /// Run the current phase to consensus: repeatedly interact (one agent
    /// per interaction in the Population model, one full round in the
    /// Gossip model), taking an entropy snapshot every `n`-th interaction,
    /// and stop as soon as some opinion is held by every agent; the
    /// convergence point is then appended to the plot. Fails with
    /// `EmptySample` when the sample size is zero and consensus is not
    /// already reached, and with `InteractionOverflow` in the unreachable
    /// case that the interaction counter runs out.
    pub fn execute(&mut self, rng: &mut SimRng) -> (r: Result<(), SimulationError>)
        requires
            old(self).wf(),
        ensures
            final(self).wf(),
            final(self).n == old(self).n,
            final(self).j == old(self).j,
            final(self).k == old(self).k,
            final(self).upper_bound_k == old(self).upper_bound_k,
            final(self).model == old(self).model,
            final(self).config == old(self).config,
            final(self).entropy.sample_size == old(self).entropy.sample_size,
            final(self).entropy.records@.len() >= old(self).entropy.records@.len(),
            final(self).entropy.records@.subrange(0, old(self).entropy.records@.len() as int)
                == old(self).entropy.records@,
            forall|i: int|
                old(self).entropy.records@.len() <= i < final(self).entropy.records@.len() ==> (
                #[trigger] final(self).entropy.records@[i]).checkpoint % old(self).n == 0
                    && final(self).entropy.records@[i].opinion_count == old(self).k,
            forall|a: int, b: int|
                old(self).entropy.records@.len() <= a < b < final(self).entropy.records@.len()
                    ==> (#[trigger] final(self).entropy.records@[a]).checkpoint < (
                #[trigger] final(self).entropy.records@[b]).checkpoint,
            forall|c: int|
                #![trigger checkpoint_recorded(final(self).entropy.records@, old(self).entropy.records@.len() as int, c)]
                old(self).opinion_distribution.interaction_count <= c
                    < final(self).opinion_distribution.interaction_count && c % (old(
                    self,
                ).n as int) == 0 ==> checkpoint_recorded(
                    final(self).entropy.records@,
                    old(self).entropy.records@.len() as int,
                    c,
                ),
            old(self).consensus() ==> r is Ok && final(self).opinion_distribution == old(
                self,
            ).opinion_distribution && final(self).agents == old(self).agents,
            !old(self).consensus() && old(self).j == 0 && old(
                self,
            ).opinion_distribution.interaction_count < u64::MAX ==> r == Result::<
                (),
                SimulationError,
            >::Err(SimulationError::EmptySample),
            !old(self).consensus() && old(self).n == 2 && old(self).j >= 1 && old(self).model
                == Model::Population && old(self).opinion_distribution.interaction_count
                < u64::MAX ==> r is Ok
                && final(self).opinion_distribution.interaction_count == old(
                self,
            ).opinion_distribution.interaction_count + 1,
            r is Ok ==> {
                &&& final(self).consensus()
                &&& final(self).plot.points@ == old(self).plot.points@.push(
                    (old(self).k, final(self).opinion_distribution.interaction_count),
                )
                &&& final(self).plot.j == old(self).j
            },
            r matches Err(e) ==> {
                &&& e == SimulationError::EmptySample || e == SimulationError::InteractionOverflow
                &&& (e == SimulationError::EmptySample ==> old(self).j == 0)
                &&& (e == SimulationError::InteractionOverflow
                    ==> final(self).opinion_distribution.interaction_count == u64::MAX)
                &&& final(self).plot == old(self).plot
            },
    {
        loop
            invariant_except_break
                self.wf(),
                self.n == old(self).n,
                self.j == old(self).j,
                self.k == old(self).k,
                self.upper_bound_k == old(self).upper_bound_k,
                self.model == old(self).model,
                self.config == old(self).config,
                self.plot == old(self).plot,
                self.entropy.sample_size == old(self).entropy.sample_size,
                self.entropy.records@.len() >= old(self).entropy.records@.len(),
                self.entropy.records@.subrange(0, old(self).entropy.records@.len() as int) == old(
                    self,
                ).entropy.records@,
                forall|i: int|
                    old(self).entropy.records@.len() <= i < self.entropy.records@.len() ==> (
                    #[trigger] self.entropy.records@[i]).checkpoint % old(self).n == 0
                        && self.entropy.records@[i].opinion_count == old(self).k,
                forall|a: int, b: int|
                    old(self).entropy.records@.len() <= a < b < self.entropy.records@.len() ==> (
                    #[trigger] self.entropy.records@[a]).checkpoint < (
                    #[trigger] self.entropy.records@[b]).checkpoint,
                forall|c: int|
                    #![trigger checkpoint_recorded(self.entropy.records@, old(self).entropy.records@.len() as int, c)]
                    old(self).opinion_distribution.interaction_count <= c
                        < self.opinion_distribution.interaction_count && c % (old(self).n as int)
                        == 0 ==> checkpoint_recorded(
                        self.entropy.records@,
                        old(self).entropy.records@.len() as int,
                        c,
                    ),
                self.entropy.records@.len() > old(self).entropy.records@.len()
                    ==> self.entropy.records@.last().checkpoint
                    < self.opinion_distribution.interaction_count,
                old(self).opinion_distribution.interaction_count
                    <= self.opinion_distribution.interaction_count,
                old(self).consensus() ==> self.opinion_distribution == old(
                    self,
                ).opinion_distribution && self.agents == old(self).agents,
                !old(self).consensus() && old(self).j == 0 && old(
                    self,
                ).opinion_distribution.interaction_count < u64::MAX
                    ==> self.opinion_distribution == old(self).opinion_distribution,
                !old(self).consensus() && old(self).n == 2 && old(self).j >= 1 && old(self).model
                    == Model::Population && old(self).opinion_distribution.interaction_count
                    < u64::MAX ==> (self.opinion_distribution == old(self).opinion_distribution
                    && self.agents == old(self).agents) || (self.consensus()
                    && self.opinion_distribution.interaction_count == old(
                    self,
                ).opinion_distribution.interaction_count + 1),
            ensures
                self.wf(),
                self.n == old(self).n,
                self.j == old(self).j,
                self.k == old(self).k,
                self.upper_bound_k == old(self).upper_bound_k,
                self.model == old(self).model,
                self.config == old(self).config,
                self.entropy.sample_size == old(self).entropy.sample_size,
                self.entropy.records@.len() >= old(self).entropy.records@.len(),
                self.entropy.records@.subrange(0, old(self).entropy.records@.len() as int) == old(
                    self,
                ).entropy.records@,
                forall|i: int|
                    old(self).entropy.records@.len() <= i < self.entropy.records@.len() ==> (
                    #[trigger] self.entropy.records@[i]).checkpoint % old(self).n == 0
                        && self.entropy.records@[i].opinion_count == old(self).k,
                forall|a: int, b: int|
                    old(self).entropy.records@.len() <= a < b < self.entropy.records@.len() ==> (
                    #[trigger] self.entropy.records@[a]).checkpoint < (
                    #[trigger] self.entropy.records@[b]).checkpoint,
                forall|c: int|
                    #![trigger checkpoint_recorded(self.entropy.records@, old(self).entropy.records@.len() as int, c)]
                    old(self).opinion_distribution.interaction_count <= c
                        < self.opinion_distribution.interaction_count && c % (old(self).n as int)
                        == 0 ==> checkpoint_recorded(
                        self.entropy.records@,
                        old(self).entropy.records@.len() as int,
                        c,
                    ),
                old(self).consensus() ==> self.opinion_distribution == old(
                    self,
                ).opinion_distribution && self.agents == old(self).agents,
                !(!old(self).consensus() && old(self).j == 0 && old(
                    self,
                ).opinion_distribution.interaction_count < u64::MAX),
                !old(self).consensus() && old(self).n == 2 && old(self).j >= 1 && old(self).model
                    == Model::Population && old(self).opinion_distribution.interaction_count
                    < u64::MAX ==> self.opinion_distribution.interaction_count == old(
                    self,
                ).opinion_distribution.interaction_count + 1,
                self.consensus(),
                self.plot.points@ == old(self).plot.points@.push(
                    (old(self).k, self.opinion_distribution.interaction_count),
                ),
                self.plot.j == old(self).j,
            decreases u64::MAX - self.opinion_distribution.interaction_count,
        {
            let ghost entry = *self;
            if self.reached_consensus() {
                break;
            }
            proof {
                // A state in consensus at entry exits at the first check,
                // so from here on the entry state was not consensual.
                if old(self).consensus() {
                    assert(self.opinion_distribution == old(self).opinion_distribution);
                    let o = choose|o: int|
                        0 <= o < old(self).opinion_distribution.counts@.len() && old(
                            self,
                        ).opinion_distribution.counts@[o] == old(self).n;
                    assert(self.opinion_distribution.counts@[o] == self.n);
                    assert(self.consensus());
                    assert(false);
                }
                self.lemma_no_consensus_needs_two();
            }
            let ghost cur = self.opinion_distribution.interaction_count;
            let ghost len0 = old(self).entropy.records@.len() as int;
            if self.opinion_distribution.interaction_count % self.n == 0 {
                let ghost pre_records = self.entropy.records@;
                self.entropy.record(&self.opinion_distribution);
                proof {
                    assert(self.entropy.records@.subrange(0, len0) =~= pre_records.subrange(
                        0,
                        len0,
                    ));
                    assert forall|i: int|
                        len0 <= i < self.entropy.records@.len() implies (
                    #[trigger] self.entropy.records@[i]).checkpoint % old(self).n == 0
                        && self.entropy.records@[i].opinion_count == old(self).k by {
                        if i < self.entropy.records@.len() - 1 {
                            assert(self.entropy.records@.drop_last()[i] == pre_records[i]);
                        }
                    }
                    // The new snapshot extends the strictly increasing
                    // checkpoint order and records the current count.
                    assert forall|a: int, b: int|
                        len0 <= a < b < self.entropy.records@.len() implies (
                    #[trigger] self.entropy.records@[a]).checkpoint < (
                    #[trigger] self.entropy.records@[b]).checkpoint by {
                        assert(self.entropy.records@.drop_last()[a] == pre_records[a]);
                        if b < self.entropy.records@.len() - 1 {
                            assert(self.entropy.records@.drop_last()[b] == pre_records[b]);
                        } else {
                            assert(pre_records[a].checkpoint <= pre_records[pre_records.len()
                                - 1].checkpoint);
                        }
                    }
                    assert forall|c: int|
                        #![trigger checkpoint_recorded(self.entropy.records@, len0, c)]
                        old(self).opinion_distribution.interaction_count <= c < cur && c % (old(
                            self,
                        ).n as int) == 0 implies checkpoint_recorded(
                        self.entropy.records@,
                        len0,
                        c,
                    ) by {
                        assert(checkpoint_recorded(pre_records, len0, c));
                        let i = choose|i: int|
                            len0 <= i < pre_records.len() && (#[trigger] pre_records[i]).checkpoint
                                == c;
                        assert(self.entropy.records@.drop_last()[i] == pre_records[i]);
                        assert(self.entropy.records@[i].checkpoint == c);
                    }
                    assert(self.entropy.records@[self.entropy.records@.len() - 1].checkpoint
                        == cur);
                    assert(checkpoint_recorded(self.entropy.records@, len0, cur as int));
                }
            }
            if self.opinion_distribution.interaction_count == u64::MAX {
                return Err(SimulationError::InteractionOverflow);
            }
            let res = match self.model {
                Model::Population => self.interact(rng),
                Model::Gossip => self.interact_gossip_model(rng),
            };
            match res {
                Ok(_) => {},
                Err(e) => {
                    return Err(e);
                },
            }
            proof {
                // The counter advanced past `cur`: the checkpoint at `cur`
                // is covered (it was just recorded if it was due), and the
                // newest snapshot stays below the new counter value.
                assert forall|c: int|
                    #![trigger checkpoint_recorded(self.entropy.records@, len0, c)]
                    old(self).opinion_distribution.interaction_count <= c
                        < self.opinion_distribution.interaction_count && c % (old(self).n as int)
                        == 0 implies checkpoint_recorded(self.entropy.records@, len0, c) by {
                    if c < cur as int {
                        assert(checkpoint_recorded(self.entropy.records@, len0, c));
                    } else {
                        assert(c == cur as int);
                    }
                }
                assert(self.entropy.records@.len() > len0
                    ==> self.entropy.records@.last().checkpoint
                    < self.opinion_distribution.interaction_count);
                // With two agents the interaction just performed decides
                // the phase: the state now is consensual.
                if !old(self).consensus() && old(self).n == 2 && old(self).j >= 1 && old(
                    self,
                ).model == Model::Population && old(self).opinion_distribution.interaction_count
                    < u64::MAX {
                    assert(entry.opinion_distribution == old(self).opinion_distribution);
                    assert(entry.agents == old(self).agents);
                    old(self).lemma_two_agents_interaction_decides(
                        self.agents@,
                        self.opinion_distribution.counts@,
                    );
                    let o = choose|o: int|
                        0 <= o < self.opinion_distribution.counts@.len()
                            && self.opinion_distribution.counts@[o] == 2;
                    assert(self.opinion_distribution.counts@[o] == self.n);
                    assert(self.consensus());
                }
            }
        }
        Ok(())
    }

    /// One step of the sweep, as driven between two control checks: take
    /// the entropy snapshot if one is due, perform one interaction (or
    /// round), and on consensus either finish the sweep (`SweepDone`, when
    /// the phase was the last) or prepare the next phase (`PhaseDone`).
    /// The driver emits an update after every step, `Next` on `PhaseDone`,
    /// and `Finish` on `SweepDone`.
    pub fn step(&mut self, rng: &mut SimRng) -> (r: Result<StepEvent, SimulationError>)
        requires
            old(self).wf(),
            old(self).k <= old(self).upper_bound_k,
        ensures
            final(self).wf(),
            final(self).k <= final(self).upper_bound_k,
            final(self).n == old(self).n,
            final(self).j == old(self).j,
            final(self).upper_bound_k == old(self).upper_bound_k,
            final(self).model == old(self).model,
            final(self).config == old(self).config,
            final(self).entropy.sample_size == old(self).entropy.sample_size,
            final(self).entropy.records@.len() >= old(self).entropy.records@.len(),
            final(self).entropy.records@.subrange(0, old(self).entropy.records@.len() as int)
                == old(self).entropy.records@,
            r is Ok ==> final(self).entropy.records@.len() == old(self).entropy.records@.len()
                + (if old(self).opinion_distribution.interaction_count % old(self).n == 0 {
                1int
            } else {
                0int
            }),
            r is Ok && old(self).opinion_distribution.interaction_count % old(self).n == 0 ==> {
                &&& final(self).entropy.records@.last().checkpoint == old(
                    self,
                ).opinion_distribution.interaction_count
                &&& final(self).entropy.records@.last().counts@ == old(
                    self,
                ).opinion_distribution.counts@
                &&& final(self).entropy.records@.last().opinion_count == old(self).k
            },
            r is Ok ==> old(self).opinion_distribution.interaction_count < u64::MAX,
            r matches Ok(ev) ==> ((ev is Interacted || ev is SweepDone) ==> match old(
                self,
            ).model {
                Model::Population => population_interaction(
                    old(self).agents@,
                    old(self).opinion_distribution.counts@,
                    old(self).j,
                    final(self).agents@,
                    final(self).opinion_distribution.counts@,
                ),
                Model::Gossip => forall|i: int|
                    0 <= i < final(self).agents@.len() ==> gossip_adoption(
                        old(self).agents@,
                        old(self).j,
                        (#[trigger] final(self).agents@[i]).opinion,
                    ),
            }),
            r matches Ok(ev) ==> match ev {
                StepEvent::Interacted => {
                    &&& final(self).k == old(self).k
                    &&& !final(self).consensus()
                    &&& final(self).plot == old(self).plot
                    &&& final(self).opinion_distribution.interaction_count == old(
                        self,
                    ).opinion_distribution.interaction_count + 1
                },
                StepEvent::PhaseDone => {
                    &&& old(self).k < old(self).upper_bound_k
                    &&& final(self).k == old(self).k + 1
                    &&& final(self).plot.points@ == old(self).plot.points@.push(
                        (old(self).k, (old(self).opinion_distribution.interaction_count + 1) as u64),
                    )
                    &&& final(self).plot.j == old(self).j
                    &&& final(self).opinion_distribution.interaction_count == 0
                },
                StepEvent::SweepDone => {
                    &&& old(self).k == old(self).upper_bound_k
                    &&& final(self).k == old(self).k
                    &&& final(self).consensus()
                    &&& final(self).plot.points@ == old(self).plot.points@.push(
                        (old(self).k, (old(self).opinion_distribution.interaction_count + 1) as u64),
                    )
                    &&& final(self).plot.j == old(self).j
                    &&& final(self).opinion_distribution.interaction_count == old(
                        self,
                    ).opinion_distribution.interaction_count + 1
                },
            },
            r matches Err(e) ==> {
                &&& (e == SimulationError::EmptyAgents <==> old(self).n == 0)
                &&& (e == SimulationError::EmptyAgents || e == SimulationError::EmptySample || e
                    == SimulationError::InteractionOverflow)
                &&& (e == SimulationError::EmptySample ==> old(self).j == 0 || old(self).n == 1)
                &&& (e == SimulationError::InteractionOverflow <==> old(self).n >= 1 && old(
                    self,
                ).opinion_distribution.interaction_count == u64::MAX)
                &&& (e == SimulationError::InteractionOverflow ==> *final(self) == *old(self))
                &&& final(self).plot == old(self).plot
                &&& final(self).k == old(self).k
            },
    {
        if self.agents.len() == 0 {
            return Err(SimulationError::EmptyAgents);
        }
        if self.opinion_distribution.interaction_count == u64::MAX {
            return Err(SimulationError::InteractionOverflow);
        }
        if self.opinion_distribution.interaction_count % self.n == 0 {
            let ghost pre_records = self.entropy.records@;
            self.entropy.record(&self.opinion_distribution);
            proof {
                let len0 = old(self).entropy.records@.len() as int;
                assert(self.entropy.records@.subrange(0, len0) =~= pre_records.subrange(0, len0));
            }
        }
        let res = match self.model {
            Model::Population => self.interact(rng),
            Model::Gossip => self.interact_gossip_model(rng),
        };
        match res {
            Ok(_) => {},
            Err(e) => {
                return Err(e);
            },
        }
        if self.reached_consensus() {
            if self.k == self.upper_bound_k {
                return Ok(StepEvent::SweepDone);
            }
            self.prepare_next_simulation(rng);
            return Ok(StepEvent::PhaseDone);
        }
        Ok(StepEvent::Interacted)
    }

    /// Run the whole sweep: phases with k, k + 1, ..., `upper_bound_k`
    /// opinions, each to consensus, appending one convergence point per
    /// phase, in order of ascending k.
    pub fn run(&mut self, rng: &mut SimRng) -> (r: Result<(), SimulationError>)
        requires
            old(self).wf(),
            old(self).k <= old(self).upper_bound_k,
        ensures
            final(self).wf(),
            final(self).n == old(self).n,
            final(self).j == old(self).j,
            final(self).upper_bound_k == old(self).upper_bound_k,
            final(self).model == old(self).model,
            final(self).config == old(self).config,
            final(self).entropy.sample_size == old(self).entropy.sample_size,
            r is Ok ==> {
                &&& final(self).k == old(self).upper_bound_k
                &&& final(self).consensus()
                &&& final(self).plot.points@.len() == old(self).plot.points@.len() + (old(
                    self,
                ).upper_bound_k - old(self).k) + 1
                &&& final(self).plot.points@.subrange(0, old(self).plot.points@.len() as int)
                    == old(self).plot.points@
                &&& forall|t: int|
                    0 <= t <= old(self).upper_bound_k - old(self).k ==> (
                    #[trigger] final(self).plot.points@[old(self).plot.points@.len() + t]).0
                        == old(self).k + t
                &&& forall|t: int|
                    0 <= t <= old(self).upper_bound_k - old(self).k ==> (
                    #[trigger] final(self).plot.points@[old(self).plot.points@.len() + t]).1 >= 1
                &&& final(self).plot.j == old(self).j
            },
            r matches Err(e) ==> {
                &&& e == SimulationError::EmptyAgents || e == SimulationError::EmptySample || e
                    == SimulationError::InteractionOverflow
                &&& (e == SimulationError::EmptyAgents <==> old(self).n == 0)
                &&& (e == SimulationError::EmptySample ==> old(self).j == 0 || old(self).n == 1)
            },
            old(self).consensus() && old(self).k == old(self).upper_bound_k && old(self).n >= 2
                && old(self).j >= 1 && old(self).opinion_distribution.interaction_count
                < u64::MAX ==> r is Ok,
    {
        loop
            invariant_except_break
                self.wf(),
                self.k <= self.upper_bound_k,
                old(self).k <= self.k,
                self.n == old(self).n,
                self.j == old(self).j,
                self.upper_bound_k == old(self).upper_bound_k,
                self.model == old(self).model,
                self.config == old(self).config,
                self.entropy.sample_size == old(self).entropy.sample_size,
                self.plot.points@.len() == old(self).plot.points@.len() + (self.k - old(self).k),
                self.plot.points@.subrange(0, old(self).plot.points@.len() as int) == old(
                    self,
                ).plot.points@,
                forall|t: int|
                    0 <= t < self.k - old(self).k ==> (#[trigger] self.plot.points@[old(
                        self,
                    ).plot.points@.len() + t]).0 == old(self).k + t,
                forall|t: int|
                    0 <= t < self.k - old(self).k ==> (#[trigger] self.plot.points@[old(
                        self,
                    ).plot.points@.len() + t]).1 >= 1,
                self.k > old(self).k ==> self.plot.j == old(self).j,
                old(self).consensus() && old(self).k == old(self).upper_bound_k && old(self).n
                    >= 2 && old(self).j >= 1 && old(
                    self,
                ).opinion_distribution.interaction_count < u64::MAX ==> self.agents == old(
                    self,
                ).agents && self.opinion_distribution == old(self).opinion_distribution,
            ensures
                self.wf(),
                self.k == self.upper_bound_k,
                self.consensus(),
                self.n == old(self).n,
                self.j == old(self).j,
                self.upper_bound_k == old(self).upper_bound_k,
                self.model == old(self).model,
                self.config == old(self).config,
                self.entropy.sample_size == old(self).entropy.sample_size,
                self.plot.points@.len() == old(self).plot.points@.len() + (self.k - old(self).k)
                    + 1,
                self.plot.points@.subrange(0, old(self).plot.points@.len() as int) == old(
                    self,
                ).plot.points@,
                forall|t: int|
                    0 <= t <= self.k - old(self).k ==> (#[trigger] self.plot.points@[old(
                        self,
                    ).plot.points@.len() + t]).0 == old(self).k + t,
                forall|t: int|
                    0 <= t <= self.k - old(self).k ==> (#[trigger] self.plot.points@[old(
                        self,
                    ).plot.points@.len() + t]).1 >= 1,
                self.plot.j == old(self).j,
            decreases
                self.upper_bound_k - self.k,
                u64::MAX - self.opinion_distribution.interaction_count,
        {
            let ghost pre = *self;
            let step_res = self.step(rng);
            let ev = match step_res {
                Ok(ev) => ev,
                Err(e) => {
                    proof {
                        // Success is owed on a consensual last phase: none
                        // of the step's error conditions can then hold.
                        if old(self).consensus() && old(self).k == old(self).upper_bound_k && old(
                            self,
                        ).n >= 2 && old(self).j >= 1 && old(
                            self,
                        ).opinion_distribution.interaction_count < u64::MAX {
                            assert(pre.opinion_distribution == old(self).opinion_distribution);
                            assert(false);
                        }
                    }
                    return Err(e);
                },
            };
            proof {
                if !(ev is Interacted) {
                    let l0 = old(self).plot.points@.len() as int;
                    assert(self.plot.points@.subrange(0, l0) =~= pre.plot.points@.subrange(
                        0,
                        l0,
                    ));
                }
                // Under the same hypothesis, the phase was the last and
                // its consensus survives the step's interaction, so the
                // step can only have finished the sweep.
                if old(self).consensus() && old(self).k == old(self).upper_bound_k && old(self).n
                    >= 2 && old(self).j >= 1 && old(self).opinion_distribution.interaction_count
                    < u64::MAX {
                    assert(pre.opinion_distribution == old(self).opinion_distribution);
                    assert(pre.agents == old(self).agents);
                    let o = choose|o: int|
                        0 <= o < old(self).opinion_distribution.counts@.len() && old(
                            self,
                        ).opinion_distribution.counts@[o] == old(self).n;
                    assert(pre.opinion_distribution.counts@[o] == pre.n);
                    assert(pre.consensus());
                    match ev {
                        StepEvent::Interacted => {
                            match pre.model {
                                Model::Population => {
                                    pre.lemma_population_interaction_keeps_consensus(
                                        self.agents@,
                                        self.opinion_distribution.counts@,
                                    );
                                    assert(self.opinion_distribution.counts@[o] == self.n);
                                    assert(self.consensus());
                                },
                                Model::Gossip => {
                                    pre.lemma_gossip_round_keeps_consensus(*self);
                                },
                            }
                            assert(false);
                        },
                        StepEvent::PhaseDone => {
                            assert(pre.k < pre.upper_bound_k);
                            assert(false);
                        },
                        StepEvent::SweepDone => {},
                    }
                }
            }
            match ev {
                StepEvent::SweepDone => {
                    break;
                },
                _ => {},
            }
        }
        Ok(())
    }
}

/// Element-wise comparison of two weight vectors.
fn vec_u64_eq(a: &Vec<u64>, b: &Vec<u64>) -> (r: bool)
    ensures
        r <==> a@ == b@,
{
    if a.len() != b.len() {
        return false;
    }
    let mut i: usize = 0;
    while i < a.len()
        invariant
            a@.len() == b@.len(),
            i <= a@.len(),
            forall|jj: int| 0 <= jj < i ==> a@[jj] == b@[jj],
        decreases a@.len() - i,
    {
        if a[i] != b[i] {
            return false;
        }
        i = i + 1;
    }
    proof {
        assert(a@ =~= b@);
    }
    true
}

/// Two simulations are equal when they were configured alike: same agent
/// count, sample size, opinion count, initial configuration and model.
/// Batch averaging groups finished runs by this equality.
impl PartialEq for Simulation {
    fn eq(&self, other: &Simulation) -> (r: bool) {
        self.n == other.n && self.j == other.j && self.k == other.k && vec_u64_eq(
            &self.config,
            &other.config,
        ) && self.model == other.model
    }
}

impl vstd::std_specs::cmp::PartialEqSpecImpl for Simulation {
    open spec fn obeys_eq_spec() -> bool {
        true
    }

    open spec fn eq_spec(&self, other: &Simulation) -> bool {
        &&& self.n == other.n
        &&& self.j == other.j
        &&& self.k == other.k
        &&& self.config@ == other.config@
        &&& self.model == other.model
    }
}

} // verus!
