//! Opinion-dynamics consensus simulation.
//!
//! A population of agents, each holding one of `k` discrete opinions,
//! repeatedly interacts under a majority rule until all agents agree. The
//! engine sweeps `k` upward, records the number of interactions needed to
//! reach consensus for each `k`, and keeps integer snapshots of the opinion
//! distribution from which an entropy trajectory can be evaluated.

use vstd::prelude::*;

pub mod agent;
pub mod config;
pub mod control;
pub mod counting;
pub mod entropy;
pub mod error;
pub mod export;
pub mod opinion_distribution;
pub mod rng;
pub mod simulation;
pub mod util;

verus! {

/// Interaction scheme: `Population` updates one agent per interaction,
/// `Gossip` updates every agent once per round from a frozen snapshot.
#[derive(Clone, Copy, Debug, PartialEq, Eq, Structural)]
pub enum Model {
    Gossip,
    Population,
}

impl Model {
    /// Lower-case label used by command-line front ends.
    pub fn label(&self) -> (r: &'static str)
        ensures
            *self is Gossip ==> r@ == "gossip"@,
            *self is Population ==> r@ == "population"@,
    {
        match self {
            Model::Gossip => "gossip",
            Model::Population => "population",
        }
    }
}

} // verus!
