//! Errors of the simulation engine.

use vstd::prelude::*;

verus! {

/// What can go wrong inside the engine.
///
/// `InvalidConfig` is raised synchronously by configuration validation,
/// before any simulation starts. `EmptyAgents` means the population
/// collapsed to zero agents, a broken invariant that validated
/// configurations never produce. `EmptySample` is returned by an
/// interaction asked to update an agent from zero sampled peers.
/// `InteractionOverflow` reports that the interaction counter reached the
/// largest representable value without consensus; the counter is finite
/// and such a run cannot be continued exactly.
#[derive(Clone, Copy, Debug, PartialEq, Eq, Structural)]
pub enum SimulationError {
    EmptyAgents,
    EmptySample,
    InvalidConfig,
    InteractionOverflow,
}

impl SimulationError {
    /// Human-readable description, for front ends to display.
    pub fn message(&self) -> (r: &'static str)
        ensures
            *self is EmptyAgents ==> r@ == "The simulation does not hold any agents."@,
            *self is EmptySample ==> r@
                == "The sample for an agent update is not allowed to be empty."@,
            *self is InvalidConfig ==> r@ == "Bad configuration"@,
            *self is InteractionOverflow ==> r@
                == "The interaction counter ran out before consensus."@,
    {
        match self {
            SimulationError::EmptyAgents => "The simulation does not hold any agents.",
            SimulationError::EmptySample => "The sample for an agent update is not allowed to be empty.",
            SimulationError::InvalidConfig => "Bad configuration",
            SimulationError::InteractionOverflow => "The interaction counter ran out before consensus.",
        }
    }
}

} // verus!
