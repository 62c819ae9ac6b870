//! The control plane of a running simulation.
//!
//! A running instance is steered from outside by `Pause`, `Play` and
//! `Abort` messages. A listener translates each inbound message into a
//! transition of the shared `SimulationState`; the execution thread
//! consults that state once per interaction and either goes on, blocks, or
//! finishes. The two transition functions here are the complete decision
//! logic; the threads, channels and condition variable around them perform
//! no decisions of their own.

use vstd::prelude::*;
use crate::entropy::Entropy;
use crate::export::OpinionPlot;
use crate::opinion_distribution::OpinionDistribution;

verus! {

/// The shared state steering one simulation instance.
#[derive(Clone, Copy, Debug, PartialEq, Eq, Structural)]
pub enum SimulationState {
    Pause,
    Play,
    ReadyForNext,
    Exit,
}

/// Messages exchanged with a running instance: inbound control (`Pause`,
/// `Play`, `Abort`) and outbound lifecycle events (`Update`, `Next`,
/// `Finish`). `Finish` carries the accumulated convergence curve and
/// entropy trajectory and is always the last outbound message.
#[derive(Clone, Debug)]
pub enum SimulationMessage {
    Pause,
    Play,
    Abort,
    Update(OpinionDistribution),
    Next,
    Finish(OpinionPlot, Entropy),
}

/// What the execution thread must do after consulting the control state.
#[derive(Clone, Copy, Debug, PartialEq, Eq, Structural)]
pub enum ControlAction {
    /// Emit `Finish` with the accumulated results and stop.
    Finish,
    /// Go on with the next interaction.
    Proceed,
    /// Wait until the listener changes the state.
    Block,
}

/// The listener's transition: how an inbound message changes the shared
/// state. Outbound messages leave it unchanged.
pub open spec fn spec_apply_message(state: SimulationState, msg: SimulationMessage) -> SimulationState {
    match msg {
        SimulationMessage::Pause => SimulationState::Pause,
        SimulationMessage::Play => SimulationState::Play,
        SimulationMessage::Abort => SimulationState::Exit,
        _ => state,
    }
}

/// The execution thread's once-per-interaction decision: on `Exit` finish,
/// on `ReadyForNext` reset to `Play` and go on, on `Play` go on, on `Pause`
/// block.
pub open spec fn spec_quit_decision(state: SimulationState) -> (SimulationState, ControlAction) {
    match state {
        SimulationState::Exit => (SimulationState::Exit, ControlAction::Finish),
        SimulationState::ReadyForNext => (SimulationState::Play, ControlAction::Proceed),
        SimulationState::Play => (SimulationState::Play, ControlAction::Proceed),
        SimulationState::Pause => (SimulationState::Pause, ControlAction::Block),
    }
}

/// Listener transition, as run on receipt of an inbound message.
pub fn apply_message(state: SimulationState, msg: &SimulationMessage) -> (r: SimulationState)
    ensures
        r == spec_apply_message(state, *msg),
{
    match msg {
        SimulationMessage::Pause => SimulationState::Pause,
        SimulationMessage::Play => SimulationState::Play,
        SimulationMessage::Abort => SimulationState::Exit,
        _ => state,
    }
}

/// Execution-thread decision: the new shared state and the action to take.
pub fn quit_decision(state: SimulationState) -> (r: (SimulationState, ControlAction))
    ensures
        r == spec_quit_decision(state),
{
    match state {
        SimulationState::Exit => (SimulationState::Exit, ControlAction::Finish),
        SimulationState::ReadyForNext => (SimulationState::Play, ControlAction::Proceed),
        SimulationState::Play => (SimulationState::Play, ControlAction::Proceed),
        SimulationState::Pause => (SimulationState::Pause, ControlAction::Block),
    }
}

/// An `Abort`, whatever the state it meets, makes the very next control
/// check finish the run: no further interaction is performed and nothing is
/// emitted after the `Finish`.
pub proof fn lemma_abort_yields_finish(state: SimulationState)
    ensures
        spec_quit_decision(spec_apply_message(state, SimulationMessage::Abort)).1
            is Finish,
        spec_quit_decision(spec_apply_message(state, SimulationMessage::Abort)).0
            is Exit,
{
}

/// `Exit` is absorbing under the execution thread's own decision: once the
/// run is finishing, re-consulting the state finishes again and never
/// resumes interactions.
pub proof fn lemma_exit_is_absorbing(state: SimulationState)
    requires
        state is Exit,
    ensures
        spec_quit_decision(state).0 is Exit,
        spec_quit_decision(state).1 is Finish,
{
}

} // verus!
