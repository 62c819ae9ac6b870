use opinion_sim::config::Config;
use opinion_sim::control::{apply_message, quit_decision, ControlAction, SimulationMessage,
    SimulationState};
use opinion_sim::rng::SimRng;
use opinion_sim::simulation::{Simulation, StepEvent};
use opinion_sim::Model;

#[test]
fn listener_transitions_follow_messages() {
    for state in [SimulationState::Pause, SimulationState::Play, SimulationState::ReadyForNext,
        SimulationState::Exit]
    {
        assert_eq!(apply_message(state, &SimulationMessage::Pause), SimulationState::Pause);
        assert_eq!(apply_message(state, &SimulationMessage::Play), SimulationState::Play);
        assert_eq!(apply_message(state, &SimulationMessage::Abort), SimulationState::Exit);
        // Outbound messages leave the state alone.
        assert_eq!(apply_message(state, &SimulationMessage::Next), state);
    }
}

#[test]
fn decisions_follow_state() {
    assert_eq!(
        quit_decision(SimulationState::Exit),
        (SimulationState::Exit, ControlAction::Finish)
    );
    assert_eq!(
        quit_decision(SimulationState::ReadyForNext),
        (SimulationState::Play, ControlAction::Proceed)
    );
    assert_eq!(
        quit_decision(SimulationState::Play),
        (SimulationState::Play, ControlAction::Proceed)
    );
    assert_eq!(
        quit_decision(SimulationState::Pause),
        (SimulationState::Pause, ControlAction::Block)
    );
}

#[test]
fn abort_mid_run_finishes_without_further_updates() {
    // Drive the control-plane loop by hand: run a few interactions, then
    // deliver an Abort. The very next control check must finish the run,
    // and no update is emitted afterwards.
    let config = Config {
        agent_count: 40,
        sample_size: 3,
        upper_bound_k: 8,
        simulation_count: 1,
        model: Model::Population,
    };
    let mut rng = SimRng::from_seed(31);
    let mut sim = Simulation::with_random_opinions(&config, &mut rng).unwrap();

    let mut state = SimulationState::Play;
    let mut updates: Vec<u64> = Vec::new();
    let mut finished = false;
    let mut steps_after_abort = 0;
    let mut aborted = false;

    loop {
        if !aborted && updates.len() >= 5 {
            // The external controller sends Abort mid-run.
            state = apply_message(state, &SimulationMessage::Abort);
            aborted = true;
        }
        let (next_state, action) = quit_decision(state);
        state = next_state;
        match action {
            ControlAction::Finish => {
                finished = true;
                break;
            }
            ControlAction::Block => unreachable!("nothing pauses this run"),
            ControlAction::Proceed => {}
        }
        if aborted {
            steps_after_abort += 1;
        }
        match sim.step(&mut rng).unwrap() {
            StepEvent::SweepDone => {
                finished = true;
                break;
            }
            _ => updates.push(sim.opinion_distribution.interaction_count),
        }
    }

    assert!(finished);
    assert!(aborted);
    // The abort is observed at the next control check: no further
    // interaction happens after it.
    assert_eq!(steps_after_abort, 0);
    assert_eq!(updates.len(), 5);
}

#[test]
fn pause_blocks_until_play() {
    let mut state = SimulationState::Play;
    state = apply_message(state, &SimulationMessage::Pause);
    let (next_state, action) = quit_decision(state);
    assert_eq!(action, ControlAction::Block);
    assert_eq!(next_state, SimulationState::Pause);
    state = apply_message(next_state, &SimulationMessage::Play);
    let (next_state, action) = quit_decision(state);
    assert_eq!(action, ControlAction::Proceed);
    assert_eq!(next_state, SimulationState::Play);
}
