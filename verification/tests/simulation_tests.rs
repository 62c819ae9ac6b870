use opinion_sim::config::{Config, PhaseConfig};
use opinion_sim::error::SimulationError;
use opinion_sim::rng::SimRng;
use opinion_sim::simulation::{Simulation, StepEvent};
use opinion_sim::Model;

fn phase_config(n: u64, j: u8, k: u16, weights: Vec<u64>, model: Model) -> PhaseConfig {
    PhaseConfig { n, j, k, config: weights, model }
}

#[test]
fn new_simulation_mirrors_weights() {
    let config = phase_config(10, 3, 4, vec![4, 3, 2, 1], Model::Population);
    let sim = Simulation::new(config).unwrap();
    assert_eq!(sim.agents.len(), 10);
    assert_eq!(sim.n, 10);
    assert_eq!(sim.j, 3);
    assert_eq!(sim.k, 4);
    assert_eq!(sim.opinion_distribution.counts, vec![4, 3, 2, 1]);
    assert_eq!(sim.opinion_distribution.interaction_count, 0);
}

#[test]
fn new_simulation_rejects_bad_weights() {
    let config = phase_config(10, 3, 2, vec![4, 4], Model::Population);
    assert!(Simulation::new(config).is_err());
    let config = phase_config(10, 3, 3, vec![5, 5], Model::Population);
    assert!(Simulation::new(config).is_err());
    let config = phase_config(10, 3, 0, vec![], Model::Population);
    assert!(Simulation::new(config).is_err());
}

#[test]
fn single_opinion_leads_to_exit() {
    // One opinion held by all agents: consensus is immediate and no
    // interaction is performed.
    let mut rng = SimRng::from_seed(5);
    let config = phase_config(10, 5, 1, vec![10], Model::Population);
    let mut sim = Simulation::new(config).unwrap();
    sim.execute(&mut rng).unwrap();
    assert_eq!(sim.opinion_distribution.interaction_count, 0);
}

#[test]
fn two_agents_only_need_one_interaction() {
    // With two agents and sample size two, the single other agent fully
    // determines the sample, so one interaction reaches consensus.
    for seed in [1u64, 2, 3, 4, 50, 1000] {
        let mut rng = SimRng::from_seed(seed);
        let config = phase_config(2, 2, 2, vec![1, 1], Model::Population);
        let mut sim = Simulation::new(config).unwrap();
        sim.execute(&mut rng).unwrap();
        assert_eq!(sim.opinion_distribution.interaction_count, 1);
    }
}

#[test]
fn prepare_with_empty_agents_leads_to_err() {
    let mut rng = SimRng::from_seed(0);
    let mut agents = Vec::new();
    let result = Simulation::prepare_interaction(&mut agents, 10, &mut rng);
    assert_eq!(result, Err(SimulationError::EmptyAgents));
}

#[test]
fn prepared_sample_has_expected_size() {
    let mut rng = SimRng::from_seed(7);
    let mut agents: Vec<_> = (0..5u16).map(opinion_sim::agent::Agent::new).collect();
    let sample = Simulation::prepare_interaction(&mut agents, 3, &mut rng).unwrap();
    assert_eq!(sample.len(), 3);
    let sample = Simulation::prepare_interaction(&mut agents, 10, &mut rng).unwrap();
    assert_eq!(sample.len(), 4);
}

#[test]
fn execute_with_zero_sample_size_fails() {
    let mut rng = SimRng::from_seed(3);
    let config = phase_config(3, 0, 2, vec![2, 1], Model::Population);
    let mut sim = Simulation::new(config).unwrap();
    assert_eq!(sim.execute(&mut rng), Err(SimulationError::EmptySample));
}

#[test]
fn interacting_with_no_agents_fails() {
    let mut rng = SimRng::from_seed(4);
    let config = phase_config(0, 2, 1, vec![0], Model::Population);
    let mut sim = Simulation::new(config).unwrap();
    assert_eq!(sim.interact(&mut rng), Err(SimulationError::EmptyAgents));
    assert_eq!(sim.step(&mut rng), Err(SimulationError::EmptyAgents));
}

#[test]
fn gossip_with_zero_sample_size_fails() {
    let mut rng = SimRng::from_seed(4);
    let config = phase_config(3, 0, 2, vec![2, 1], Model::Gossip);
    let mut sim = Simulation::new(config).unwrap();
    assert_eq!(sim.interact_gossip_model(&mut rng), Err(SimulationError::EmptySample));
}

#[test]
fn execute_reaches_consensus() {
    let mut rng = SimRng::from_seed(21);
    let config = phase_config(20, 3, 2, vec![10, 10], Model::Population);
    let mut sim = Simulation::new(config).unwrap();
    sim.execute(&mut rng).unwrap();
    let n = sim.n;
    assert!(sim.opinion_distribution.counts.iter().any(|&c| c == n));
    assert!(sim.opinion_distribution.interaction_count > 0);
    assert_eq!(sim.plot.points.len(), 1);
    assert_eq!(sim.plot.points[0].0, 2);
    assert_eq!(sim.plot.points[0].1, sim.opinion_distribution.interaction_count);
}

#[test]
fn gossip_round_counts_once_per_round() {
    let mut rng = SimRng::from_seed(13);
    let config = phase_config(8, 3, 2, vec![4, 4], Model::Gossip);
    let mut sim = Simulation::new(config).unwrap();
    sim.interact_gossip_model(&mut rng).unwrap();
    assert_eq!(sim.opinion_distribution.interaction_count, 1);
    let total: u64 = sim.opinion_distribution.counts.iter().sum();
    assert_eq!(total, 8);
}

#[test]
fn gossip_model_reaches_consensus() {
    let mut rng = SimRng::from_seed(17);
    let config = phase_config(12, 4, 3, vec![4, 4, 4], Model::Gossip);
    let mut sim = Simulation::new(config).unwrap();
    sim.execute(&mut rng).unwrap();
    let n = sim.n;
    assert!(sim.opinion_distribution.counts.iter().any(|&c| c == n));
}

#[test]
fn counts_always_sum_to_agent_count() {
    // The distribution invariant, observed at runtime after every
    // interaction of a run.
    let mut rng = SimRng::from_seed(29);
    let config = phase_config(15, 3, 3, vec![5, 5, 5], Model::Population);
    let mut sim = Simulation::new(config).unwrap();
    for _ in 0..200 {
        let total: u64 = sim.opinion_distribution.counts.iter().sum();
        assert_eq!(total, 15);
        if sim.reached_consensus() {
            break;
        }
        sim.interact(&mut rng).unwrap();
    }
}

#[test]
fn interact_advances_the_counter_by_one() {
    let mut rng = SimRng::from_seed(63);
    let config = phase_config(5, 2, 3, vec![2, 2, 1], Model::Population);
    let mut sim = Simulation::new(config).unwrap();
    sim.interact(&mut rng).unwrap();
    assert_eq!(sim.opinion_distribution.interaction_count, 1);
    sim.interact(&mut rng).unwrap();
    assert_eq!(sim.opinion_distribution.interaction_count, 2);
    let total: u64 = sim.opinion_distribution.counts.iter().sum();
    assert_eq!(total, 5);
}

#[test]
fn sweep_plot_has_ascending_ks() {
    // A sweep up to five opinions yields exactly four plot entries with
    // k = 2, 3, 4, 5 in order, each with a positive interaction count.
    let config = Config {
        agent_count: 30,
        sample_size: 3,
        upper_bound_k: 5,
        simulation_count: 1,
        model: Model::Population,
    };
    let mut rng = SimRng::from_seed(41);
    let mut sim = Simulation::with_random_opinions(&config, &mut rng).unwrap();
    sim.run(&mut rng).unwrap();
    assert_eq!(sim.plot.points.len(), 4);
    let ks: Vec<u16> = sim.plot.points.iter().map(|p| p.0).collect();
    assert_eq!(ks, vec![2, 3, 4, 5]);
    for point in &sim.plot.points {
        assert!(point.1 > 0);
    }
    assert_eq!(sim.plot.j, 3);
}

#[test]
fn identical_seed_gives_identical_plot() {
    let config = Config {
        agent_count: 25,
        sample_size: 4,
        upper_bound_k: 4,
        simulation_count: 1,
        model: Model::Population,
    };
    let run = |seed: u64| {
        let mut rng = SimRng::from_seed(seed);
        let mut sim = Simulation::with_random_opinions(&config, &mut rng).unwrap();
        sim.run(&mut rng).unwrap();
        sim.plot
    };
    assert_eq!(run(123), run(123));
    assert_eq!(run(7), run(7));
}

#[test]
fn step_reports_phase_transitions() {
    let config = Config {
        agent_count: 10,
        sample_size: 3,
        upper_bound_k: 3,
        simulation_count: 1,
        model: Model::Population,
    };
    let mut rng = SimRng::from_seed(77);
    let mut sim = Simulation::with_random_opinions(&config, &mut rng).unwrap();
    let mut phase_done_seen = 0;
    loop {
        match sim.step(&mut rng).unwrap() {
            StepEvent::Interacted => {}
            StepEvent::PhaseDone => {
                phase_done_seen += 1;
            }
            StepEvent::SweepDone => break,
        }
    }
    // Phases k = 2 and k = 3: one advance, then the final consensus.
    assert_eq!(phase_done_seen, 1);
    assert_eq!(sim.plot.points.len(), 2);
    assert_eq!(sim.k, 3);
}

#[test]
fn entropy_records_follow_checkpoints() {
    let mut rng = SimRng::from_seed(55);
    let config = phase_config(6, 2, 2, vec![3, 3], Model::Population);
    let mut sim = Simulation::new(config).unwrap();
    sim.execute(&mut rng).unwrap();
    assert!(!sim.entropy.records.is_empty());
    assert_eq!(sim.entropy.records[0].checkpoint, 0);
    assert_eq!(sim.entropy.sample_size, 2);
    for record in &sim.entropy.records {
        assert_eq!(record.checkpoint % 6, 0);
        assert_eq!(record.opinion_count, 2);
        let total: u64 = record.counts.iter().sum();
        assert_eq!(total, 6);
    }
}

#[test]
fn simulations_compare_by_configuration() {
    let a = Simulation::new(phase_config(4, 2, 2, vec![2, 2], Model::Population)).unwrap();
    let mut rng = SimRng::from_seed(2);
    let mut b = Simulation::new(phase_config(4, 2, 2, vec![2, 2], Model::Population)).unwrap();
    b.execute(&mut rng).unwrap();
    // Interaction state differs, but the configurations agree.
    assert!(a == b);
    let c = Simulation::new(phase_config(4, 2, 2, vec![3, 1], Model::Population)).unwrap();
    assert!(a != c);
    let d = Simulation::new(phase_config(4, 2, 2, vec![2, 2], Model::Gossip)).unwrap();
    assert!(a != d);
}

#[test]
fn with_random_opinions_validates_config() {
    let mut rng = SimRng::from_seed(9);
    let bad = Config {
        agent_count: 3,
        sample_size: 3,
        upper_bound_k: 5,
        simulation_count: 1,
        model: Model::Population,
    };
    assert!(Simulation::with_random_opinions(&bad, &mut rng).is_err());
    let good = Config {
        agent_count: 4,
        sample_size: 3,
        upper_bound_k: 2,
        simulation_count: 1,
        model: Model::Population,
    };
    let sim = Simulation::with_random_opinions(&good, &mut rng).unwrap();
    assert_eq!(sim.k, 2);
    assert_eq!(sim.agents.len(), 4);
    let total: u64 = sim.opinion_distribution.counts.iter().sum();
    assert_eq!(total, 4);
}
