use opinion_sim::config::{get_simulation_config, Config};
use opinion_sim::error::SimulationError;
use opinion_sim::opinion_distribution::OpinionDistribution;
use opinion_sim::Model;

#[test]
fn validate_accepts_sane_configs() {
    let config = Config::default();
    assert_eq!(config.agent_count, 100000);
    assert_eq!(config.sample_size, 3);
    assert_eq!(config.upper_bound_k, 5);
    assert_eq!(config.simulation_count, 5);
    assert_eq!(config.model, Model::Population);
    assert!(config.validate().is_ok());
}

#[test]
fn validate_rejects_out_of_range_configs() {
    let mut config = Config::default();
    config.sample_size = 0;
    assert_eq!(config.validate(), Err(SimulationError::InvalidConfig));

    let mut config = Config::default();
    config.agent_count = 3;
    config.sample_size = 3;
    assert_eq!(config.validate(), Err(SimulationError::InvalidConfig));

    let mut config = Config::default();
    config.upper_bound_k = 1;
    assert_eq!(config.validate(), Err(SimulationError::InvalidConfig));
}

#[test]
fn even_spread_distributes_remainder() {
    let config = get_simulation_config(10, 2, 3, &None, Model::Population).unwrap();
    assert_eq!(config.config, vec![4, 3, 3]);
    assert_eq!(config.n, 10);
    assert_eq!(config.j, 2);
    assert_eq!(config.k, 3);
    assert_eq!(config.model, Model::Population);

    let config = get_simulation_config(9, 2, 3, &None, Model::Gossip).unwrap();
    assert_eq!(config.config, vec![3, 3, 3]);
}

#[test]
fn supplied_weights_must_match() {
    let ok = get_simulation_config(10, 2, 3, &Some(vec![5, 3, 2]), Model::Population).unwrap();
    assert_eq!(ok.config, vec![5, 3, 2]);

    let wrong_len = get_simulation_config(10, 2, 3, &Some(vec![5, 5]), Model::Population);
    assert!(wrong_len.is_err());

    let wrong_sum = get_simulation_config(10, 2, 3, &Some(vec![5, 3, 3]), Model::Population);
    assert!(wrong_sum.is_err());
}

#[test]
fn distribution_update_moves_one_agent() {
    let mut distribution = OpinionDistribution::new(3);
    assert_eq!(distribution.counts, vec![0, 0, 0]);
    let count = distribution.update(None, 1);
    assert_eq!(count, 1);
    let count = distribution.update(None, 1);
    assert_eq!(count, 2);
    let count = distribution.update(Some(1), 2);
    assert_eq!(count, 1);
    assert_eq!(distribution.counts, vec![0, 1, 1]);
    // The counter of performed interactions is advanced by the engine,
    // not by the occupancy update itself.
    assert_eq!(distribution.interaction_count, 0);
}

#[test]
fn distribution_batch_sets_occupancy() {
    let mut distribution = OpinionDistribution::new(2);
    distribution.batch(0, 7);
    distribution.batch(1, 3);
    assert_eq!(distribution.counts, vec![7, 3]);
}

#[test]
fn consensus_check_is_exact() {
    let mut distribution = OpinionDistribution::new(2);
    distribution.batch(0, 9);
    distribution.batch(1, 1);
    assert!(!distribution.check_occurence_with(10));
    assert!(distribution.check_occurence_with(9));
    distribution.update(Some(1), 0);
    assert!(distribution.check_occurence_with(10));
}

#[test]
fn next_distribution_adds_an_opinion() {
    let distribution = OpinionDistribution::next(4);
    assert_eq!(distribution.opinion, 5);
    assert_eq!(distribution.counts, vec![0, 0, 0, 0, 0]);
    assert_eq!(distribution.interaction_count, 0);

    let initial = OpinionDistribution::default();
    assert_eq!(initial.opinion, 2);
    assert_eq!(initial.counts, vec![0, 0]);
}

#[test]
fn error_messages_describe_each_kind() {
    assert_eq!(
        SimulationError::EmptyAgents.message(),
        "The simulation does not hold any agents."
    );
    assert_eq!(
        SimulationError::EmptySample.message(),
        "The sample for an agent update is not allowed to be empty."
    );
    assert_eq!(SimulationError::InvalidConfig.message(), "Bad configuration");
    assert_eq!(
        SimulationError::InteractionOverflow.message(),
        "The interaction counter ran out before consensus."
    );
}

#[test]
fn model_labels() {
    assert_eq!(Model::Gossip.label(), "gossip");
    assert_eq!(Model::Population.label(), "population");
}
