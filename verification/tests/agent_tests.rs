use opinion_sim::agent::Agent;
use opinion_sim::rng::SimRng;

#[test]
fn can_create() {
    let agent = Agent::new(0);
    assert_eq!(agent.opinion, 0);
}

#[test]
fn updates_to_major_opinion() {
    // A sample in which opinion 0 holds the strict majority: a varied mix
    // of opinions from 1 to 199, plus one more agent with opinion 0 than
    // the mix is long.
    let mut rng = SimRng::from_seed(11);
    for sample_size in [10u64, 100, 1000] {
        let mut agent = Agent::new(5);
        let mut sample = Vec::new();
        for i in 0..sample_size {
            sample.push(Agent::new((1 + (i * 7) % 199) as u16));
        }
        for _ in 0..sample_size + 1 {
            sample.push(Agent::new(0));
        }
        let result = agent.update(&sample, &mut rng);
        assert!(result.is_ok());
        assert_eq!(agent.opinion, 0);
    }
}

#[test]
fn updates_to_major_opinion_on_a_tie() {
    // Opinions 0 and 1 are tied with three occurrences each; everything
    // else occurs once. The adopted opinion must be one of the tied pair.
    let mut rng = SimRng::from_seed(99);
    for _ in 0..50 {
        let mut sample = Vec::new();
        for _ in 0..3 {
            sample.push(Agent::new(0));
            sample.push(Agent::new(1));
        }
        sample.push(Agent::new(7));
        let mut agent = Agent::new(42);
        let result = agent.update(&sample, &mut rng);
        assert!(result.is_ok());
        assert!(agent.opinion == 0 || agent.opinion == 1);
    }
}

#[test]
fn does_not_update_on_empty_sample() {
    let mut rng = SimRng::from_seed(0);
    let mut agent = Agent::new(3);
    let empty_sample = Vec::new();
    let result = agent.update(&empty_sample, &mut rng);
    assert!(result.is_err());
    assert_eq!(agent.opinion, 3);
}

#[test]
fn empty_sample_error_kind() {
    let mut rng = SimRng::from_seed(0);
    let mut agent = Agent::new(3);
    let result = agent.update(&Vec::new(), &mut rng);
    assert_eq!(result, Err(opinion_sim::error::SimulationError::EmptySample));
}

#[test]
fn single_element_sample_determines_opinion() {
    let mut rng = SimRng::from_seed(1);
    let mut agent = Agent::new(9);
    let sample = vec![Agent::new(4)];
    let result = agent.update(&sample, &mut rng);
    assert_eq!(result, Ok(4));
    assert_eq!(agent.opinion, 4);
}
