use opinion_sim::entropy::Entropy;
use opinion_sim::opinion_distribution::OpinionDistribution;

/// Shannon entropy of a snapshot, as an export front end evaluates it:
/// `-sum p_i * log_k(p_i)` over the non-zero shares.
fn shannon_entropy(counts: &[u64], n: u64, k: u16) -> f64 {
    let mut entropy = 0.0f64;
    for &count in counts {
        if count > 0 {
            let share = count as f64 / n as f64;
            entropy -= share * share.log(k as f64);
        }
    }
    entropy
}

#[test]
fn consensus_snapshot_has_zero_entropy() {
    // One opinion holds all agents: the only non-zero share is 1 and the
    // entropy is exactly zero.
    let counts = vec![0u64, 12, 0];
    assert_eq!(shannon_entropy(&counts, 12, 3), 0.0);
}

#[test]
fn uniform_snapshot_has_unit_entropy() {
    // All k opinions equally occupied: the base-k entropy is exactly 1.
    let counts = vec![5u64, 5, 5, 5];
    let entropy = shannon_entropy(&counts, 20, 4);
    assert!((entropy - 1.0).abs() < 1e-12);
}

#[test]
fn records_snapshot_the_distribution() {
    let mut distribution = OpinionDistribution::new(2);
    distribution.batch(0, 3);
    distribution.batch(1, 5);
    distribution.interaction_count = 8;
    let mut entropy = Entropy::new(4);
    entropy.record(&distribution);
    assert_eq!(entropy.records.len(), 1);
    assert_eq!(entropy.records[0].checkpoint, 8);
    assert_eq!(entropy.records[0].counts, vec![3, 5]);
    assert_eq!(entropy.records[0].opinion_count, 2);
    assert_eq!(entropy.sample_size, 4);
    // The snapshot is a copy: later changes do not affect it.
    distribution.batch(0, 0);
    assert_eq!(entropy.records[0].counts, vec![3, 5]);
}
