//! Entropy snapshots of the opinion distribution.
//!
//! Every `agent_count`-th interaction the engine takes a snapshot of the
//! occupancy counts, keyed by the interaction count at which it was taken.
//! Snapshots accumulate across all phases of one sweep. The Shannon entropy
//! `-sum p_i * log_k(p_i)` of a snapshot is real-valued and is evaluated by
//! the consumer of the records; the engine itself only keeps the exact
//! integer data the formula needs.

use vstd::prelude::*;
use crate::opinion_distribution::{copy_counts, OpinionDistribution};

verus! {

/// One snapshot: the occupancy counts of a phase with `opinion_count`
/// opinions, taken at interaction number `checkpoint`.
#[derive(Clone, Debug)]
pub struct EntropyRecord {
    pub checkpoint: u64,
    pub counts: Vec<u64>,
    pub opinion_count: u16,
}

/// The entropy trajectory of one sweep: every snapshot taken, in the order
/// they were taken, tagged with the sample size of the run.
#[derive(Clone, Debug)]
pub struct Entropy {
    pub records: Vec<EntropyRecord>,
    pub sample_size: u8,
}

/// Some record at or after position `from` was taken at interaction
/// count `c`.
pub open spec fn checkpoint_recorded(records: Seq<EntropyRecord>, from: int, c: int) -> bool {
    exists|i: int| from <= i < records.len() && (#[trigger] records[i]).checkpoint == c
}

impl Entropy {
    /// An empty trajectory for a run with the given sample size.
    pub fn new(sample_size: u8) -> (r: Entropy)
        ensures
            r.records@.len() == 0,
            r.sample_size == sample_size,
    {
        Entropy { records: Vec::new(), sample_size }
    }

    /// Append a snapshot of `distribution` at its current interaction
    /// count.
    pub fn record(&mut self, distribution: &OpinionDistribution)
        ensures
            final(self).sample_size == old(self).sample_size,
            final(self).records@.len() == old(self).records@.len() + 1,
            final(self).records@.drop_last() == old(self).records@,
            final(self).records@.last().checkpoint == distribution.interaction_count,
            final(self).records@.last().counts@ == distribution.counts@,
            final(self).records@.last().opinion_count == distribution.opinion,
    {
        let counts = copy_counts(&distribution.counts);
        let rec = EntropyRecord {
            checkpoint: distribution.interaction_count,
            counts,
            opinion_count: distribution.opinion,
        };
        self.records.push(rec);
        proof {
            assert(self.records@.drop_last() =~= old(self).records@);
        }
    }
}

} // verus!
