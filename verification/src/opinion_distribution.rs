//! Occupancy bookkeeping for the opinion distribution.
//!
//! The distribution stores, for each opinion `o` in `[0, k)`, how many
//! agents currently hold `o`, together with the interaction counter of the
//! running phase. It is the single source of truth for consensus detection:
//! consensus holds exactly when some opinion's count equals the number of
//! agents.

use vstd::prelude::*;
use crate::counting::{lemma_sum_ge_entry, lemma_sum_update, lemma_sum_zero, sum_counts};

verus! {

/// An element-wise copy of a vector of occupancy counts.
pub(crate) fn copy_counts(v: &Vec<u64>) -> (r: Vec<u64>)
    ensures
        r@ == v@,
{
    let mut r: Vec<u64> = Vec::new();
    let mut i: usize = 0;
    while i < v.len()
        invariant
            i <= v@.len(),
            r@.len() == i,
            forall|jj: int| 0 <= jj < i ==> r@[jj] == v@[jj],
        decreases v@.len() - i,
    {
        r.push(v[i]);
        i = i + 1;
    }
    proof {
        assert(r@ =~= v@);
    }
    r
}

/// Occupancy count per opinion, plus the phase's interaction counter and
/// its number of opinions.
#[derive(Clone, Debug)]
pub struct OpinionDistribution {
    /// `counts[o]` agents currently hold opinion `o`.
    pub counts: Vec<u64>,
    /// Interactions (Population model) or rounds (Gossip model) performed
    /// in the current phase.
    pub interaction_count: u64,
    /// Number of opinions `k` of the current phase; also the length of
    /// `counts`.
    pub opinion: u16,
}

impl OpinionDistribution {
    /// One count per opinion of the phase.
    pub open spec fn wf(self) -> bool {
        self.counts@.len() == self.opinion as int
    }

    /// Total occupancy: the number of agents accounted for.
    pub open spec fn total(self) -> int {
        sum_counts(self.counts@)
    }

    /// A fresh, empty distribution for a phase with `k` opinions.
    pub fn new(k: u16) -> (r: OpinionDistribution)
        ensures
            r.wf(),
            r.opinion == k,
            r.interaction_count == 0,
            r.counts@.len() == k as int,
            forall|o: int| 0 <= o < k as int ==> r.counts@[o] == 0,
            r.total() == 0,
    {
        let mut counts: Vec<u64> = Vec::new();
        let mut i: usize = 0;
        while i < k as usize
            invariant
                i <= k as usize,
                counts@.len() == i,
                forall|o: int| 0 <= o < i ==> counts@[o] == 0,
            decreases k as usize - i,
        {
            counts.push(0);
            i = i + 1;
        }
        proof {
            lemma_sum_zero(counts@);
        }
        OpinionDistribution { counts, interaction_count: 0, opinion: k }
    }

    /// The distribution for the next phase: one more opinion, everything
    /// else reset.
    pub fn next(previous_opinion: u16) -> (r: OpinionDistribution)
        requires
            previous_opinion < u16::MAX,
        ensures
            r.wf(),
            r.opinion == previous_opinion + 1,
            r.interaction_count == 0,
            forall|o: int| 0 <= o < r.counts@.len() ==> r.counts@[o] == 0,
            r.total() == 0,
    {
        OpinionDistribution::new(previous_opinion + 1)
    }

    /// Set opinion `opinion`'s occupancy to `amount` outright, as the
    /// weighted initial configuration does.
    pub fn batch(&mut self, opinion: u16, amount: u64)
        requires
            (opinion as int) < old(self).counts@.len(),
        ensures
            final(self).counts@ == old(self).counts@.update(opinion as int, amount),
            final(self).interaction_count == old(self).interaction_count,
            final(self).opinion == old(self).opinion,
            final(self).total() == old(self).total() - old(self).counts@[opinion as int] + amount,
    {
        proof {
            lemma_sum_update(self.counts@, opinion as int, amount);
        }
        self.counts.set(opinion as usize, amount);
    }

    /// Move one agent from `old_opinion` (if given) to `new_opinion`:
    /// decrement the old count, increment the new one, and return the new
    /// opinion's updated occupancy. With `old_opinion == None` the agent is
    /// newly accounted for and the total grows by one; otherwise the total
    /// is unchanged.
    pub fn update(&mut self, old_opinion: Option<u16>, new_opinion: u16) -> (r: u64)
        requires
            (new_opinion as int) < old(self).counts@.len(),
            match old_opinion {
                Some(o) => (o as int) < old(self).counts@.len() && old(self).counts@[o as int] >= 1
                    && (o != new_opinion ==> old(self).counts@[new_opinion as int] < u64::MAX),
                None => old(self).counts@[new_opinion as int] < u64::MAX,
            },
        ensures
            final(self).opinion == old(self).opinion,
            final(self).interaction_count == old(self).interaction_count,
            final(self).counts@ == match old_opinion {
                Some(o) => {
                    let dec = old(self).counts@.update(o as int, (old(self).counts@[o as int]
                        - 1) as u64);
                    dec.update(new_opinion as int, (dec[new_opinion as int] + 1) as u64)
                },
                None => old(self).counts@.update(
                    new_opinion as int,
                    (old(self).counts@[new_opinion as int] + 1) as u64,
                ),
            },
            r == final(self).counts@[new_opinion as int],
            final(self).total() == old(self).total() + match old_opinion {
                Some(_) => 0int,
                None => 1int,
            },
    {
        match old_opinion {
            Some(o) => {
                let c = self.counts[o as usize];
                proof {
                    lemma_sum_update(self.counts@, o as int, (c - 1) as u64);
                }
                self.counts.set(o as usize, c - 1);
            },
            None => {},
        }
        let c = self.counts[new_opinion as usize];
        proof {
            lemma_sum_update(self.counts@, new_opinion as int, (c + 1) as u64);
        }
        self.counts.set(new_opinion as usize, c + 1);
        c + 1
    }

    /// Exact consensus test: does any opinion occupy exactly
    /// `occurence_count` agents?
    pub fn check_occurence_with(&self, occurence_count: u64) -> (r: bool)
        ensures
            r <==> exists|o: int|
                0 <= o < self.counts@.len() && self.counts@[o] == occurence_count,
    {
        let mut i: usize = 0;
        while i < self.counts.len()
            invariant
                i <= self.counts@.len(),
                forall|o: int| 0 <= o < i ==> self.counts@[o] != occurence_count,
            decreases self.counts@.len() - i,
        {
            if self.counts[i] == occurence_count {
                return true;
            }
            i = i + 1;
        }
        false
    }
}

impl Default for OpinionDistribution {
    /// The starting distribution of a sweep: the two-opinion phase, empty.
    fn default() -> (r: OpinionDistribution)
        ensures
            r.wf(),
            r.opinion == 2,
            r.interaction_count == 0,
            forall|o: int| 0 <= o < r.counts@.len() ==> r.counts@[o] == 0,
    {
        OpinionDistribution::new(2)
    }
}

/// A consensus distribution concentrates everything on one opinion: when
/// opinion `x` accounts for the whole total, every other opinion's count is
/// zero. The only non-zero share is then `1`, whose contribution
/// `p * log_k(p)` vanishes, so the Shannon entropy of such a distribution
/// is exactly zero.
pub proof fn lemma_consensus_excludes_others(counts: Seq<u64>, x: int, y: int)
    requires
        0 <= x < counts.len(),
        0 <= y < counts.len(),
        y != x,
        counts[x] == sum_counts(counts),
    ensures
        counts[y] == 0,
{
    let cleared = counts.update(x, 0u64);
    lemma_sum_update(counts, x, 0u64);
    lemma_sum_ge_entry(cleared, y);
    assert(cleared[y] == counts[y]);
}

} // verus!
