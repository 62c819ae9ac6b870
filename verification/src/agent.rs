//! A single agent and the majority-rule update.
//!
//! An agent holds one opinion. During an interaction it is shown a sample of
//! peers and adopts the most frequent opinion in the sample; ties are broken
//! by a uniform choice among the tied opinions.

use vstd::prelude::*;
use crate::counting::{
    lemma_count_le_len, lemma_count_pos_iff_contains, lemma_max_count_achieved,
    lemma_max_count_ge, max_count, seq_count,
};
use crate::error::SimulationError;
use crate::rng::SimRng;

verus! {

/// One member of the population, holding an opinion in `[0, k)`.
#[derive(Clone, Copy, Debug, PartialEq, Eq, Structural)]
pub struct Agent {
    pub opinion: u16,
}

/// The opinions held in a sample, in sample order.
pub open spec fn opinions_of(sample: Seq<Agent>) -> Seq<u16> {
    sample.map_values(|a: Agent| a.opinion)
}

/// `x` occurs strictly more often in `s` than every other opinion.
pub open spec fn is_strict_majority(s: Seq<u16>, x: u16) -> bool {
    s.contains(x) && forall|y: u16| y != x ==> seq_count(s, y) < seq_count(s, x)
}

/// Every element of `sample` is a copy of an element of `pool` at or after
/// position `skip`.
pub open spec fn sampled_from(sample: Seq<Agent>, pool: Seq<Agent>, skip: int) -> bool {
    forall|s: int| #![trigger sample[s]]
        0 <= s < sample.len() ==> exists|jj: int| skip <= jj < pool.len() && sample[s] == pool[jj]
}

/// `positions` names, element by element, where in `pool` the sample's
/// copies come from: pairwise distinct positions, all at or after `skip`.
pub open spec fn sample_positions(
    sample: Seq<Agent>,
    pool: Seq<Agent>,
    skip: int,
    positions: Seq<int>,
) -> bool {
    &&& positions.len() == sample.len()
    &&& (forall|a: int, b: int|
        0 <= a < b < positions.len() ==> #[trigger] positions[a] != #[trigger] positions[b])
    &&& (forall|i: int|
        0 <= i < positions.len() ==> skip <= (#[trigger] positions[i]) < pool.len() && sample[i]
            == pool[positions[i]])
}

/// The sample was drawn without replacement: its elements are copies of
/// `pool` elements at pairwise distinct positions, all at or after `skip`.
pub open spec fn sampled_without_repetition(sample: Seq<Agent>, pool: Seq<Agent>, skip: int) -> bool {
    exists|positions: Seq<int>| sample_positions(sample, pool, skip, positions)
}

/// Appending an agent appends its opinion.
pub proof fn lemma_opinions_push(s: Seq<Agent>, a: Agent)
    ensures
        opinions_of(s.push(a)) == opinions_of(s).push(a.opinion),
{
    assert(opinions_of(s.push(a)) =~= opinions_of(s).push(a.opinion));
}

/// Replacing an agent replaces its opinion.
pub proof fn lemma_opinions_update(s: Seq<Agent>, i: int, a: Agent)
    requires
        0 <= i < s.len(),
    ensures
        opinions_of(s.update(i, a)) == opinions_of(s).update(i, a.opinion),
{
    assert(opinions_of(s.update(i, a)) =~= opinions_of(s).update(i, a.opinion));
}

/// Number of occurrences of `v` among `opinions`.
fn count_occurrences(opinions: &Vec<u16>, v: u16) -> (c: u64)
    ensures
        c as nat == seq_count(opinions@, v),
{
    let mut c: u64 = 0;
    let mut i: usize = 0;
    while i < opinions.len()
        invariant
            i <= opinions@.len(),
            c as nat == seq_count(opinions@.subrange(0, i as int), v),
            c <= i,
        decreases opinions@.len() - i,
    {
        proof {
            let pre = opinions@.subrange(0, i as int);
            let post = opinions@.subrange(0, i + 1);
            assert(post.drop_last() =~= pre);
            assert(post.last() == opinions@[i as int]);
            lemma_count_le_len(pre, v);
        }
        if opinions[i] == v {
            c = c + 1;
        }
        i = i + 1;
    }
    proof {
        assert(opinions@.subrange(0, opinions@.len() as int) =~= opinions@);
    }
    c
}

/// Whether `v` already occurs in `list`.
fn contains_opinion(list: &Vec<u16>, v: u16) -> (r: bool)
    ensures
        r == list@.contains(v),
{
    let mut i: usize = 0;
    while i < list.len()
        invariant
            i <= list@.len(),
            forall|jj: int| 0 <= jj < i ==> list@[jj] != v,
        decreases list@.len() - i,
    {
        if list[i] == v {
            return true;
        }
        i = i + 1;
    }
    false
}

/// All opinions of `sample` that attain the maximal occurrence count, each
/// listed once. Empty exactly when the sample is empty.
fn major_opinions(sample: &Vec<Agent>) -> (r: Vec<u16>)
    ensures
        r@.len() > 0 <==> sample@.len() > 0,
        forall|v: u16|
            #[trigger] r@.contains(v) <==> (sample@.len() > 0 && seq_count(
                opinions_of(sample@),
                v,
            ) == max_count(opinions_of(sample@))),
{
    let ghost gops = opinions_of(sample@);

    let mut opinions: Vec<u16> = Vec::new();
    let mut i: usize = 0;
    while i < sample.len()
        invariant
            i <= sample@.len(),
            opinions@.len() == i,
            forall|jj: int| 0 <= jj < i ==> opinions@[jj] == sample@[jj].opinion,
        decreases sample@.len() - i,
    {
        let a = sample[i];
        opinions.push(a.opinion);
        i = i + 1;
    }
    proof {
        assert(opinions@ =~= gops);
    }

    let mut max: u64 = 0;
    let mut i: usize = 0;
    while i < opinions.len()
        invariant
            opinions@ == gops,
            i <= gops.len(),
            forall|jj: int| 0 <= jj < i ==> seq_count(gops, #[trigger] gops[jj]) <= max as nat,
            i == 0 ==> max == 0,
            i > 0 ==> exists|jj: int| 0 <= jj < i && seq_count(gops, #[trigger] gops[jj]) == max as nat,
        decreases gops.len() - i,
    {
        let c = count_occurrences(&opinions, opinions[i]);
        if c > max {
            max = c;
        }
        i = i + 1;
    }

    proof {
        if gops.len() > 0 {
            let jj = choose|jj: int| 0 <= jj < gops.len() && seq_count(gops, #[trigger] gops[jj]) == max as nat;
            lemma_max_count_ge(gops, gops[jj]);
            lemma_max_count_achieved(gops);
            let v = choose|v: u16| gops.contains(v) && seq_count(gops, v) == max_count(gops);
            let kk = choose|kk: int| 0 <= kk < gops.len() && gops[kk] == v;
            assert(seq_count(gops, gops[kk]) <= max as nat);
            assert(max as nat == max_count(gops));
        }
    }

    let mut tied: Vec<u16> = Vec::new();
    let mut i: usize = 0;
    while i < opinions.len()
        invariant
            opinions@ == gops,
            i <= gops.len(),
            forall|v: u16|
                #[trigger] tied@.contains(v) <==> (exists|jj: int|
                    0 <= jj < i && gops[jj] == v && seq_count(gops, v) == max as nat),
        decreases gops.len() - i,
    {
        let o = opinions[i];
        let c = count_occurrences(&opinions, o);
        let present = contains_opinion(&tied, o);
        let ghost pre = tied@;
        if c == max && !present {
            tied.push(o);
            proof {
                assert forall|v: u16| #[trigger] tied@.contains(v) implies (exists|jj: int|
                    0 <= jj < i + 1 && gops[jj] == v && seq_count(gops, v) == max as nat) by {
                    let pi = choose|pi: int| 0 <= pi < tied@.len() && tied@[pi] == v;
                    if pi < pre.len() {
                        assert(pre.contains(v));
                    } else {
                        assert(v == o);
                        assert(gops[i as int] == v);
                    }
                }
                assert forall|v: u16| (exists|jj: int|
                    0 <= jj < i + 1 && gops[jj] == v && seq_count(gops, v) == max as nat) implies
                    #[trigger] tied@.contains(v) by {
                    let jj = choose|jj: int|
                        0 <= jj < i + 1 && gops[jj] == v && seq_count(gops, v) == max as nat;
                    if jj < i {
                        assert(pre.contains(v));
                        let pi = choose|pi: int| 0 <= pi < pre.len() && pre[pi] == v;
                        assert(tied@[pi] == v);
                    } else {
                        assert(v == o);
                        assert(tied@[tied@.len() - 1] == o);
                    }
                }
            }
        } else {
            proof {
                assert forall|v: u16| #[trigger] tied@.contains(v) implies (exists|jj: int|
                    0 <= jj < i + 1 && gops[jj] == v && seq_count(gops, v) == max as nat) by {
                    let jj = choose|jj: int|
                        0 <= jj < i && gops[jj] == v && seq_count(gops, v) == max as nat;
                    assert(0 <= jj < i + 1 && gops[jj] == v);
                }
                assert forall|v: u16| (exists|jj: int|
                    0 <= jj < i + 1 && gops[jj] == v && seq_count(gops, v) == max as nat) implies
                    #[trigger] tied@.contains(v) by {
                    let jj = choose|jj: int|
                        0 <= jj < i + 1 && gops[jj] == v && seq_count(gops, v) == max as nat;
                    if jj == i {
                        assert(v == o);
                        assert(c == max);
                        assert(pre.contains(v));
                    }
                }
            }
        }
        i = i + 1;
    }

    proof {
        if gops.len() > 0 {
            lemma_max_count_achieved(gops);
            let v = choose|v: u16| gops.contains(v) && seq_count(gops, v) == max_count(gops);
            let kk = choose|kk: int| 0 <= kk < gops.len() && gops[kk] == v;
            assert(tied@.contains(v));
            assert(tied@.len() > 0);
        } else {
            if tied@.len() > 0 {
                assert(tied@.contains(tied@[0]));
                assert(false);
            }
        }
        assert forall|v: u16| #[trigger] tied@.contains(v) implies (sample@.len() > 0 && seq_count(
            gops,
            v,
        ) == max_count(gops)) by {}
        assert forall|v: u16| (sample@.len() > 0 && seq_count(gops, v) == max_count(gops)) implies
            #[trigger] tied@.contains(v) by {
            lemma_max_count_achieved(gops);
            lemma_count_pos_iff_contains(gops, v);
            assert(max_count(gops) >= 1) by {
                let w = choose|w: u16| gops.contains(w) && seq_count(gops, w) == max_count(gops);
                lemma_count_pos_iff_contains(gops, w);
            }
            let jj = choose|jj: int| 0 <= jj < gops.len() && gops[jj] == v;
        }
    }
    tied
}

impl Agent {
    /// A fresh agent holding `opinion`.
    pub fn new(opinion: u16) -> (r: Agent)
        ensures
            r.opinion == opinion,
    {
        Agent { opinion }
    }

    /// Majority-rule interaction: the agent adopts the most frequent opinion
    /// of `sample`, ties broken by a uniform choice among the tied opinions.
    /// An empty sample is rejected with `EmptySample` and leaves the agent
    /// unchanged; a non-empty sample always succeeds, and the adopted
    /// opinion attains the sample's maximal occurrence count. In particular
    /// a strict majority opinion is always the one adopted.
    pub fn update(&mut self, sample: &Vec<Agent>, rng: &mut SimRng) -> (r: Result<
        u16,
        SimulationError,
    >)
        ensures
            r is Ok <==> sample@.len() > 0,
            r is Err ==> r == Result::<u16, SimulationError>::Err(SimulationError::EmptySample)
                && *final(self) == *old(self),
            r matches Ok(new) ==> {
                &&& final(self).opinion == new
                &&& opinions_of(sample@).contains(new)
                &&& seq_count(opinions_of(sample@), new) == max_count(opinions_of(sample@))
                &&& forall|x: u16| is_strict_majority(opinions_of(sample@), x) ==> new == x
            },
    {
        if sample.len() == 0 {
            return Err(SimulationError::EmptySample);
        }
        let tied = major_opinions(sample);
        let idx = rng.below(tied.len() as u64) as usize;
        let new_opinion = tied[idx];
        proof {
            let ops = opinions_of(sample@);
            assert(tied@.contains(new_opinion));
            lemma_count_pos_iff_contains(ops, new_opinion);
            assert forall|x: u16| is_strict_majority(ops, x) implies new_opinion == x by {
                if new_opinion != x {
                    lemma_max_count_ge(ops, x);
                    assert(seq_count(ops, new_opinion) < seq_count(ops, x));
                    assert(false);
                }
            }
        }
        self.opinion = new_opinion;
        Ok(new_opinion)
    }
}

} // verus!
