//! Counting over sequences of opinions.
//!
//! The opinion distribution stores one occupancy count per opinion; the
//! population stores one opinion per agent. The spec functions here say what
//! it means for the two to agree: `seq_count` counts how often an opinion
//! occurs among the agents, `max_count` is the largest such count in a
//! sample, and `sum_counts` adds up the occupancy counts. The lemmas relate
//! the three under updates, which is what the interaction rule needs to keep
//! the distribution exact.

use vstd::prelude::*;

verus! {

/// Number of occurrences of `v` in `s`.
pub open spec fn seq_count(s: Seq<u16>, v: u16) -> nat
    decreases s.len(),
{
    if s.len() == 0 {
        0
    } else {
        seq_count(s.drop_last(), v) + if s.last() == v {
            1nat
        } else {
            0nat
        }
    }
}

/// Largest occurrence count of any value in `s` (0 for the empty sequence).
pub open spec fn max_count(s: Seq<u16>) -> nat
    decreases s.len(),
{
    if s.len() == 0 {
        0
    } else {
        let rest = max_count(s.drop_last());
        let c = seq_count(s, s.last());
        if c > rest {
            c
        } else {
            rest
        }
    }
}

/// Sum of all occupancy counts.
pub open spec fn sum_counts(s: Seq<u64>) -> int
    decreases s.len(),
{
    if s.len() == 0 {
        0
    } else {
        sum_counts(s.drop_last()) + s.last()
    }
}

/// The occupancy counts agree with the opinions actually held: entry `o`
/// counts the agents whose opinion is `o`.
pub open spec fn counts_match(ops: Seq<u16>, counts: Seq<u64>) -> bool {
    forall|o: int|
        0 <= o < counts.len() ==> #[trigger] counts[o] as nat == seq_count(ops, o as u16)
}

/// An opinion occurs at most `s.len()` times.
pub proof fn lemma_count_le_len(s: Seq<u16>, v: u16)
    ensures
        seq_count(s, v) <= s.len(),
    decreases s.len(),
{
    if s.len() > 0 {
        lemma_count_le_len(s.drop_last(), v);
    }
}

/// An opinion occurs in `s` exactly when its count is positive.
pub proof fn lemma_count_pos_iff_contains(s: Seq<u16>, v: u16)
    ensures
        seq_count(s, v) > 0 <==> s.contains(v),
    decreases s.len(),
{
    if s.len() > 0 {
        lemma_count_pos_iff_contains(s.drop_last(), v);
        if s.last() == v {
            assert(s[s.len() - 1] == v);
        } else if seq_count(s.drop_last(), v) > 0 {
            let i = choose|i: int| 0 <= i < s.drop_last().len() && s.drop_last()[i] == v;
            assert(s[i] == v);
        } else if s.contains(v) {
            let i = choose|i: int| 0 <= i < s.len() && s[i] == v;
            assert(s.drop_last()[i] == v);
        }
    }
}

/// An opinion held by every agent is the only one with a positive count.
pub proof fn lemma_count_full_iff_all_eq(s: Seq<u16>, v: u16)
    ensures
        seq_count(s, v) == s.len() <==> (forall|i: int| 0 <= i < s.len() ==> s[i] == v),
    decreases s.len(),
{
    if s.len() > 0 {
        lemma_count_full_iff_all_eq(s.drop_last(), v);
        lemma_count_le_len(s.drop_last(), v);
        if seq_count(s, v) == s.len() {
            assert forall|i: int| 0 <= i < s.len() implies s[i] == v by {
                if i < s.len() - 1 {
                    assert(s.drop_last()[i] == v);
                }
            }
        } else if forall|i: int| 0 <= i < s.len() ==> s[i] == v {
            assert forall|i: int| 0 <= i < s.drop_last().len() implies s.drop_last()[i] == v by {
                assert(s[i] == v);
            }
        }
    }
}

/// How a point update to the population changes one opinion's count.
pub proof fn lemma_count_update(s: Seq<u16>, i: int, x: u16, v: u16)
    requires
        0 <= i < s.len(),
    ensures
        seq_count(s.update(i, x), v) == seq_count(s, v) + (if x == v {
            1int
        } else {
            0int
        }) - (if s[i] == v {
            1int
        } else {
            0int
        }),
    decreases s.len(),
{
    let t = s.update(i, x);
    if i == s.len() - 1 {
        assert(t.drop_last() =~= s.drop_last());
        assert(t.last() == x);
    } else {
        assert(t.drop_last() =~= s.drop_last().update(i, x));
        lemma_count_update(s.drop_last(), i, x, v);
        assert(t.last() == s.last());
    }
}

/// Swapping two agents leaves every opinion's count unchanged.
pub proof fn lemma_count_swap(s: Seq<u16>, a: int, b: int, v: u16)
    requires
        0 <= a < s.len(),
        0 <= b < s.len(),
    ensures
        seq_count(s.update(a, s[b]).update(b, s[a]), v) == seq_count(s, v),
{
    lemma_count_update(s, a, s[b], v);
    let s1 = s.update(a, s[b]);
    lemma_count_update(s1, b, s[a], v);
}

/// The count of `v` is bounded by the maximal count.
pub proof fn lemma_max_count_ge(s: Seq<u16>, v: u16)
    ensures
        seq_count(s, v) <= max_count(s),
    decreases s.len(),
{
    if s.len() > 0 {
        lemma_max_count_ge(s.drop_last(), v);
        if s.last() != v {
            assert(seq_count(s, v) == seq_count(s.drop_last(), v));
        }
    }
}

/// In a non-empty sample some occurring opinion attains the maximal count.
pub proof fn lemma_max_count_achieved(s: Seq<u16>)
    requires
        s.len() > 0,
    ensures
        exists|v: u16| s.contains(v) && seq_count(s, v) == max_count(s),
    decreases s.len(),
{
    let rest = max_count(s.drop_last());
    let c = seq_count(s, s.last());
    if c > rest {
        assert(s[s.len() - 1] == s.last());
        assert(s.contains(s.last()) && seq_count(s, s.last()) == max_count(s));
    } else {
        lemma_max_count_achieved(s.drop_last());
        let v = choose|v: u16|
            s.drop_last().contains(v) && seq_count(s.drop_last(), v) == rest;
        let i = choose|i: int| 0 <= i < s.drop_last().len() && s.drop_last()[i] == v;
        assert(s[i] == v);
        lemma_max_count_ge(s, v);
        assert(seq_count(s, v) >= seq_count(s.drop_last(), v));
        assert(s.contains(v) && seq_count(s, v) == max_count(s));
    }
}

/// Appending one agent raises its opinion's count by one and no other.
pub proof fn lemma_count_push(s: Seq<u16>, x: u16, v: u16)
    ensures
        seq_count(s.push(x), v) == seq_count(s, v) + if x == v {
            1int
        } else {
            0int
        },
{
    assert(s.push(x).drop_last() =~= s);
    assert(s.push(x).last() == x);
}

/// Appending one count adds it to the sum.
pub proof fn lemma_sum_push(s: Seq<u64>, x: u64)
    ensures
        sum_counts(s.push(x)) == sum_counts(s) + x,
{
    assert(s.push(x).drop_last() =~= s);
    assert(s.push(x).last() == x);
}

/// A prefix of the counts sums to no more than the whole.
pub proof fn lemma_sum_prefix_le(s: Seq<u64>, i: int)
    requires
        0 <= i <= s.len(),
    ensures
        sum_counts(s.subrange(0, i)) <= sum_counts(s),
    decreases s.len(),
{
    if i == s.len() {
        assert(s.subrange(0, i) =~= s);
    } else {
        assert(s.drop_last().subrange(0, i) =~= s.subrange(0, i));
        lemma_sum_prefix_le(s.drop_last(), i);
    }
}

/// Two distinct entries together do not exceed the sum.
pub proof fn lemma_sum_two_entries(s: Seq<u64>, x: int, y: int)
    requires
        0 <= x < s.len(),
        0 <= y < s.len(),
        x != y,
    ensures
        s[x] + s[y] <= sum_counts(s),
{
    let cleared = s.update(x, 0u64);
    lemma_sum_update(s, x, 0u64);
    lemma_sum_ge_entry(cleared, y);
}

/// Sums are non-negative and bound every entry.
pub proof fn lemma_sum_ge_entry(s: Seq<u64>, i: int)
    requires
        0 <= i < s.len(),
    ensures
        0 <= s[i] <= sum_counts(s),
    decreases s.len(),
{
    lemma_sum_nonneg(s.drop_last());
    if i < s.len() - 1 {
        lemma_sum_ge_entry(s.drop_last(), i);
    }
}

/// A sum of unsigned counts is non-negative.
pub proof fn lemma_sum_nonneg(s: Seq<u64>)
    ensures
        sum_counts(s) >= 0,
    decreases s.len(),
{
    if s.len() > 0 {
        lemma_sum_nonneg(s.drop_last());
    }
}

/// How a point update to the counts changes their sum.
pub proof fn lemma_sum_update(s: Seq<u64>, i: int, x: u64)
    requires
        0 <= i < s.len(),
    ensures
        sum_counts(s.update(i, x)) == sum_counts(s) - s[i] + x,
    decreases s.len(),
{
    let t = s.update(i, x);
    if i == s.len() - 1 {
        assert(t.drop_last() =~= s.drop_last());
        assert(t.last() == x);
    } else {
        assert(t.drop_last() =~= s.drop_last().update(i, x));
        lemma_sum_update(s.drop_last(), i, x);
        assert(t.last() == s.last());
    }
}

/// A sequence of all-zero counts sums to zero.
pub proof fn lemma_sum_zero(s: Seq<u64>)
    requires
        forall|i: int| 0 <= i < s.len() ==> s[i] == 0,
    ensures
        sum_counts(s) == 0,
    decreases s.len(),
{
    if s.len() > 0 {
        assert forall|i: int| 0 <= i < s.drop_last().len() implies s.drop_last()[i] == 0 by {
            assert(s[i] == 0);
        }
        lemma_sum_zero(s.drop_last());
        assert(s[s.len() - 1] == 0);
    }
}

/// Exact counts sum to the number of agents: this is the distribution
/// invariant `sum of counts == agent count` in its mathematical form.
pub proof fn lemma_counts_match_sum(ops: Seq<u16>, counts: Seq<u64>)
    requires
        counts_match(ops, counts),
        counts.len() <= 0x10000,
        forall|i: int| 0 <= i < ops.len() ==> (#[trigger] ops[i]) < counts.len(),
    ensures
        sum_counts(counts) == ops.len(),
    decreases ops.len(),
{
    if ops.len() == 0 {
        assert forall|i: int| 0 <= i < counts.len() implies counts[i] == 0 by {
            assert(counts[i] as nat == seq_count(ops, i as u16));
        }
        lemma_sum_zero(counts);
    } else {
        let t = ops.drop_last();
        let o = ops.last();
        assert(ops[ops.len() - 1] == o);
        let oi = o as int;
        assert(counts[oi] as nat == seq_count(ops, o));
        assert(seq_count(ops, o) >= 1);
        let shrunk = counts.update(oi, (counts[oi] - 1) as u64);
        assert forall|p: int| 0 <= p < shrunk.len() implies #[trigger] shrunk[p] as nat
            == seq_count(t, p as u16) by {
            assert(counts[p] as nat == seq_count(ops, p as u16));
            if p == oi {
                assert(seq_count(ops, o) == seq_count(t, o) + 1);
            } else {
                assert(seq_count(ops, p as u16) == seq_count(t, p as u16));
            }
        }
        assert forall|i: int| 0 <= i < t.len() implies (#[trigger] t[i]) < shrunk.len() by {
            assert(ops[i] < counts.len());
        }
        lemma_counts_match_sum(t, shrunk);
        lemma_sum_update(counts, oi, (counts[oi] - 1) as u64);
        assert(sum_counts(shrunk) == sum_counts(counts) - 1);
    }
}

} // verus!
