//! Convergence data of a sweep, ready for export.
//!
//! An `OpinionPlot` is the per-phase convergence curve of one run. Batches
//! of runs with the same configuration are combined by `average`: for each
//! opinion count the recorded interaction counts are summed over all runs
//! and divided by the number of runs.

use vstd::prelude::*;
use crate::counting::sum_counts;

verus! {

/// Which picture an export front end should draw from recorded runs.
#[derive(Clone, Copy, Debug, PartialEq, Eq, Structural)]
pub enum PlotType {
    Entropy,
    K,
    N,
    Triangle,
}

/// The convergence curve of one sweep: one `(k, interaction_count)` point
/// per phase, appended at the moment that phase reached consensus, plus the
/// sample size of the run.
#[derive(Clone, Debug, PartialEq)]
pub struct OpinionPlot {
    pub points: Vec<(u16, u64)>,
    pub j: u8,
}

impl Default for OpinionPlot {
    /// An empty curve.
    fn default() -> (r: OpinionPlot)
        ensures
            r.points@.len() == 0,
            r.j == 0,
    {
        OpinionPlot::new()
    }
}

/// Mean interaction count of a batch of finished runs, as batch averaging
/// uses it: the sum divided by the batch size, rounded down. `None` for an
/// empty batch or when the sum exceeds the counter's range.
pub fn average_interaction_count(counts: &Vec<u64>) -> (r: Option<u64>)
    ensures
        r is Some <==> counts@.len() > 0 && sum_counts(counts@) <= u64::MAX,
        r matches Some(m) ==> m as int == sum_counts(counts@) / (counts@.len() as int),
{
    if counts.len() == 0 {
        return None;
    }
    match crate::config::checked_sum(counts) {
        Some(total) => Some(total / counts.len() as u64),
        None => None,
    }
}

/// Total interaction count recorded for opinion count `k` in one curve.
pub open spec fn pair_total(points: Seq<(u16, u64)>, k: u16) -> int
    decreases points.len(),
{
    if points.len() == 0 {
        0
    } else {
        pair_total(points.drop_last(), k) + if points.last().0 == k {
            points.last().1 as int
        } else {
            0int
        }
    }
}

/// Total interaction count recorded for opinion count `k` over a batch of
/// curves.
pub open spec fn plots_total(plots: Seq<OpinionPlot>, k: u16) -> int
    decreases plots.len(),
{
    if plots.len() == 0 {
        0
    } else {
        plots_total(plots.drop_last(), k) + pair_total(plots.last().points@, k)
    }
}

/// Whether one curve has a point for opinion count `k`.
pub open spec fn points_have_key(points: Seq<(u16, u64)>, k: u16) -> bool {
    exists|jj: int| 0 <= jj < points.len() && (#[trigger] points[jj]).0 == k
}

/// Whether any curve of the batch has a point for opinion count `k`.
pub open spec fn plots_have_key(plots: Seq<OpinionPlot>, k: u16) -> bool {
    exists|i: int| 0 <= i < plots.len() && points_have_key((#[trigger] plots[i]).points@, k)
}

/// Totals are sums of non-negative counts.
proof fn lemma_pair_total_nonneg(points: Seq<(u16, u64)>, k: u16)
    ensures
        pair_total(points, k) >= 0,
    decreases points.len(),
{
    if points.len() > 0 {
        lemma_pair_total_nonneg(points.drop_last(), k);
    }
}

/// A prefix of one curve contributes at most the whole curve.
proof fn lemma_pair_total_prefix_le(points: Seq<(u16, u64)>, q: int, k: u16)
    requires
        0 <= q <= points.len(),
    ensures
        pair_total(points.subrange(0, q), k) <= pair_total(points, k),
    decreases points.len(),
{
    if q == points.len() {
        assert(points.subrange(0, q) =~= points);
    } else {
        assert(points.drop_last().subrange(0, q) =~= points.subrange(0, q));
        lemma_pair_total_prefix_le(points.drop_last(), q, k);
    }
}

/// Extending the prefix of curves by one adds that curve's contribution.
proof fn lemma_plots_total_step(plots: Seq<OpinionPlot>, p: int, k: u16)
    requires
        0 <= p < plots.len(),
    ensures
        plots_total(plots.subrange(0, p + 1), k) == plots_total(plots.subrange(0, p), k)
            + pair_total(plots[p].points@, k),
{
    assert(plots.subrange(0, p + 1).drop_last() =~= plots.subrange(0, p));
    assert(plots.subrange(0, p + 1).last() == plots[p]);
}

/// A prefix of the batch contributes at most the whole batch.
proof fn lemma_plots_total_prefix_le(plots: Seq<OpinionPlot>, p: int, k: u16)
    requires
        0 <= p <= plots.len(),
    ensures
        plots_total(plots.subrange(0, p), k) <= plots_total(plots, k),
    decreases plots.len(),
{
    if p == plots.len() {
        assert(plots.subrange(0, p) =~= plots);
    } else {
        assert(plots.drop_last().subrange(0, p) =~= plots.subrange(0, p));
        lemma_plots_total_prefix_le(plots.drop_last(), p, k);
        lemma_pair_total_nonneg(plots.last().points@, k);
    }
}

/// Keys of a one-longer prefix of curves: those of the shorter prefix plus
/// those of the added curve.
proof fn lemma_plots_have_key_step(plots: Seq<OpinionPlot>, p: int, k: u16)
    requires
        0 <= p < plots.len(),
    ensures
        plots_have_key(plots.subrange(0, p + 1), k) <==> (plots_have_key(plots.subrange(0, p), k)
            || points_have_key(plots[p].points@, k)),
{
    let pre = plots.subrange(0, p);
    let ext = plots.subrange(0, p + 1);
    if plots_have_key(ext, k) {
        let i = choose|i: int| 0 <= i < ext.len() && points_have_key((#[trigger] ext[i]).points@, k);
        if i < p {
            assert(pre[i] == ext[i]);
            assert(points_have_key(pre[i].points@, k));
        } else {
            assert(ext[i] == plots[p]);
        }
    }
    if plots_have_key(pre, k) {
        let i = choose|i: int| 0 <= i < pre.len() && points_have_key((#[trigger] pre[i]).points@, k);
        assert(points_have_key((ext[i]).points@, k));
    }
    if points_have_key(plots[p].points@, k) {
        assert(points_have_key((ext[p]).points@, k));
    }
}

/// Keys of a one-longer prefix of one curve: those of the shorter prefix
/// plus the added point's key.
proof fn lemma_points_have_key_step(points: Seq<(u16, u64)>, q: int, k: u16)
    requires
        0 <= q < points.len(),
    ensures
        points_have_key(points.subrange(0, q + 1), k) <==> (points_have_key(
            points.subrange(0, q),
            k,
        ) || points[q].0 == k),
{
    let pre = points.subrange(0, q);
    let ext = points.subrange(0, q + 1);
    if points_have_key(ext, k) {
        let jj = choose|jj: int| 0 <= jj < ext.len() && (#[trigger] ext[jj]).0 == k;
        if jj < q {
            assert(pre[jj].0 == k);
        }
    }
    if points_have_key(pre, k) {
        let jj = choose|jj: int| 0 <= jj < pre.len() && (#[trigger] pre[jj]).0 == k;
        assert(ext[jj].0 == k);
    }
    if points[q].0 == k {
        assert(ext[q].0 == k);
    }
}

/// Position of opinion count `k` among the accumulated points, if present.
fn find_key(acc: &Vec<(u16, u64)>, k: u16) -> (r: Option<usize>)
    ensures
        r matches Some(i) ==> i < acc@.len() && acc@[i as int].0 == k,
        r is None ==> forall|e: int| 0 <= e < acc@.len() ==> (#[trigger] acc@[e]).0 != k,
{
    let mut i: usize = 0;
    while i < acc.len()
        invariant
            i <= acc@.len(),
            forall|e: int| 0 <= e < i ==> (#[trigger] acc@[e]).0 != k,
        decreases acc@.len() - i,
    {
        if acc[i].0 == k {
            return Some(i);
        }
        i = i + 1;
    }
    None
}

impl OpinionPlot {
    /// An empty curve.
    pub fn new() -> (r: OpinionPlot)
        ensures
            r.points@.len() == 0,
            r.j == 0,
    {
        OpinionPlot { points: Vec::new(), j: 0 }
    }

    /// Combine a batch of curves into their average: one point for every
    /// opinion count that occurs in some curve, carrying the batch total of
    /// the recorded interaction counts divided by the number of curves, and
    /// the sample size of the last curve. An empty batch yields the empty
    /// curve. The totals must fit the counter's range, a machine limit.
    pub fn average(plots: &Vec<OpinionPlot>) -> (r: OpinionPlot)
        requires
            forall|k: u16| #[trigger] plots_total(plots@, k) <= u64::MAX,
        ensures
            plots@.len() == 0 ==> r.points@.len() == 0 && r.j == 0,
            plots@.len() > 0 ==> r.j == plots@.last().j,
            forall|e: int|
                0 <= e < r.points@.len() ==> plots_have_key(plots@, (#[trigger] r.points@[e]).0)
                    && r.points@[e].1 as int == plots_total(plots@, r.points@[e].0) / (
                plots@.len() as int),
            forall|k: u16| #![trigger plots_have_key(plots@, k)]
                plots_have_key(plots@, k) ==> points_have_key(r.points@, k),
            forall|e1: int, e2: int|
                0 <= e1 < r.points@.len() && 0 <= e2 < r.points@.len() && e1 != e2 ==> (
                #[trigger] r.points@[e1]).0 != (#[trigger] r.points@[e2]).0,
    {
        let ghost all = plots@;
        let mut acc: Vec<(u16, u64)> = Vec::new();
        let mut j: u8 = 0;
        let mut p: usize = 0;
        while p < plots.len()
            invariant
                p <= all.len(),
                plots@ == all,
                forall|k: u16| #[trigger] plots_total(all, k) <= u64::MAX,
                p > 0 ==> j == all[p - 1].j,
                p == 0 ==> j == 0,
                forall|e: int|
                    0 <= e < acc@.len() ==> (#[trigger] acc@[e]).1 as int == plots_total(
                        all.subrange(0, p as int),
                        acc@[e].0,
                    ),
                forall|e: int|
                    0 <= e < acc@.len() ==> plots_have_key(
                        all.subrange(0, p as int),
                        (#[trigger] acc@[e]).0,
                    ),
                forall|k: u16| #![trigger plots_have_key(all.subrange(0, p as int), k)]
                    plots_have_key(all.subrange(0, p as int), k) ==> points_have_key(acc@, k),
                forall|e1: int, e2: int|
                    0 <= e1 < acc@.len() && 0 <= e2 < acc@.len() && e1 != e2 ==> (
                    #[trigger] acc@[e1]).0 != (#[trigger] acc@[e2]).0,
            decreases all.len() - p,
        {
            let ghost pint = p as int;
            let points_len = plots[p].points.len();
            let mut q: usize = 0;
            while q < points_len
                invariant
                    plots@ == all,
                    0 <= pint < all.len(),
                    p == pint,
                    points_len == all[pint].points@.len(),
                    q <= points_len,
                    forall|k: u16| #[trigger] plots_total(all, k) <= u64::MAX,
                    forall|e: int|
                        0 <= e < acc@.len() ==> (#[trigger] acc@[e]).1 as int == plots_total(
                            all.subrange(0, pint),
                            acc@[e].0,
                        ) + pair_total(all[pint].points@.subrange(0, q as int), acc@[e].0),
                    forall|e: int|
                        0 <= e < acc@.len() ==> plots_have_key(
                            all.subrange(0, pint),
                            (#[trigger] acc@[e]).0,
                        ) || points_have_key(
                            all[pint].points@.subrange(0, q as int),
                            acc@[e].0,
                        ),
                    forall|k: u16|
                        #![trigger plots_have_key(all.subrange(0, pint), k)]
                        #![trigger points_have_key(all[pint].points@.subrange(0, q as int), k)]
                        plots_have_key(all.subrange(0, pint), k) || points_have_key(
                            all[pint].points@.subrange(0, q as int),
                            k,
                        ) ==> points_have_key(acc@, k),
                    forall|e1: int, e2: int|
                        0 <= e1 < acc@.len() && 0 <= e2 < acc@.len() && e1 != e2 ==> (
                        #[trigger] acc@[e1]).0 != (#[trigger] acc@[e2]).0,
                decreases points_len - q,
            {
                let point = plots[p].points[q];
                let ghost cur = all[pint].points@;
                let ghost pre_acc = acc@;
                let found = find_key(&acc, point.0);
                proof {
                    assert(cur.subrange(0, q + 1).drop_last() =~= cur.subrange(0, q as int));
                    assert(cur.subrange(0, q + 1).last() == cur[q as int]);
                    assert(cur[q as int] == point);
                }
                match found {
                    Some(i) => {
                        let prev = acc[i].1;
                        proof {
                            lemma_plots_total_step(all, pint, point.0);
                            lemma_plots_total_prefix_le(all, pint + 1, point.0);
                            lemma_pair_total_prefix_le(cur, q + 1, point.0);
                            lemma_pair_total_nonneg(cur.subrange(0, q as int), point.0);
                            lemma_nonneg_plots_total(all.subrange(0, pint), point.0);
                        }
                        acc.set(i, (point.0, prev + point.1));
                        proof {
                            assert(acc@ == pre_acc.update(i as int, (point.0, (prev + point.1) as u64)));
                            assert forall|e: int|
                                0 <= e < acc@.len() implies (#[trigger] acc@[e]).1 as int
                                == plots_total(all.subrange(0, pint), acc@[e].0) + pair_total(
                                cur.subrange(0, q + 1),
                                acc@[e].0,
                            ) by {
                                assert(pre_acc[e].1 as int == plots_total(
                                    all.subrange(0, pint),
                                    pre_acc[e].0,
                                ) + pair_total(cur.subrange(0, q as int), pre_acc[e].0));
                                if e != i as int {
                                    assert(acc@[e] == pre_acc[e]);
                                    assert(pre_acc[e].0 != point.0);
                                }
                            }
                            assert forall|e: int|
                                0 <= e < acc@.len() implies plots_have_key(
                                all.subrange(0, pint),
                                (#[trigger] acc@[e]).0,
                            ) || points_have_key(cur.subrange(0, q + 1), acc@[e].0) by {
                                lemma_points_have_key_step(cur, q as int, acc@[e].0);
                                if e != i as int {
                                    assert(acc@[e] == pre_acc[e]);
                                }
                            }
                            assert forall|k: u16|
                                #![trigger plots_have_key(all.subrange(0, pint), k)]
                                #![trigger points_have_key(cur.subrange(0, q + 1), k)]
                                plots_have_key(all.subrange(0, pint), k) || points_have_key(
                                    cur.subrange(0, q + 1),
                                    k,
                                ) implies points_have_key(acc@, k) by {
                                lemma_points_have_key_step(cur, q as int, k);
                                if k == point.0 {
                                    assert(acc@[i as int].0 == k);
                                } else {
                                    assert(points_have_key(pre_acc, k));
                                    let e0 = choose|e0: int|
                                        0 <= e0 < pre_acc.len() && (#[trigger] pre_acc[e0]).0
                                            == k;
                                    assert(e0 != i as int);
                                    assert(acc@[e0].0 == k);
                                }
                            }
                        }
                    },
                    None => {
                        acc.push((point.0, point.1));
                        proof {
                            assert(acc@ == pre_acc.push((point.0, point.1)));
                            assert forall|e: int|
                                0 <= e < acc@.len() implies (#[trigger] acc@[e]).1 as int
                                == plots_total(all.subrange(0, pint), acc@[e].0) + pair_total(
                                cur.subrange(0, q + 1),
                                acc@[e].0,
                            ) by {
                                if e == acc@.len() - 1 {
                                    if plots_have_key(all.subrange(0, pint), point.0) {
                                        let e1 = choose|e1: int|
                                            0 <= e1 < pre_acc.len() && (#[trigger] pre_acc[e1]).0
                                                == point.0;
                                        assert(false);
                                    }
                                    if points_have_key(cur.subrange(0, q as int), point.0) {
                                        let e1 = choose|e1: int|
                                            0 <= e1 < pre_acc.len() && (#[trigger] pre_acc[e1]).0
                                                == point.0;
                                        assert(false);
                                    }
                                    lemma_no_key_no_total_plots(
                                        all.subrange(0, pint),
                                        point.0,
                                    );
                                    lemma_no_key_no_total_points(
                                        cur.subrange(0, q as int),
                                        point.0,
                                    );
                                } else {
                                    assert(acc@[e] == pre_acc[e]);
                                }
                            }
                            assert forall|e: int|
                                0 <= e < acc@.len() implies plots_have_key(
                                all.subrange(0, pint),
                                (#[trigger] acc@[e]).0,
                            ) || points_have_key(cur.subrange(0, q + 1), acc@[e].0) by {
                                lemma_points_have_key_step(cur, q as int, acc@[e].0);
                                if e < acc@.len() - 1 {
                                    assert(acc@[e] == pre_acc[e]);
                                } else {
                                    assert(acc@[e].0 == point.0);
                                    assert(cur.subrange(0, q + 1)[q as int].0 == point.0);
                                }
                            }
                            assert forall|k: u16|
                                #![trigger plots_have_key(all.subrange(0, pint), k)]
                                #![trigger points_have_key(cur.subrange(0, q + 1), k)]
                                plots_have_key(all.subrange(0, pint), k) || points_have_key(
                                    cur.subrange(0, q + 1),
                                    k,
                                ) implies points_have_key(acc@, k) by {
                                lemma_points_have_key_step(cur, q as int, k);
                                if k == point.0 {
                                    assert(acc@[acc@.len() - 1].0 == k);
                                } else {
                                    assert(points_have_key(pre_acc, k));
                                    let e0 = choose|e0: int|
                                        0 <= e0 < pre_acc.len() && (#[trigger] pre_acc[e0]).0
                                            == k;
                                    assert(acc@[e0].0 == k);
                                }
                            }
                            assert forall|e1: int, e2: int|
                                0 <= e1 < acc@.len() && 0 <= e2 < acc@.len() && e1 != e2 implies (
                            #[trigger] acc@[e1]).0 != (#[trigger] acc@[e2]).0 by {
                                if e1 < acc@.len() - 1 && e2 < acc@.len() - 1 {
                                    assert(acc@[e1] == pre_acc[e1]);
                                    assert(acc@[e2] == pre_acc[e2]);
                                } else if e1 == acc@.len() - 1 {
                                    assert(acc@[e2] == pre_acc[e2]);
                                    assert(pre_acc[e2].0 != point.0);
                                } else {
                                    assert(acc@[e1] == pre_acc[e1]);
                                    assert(pre_acc[e1].0 != point.0);
                                }
                            }
                        }
                    },
                }
                q = q + 1;
            }
            proof {
                let ghost cur = all[pint].points@;
                assert(cur.subrange(0, cur.len() as int) =~= cur);
                assert forall|e: int|
                    0 <= e < acc@.len() implies (#[trigger] acc@[e]).1 as int == plots_total(
                    all.subrange(0, pint + 1),
                    acc@[e].0,
                ) by {
                    lemma_plots_total_step(all, pint, acc@[e].0);
                }
                assert forall|e: int|
                    0 <= e < acc@.len() implies plots_have_key(
                    all.subrange(0, pint + 1),
                    (#[trigger] acc@[e]).0,
                ) by {
                    lemma_plots_have_key_step(all, pint, acc@[e].0);
                }
                assert forall|k: u16| #![trigger plots_have_key(all.subrange(0, pint + 1), k)]
                    plots_have_key(all.subrange(0, pint + 1), k) implies points_have_key(
                    acc@,
                    k,
                ) by {
                    lemma_plots_have_key_step(all, pint, k);
                }
            }
            j = plots[p].j;
            p = p + 1;
        }
        proof {
            assert(all.subrange(0, all.len() as int) =~= all);
        }

        let count = plots.len() as u64;
        let mut e: usize = 0;
        while e < acc.len()
            invariant
                plots@ == all,
                count as int == all.len(),
                e <= acc@.len(),
                forall|i: int|
                    e <= i < acc@.len() ==> (#[trigger] acc@[i]).1 as int == plots_total(
                        all,
                        acc@[i].0,
                    ),
                forall|i: int|
                    0 <= i < e ==> (#[trigger] acc@[i]).1 as int == plots_total(all, acc@[i].0)
                        / (all.len() as int),
                forall|i: int| 0 <= i < acc@.len() ==> plots_have_key(all, (#[trigger] acc@[i]).0),
                forall|k: u16| #![trigger plots_have_key(all, k)]
                    plots_have_key(all, k) ==> points_have_key(acc@, k),
                forall|e1: int, e2: int|
                    0 <= e1 < acc@.len() && 0 <= e2 < acc@.len() && e1 != e2 ==> (
                    #[trigger] acc@[e1]).0 != (#[trigger] acc@[e2]).0,
            decreases acc@.len() - e,
        {
            let entry = acc[e];
            let ghost pre_acc = acc@;
            proof {
                assert(plots_have_key(all, acc@[e as int].0));
                assert(all.len() > 0);
            }
            acc.set(e, (entry.0, entry.1 / count));
            proof {
                assert forall|i: int|
                    0 <= i < acc@.len() && i != e as int implies acc@[i] == pre_acc[i] by {}
                assert forall|k: u16| #![trigger plots_have_key(all, k)]
                    plots_have_key(all, k) implies points_have_key(acc@, k) by {
                    assert(points_have_key(pre_acc, k));
                    let e0 = choose|e0: int|
                        0 <= e0 < pre_acc.len() && (#[trigger] pre_acc[e0]).0 == k;
                    assert(acc@[e0].0 == k);
                }
            }
            e = e + 1;
        }
        proof {
            if all.len() == 0 && acc@.len() > 0 {
                assert(plots_have_key(all, acc@[0].0));
                assert(false);
            }
        }

        OpinionPlot { points: acc, j }
    }
}

/// A whole-batch total is non-negative.
proof fn lemma_nonneg_plots_total(plots: Seq<OpinionPlot>, k: u16)
    ensures
        plots_total(plots, k) >= 0,
    decreases plots.len(),
{
    if plots.len() > 0 {
        lemma_nonneg_plots_total(plots.drop_last(), k);
        lemma_pair_total_nonneg(plots.last().points@, k);
    }
}

/// A key that occurs nowhere contributes no total.
proof fn lemma_no_key_no_total_points(points: Seq<(u16, u64)>, k: u16)
    requires
        !points_have_key(points, k),
    ensures
        pair_total(points, k) == 0,
    decreases points.len(),
{
    if points.len() > 0 {
        assert forall|jj: int| 0 <= jj < points.drop_last().len() implies (
        #[trigger] points.drop_last()[jj]).0 != k by {
            assert(points[jj].0 != k);
        }
        lemma_no_key_no_total_points(points.drop_last(), k);
        assert(points[points.len() - 1].0 != k);
    }
}

/// A key missing from every curve of the batch contributes no total.
proof fn lemma_no_key_no_total_plots(plots: Seq<OpinionPlot>, k: u16)
    requires
        !plots_have_key(plots, k),
    ensures
        plots_total(plots, k) == 0,
    decreases plots.len(),
{
    if plots.len() > 0 {
        assert forall|i: int| 0 <= i < plots.drop_last().len() implies !points_have_key(
            (#[trigger] plots.drop_last()[i]).points@,
            k,
        ) by {
            assert(!points_have_key((plots[i]).points@, k));
        }
        lemma_no_key_no_total_plots(plots.drop_last(), k);
        assert(!points_have_key((plots[plots.len() - 1]).points@, k));
        lemma_no_key_no_total_points(plots.last().points@, k);
    }
}

} // verus!
