//! Top-N pruning: when a query asks for the smallest (or largest) `limit`
//! rows of one column and no filter constrains them, statistics alone can
//! bound which blocks may contribute. The pruner finds the least worst-case
//! bound `t` such that blocks whose worst case lies within `t` already hold
//! at least `limit` rows, and keeps exactly the blocks whose best case lies
//! within `t`: no evicted block can place a row among the top `limit`.

use vstd::prelude::*;
use vstd::multiset::Multiset;

use crate::meta::BlockMeta;
use crate::meta::BlockMetaIndex;
use crate::meta::BlockMetaView;
use crate::meta::ColumnStat;
use crate::meta::spec_pairs_view;
use crate::push_down::PushDownInfoView;
use crate::push_down::SortItem;
use crate::push_down::spec_stat_of;
use crate::push_down::spec_topn_applicable;

verus! {

/// Why a top-N pruning attempt degraded to the unpruned input.
#[derive(Clone, Copy, PartialEq, Eq, Structural, Debug)]
pub enum TopNError {
    /// The ordering is not a single column.
    UnsupportedSort,
    /// Some block lacks statistics for the sort column.
    MissingStats,
}

/// The worst-case value a block can contribute under the sort direction:
/// its upper bound for an ascending sort, its lower bound for a descending
/// one. Meaningful only when the statistic is present.
pub open spec fn spec_worst_bound(m: BlockMetaView, col: usize, asc: bool) -> i64 {
    let s = spec_stat_of(m.col_stats, col).unwrap();
    if asc {
        s.max
    } else {
        s.min
    }
}

/// The best-case value a block can contribute under the sort direction.
pub open spec fn spec_best_bound(m: BlockMetaView, col: usize, asc: bool) -> i64 {
    let s = spec_stat_of(m.col_stats, col).unwrap();
    if asc {
        s.min
    } else {
        s.max
    }
}

/// Whether a block's whole value range lies within the bound `t` in the
/// sort direction.
pub open spec fn spec_within(m: BlockMetaView, col: usize, asc: bool, t: i64) -> bool {
    if asc {
        spec_worst_bound(m, col, true) <= t
    } else {
        spec_worst_bound(m, col, false) >= t
    }
}

/// How many rows the blocks wholly within `t` hold together.
pub open spec fn spec_rows_within(
    pairs: Seq<(BlockMetaIndex, BlockMetaView)>,
    col: usize,
    asc: bool,
    t: i64,
) -> int
    decreases pairs.len(),
{
    if pairs.len() == 0 {
        0
    } else {
        spec_rows_within(pairs.drop_last(), col, asc, t) + if spec_within(
            pairs.last().1,
            col,
            asc,
            t,
        ) {
            pairs.last().1.row_count as int
        } else {
            0
        }
    }
}

/// `t` is the top-N threshold: it is some block's worst-case bound, the
/// blocks within it hold at least `k` rows, and no strictly tighter
/// worst-case bound does.
pub open spec fn spec_is_threshold(
    pairs: Seq<(BlockMetaIndex, BlockMetaView)>,
    col: usize,
    asc: bool,
    k: u64,
    t: i64,
) -> bool {
    &&& exists|i: int| 0 <= i < pairs.len() && spec_worst_bound(#[trigger] pairs[i].1, col, asc) == t
    &&& spec_rows_within(pairs, col, asc, t) >= k
    &&& forall|i: int|
        0 <= i < pairs.len() ==> {
            let w = spec_worst_bound(#[trigger] pairs[i].1, col, asc);
            (if asc {
                w < t
            } else {
                w > t
            }) ==> spec_rows_within(pairs, col, asc, w) < k
        }
}

/// Whether any threshold exists; none does exactly when all blocks
/// together hold fewer than `k` rows.
pub open spec fn spec_has_threshold(
    pairs: Seq<(BlockMetaIndex, BlockMetaView)>,
    col: usize,
    asc: bool,
    k: u64,
) -> bool {
    exists|t: i64| spec_is_threshold(pairs, col, asc, k, t)
}

/// The threshold, where one exists. It is unique
/// ([`lemma_threshold_unique`]), so this is a function of its arguments.
pub open spec fn spec_threshold(
    pairs: Seq<(BlockMetaIndex, BlockMetaView)>,
    col: usize,
    asc: bool,
    k: u64,
) -> i64 {
    choose|t: i64| spec_is_threshold(pairs, col, asc, k, t)
}

/// The per-block keep test of top-N pruning: a block survives when its
/// best-case value lies within the threshold.
pub open spec fn spec_topn_keep_pred(col: usize, asc: bool, t: i64) -> spec_fn(
    (BlockMetaIndex, BlockMetaView),
) -> bool {
    |p: (BlockMetaIndex, BlockMetaView)|
        if asc {
            spec_best_bound(p.1, col, true) <= t
        } else {
            spec_best_bound(p.1, col, false) >= t
        }
}

/// What top-N pruning keeps: the blocks whose best case reaches the
/// threshold, or everything when the blocks hold fewer than `k` rows in
/// total.
pub open spec fn spec_topn_filtered(
    pairs: Seq<(BlockMetaIndex, BlockMetaView)>,
    col: usize,
    asc: bool,
    k: u64,
) -> Seq<(BlockMetaIndex, BlockMetaView)> {
    if spec_has_threshold(pairs, col, asc, k) {
        pairs.filter(spec_topn_keep_pred(col, asc, spec_threshold(pairs, col, asc, k)))
    } else {
        pairs
    }
}

/// Whether a top-N pruning attempt degrades to the unpruned input: the
/// ordering is not a single column, or a block lacks sort-column
/// statistics.
pub open spec fn spec_topn_degrades(
    sort: Seq<SortItem>,
    pairs: Seq<(BlockMetaIndex, BlockMetaView)>,
) -> bool {
    ||| sort.len() != 1
    ||| exists|i: int|
        0 <= i < pairs.len() && spec_stat_of(#[trigger] pairs[i].1.col_stats, sort[0].column) is None
}

/// What the top-N stage of a pruning call returns: the input itself when
/// top-N pruning does not apply or degrades, its filtered form otherwise.
pub open spec fn spec_topn_result(
    pd: Option<PushDownInfoView>,
    pairs: Seq<(BlockMetaIndex, BlockMetaView)>,
) -> Seq<(BlockMetaIndex, BlockMetaView)> {
    if !spec_topn_applicable(pd) {
        pairs
    } else {
        let sort = pd.unwrap().order_by;
        if spec_topn_degrades(sort, pairs) {
            pairs
        } else {
            spec_topn_filtered(pairs, sort[0].column, sort[0].asc, pd.unwrap().limit.unwrap())
        }
    }
}

/// At most one value satisfies the threshold predicate.
pub proof fn lemma_threshold_unique(
    pairs: Seq<(BlockMetaIndex, BlockMetaView)>,
    col: usize,
    asc: bool,
    k: u64,
    t1: i64,
    t2: i64,
)
    requires
        spec_is_threshold(pairs, col, asc, k, t1),
        spec_is_threshold(pairs, col, asc, k, t2),
    ensures
        t1 == t2,
{
    if t1 != t2 {
        if asc {
            if t1 < t2 {
                let i = choose|i: int|
                    0 <= i < pairs.len() && spec_worst_bound(pairs[i].1, col, asc) == t1;
                assert(spec_rows_within(pairs, col, asc, t1) < k);
            } else {
                let i = choose|i: int|
                    0 <= i < pairs.len() && spec_worst_bound(pairs[i].1, col, asc) == t2;
                assert(spec_rows_within(pairs, col, asc, t2) < k);
            }
        } else {
            if t1 > t2 {
                let i = choose|i: int|
                    0 <= i < pairs.len() && spec_worst_bound(pairs[i].1, col, asc) == t1;
                assert(spec_rows_within(pairs, col, asc, t1) < k);
            } else {
                let i = choose|i: int|
                    0 <= i < pairs.len() && spec_worst_bound(pairs[i].1, col, asc) == t2;
                assert(spec_rows_within(pairs, col, asc, t2) < k);
            }
        }
    }
}

/// Builds an ascending copy of a value list; the copy holds exactly the
/// original values.
pub fn sort_i64(v: &Vec<i64>) -> (r: Vec<i64>)
    ensures
        r@.len() == v@.len(),
        forall|p: int, q: int| 0 <= p <= q < r@.len() ==> r@[p] <= r@[q],
        r@.to_multiset() == v@.to_multiset(),
{
    broadcast use vstd::seq_lib::to_multiset_insert;
    broadcast use vstd::seq_lib::to_multiset_build;

    let mut r: Vec<i64> = Vec::new();
    let mut i: usize = 0;
    proof {
        assert(r@ =~= v@.take(0));
    }
    while i < v.len()
        invariant
            i <= v.len(),
            r@.len() == i,
            forall|p: int, q: int| 0 <= p <= q < r@.len() ==> r@[p] <= r@[q],
            r@.to_multiset() == v@.take(i as int).to_multiset(),
        decreases v.len() - i,
    {
        let x = v[i];
        let mut j: usize = 0;
        while j < r.len() && r[j] <= x
            invariant
                j <= r.len(),
                forall|p: int| 0 <= p < j ==> r@[p] <= x,
            decreases r.len() - j,
        {
            j = j + 1;
        }
        // j is the first position whose value exceeds x
        let ghost prev = r@;
        r.insert(j, x);
        i = i + 1;
        proof {
            assert(r@ == prev.insert(j as int, x));
            vstd::seq_lib::to_multiset_insert::<i64>(prev, j as int, x);
            assert(v@.take(i as int) =~= v@.take(i - 1).push(v@[i - 1]));
            vstd::seq_lib::to_multiset_build::<i64>(v@.take(i - 1), v@[i - 1]);
        }
    }
    proof {
        assert(v@.take(v@.len() as int) =~= v@);
    }
    r
}

/// Whether the blocks wholly within `t` hold at least `k` rows.
fn rows_reach(
    pairs: &Vec<(BlockMetaIndex, BlockMeta)>,
    col: usize,
    asc: bool,
    t: i64,
    k: u64,
) -> (b: bool)
    requires
        forall|i: int|
            0 <= i < spec_pairs_view(pairs@).len() ==> spec_stat_of(
                #[trigger] spec_pairs_view(pairs@)[i].1.col_stats,
                col,
            ) is Some,
    ensures
        b == (spec_rows_within(spec_pairs_view(pairs@), col, asc, t) >= k),
{
    let pv = Ghost(spec_pairs_view(pairs@));
    let mut acc: u64 = 0;
    let mut i: usize = 0;
    while i < pairs.len()
        invariant
            pv@ == spec_pairs_view(pairs@),
            pv@.len() == pairs@.len(),
            forall|q: int|
                0 <= q < pv@.len() ==> spec_stat_of(#[trigger] pv@[q].1.col_stats, col) is Some,
            i <= pairs.len(),
            acc <= k,
            acc == if spec_rows_within(pv@.take(i as int), col, asc, t) >= k {
                k as int
            } else {
                spec_rows_within(pv@.take(i as int), col, asc, t)
            },
        decreases pairs.len() - i,
    {
        proof {
            assert(pv@[i as int] == (pairs@[i as int].0, pairs@[i as int].1@));
        }
        let stat = crate::push_down::stat_of(&pairs[i].1.col_stats, col);
        let within: bool = match stat {
            Some(s) => {
                if asc {
                    s.max <= t
                } else {
                    s.min >= t
                }
            },
            None => false,
        };
        let rows = pairs[i].1.row_count;
        if within && acc < k {
            let room = k - acc;
            if rows >= room {
                acc = k;
            } else {
                acc = acc + rows;
            }
        }
        i = i + 1;
        proof {
            assert(pv@.take(i as int).drop_last() =~= pv@.take(i - 1));
            assert(pv@.take(i as int).last() == pv@[i - 1]);
            assert(spec_within(pv@[i - 1].1, col, asc, t) == within);
        }
    }
    proof {
        assert(pv@.take(pv@.len() as int) =~= pv@);
    }
    acc >= k
}

/// The reimplemented top-N pruning collaborator: a single-column ordering
/// with a row limit, applied to the pruned block list.
pub struct TopNPrunner {
    pub sort: Vec<SortItem>,
    pub limit: u64,
}

impl TopNPrunner {
    /// Wraps the ordering and the limit.
    pub fn create(sort: Vec<SortItem>, limit: u64) -> (r: TopNPrunner)
        ensures
            r.sort@ == sort@,
            r.limit == limit,
    {
        TopNPrunner { sort, limit }
    }

    /// Keeps the blocks that may contribute to the top `limit` rows of the
    /// sort column; fails — and the caller then keeps the unpruned input —
    /// when the ordering is not a single column or a block lacks
    /// statistics for it.
    pub fn prune(&self, metas: &Vec<(BlockMetaIndex, BlockMeta)>) -> (r: Result<
        Vec<(BlockMetaIndex, BlockMeta)>,
        TopNError,
    >)
        ensures
            match r {
                Ok(v) => {
                    &&& !spec_topn_degrades(self.sort@, spec_pairs_view(metas@))
                    &&& spec_pairs_view(v@) == spec_topn_filtered(
                        spec_pairs_view(metas@),
                        self.sort@[0].column,
                        self.sort@[0].asc,
                        self.limit,
                    )
                },
                Err(e) => {
                    &&& spec_topn_degrades(self.sort@, spec_pairs_view(metas@))
                    &&& (e == TopNError::UnsupportedSort) == (self.sort@.len() != 1)
                },
            },
    {
        let pv = Ghost(spec_pairs_view(metas@));
        if self.sort.len() != 1 {
            return Err(TopNError::UnsupportedSort);
        }
        let col = self.sort[0].column;
        let asc = self.sort[0].asc;
        let k = self.limit;

        // Collect each block's worst-case bound; a missing statistic
        // degrades the whole attempt.
        let mut bounds: Vec<i64> = Vec::new();
        let mut i: usize = 0;
        while i < metas.len()
            invariant
                pv@ == spec_pairs_view(metas@),
                pv@.len() == metas@.len(),
                i <= metas.len(),
                bounds@.len() == i,
                self.sort@.len() == 1,
                asc == self.sort@[0].asc,
                col == self.sort@[0].column,
                forall|j: int|
                    0 <= j < i ==> spec_stat_of(#[trigger] pv@[j].1.col_stats, col) is Some,
                forall|j: int|
                    0 <= j < i ==> bounds@[j] == spec_worst_bound(#[trigger] pv@[j].1, col, asc),
            decreases metas.len() - i,
        {
            proof {
                assert(pv@[i as int] == (metas@[i as int].0, metas@[i as int].1@));
            }
            let stat = crate::push_down::stat_of(&metas[i].1.col_stats, col);
            match stat {
                Some(s) => {
                    let w = if asc {
                        s.max
                    } else {
                        s.min
                    };
                    bounds.push(w);
                },
                None => {
                    proof {
                        assert(spec_stat_of(pv@[i as int].1.col_stats, col) is None);
                        assert(spec_topn_degrades(self.sort@, pv@));
                    }
                    return Err(TopNError::MissingStats);
                },
            }
            i = i + 1;
        }

        let sorted = sort_i64(&bounds);

        // Try candidate thresholds from the tightest worst-case bound
        // outward; the first one whose blocks hold `k` rows is the
        // threshold.
        let mut found: bool = false;
        let mut threshold: i64 = 0;
        let mut j: usize = 0;
        while j < sorted.len() && !found
            invariant
                pv@ == spec_pairs_view(metas@),
                pv@.len() == metas@.len(),
                asc == self.sort@[0].asc,
                col == self.sort@[0].column,
                k == self.limit,
                forall|q: int|
                    0 <= q < pv@.len() ==> spec_stat_of(#[trigger] pv@[q].1.col_stats, col) is Some,
                forall|q: int|
                    0 <= q < pv@.len() ==> bounds@[q] == spec_worst_bound(
                        #[trigger] pv@[q].1,
                        col,
                        asc,
                    ),
                bounds@.len() == pv@.len(),
                sorted@.len() == bounds@.len(),
                forall|p: int, q: int| 0 <= p <= q < sorted@.len() ==> sorted@[p] <= sorted@[q],
                sorted@.to_multiset() == bounds@.to_multiset(),
                j <= sorted.len(),
                !found && asc ==> forall|p: int|
                    0 <= p < j as int ==> spec_rows_within(pv@, col, asc, #[trigger] sorted@[p])
                        < k,
                !found && !asc ==> forall|p: int|
                    sorted@.len() - j <= p < sorted@.len() ==> spec_rows_within(
                        pv@,
                        col,
                        asc,
                        #[trigger] sorted@[p],
                    ) < k,
                found ==> spec_is_threshold(pv@, col, asc, k, threshold),
            decreases sorted.len() - j,
        {
            let idx = if asc {
                j
            } else {
                sorted.len() - 1 - j
            };
            let t = sorted[idx];
            if rows_reach(metas, col, asc, t, k) {
                found = true;
                threshold = t;
                proof {
                    lemma_threshold_established(pv@, col, asc, k, sorted@, bounds@, j as int, t);
                }
            }
            j = j + 1;
        }

        if !found {
            proof {
                lemma_no_threshold(pv@, col, asc, k, sorted@, bounds@);
            }
            let out = duplicate_pairs(metas);
            proof {
                assert(spec_topn_filtered(pv@, col, asc, k) == pv@);
            }
            return Ok(out);
        }

        // Keep exactly the blocks whose best case reaches the threshold.
        let out = filter_pairs(metas, col, asc, threshold);
        proof {
            let tch = spec_threshold(pv@, col, asc, k);
            assert(spec_is_threshold(pv@, col, asc, k, threshold));
            assert(spec_has_threshold(pv@, col, asc, k));
            assert(spec_is_threshold(pv@, col, asc, k, tch));
            lemma_threshold_unique(pv@, col, asc, k, threshold, tch);
        }
        Ok(out)
    }
}

/// Copies a pruned pair list, preserving its view.
fn duplicate_pairs(metas: &Vec<(BlockMetaIndex, BlockMeta)>) -> (r: Vec<(BlockMetaIndex, BlockMeta)>)
    ensures
        spec_pairs_view(r@) == spec_pairs_view(metas@),
{
    let mut r: Vec<(BlockMetaIndex, BlockMeta)> = Vec::new();
    let mut i: usize = 0;
    while i < metas.len()
        invariant
            i <= metas.len(),
            r@.len() == i,
            forall|j: int|
                0 <= j < i ==> (#[trigger] r@[j]).0 == metas@[j].0 && r@[j].1@ == metas@[j].1@,
        decreases metas.len() - i,
    {
        let m = metas[i].1.duplicate();
        let idx = metas[i].0;
        r.push((idx, m));
        i = i + 1;
    }
    proof {
        assert(spec_pairs_view(r@) =~= spec_pairs_view(metas@));
    }
    r
}

/// Keeps the pairs whose best-case bound reaches `t`, preserving order.
fn filter_pairs(metas: &Vec<(BlockMetaIndex, BlockMeta)>, col: usize, asc: bool, t: i64) -> (r: Vec<
    (BlockMetaIndex, BlockMeta),
>)
    requires
        forall|i: int|
            0 <= i < spec_pairs_view(metas@).len() ==> spec_stat_of(
                #[trigger] spec_pairs_view(metas@)[i].1.col_stats,
                col,
            ) is Some,
    ensures
        spec_pairs_view(r@) == spec_pairs_view(metas@).filter(spec_topn_keep_pred(col, asc, t)),
{
    broadcast use Seq::lemma_filter_push;

    let pv = Ghost(spec_pairs_view(metas@));
    let pred = Ghost(spec_topn_keep_pred(col, asc, t));
    let mut r: Vec<(BlockMetaIndex, BlockMeta)> = Vec::new();
    let mut i: usize = 0;
    while i < metas.len()
        invariant
            pv@ == spec_pairs_view(metas@),
            pv@.len() == metas@.len(),
            forall|q: int|
                0 <= q < pv@.len() ==> spec_stat_of(#[trigger] pv@[q].1.col_stats, col) is Some,
            pred@ == spec_topn_keep_pred(col, asc, t),
            i <= metas.len(),
            spec_pairs_view(r@) == pv@.take(i as int).filter(pred@),
        decreases metas.len() - i,
    {
        proof {
            assert(pv@[i as int] == (metas@[i as int].0, metas@[i as int].1@));
        }
        let stat = crate::push_down::stat_of(&metas[i].1.col_stats, col);
        let keep: bool = match stat {
            Some(s) => {
                if asc {
                    s.min <= t
                } else {
                    s.max >= t
                }
            },
            None => false,
        };
        let ghost prev = spec_pairs_view(r@);
        if keep {
            let m = metas[i].1.duplicate();
            let idx = metas[i].0;
            r.push((idx, m));
            proof {
                assert(spec_pairs_view(r@) =~= prev.push(pv@[i as int]));
            }
        }
        i = i + 1;
        proof {
            assert(pv@.take(i as int) =~= pv@.take(i - 1).push(pv@[i - 1]));
            assert(pred@(pv@[i - 1]) == keep);
            pv@.take(i - 1).lemma_filter_push(pv@[i - 1], pred@);
        }
    }
    proof {
        assert(pv@.take(pv@.len() as int) =~= pv@);
    }
    r
}

/// When the scan stops at a candidate that reaches `k` rows, that
/// candidate is the threshold.
proof fn lemma_threshold_established(
    pv: Seq<(BlockMetaIndex, BlockMetaView)>,
    col: usize,
    asc: bool,
    k: u64,
    sorted: Seq<i64>,
    bounds: Seq<i64>,
    j: int,
    t: i64,
)
    requires
        bounds.len() == pv.len(),
        sorted.len() == bounds.len(),
        forall|q: int| 0 <= q < pv.len() ==> bounds[q] == spec_worst_bound(#[trigger] pv[q].1, col, asc),
        forall|p: int, q: int| 0 <= p <= q < sorted.len() ==> sorted[p] <= sorted[q],
        sorted.to_multiset() == bounds.to_multiset(),
        0 <= j < sorted.len(),
        t == sorted[if asc {
            j
        } else {
            sorted.len() - 1 - j
        }],
        spec_rows_within(pv, col, asc, t) >= k,
        forall|p: int|
            (if asc {
                0 <= p < j
            } else {
                sorted.len() - j <= p < sorted.len()
            }) ==> spec_rows_within(pv, col, asc, #[trigger] sorted[p]) < k,
    ensures
        spec_is_threshold(pv, col, asc, k, t),
{
    broadcast use vstd::seq_lib::group_to_multiset_ensures;

    let jj: int = if asc {
        j
    } else {
        sorted.len() - 1 - j
    };
    // t is some block's worst-case bound
    assert(sorted.contains(t));
    assert(sorted.to_multiset().count(t) > 0);
    assert(bounds.to_multiset().count(t) > 0);
    assert(bounds.contains(t));
    let w = choose|w: int| 0 <= w < bounds.len() && bounds[w] == t;
    assert(spec_worst_bound(pv[w].1, col, asc) == t);

    // no strictly tighter bound reaches k rows
    assert forall|i: int|
        0 <= i < pv.len() && (if asc {
            spec_worst_bound(pv[i].1, col, asc) < t
        } else {
            spec_worst_bound(pv[i].1, col, asc) > t
        }) implies spec_rows_within(pv, col, asc, spec_worst_bound(pv[i].1, col, asc)) < k by {
        let wv = spec_worst_bound(pv[i].1, col, asc);
        assert(bounds[i] == wv);
        assert(bounds.contains(wv));
        assert(bounds.to_multiset().count(wv) > 0);
        assert(sorted.to_multiset().count(wv) > 0);
        assert(sorted.contains(wv));
        let p = choose|p: int| 0 <= p < sorted.len() && sorted[p] == wv;
        if asc {
            // wv < t == sorted[jj], so p < jj <= j happens before the stop
            if p >= jj {
                assert(sorted[jj] <= sorted[p]);
                assert(false);
            }
            assert(spec_rows_within(pv, col, asc, sorted[p]) < k);
        } else {
            if p <= jj {
                assert(sorted[p] <= sorted[jj]);
                assert(false);
            }
            assert(sorted.len() - j <= p < sorted.len());
            assert(spec_rows_within(pv, col, asc, sorted[p]) < k);
        }
    }
}

/// The values of one column across the rows of a block list: `rows[i]`
/// holds the sort-column values of block `i`'s rows. Such an assignment
/// is consistent with the metadata when every block has statistics for
/// the column, holds as many values as its row count, and every value
/// lies within the recorded bounds.
pub open spec fn spec_rows_consistent(
    pairs: Seq<(BlockMetaIndex, BlockMetaView)>,
    col: usize,
    rows: Seq<Seq<i64>>,
) -> bool {
    &&& rows.len() == pairs.len()
    &&& forall|i: int|
        0 <= i < pairs.len() ==> spec_stat_of(#[trigger] pairs[i].1.col_stats, col) is Some
    &&& forall|i: int| 0 <= i < pairs.len() ==> (#[trigger] rows[i]).len() == pairs[i].1.row_count
    &&& forall|i: int, j: int|
        0 <= i < pairs.len() && 0 <= j < rows[i].len() ==> spec_stat_of(
            pairs[i].1.col_stats,
            col,
        ).unwrap().min <= #[trigger] rows[i][j] <= spec_stat_of(
            pairs[i].1.col_stats,
            col,
        ).unwrap().max
}

/// The multiset of values held by the blocks a predicate selects.
pub open spec fn spec_selected_rows(
    pairs: Seq<(BlockMetaIndex, BlockMetaView)>,
    rows: Seq<Seq<i64>>,
    pred: spec_fn((BlockMetaIndex, BlockMetaView)) -> bool,
) -> Multiset<i64>
    decreases pairs.len(),
{
    if pairs.len() == 0 || rows.len() == 0 {
        Multiset::empty()
    } else {
        let rest = spec_selected_rows(pairs.drop_last(), rows.drop_last(), pred);
        if pred(pairs.last()) {
            rest.add(rows.last().to_multiset())
        } else {
            rest
        }
    }
}

/// The predicate selecting every block.
pub open spec fn spec_every_block() -> spec_fn((BlockMetaIndex, BlockMetaView)) -> bool {
    |p: (BlockMetaIndex, BlockMetaView)| true
}

/// The multiset of all values across all blocks.
pub open spec fn spec_all_rows(
    pairs: Seq<(BlockMetaIndex, BlockMetaView)>,
    rows: Seq<Seq<i64>>,
) -> Multiset<i64> {
    spec_selected_rows(pairs, rows, spec_every_block())
}

/// The value-side test of the sort direction: whether a single value
/// lies within the bound `t` — at most `t` for an ascending sort, at
/// least `t` for a descending one.
pub open spec fn spec_value_within(asc: bool, t: i64) -> spec_fn(i64) -> bool {
    |x: i64|
        if asc {
            x <= t
        } else {
            x >= t
        }
}

/// `m` is a `k`-extreme multiset of `t` in the sort direction: the `k`
/// smallest values of `t` for an ascending sort, the `k` largest for a
/// descending one — drawn from `t`, holding `k` values, none of which
/// ranks behind anything left in `t`.
pub open spec fn spec_is_k_extreme(m: Multiset<i64>, t: Multiset<i64>, k: nat, asc: bool) -> bool {
    &&& m.subset_of(t)
    &&& m.len() == k
    &&& forall|x: i64, y: i64|
        m.count(x) > 0 && t.sub(m).count(y) > 0 ==> if asc {
            x <= y
        } else {
            x >= y
        }
}

/// The values top-N pruning retains: those of the kept blocks, or
/// everything when the blocks hold fewer than `k` rows and nothing was
/// pruned.
pub open spec fn spec_topn_kept_rows(
    pairs: Seq<(BlockMetaIndex, BlockMetaView)>,
    col: usize,
    asc: bool,
    k: u64,
    rows: Seq<Seq<i64>>,
) -> Multiset<i64> {
    if spec_has_threshold(pairs, col, asc, k) {
        spec_selected_rows(
            pairs,
            rows,
            spec_topn_keep_pred(col, asc, spec_threshold(pairs, col, asc, k)),
        )
    } else {
        spec_all_rows(pairs, rows)
    }
}

/// A block list's values split into those of the selected blocks and
/// those of the rest.
proof fn lemma_selected_rows_split(
    pairs: Seq<(BlockMetaIndex, BlockMetaView)>,
    rows: Seq<Seq<i64>>,
    pred: spec_fn((BlockMetaIndex, BlockMetaView)) -> bool,
    negpred: spec_fn((BlockMetaIndex, BlockMetaView)) -> bool,
)
    requires
        pairs.len() == rows.len(),
        forall|p: (BlockMetaIndex, BlockMetaView)| #[trigger] negpred(p) == !pred(p),
    ensures
        spec_all_rows(pairs, rows) == spec_selected_rows(pairs, rows, pred).add(
            spec_selected_rows(pairs, rows, negpred),
        ),
    decreases pairs.len(),
{
    broadcast use vstd::multiset::group_multiset_axioms;

    if pairs.len() == 0 {
        assert(spec_all_rows(pairs, rows) =~= spec_selected_rows(pairs, rows, pred).add(
            spec_selected_rows(pairs, rows, negpred),
        ));
    } else {
        lemma_selected_rows_split(pairs.drop_last(), rows.drop_last(), pred, negpred);
        assert(spec_every_block()(pairs.last()));
        assert(spec_all_rows(pairs, rows) =~= spec_selected_rows(pairs, rows, pred).add(
            spec_selected_rows(pairs, rows, negpred),
        ));
    }
}

/// The kept blocks hold at least as many values within `t` as the
/// worst-case count the threshold was chosen by.
proof fn lemma_kept_rows_reach(
    pairs: Seq<(BlockMetaIndex, BlockMetaView)>,
    col: usize,
    asc: bool,
    rows: Seq<Seq<i64>>,
    t: i64,
)
    requires
        spec_rows_consistent(pairs, col, rows),
    ensures
        spec_selected_rows(pairs, rows, spec_topn_keep_pred(col, asc, t)).filter(
            spec_value_within(asc, t),
        ).len() >= spec_rows_within(pairs, col, asc, t),
    decreases pairs.len(),
{
    broadcast use vstd::multiset::group_multiset_axioms;
    broadcast use vstd::seq_lib::group_to_multiset_ensures;

    let pred = spec_topn_keep_pred(col, asc, t);
    let within = spec_value_within(asc, t);
    if pairs.len() == 0 {
        assert(spec_selected_rows(pairs, rows, pred).filter(within)
            =~= Multiset::<i64>::empty());
    } else {
        let pp = pairs.drop_last();
        let rr = rows.drop_last();
        assert(spec_rows_consistent(pp, col, rr)) by {
            assert(forall|i: int| 0 <= i < pp.len() ==> pp[i] == pairs[i]);
            assert(forall|i: int| 0 <= i < rr.len() ==> rr[i] == rows[i]);
        }
        lemma_kept_rows_reach(pp, col, asc, rr, t);
        let last = pairs.last();
        let lrows = rows.last();
        let i = pairs.len() - 1;
        assert(pairs[i] == last && rows[i] == lrows);
        let stat = spec_stat_of(last.1.col_stats, col).unwrap();
        if spec_within(last.1, col, asc, t) {
            // every value of this block lies within t
            assert(forall|j: int| 0 <= j < lrows.len() ==> #[trigger] within(lrows[j]));
            if pred(last) {
                assert(spec_selected_rows(pairs, rows, pred) == spec_selected_rows(
                    pp,
                    rr,
                    pred,
                ).add(lrows.to_multiset()));
                assert(lrows.to_multiset().filter(within) =~= lrows.to_multiset()) by {
                    assert(forall|x: i64|
                        lrows.to_multiset().count(x) > 0 ==> #[trigger] within(x)) by {
                        assert(forall|x: i64|
                            #[trigger] lrows.to_multiset().count(x) > 0 ==> lrows.contains(x));
                    }
                }
                assert(spec_selected_rows(pp, rr, pred).add(lrows.to_multiset()).filter(within)
                    =~= spec_selected_rows(pp, rr, pred).filter(within).add(
                    lrows.to_multiset().filter(within),
                ));
                assert(lrows.to_multiset().len() == lrows.len());
            } else {
                // the keep test failed though the block lies wholly
                // within t: its bounds cross, so it holds no rows
                assert(stat.min > stat.max);
                assert(lrows.len() == 0) by {
                    if lrows.len() > 0 {
                        assert(stat.min <= lrows[0] <= stat.max);
                    }
                }
            }
        } else {
            if pred(last) {
                assert(spec_selected_rows(pairs, rows, pred) == spec_selected_rows(
                    pp,
                    rr,
                    pred,
                ).add(lrows.to_multiset()));
                assert(spec_selected_rows(pp, rr, pred).add(lrows.to_multiset()).filter(within)
                    =~= spec_selected_rows(pp, rr, pred).filter(within).add(
                    lrows.to_multiset().filter(within),
                ));
            }
        }
    }
}

/// Every value of a block the pruner evicted lies outside the threshold
/// in the sort direction.
proof fn lemma_dropped_rows_outside(
    pairs: Seq<(BlockMetaIndex, BlockMetaView)>,
    col: usize,
    asc: bool,
    rows: Seq<Seq<i64>>,
    t: i64,
    negpred: spec_fn((BlockMetaIndex, BlockMetaView)) -> bool,
)
    requires
        spec_rows_consistent(pairs, col, rows),
        forall|p: (BlockMetaIndex, BlockMetaView)| #[trigger] negpred(p) == !spec_topn_keep_pred(
            col,
            asc,
            t,
        )(p),
    ensures
        forall|y: i64|
            #[trigger] spec_selected_rows(pairs, rows, negpred).count(y) > 0
                ==> !spec_value_within(asc, t)(y),
    decreases pairs.len(),
{
    broadcast use vstd::multiset::group_multiset_axioms;
    broadcast use vstd::seq_lib::group_to_multiset_ensures;

    if pairs.len() > 0 {
        let pp = pairs.drop_last();
        let rr = rows.drop_last();
        assert(spec_rows_consistent(pp, col, rr)) by {
            assert(forall|i: int| 0 <= i < pp.len() ==> pp[i] == pairs[i]);
            assert(forall|i: int| 0 <= i < rr.len() ==> rr[i] == rows[i]);
        }
        lemma_dropped_rows_outside(pp, col, asc, rr, t, negpred);
        let last = pairs.last();
        let lrows = rows.last();
        let i = pairs.len() - 1;
        assert(pairs[i] == last && rows[i] == lrows);
        if negpred(last) {
            // the block's best case already misses t, so every value does
            let stat = spec_stat_of(last.1.col_stats, col).unwrap();
            assert(forall|j: int|
                0 <= j < lrows.len() ==> !spec_value_within(asc, t)(#[trigger] lrows[j]));
            assert(forall|y: i64|
                #[trigger] lrows.to_multiset().count(y) > 0 ==> lrows.contains(y));
            assert(spec_selected_rows(pairs, rows, negpred) == spec_selected_rows(
                pp,
                rr,
                negpred,
            ).add(lrows.to_multiset()));
        }
    }
}

/// Values selected under any predicate are among all values.
proof fn lemma_selected_subset(
    pairs: Seq<(BlockMetaIndex, BlockMetaView)>,
    rows: Seq<Seq<i64>>,
    pred: spec_fn((BlockMetaIndex, BlockMetaView)) -> bool,
)
    requires
        pairs.len() == rows.len(),
    ensures
        spec_selected_rows(pairs, rows, pred).subset_of(spec_all_rows(pairs, rows)),
    decreases pairs.len(),
{
    broadcast use vstd::multiset::group_multiset_axioms;

    if pairs.len() > 0 {
        lemma_selected_subset(pairs.drop_last(), rows.drop_last(), pred);
        assert(spec_every_block()(pairs.last()));
    }
}

/// A strictly larger multiset holds some value more often.
proof fn lemma_multiset_strict_superset(a: Multiset<i64>, b: Multiset<i64>)
    requires
        a.subset_of(b),
        a.len() < b.len(),
    ensures
        exists|y: i64| b.count(y) > #[trigger] a.count(y),
{
    broadcast use vstd::multiset::group_multiset_axioms;

    let c = b.sub(a);
    assert(c.len() == b.len() - a.len());
    assert(c.len() != 0);
    let y = c.choose();
    assert(c.count(y) > 0);
    assert(b.count(y) > a.count(y));
}

/// A multiset splits into the part a value test selects and the rest.
proof fn lemma_multiset_filter_split(m: Multiset<i64>, f: spec_fn(i64) -> bool)
    ensures
        m == m.filter(f).add(m.filter(|x: i64| !f(x))),
        m.len() == m.filter(f).len() + m.filter(|x: i64| !f(x)).len(),
{
    broadcast use vstd::multiset::group_multiset_axioms;

    assert(m =~= m.filter(f).add(m.filter(|x: i64| !f(x))));
}

/// Top-N equivalence: for any rows consistent with the block statistics,
/// every `k`-extreme multiset of the values the pruner kept is a
/// `k`-extreme multiset of all values, in either sort direction.
/// Materializing and re-sorting the pruned blocks therefore yields the
/// same top-`k` rows as a full scan with sort and limit.
pub proof fn lemma_topn_equivalence(
    pairs: Seq<(BlockMetaIndex, BlockMetaView)>,
    col: usize,
    asc: bool,
    k: u64,
    rows: Seq<Seq<i64>>,
    m: Multiset<i64>,
)
    requires
        spec_rows_consistent(pairs, col, rows),
        spec_is_k_extreme(m, spec_topn_kept_rows(pairs, col, asc, k, rows), k as nat, asc),
    ensures
        spec_is_k_extreme(m, spec_all_rows(pairs, rows), k as nat, asc),
{
    broadcast use vstd::multiset::group_multiset_axioms;

    if !spec_has_threshold(pairs, col, asc, k) {
        // nothing was pruned
        return ;
    }
    let t = spec_threshold(pairs, col, asc, k);
    assert(spec_is_threshold(pairs, col, asc, k, t));
    let pred = spec_topn_keep_pred(col, asc, t);
    let negpred = |p: (BlockMetaIndex, BlockMetaView)| !spec_topn_keep_pred(col, asc, t)(p);
    let kept = spec_selected_rows(pairs, rows, pred);
    let dropped = spec_selected_rows(pairs, rows, negpred);
    let all = spec_all_rows(pairs, rows);
    let within = spec_value_within(asc, t);

    lemma_selected_rows_split(pairs, rows, pred, negpred);
    lemma_kept_rows_reach(pairs, col, asc, rows, t);
    lemma_dropped_rows_outside(pairs, col, asc, rows, t, negpred);
    assert(all == kept.add(dropped));
    assert(kept.filter(within).len() >= k);

    // every chosen value lies within the threshold
    assert forall|x: i64| m.count(x) > 0 implies within(x) by {
        if !within(x) {
            let bm = m.filter(within);
            let bk = kept.filter(within);
            assert(bm.subset_of(bk)) by {
                assert(forall|v: i64| #[trigger] bm.count(v) <= bk.count(v));
            }
            lemma_multiset_filter_split(m, within);
            assert(m.filter(|v: i64| !within(v)).count(x) == m.count(x));
            assert(m.filter(|v: i64| !within(v)).len() >= m.count(x));
            assert(bm.len() <= m.len() - m.count(x));
            assert(bm.len() < bk.len());
            lemma_multiset_strict_superset(bm, bk);
            let y = choose|y: i64| bk.count(y) > #[trigger] bm.count(y);
            assert(within(y));
            assert(m.count(y) == bm.count(y));
            assert(kept.count(y) > m.count(y));
            assert(kept.sub(m).count(y) > 0);
            // a k-extreme choice ranks x no worse than y, yet y lies
            // within the threshold and x does not
            if asc {
                assert(x <= y);
            } else {
                assert(x >= y);
            }
            assert(false);
        }
    }

    // m is drawn from all values
    assert(m.subset_of(all)) by {
        assert(forall|v: i64| #[trigger] m.count(v) <= kept.count(v));
        assert(forall|v: i64| #[trigger] kept.count(v) <= all.count(v));
    }

    // nothing left outside m ranks ahead of anything in m
    assert forall|x: i64, y: i64| m.count(x) > 0 && all.sub(m).count(y) > 0 implies (if asc {
        x <= y
    } else {
        x >= y
    }) by {
        assert(all.count(y) > m.count(y));
        if kept.count(y) > m.count(y) {
            assert(kept.sub(m).count(y) > 0);
        } else {
            assert(dropped.count(y) > 0);
            assert(!within(y));
            assert(within(x));
        }
    }
}

/// When every candidate bound fails to reach `k` rows, no threshold
/// exists.
proof fn lemma_no_threshold(
    pv: Seq<(BlockMetaIndex, BlockMetaView)>,
    col: usize,
    asc: bool,
    k: u64,
    sorted: Seq<i64>,
    bounds: Seq<i64>,
)
    requires
        bounds.len() == pv.len(),
        sorted.len() == bounds.len(),
        forall|q: int| 0 <= q < pv.len() ==> bounds[q] == spec_worst_bound(#[trigger] pv[q].1, col, asc),
        sorted.to_multiset() == bounds.to_multiset(),
        forall|p: int| 0 <= p < sorted.len() ==> spec_rows_within(pv, col, asc, #[trigger] sorted[p]) < k,
    ensures
        !spec_has_threshold(pv, col, asc, k),
{
    broadcast use vstd::seq_lib::group_to_multiset_ensures;

    if spec_has_threshold(pv, col, asc, k) {
        let t = choose|t: i64| spec_is_threshold(pv, col, asc, k, t);
        let i = choose|i: int| 0 <= i < pv.len() && spec_worst_bound(pv[i].1, col, asc) == t;
        assert(bounds[i] == t);
        assert(bounds.contains(t));
        assert(bounds.to_multiset().count(t) > 0);
        assert(sorted.to_multiset().count(t) > 0);
        assert(sorted.contains(t));
        let p = choose|p: int| 0 <= p < sorted.len() && sorted[p] == t;
        assert(spec_rows_within(pv, col, asc, t) < k);
        assert(false);
    }
}

} // verus!
