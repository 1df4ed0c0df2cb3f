//! The pruning pipeline over segment and block metadata, as one
//! deterministic specification: internal-column and range pruning at the
//! segment level, then range, bloom, and page pruning per block in that
//! cheap-to-expensive order, then limit pruning across the surviving
//! blocks. The executable orchestration in [`crate::fuse_pruner`] is
//! proved to return exactly what these functions describe.

use vstd::prelude::*;

use crate::meta::BlockMetaIndex;
use crate::meta::BlockMetaView;
use crate::meta::SegmentEntryView;
use crate::meta::SegmentInfoView;
use crate::push_down::FilterPredicate;
use crate::push_down::SegmentFilter;
use crate::pruner::BloomPruner;
use crate::pruner::PagePruner;
use crate::pruner::PruningContext;
use crate::pruner::spec_bloom_keep;
use crate::pruner::spec_internal_keep;
use crate::pruner::spec_page_keep;
use crate::pruner::spec_range_keep;

verus! {

/// The pruner family of one pruning call, detached from the context's
/// statistics counters: the pruned result is a function of these fields and
/// the input alone.
#[derive(Clone, Copy, PartialEq, Eq, Structural, Debug)]
pub struct PrunerSet {
    pub limit: Option<u64>,
    pub range: Option<FilterPredicate>,
    pub bloom: Option<BloomPruner>,
    pub page: Option<PagePruner>,
    pub internal: Option<SegmentFilter>,
}

impl PruningContext {
    /// The pruner family this context carries.
    pub open spec fn spec_pruners(self) -> PrunerSet {
        PrunerSet {
            limit: self.limit_pruner,
            range: self.range_pruner,
            bloom: self.bloom_pruner,
            page: self.page_pruner,
            internal: self.internal_column_pruner,
        }
    }

    /// Executable form of [`Self::spec_pruners`].
    pub fn pruners(&self) -> (r: PrunerSet)
        ensures
            r == self.spec_pruners(),
    {
        PrunerSet {
            limit: self.limit_pruner,
            range: self.range_pruner,
            bloom: self.bloom_pruner,
            page: self.page_pruner,
            internal: self.internal_column_pruner,
        }
    }
}

/// A segment's blocks paired with their offsets, in segment order.
pub open spec fn spec_enumerate(blocks: Seq<BlockMetaView>) -> Seq<(usize, BlockMetaView)> {
    Seq::new(blocks.len(), |i: int| (i as usize, blocks[i]))
}

/// The per-block test of the range stage.
pub open spec fn spec_range_pred(f: Option<FilterPredicate>) -> spec_fn((usize, BlockMetaView)) -> bool {
    |p: (usize, BlockMetaView)| spec_range_keep(f, p.1.col_stats)
}

/// The per-block test of the bloom stage.
pub open spec fn spec_bloom_pred(b: Option<BloomPruner>) -> spec_fn((usize, BlockMetaView)) -> bool {
    |p: (usize, BlockMetaView)| spec_bloom_keep(b, p.1)
}

/// The per-block test of the page stage.
pub open spec fn spec_page_pred(pp: Option<PagePruner>) -> spec_fn((usize, BlockMetaView)) -> bool {
    |p: (usize, BlockMetaView)| spec_page_keep(pp, p.1)
}

/// Blocks surviving the range stage.
pub open spec fn spec_after_range(
    f: Option<FilterPredicate>,
    cands: Seq<(usize, BlockMetaView)>,
) -> Seq<(usize, BlockMetaView)> {
    cands.filter(spec_range_pred(f))
}

/// Blocks surviving the bloom stage.
pub open spec fn spec_after_bloom(
    b: Option<BloomPruner>,
    cands: Seq<(usize, BlockMetaView)>,
) -> Seq<(usize, BlockMetaView)> {
    cands.filter(spec_bloom_pred(b))
}

/// Blocks surviving the page stage.
pub open spec fn spec_after_page(
    pp: Option<PagePruner>,
    cands: Seq<(usize, BlockMetaView)>,
) -> Seq<(usize, BlockMetaView)> {
    cands.filter(spec_page_pred(pp))
}

/// All blocks of one segment that survive the three per-block stages,
/// applied in the fixed range, bloom, page order.
pub open spec fn spec_segment_survivors(
    ps: PrunerSet,
    si: SegmentInfoView,
) -> Seq<(usize, BlockMetaView)> {
    spec_after_page(ps.page, spec_after_bloom(ps.bloom, spec_after_range(ps.range, spec_enumerate(si.blocks))))
}

/// Tags each surviving block of a segment with its global position.
pub open spec fn spec_attach(
    seg_idx: usize,
    s: Seq<(usize, BlockMetaView)>,
) -> Seq<(BlockMetaIndex, BlockMetaView)> {
    s.map_values(
        |p: (usize, BlockMetaView)|
            (BlockMetaIndex { segment_idx: seg_idx, block_idx: p.0 }, p.1),
    )
}

/// Whether a segment reaches block pruning: it passes the internal-column
/// pruner on its name and the range pruner on its segment-level statistics.
pub open spec fn spec_segment_passes(ps: PrunerSet, e: SegmentEntryView) -> bool {
    &&& spec_internal_keep(ps.internal, e.location)
    &&& match e.info {
        Some(si) => spec_range_keep(ps.range, si.col_stats),
        None => false,
    }
}

/// The blocks one segment contributes before limit pruning. A segment
/// dropped by the internal-column pruner or by segment-level range pruning
/// contributes nothing.
pub open spec fn spec_segment_out(
    ps: PrunerSet,
    e: SegmentEntryView,
) -> Seq<(BlockMetaIndex, BlockMetaView)> {
    if spec_segment_passes(ps, e) {
        spec_attach(e.location.segment_idx, spec_segment_survivors(ps, e.info.unwrap()))
    } else {
        Seq::empty()
    }
}

/// The concatenated block candidates of a segment list, before limit
/// pruning, in input order.
pub open spec fn spec_candidates(
    ps: PrunerSet,
    entries: Seq<SegmentEntryView>,
) -> Seq<(BlockMetaIndex, BlockMetaView)>
    decreases entries.len(),
{
    if entries.len() == 0 {
        Seq::empty()
    } else {
        spec_segment_out(ps, entries.first()) + spec_candidates(ps, entries.drop_first())
    }
}

/// The row accumulator after one block is accepted, capped at the limit:
/// only the comparison against the limit is ever read, so the cap loses
/// nothing and keeps the accumulator within `u64`.
pub open spec fn spec_limit_step(acc: u64, l: u64, rows: u64) -> u64 {
    if acc + rows >= l {
        l
    } else {
        (acc + rows) as u64
    }
}

/// Limit pruning over already-filtered candidates: blocks are accepted in
/// order while the accumulated accepted row count is still below the limit;
/// once it reaches the limit, everything later is dropped. Without a limit
/// everything passes.
pub open spec fn spec_limit_stage(
    cands: Seq<(BlockMetaIndex, BlockMetaView)>,
    limit: Option<u64>,
    acc: u64,
) -> Seq<(BlockMetaIndex, BlockMetaView)>
    decreases cands.len(),
{
    if cands.len() == 0 {
        Seq::empty()
    } else {
        match limit {
            None => cands,
            Some(l) => {
                if acc < l {
                    seq![cands.first()] + spec_limit_stage(
                        cands.drop_first(),
                        limit,
                        spec_limit_step(acc, l, cands.first().1.row_count),
                    )
                } else {
                    Seq::empty()
                }
            },
        }
    }
}

/// The accumulator value after limit pruning ran over `cands`.
pub open spec fn spec_limit_acc(
    cands: Seq<(BlockMetaIndex, BlockMetaView)>,
    limit: Option<u64>,
    acc: u64,
) -> u64
    decreases cands.len(),
{
    if cands.len() == 0 {
        acc
    } else {
        match limit {
            None => acc,
            Some(l) => {
                if acc < l {
                    spec_limit_acc(
                        cands.drop_first(),
                        limit,
                        spec_limit_step(acc, l, cands.first().1.row_count),
                    )
                } else {
                    acc
                }
            },
        }
    }
}

/// The full pruning pipeline short of top-N reduction: what a pruning call
/// returns for a segment list whose metadata all fetched.
pub open spec fn spec_prune(
    ps: PrunerSet,
    entries: Seq<SegmentEntryView>,
) -> Seq<(BlockMetaIndex, BlockMetaView)> {
    spec_limit_stage(spec_candidates(ps, entries), ps.limit, 0)
}

/// The first segment, in input order, that passes the internal-column
/// pruner but whose metadata is missing: the failure that aborts the
/// pruning call.
pub open spec fn spec_first_missing(ps: PrunerSet, entries: Seq<SegmentEntryView>) -> Option<int>
    decreases entries.len(),
{
    if entries.len() == 0 {
        None
    } else if spec_internal_keep(ps.internal, entries.first().location)
        && entries.first().info is None {
        Some(0)
    } else {
        match spec_first_missing(ps, entries.drop_first()) {
            Some(i) => Some(i + 1),
            None => None,
        }
    }
}

/// Saturating addition of counters.
pub open spec fn spec_sat_add(a: u64, b: u64) -> u64 {
    if a + b > u64::MAX {
        u64::MAX
    } else {
        (a + b) as u64
    }
}

/// How many segments entered segment-level range pruning: those the
/// internal-column pruner kept.
pub open spec fn spec_count_segs_before(ps: PrunerSet, entries: Seq<SegmentEntryView>) -> u64
    decreases entries.len(),
{
    if entries.len() == 0 {
        0
    } else {
        let rest = spec_count_segs_before(ps, entries.drop_first());
        if spec_internal_keep(ps.internal, entries.first().location) {
            spec_sat_add(1, rest)
        } else {
            rest
        }
    }
}

/// How many segments survived segment-level range pruning.
pub open spec fn spec_count_segs_after(ps: PrunerSet, entries: Seq<SegmentEntryView>) -> u64
    decreases entries.len(),
{
    if entries.len() == 0 {
        0
    } else {
        let rest = spec_count_segs_after(ps, entries.drop_first());
        if spec_segment_passes(ps, entries.first()) {
            spec_sat_add(1, rest)
        } else {
            rest
        }
    }
}

/// How many blocks entered block-level range pruning: every block of every
/// surviving segment.
pub open spec fn spec_count_blocks_range_before(
    ps: PrunerSet,
    entries: Seq<SegmentEntryView>,
) -> u64
    decreases entries.len(),
{
    if entries.len() == 0 {
        0
    } else {
        let rest = spec_count_blocks_range_before(ps, entries.drop_first());
        if spec_segment_passes(ps, entries.first()) {
            spec_sat_add(entries.first().info.unwrap().blocks.len() as u64, rest)
        } else {
            rest
        }
    }
}

/// How many blocks survived block-level range pruning.
pub open spec fn spec_count_blocks_range_after(
    ps: PrunerSet,
    entries: Seq<SegmentEntryView>,
) -> u64
    decreases entries.len(),
{
    if entries.len() == 0 {
        0
    } else {
        let rest = spec_count_blocks_range_after(ps, entries.drop_first());
        if spec_segment_passes(ps, entries.first()) {
            spec_sat_add(
                spec_after_range(
                    ps.range,
                    spec_enumerate(entries.first().info.unwrap().blocks),
                ).len() as u64,
                rest,
            )
        } else {
            rest
        }
    }
}

/// How many blocks survived bloom pruning. Bloom counters move only when a
/// bloom pruner exists; its before-count then equals the range stage's
/// after-count.
pub open spec fn spec_count_blocks_bloom_after(
    ps: PrunerSet,
    entries: Seq<SegmentEntryView>,
) -> u64
    decreases entries.len(),
{
    if entries.len() == 0 {
        0
    } else {
        let rest = spec_count_blocks_bloom_after(ps, entries.drop_first());
        if spec_segment_passes(ps, entries.first()) {
            spec_sat_add(
                spec_after_bloom(
                    ps.bloom,
                    spec_after_range(
                        ps.range,
                        spec_enumerate(entries.first().info.unwrap().blocks),
                    ),
                ).len() as u64,
                rest,
            )
        } else {
            rest
        }
    }
}

/// Appending one segment extends the candidate list by exactly that
/// segment's contribution.
pub proof fn lemma_candidates_snoc(ps: PrunerSet, entries: Seq<SegmentEntryView>, e: SegmentEntryView)
    ensures
        spec_candidates(ps, entries.push(e))
            == spec_candidates(ps, entries) + spec_segment_out(ps, e),
    decreases entries.len(),
{
    if entries.len() == 0 {
        let single = entries.push(e);
        assert(single.len() == 1);
        assert(single.first() == e);
        assert(single.drop_first() =~= Seq::<SegmentEntryView>::empty());
        assert(spec_candidates(ps, single)
            == spec_segment_out(ps, single.first()) + spec_candidates(ps, single.drop_first()));
        assert(spec_candidates(ps, single.drop_first()).len() == 0);
        assert(spec_candidates(ps, single) =~= spec_segment_out(ps, e));
        assert(spec_candidates(ps, entries).len() == 0);
        assert(spec_candidates(ps, entries) + spec_segment_out(ps, e) =~= spec_segment_out(ps, e));
    } else {
        assert(entries.push(e).first() == entries.first());
        assert(entries.push(e).drop_first() =~= entries.drop_first().push(e));
        lemma_candidates_snoc(ps, entries.drop_first(), e);
        assert(spec_candidates(ps, entries.push(e))
            == spec_segment_out(ps, entries.first())
                + (spec_candidates(ps, entries.drop_first()) + spec_segment_out(ps, e)));
        assert(spec_segment_out(ps, entries.first())
            + (spec_candidates(ps, entries.drop_first()) + spec_segment_out(ps, e))
            =~= (spec_segment_out(ps, entries.first()) + spec_candidates(ps, entries.drop_first()))
                + spec_segment_out(ps, e));
    }
}

/// Appending one segment advances every stage counter by exactly that
/// segment's contribution.
pub proof fn lemma_counts_snoc(ps: PrunerSet, entries: Seq<SegmentEntryView>, e: SegmentEntryView)
    ensures
        spec_count_segs_before(ps, entries.push(e)) == if spec_internal_keep(ps.internal, e.location) {
            spec_sat_add(spec_count_segs_before(ps, entries), 1)
        } else {
            spec_count_segs_before(ps, entries)
        },
        spec_count_segs_after(ps, entries.push(e)) == if spec_segment_passes(ps, e) {
            spec_sat_add(spec_count_segs_after(ps, entries), 1)
        } else {
            spec_count_segs_after(ps, entries)
        },
        spec_count_blocks_range_before(ps, entries.push(e)) == if spec_segment_passes(ps, e) {
            spec_sat_add(
                spec_count_blocks_range_before(ps, entries),
                e.info.unwrap().blocks.len() as u64,
            )
        } else {
            spec_count_blocks_range_before(ps, entries)
        },
        spec_count_blocks_range_after(ps, entries.push(e)) == if spec_segment_passes(ps, e) {
            spec_sat_add(
                spec_count_blocks_range_after(ps, entries),
                spec_after_range(ps.range, spec_enumerate(e.info.unwrap().blocks)).len() as u64,
            )
        } else {
            spec_count_blocks_range_after(ps, entries)
        },
        spec_count_blocks_bloom_after(ps, entries.push(e)) == if spec_segment_passes(ps, e) {
            spec_sat_add(
                spec_count_blocks_bloom_after(ps, entries),
                spec_after_bloom(
                    ps.bloom,
                    spec_after_range(ps.range, spec_enumerate(e.info.unwrap().blocks)),
                ).len() as u64,
            )
        } else {
            spec_count_blocks_bloom_after(ps, entries)
        },
    decreases entries.len(),
{
    if entries.len() == 0 {
        let single = entries.push(e);
        assert(single.first() == e);
        assert(single.drop_first() =~= Seq::<SegmentEntryView>::empty());
        assert(spec_count_segs_before(ps, single.drop_first()) == 0);
        assert(spec_count_segs_after(ps, single.drop_first()) == 0);
        assert(spec_count_blocks_range_before(ps, single.drop_first()) == 0);
        assert(spec_count_blocks_range_after(ps, single.drop_first()) == 0);
        assert(spec_count_blocks_bloom_after(ps, single.drop_first()) == 0);
        assert(spec_count_segs_before(ps, entries) == 0);
        assert(spec_count_segs_after(ps, entries) == 0);
        assert(spec_count_blocks_range_before(ps, entries) == 0);
        assert(spec_count_blocks_range_after(ps, entries) == 0);
        assert(spec_count_blocks_bloom_after(ps, entries) == 0);
    } else {
        assert(entries.push(e).first() == entries.first());
        assert(entries.push(e).drop_first() =~= entries.drop_first().push(e));
        lemma_counts_snoc(ps, entries.drop_first(), e);
    }
}

/// Appending one segment whose metadata is present, or one the internal
/// pruner drops, keeps a clean list clean; appending a kept segment with
/// missing metadata makes it the first failure.
pub proof fn lemma_first_missing_snoc(
    ps: PrunerSet,
    entries: Seq<SegmentEntryView>,
    e: SegmentEntryView,
)
    requires
        spec_first_missing(ps, entries) is None,
    ensures
        spec_first_missing(ps, entries.push(e))
            == if spec_internal_keep(ps.internal, e.location) && e.info is None {
            Some(entries.len() as int)
        } else {
            None
        },
    decreases entries.len(),
{
    if entries.len() == 0 {
        let single = entries.push(e);
        assert(single.first() == e);
        assert(single.drop_first() =~= Seq::<SegmentEntryView>::empty());
        assert(spec_first_missing(ps, single.drop_first()) is None);
    } else {
        assert(entries.push(e).first() == entries.first());
        assert(entries.push(e).drop_first() =~= entries.drop_first().push(e));
        lemma_first_missing_snoc(ps, entries.drop_first(), e);
    }
}

/// Appending one block to the limit stage's input accepts it exactly when
/// the accumulated row count is still below the limit (always, without
/// one), and advances the accumulator accordingly.
pub proof fn lemma_limit_snoc(
    cands: Seq<(BlockMetaIndex, BlockMetaView)>,
    limit: Option<u64>,
    acc: u64,
    x: (BlockMetaIndex, BlockMetaView),
)
    ensures
        spec_limit_stage(cands.push(x), limit, acc) == match limit {
            None => spec_limit_stage(cands, limit, acc).push(x),
            Some(l) => {
                if spec_limit_acc(cands, limit, acc) < l {
                    spec_limit_stage(cands, limit, acc).push(x)
                } else {
                    spec_limit_stage(cands, limit, acc)
                }
            },
        },
        spec_limit_acc(cands.push(x), limit, acc) == match limit {
            None => acc,
            Some(l) => {
                if spec_limit_acc(cands, limit, acc) < l {
                    spec_limit_step(spec_limit_acc(cands, limit, acc), l, x.1.row_count)
                } else {
                    spec_limit_acc(cands, limit, acc)
                }
            },
        },
    decreases cands.len(),
{
    if cands.len() == 0 {
        let single = cands.push(x);
        assert(single.first() == x);
        assert(single.drop_first() =~= Seq::<(BlockMetaIndex, BlockMetaView)>::empty());
        match limit {
            None => {
                assert(spec_limit_stage(single, limit, acc) =~= single);
                assert(spec_limit_stage(cands, limit, acc).len() == 0);
                assert(spec_limit_acc(single, limit, acc) == acc);
                assert(spec_limit_acc(cands, limit, acc) == acc);
                assert(single =~= spec_limit_stage(cands, limit, acc).push(x));
            },
            Some(l) => {
                assert(spec_limit_stage(cands, limit, acc).len() == 0);
                assert(spec_limit_acc(cands, limit, acc) == acc);
                if acc < l {
                    let a2 = spec_limit_step(acc, l, x.1.row_count);
                    assert(spec_limit_stage(single.drop_first(), limit, a2).len() == 0);
                    assert(spec_limit_acc(single.drop_first(), limit, a2) == a2);
                    assert(spec_limit_stage(single, limit, acc)
                        == seq![x] + spec_limit_stage(single.drop_first(), limit, a2));
                    assert(spec_limit_stage(single, limit, acc)
                        =~= spec_limit_stage(cands, limit, acc).push(x));
                    assert(spec_limit_acc(single, limit, acc) == a2);
                } else {
                    assert(spec_limit_stage(single, limit, acc).len() == 0);
                    assert(spec_limit_acc(single, limit, acc) == acc);
                }
            },
        }
    } else {
        assert(cands.push(x).first() == cands.first());
        assert(cands.push(x).drop_first() =~= cands.drop_first().push(x));
        match limit {
            None => {
                lemma_limit_snoc(cands.drop_first(), limit, acc, x);
                assert(spec_limit_stage(cands.push(x), limit, acc) =~= cands.push(x));
                assert(spec_limit_stage(cands, limit, acc) =~= cands);
            },
            Some(l) => {
                if acc < l {
                    let acc2 = spec_limit_step(acc, l, cands.first().1.row_count);
                    lemma_limit_snoc(cands.drop_first(), limit, acc2, x);
                    if spec_limit_acc(cands, limit, acc) < l {
                        assert(spec_limit_stage(cands.push(x), limit, acc)
                            =~= seq![cands.first()]
                                + spec_limit_stage(cands.drop_first(), limit, acc2).push(x));
                        assert(seq![cands.first()]
                            + spec_limit_stage(cands.drop_first(), limit, acc2).push(x)
                            =~= (seq![cands.first()]
                                + spec_limit_stage(cands.drop_first(), limit, acc2)).push(x));
                    }
                }
            },
        }
    }
}

/// Every block the limit stage accepts was among its candidates.
pub proof fn lemma_limit_stage_subset(
    cands: Seq<(BlockMetaIndex, BlockMetaView)>,
    limit: Option<u64>,
    acc: u64,
)
    ensures
        forall|x: (BlockMetaIndex, BlockMetaView)|
            spec_limit_stage(cands, limit, acc).contains(x) ==> cands.contains(x),
    decreases cands.len(),
{
    if cands.len() > 0 {
        match limit {
            None => {},
            Some(l) => {
                if acc < l {
                    let acc2 = spec_limit_step(acc, l, cands.first().1.row_count);
                    lemma_limit_stage_subset(cands.drop_first(), limit, acc2);
                    assert forall|x: (BlockMetaIndex, BlockMetaView)|
                        spec_limit_stage(cands, limit, acc).contains(x) implies cands.contains(
                        x,
                    ) by {
                        let s = spec_limit_stage(cands, limit, acc);
                        let i = choose|i: int| 0 <= i < s.len() && s[i] == x;
                        if i == 0 {
                            assert(cands[0] == x);
                        } else {
                            assert(spec_limit_stage(cands.drop_first(), limit, acc2)[i - 1] == x);
                            assert(cands.drop_first().contains(x));
                            let j = choose|j: int|
                                0 <= j < cands.drop_first().len() && cands.drop_first()[j] == x;
                            assert(cands[j + 1] == x);
                        }
                    }
                }
            },
        }
    }
}

/// The per-segment test of the internal-column stage.
pub open spec fn spec_internal_pred(ps: PrunerSet) -> spec_fn(SegmentEntryView) -> bool {
    |e: SegmentEntryView| spec_internal_keep(ps.internal, e.location)
}

/// The per-segment test of reaching block pruning: internal-column and
/// segment-level range pruning together.
pub open spec fn spec_segment_pass_pred(ps: PrunerSet) -> spec_fn(SegmentEntryView) -> bool {
    |e: SegmentEntryView| spec_segment_passes(ps, e)
}

/// Monotonic narrowing of the pruning pipeline: the surviving set after
/// each stage is a subset of the set before it — segments through the
/// internal-column and segment-range stages, blocks through the range,
/// bloom, page, and limit stages.
pub proof fn lemma_monotonic_narrowing(
    ps: PrunerSet,
    entries: Seq<SegmentEntryView>,
    cands: Seq<(usize, BlockMetaView)>,
    limited: Seq<(BlockMetaIndex, BlockMetaView)>,
    limit: Option<u64>,
    acc: u64,
)
    ensures
        forall|e: SegmentEntryView|
            entries.filter(spec_internal_pred(ps)).contains(e) ==> entries.contains(e),
        forall|e: SegmentEntryView|
            entries.filter(spec_segment_pass_pred(ps)).contains(e) ==> entries.filter(
                spec_internal_pred(ps),
            ).contains(e),
        forall|x: (usize, BlockMetaView)|
            spec_after_range(ps.range, cands).contains(x) ==> cands.contains(x),
        forall|x: (usize, BlockMetaView)|
            spec_after_bloom(ps.bloom, spec_after_range(ps.range, cands)).contains(x)
                ==> spec_after_range(ps.range, cands).contains(x),
        forall|x: (usize, BlockMetaView)|
            spec_after_page(
                ps.page,
                spec_after_bloom(ps.bloom, spec_after_range(ps.range, cands)),
            ).contains(x) ==> spec_after_bloom(
                ps.bloom,
                spec_after_range(ps.range, cands),
            ).contains(x),
        forall|x: (BlockMetaIndex, BlockMetaView)|
            spec_limit_stage(limited, limit, acc).contains(x) ==> limited.contains(x),
{
    broadcast use Seq::lemma_filter_contains_rev;
    broadcast use Seq::lemma_filter_pred;
    broadcast use Seq::lemma_filter_contains;

    lemma_limit_stage_subset(limited, limit, acc);
    assert forall|e: SegmentEntryView|
        entries.filter(spec_segment_pass_pred(ps)).contains(e) implies entries.filter(
        spec_internal_pred(ps),
    ).contains(e) by {
        let passed = entries.filter(spec_segment_pass_pred(ps));
        let i = choose|i: int| 0 <= i < passed.len() && passed[i] == e;
        assert(spec_segment_pass_pred(ps)(e));
        assert(spec_internal_pred(ps)(e));
        assert(entries.contains(e));
        let j = choose|j: int| 0 <= j < entries.len() && entries[j] == e;
        assert(entries.filter(spec_internal_pred(ps)).contains(entries[j]));
    }
}

} // verus!
