//! Orchestration of one pruning call: derive the pruning context, split the
//! segment list into balanced batches (one per concurrent task), run the
//! segment-level and block-level stages over every batch, fail fast on the
//! first missing segment metadata, and finish with the top-N reduction.
//!
//! Batch tasks share nothing mutable but the statistics counters, so the
//! surviving set equals the batches' outputs concatenated in input order;
//! the contracts here state that result exactly, through the functions of
//! [`crate::block_prune`] and [`crate::topn`].

use vstd::prelude::*;

use crate::block_prune::PrunerSet;
use crate::block_prune::lemma_candidates_snoc;
use crate::block_prune::lemma_counts_snoc;
use crate::block_prune::lemma_first_missing_snoc;
use crate::block_prune::lemma_limit_snoc;
use crate::block_prune::spec_after_bloom;
use crate::block_prune::spec_after_page;
use crate::block_prune::spec_after_range;
use crate::block_prune::spec_attach;
use crate::block_prune::spec_bloom_pred;
use crate::block_prune::spec_candidates;
use crate::block_prune::spec_count_blocks_bloom_after;
use crate::block_prune::spec_count_blocks_range_after;
use crate::block_prune::spec_count_blocks_range_before;
use crate::block_prune::spec_count_segs_after;
use crate::block_prune::spec_count_segs_before;
use crate::block_prune::spec_enumerate;
use crate::block_prune::spec_first_missing;
use crate::block_prune::spec_limit_acc;
use crate::block_prune::spec_limit_stage;
use crate::block_prune::spec_limit_step;
use crate::block_prune::spec_page_pred;
use crate::block_prune::spec_prune;
use crate::block_prune::spec_range_pred;
use crate::block_prune::spec_sat_add;
use crate::block_prune::spec_segment_out;
use crate::block_prune::spec_segment_passes;
use crate::block_prune::spec_segment_survivors;
use crate::meta::BlockMeta;
use crate::meta::BlockMetaIndex;
use crate::meta::BlockMetaView;
use crate::meta::SegmentEntry;
use crate::meta::SegmentEntryView;
use crate::meta::SegmentLocation;
use crate::meta::TableSchema;
use crate::meta::spec_entries_view;
use crate::meta::spec_pairs_view;
use crate::push_down::PushDownInfo;
use crate::push_down::PushDownInfoView;
use crate::pruner::PruningContext;
use crate::pruner::PruningStatistics;
use crate::pruner::Settings;
use crate::pruner::bloom_keep;
use crate::pruner::internal_keep;
use crate::pruner::page_keep;
use crate::pruner::range_keep;
use crate::pruner::spec_internal_keep;
use crate::topn::TopNPrunner;
use crate::topn::spec_topn_result;

verus! {

/// Why a pruning call failed. Pruning is fail-fast: the first batch task
/// that cannot fetch its segment metadata aborts the whole call, and
/// partial results are discarded.
#[derive(Clone, Copy, PartialEq, Eq, Structural, Debug)]
pub enum PruneError {
    /// Storage failure while reading the metadata of the named segment.
    Storage { segment: SegmentLocation },
}

/// The view of an optional owned push-down.
pub open spec fn spec_pd_view(p: Option<PushDownInfo>) -> Option<PushDownInfoView> {
    match p {
        Some(pd) => Some(pd@),
        None => None,
    }
}

/// The concatenated views of a batch list, in batch order.
pub open spec fn spec_flatten_entries(bs: Seq<Vec<SegmentEntry>>) -> Seq<SegmentEntryView>
    decreases bs.len(),
{
    if bs.len() == 0 {
        Seq::empty()
    } else {
        spec_entries_view(bs.first()@) + spec_flatten_entries(bs.drop_first())
    }
}

/// How many batches a segment list yields: every batch is non-empty, so
/// fewer segments than the concurrency budget yield one batch each.
pub open spec fn spec_batch_count(n: int, c: int) -> int {
    if n == 0 {
        0
    } else if n < c {
        n
    } else {
        c
    }
}

/// Appending one batch appends its entries to the flattened whole.
proof fn lemma_flatten_entries_snoc(bs: Seq<Vec<SegmentEntry>>, b: Vec<SegmentEntry>)
    ensures
        spec_flatten_entries(bs.push(b)) == spec_flatten_entries(bs) + spec_entries_view(b@),
    decreases bs.len(),
{
    if bs.len() == 0 {
        let single = bs.push(b);
        assert(single.first() == b);
        assert(single.drop_first() =~= Seq::<Vec<SegmentEntry>>::empty());
        assert(spec_flatten_entries(single.drop_first()).len() == 0);
        assert(spec_flatten_entries(single) =~= spec_entries_view(b@));
        assert(spec_flatten_entries(bs).len() == 0);
        assert(spec_flatten_entries(bs) + spec_entries_view(b@) =~= spec_entries_view(b@));
    } else {
        assert(bs.push(b).first() == bs.first());
        assert(bs.push(b).drop_first() =~= bs.drop_first().push(b));
        lemma_flatten_entries_snoc(bs.drop_first(), b);
        assert(spec_entries_view(bs.first()@)
            + (spec_flatten_entries(bs.drop_first()) + spec_entries_view(b@))
            =~= (spec_entries_view(bs.first()@) + spec_flatten_entries(bs.drop_first()))
                + spec_entries_view(b@));
    }
}

/// A batch list flattens as the part before one batch, that batch, and the
/// part after it.
proof fn lemma_flatten_entries_split(bs: Seq<Vec<SegmentEntry>>, i: int)
    requires
        0 <= i < bs.len(),
    ensures
        spec_flatten_entries(bs) == spec_flatten_entries(bs.take(i)) + spec_entries_view(bs[i]@)
            + spec_flatten_entries(bs.skip(i + 1)),
    decreases i,
{
    if i == 0 {
        assert(bs.take(0) =~= Seq::<Vec<SegmentEntry>>::empty());
        assert(spec_flatten_entries(bs.take(0)).len() == 0);
        assert(bs.skip(1) =~= bs.drop_first());
        assert(spec_flatten_entries(bs)
            == spec_entries_view(bs.first()@) + spec_flatten_entries(bs.drop_first()));
        assert(spec_flatten_entries(bs.take(0)) + spec_entries_view(bs[0]@)
            + spec_flatten_entries(bs.skip(1))
            =~= spec_entries_view(bs[0]@) + spec_flatten_entries(bs.drop_first()));
    } else {
        lemma_flatten_entries_split(bs.drop_first(), i - 1);
        assert(bs.take(i).first() == bs.first());
        assert(bs.take(i).drop_first() =~= bs.drop_first().take(i - 1));
        assert(spec_flatten_entries(bs.take(i))
            == spec_entries_view(bs.first()@)
                + spec_flatten_entries(bs.drop_first().take(i - 1)));
        assert(bs.drop_first()[i - 1] == bs[i]);
        assert(bs.drop_first().skip(i) =~= bs.skip(i + 1));
        assert(spec_flatten_entries(bs)
            == spec_entries_view(bs.first()@) + spec_flatten_entries(bs.drop_first()));
        assert(spec_entries_view(bs.first()@)
            + (spec_flatten_entries(bs.drop_first().take(i - 1)) + spec_entries_view(bs[i]@)
                + spec_flatten_entries(bs.skip(i + 1)))
            =~= (spec_entries_view(bs.first()@)
                + spec_flatten_entries(bs.drop_first().take(i - 1))) + spec_entries_view(bs[i]@)
                + spec_flatten_entries(bs.skip(i + 1)));
    }
}

/// A clean prefix followed by a kept segment with missing metadata puts the
/// first failure exactly at that segment, whatever follows it.
proof fn lemma_first_missing_concat(
    ps: PrunerSet,
    a: Seq<SegmentEntryView>,
    e: SegmentEntryView,
    rest: Seq<SegmentEntryView>,
)
    requires
        spec_first_missing(ps, a) is None,
        spec_internal_keep(ps.internal, e.location),
        e.info is None,
    ensures
        spec_first_missing(ps, a + seq![e] + rest) == Some(a.len() as int),
    decreases a.len(),
{
    let whole = a + seq![e] + rest;
    if a.len() == 0 {
        assert(whole.first() == e);
    } else {
        assert(whole.first() == a.first());
        assert(whole.drop_first() =~= a.drop_first() + seq![e] + rest);
        lemma_first_missing_concat(ps, a.drop_first(), e, rest);
    }
}

/// Splits a segment list into `concurrency` batches as evenly as possible:
/// sizes differ by at most one, every batch is non-empty, and the batches
/// concatenated in order are exactly the input. With fewer segments than
/// the budget, each segment forms its own batch.
pub fn make_batches(entries: &Vec<SegmentEntry>, concurrency: usize) -> (r: Vec<Vec<SegmentEntry>>)
    requires
        concurrency >= 1,
    ensures
        spec_flatten_entries(r@) == spec_entries_view(entries@),
        r@.len() == spec_batch_count(entries@.len() as int, concurrency as int),
        forall|i: int|
            0 <= i < r@.len() ==> #[trigger] r@[i]@.len() == (if i < entries@.len() as int
                % concurrency as int {
                entries@.len() as int / concurrency as int + 1
            } else {
                entries@.len() as int / concurrency as int
            }),
        forall|i: int| 0 <= i < r@.len() ==> #[trigger] r@[i]@.len() >= 1,
{
    let n = entries.len();
    let base = n / concurrency;
    let rem = n % concurrency;
    let total_batches = if n == 0 {
        0
    } else if n < concurrency {
        n
    } else {
        concurrency
    };
    proof {
        vstd::arithmetic::div_mod::lemma_fundamental_div_mod(n as int, concurrency as int);
    }

    let mut r: Vec<Vec<SegmentEntry>> = Vec::new();
    let mut pos: usize = 0;
    let mut b: usize = 0;
    proof {
        assert(spec_flatten_entries(r@).len() == 0);
        assert(spec_entries_view(entries@).take(0) =~= spec_flatten_entries(r@));
    }
    while b < total_batches
        invariant
            concurrency >= 1,
            n == entries@.len(),
            base == n as int / concurrency as int,
            rem == n as int % concurrency as int,
            n as int == base * concurrency + rem,
            0 <= rem < concurrency,
            total_batches == spec_batch_count(n as int, concurrency as int),
            total_batches <= concurrency,
            n < concurrency ==> total_batches == n,
            b <= total_batches,
            r@.len() == b,
            pos as int == base * b + (if b <= rem {
                b as int
            } else {
                rem as int
            }),
            pos <= n,
            spec_flatten_entries(r@) == spec_entries_view(entries@).take(pos as int),
            forall|i: int|
                0 <= i < r@.len() ==> #[trigger] r@[i]@.len() == (if i < rem as int {
                    base as int + 1
                } else {
                    base as int
                }),
            forall|i: int| 0 <= i < r@.len() ==> #[trigger] r@[i]@.len() >= 1,
        decreases total_batches - b,
    {
        let extra: usize = if b < rem {
            1
        } else {
            0
        };
        proof {
            if b < rem {
                // a non-zero remainder leaves room for one more element
                assert(base + 1 <= n) by (nonlinear_arith)
                    requires
                        n as int == base * concurrency + rem,
                        concurrency >= 1,
                        base >= 0,
                        rem >= 1,
                ;
            }
        }
        let size = base + extra;
        proof {
            // the next batch still fits in the input
            assert(base * (b + 1) == base * b + base) by (nonlinear_arith);
            if n >= concurrency {
                assert(base >= 1) by (nonlinear_arith)
                    requires
                        n as int >= concurrency as int,
                        n as int == base * concurrency + rem,
                        0 <= rem < concurrency,
                        base >= 0,
                ;
                assert(base * (b + 1) <= base * concurrency) by (nonlinear_arith)
                    requires
                        b + 1 <= concurrency,
                        base >= 0,
                ;
                assert(pos + size <= n);
                assert(size >= 1);
            } else {
                vstd::arithmetic::div_mod::lemma_basic_div(n as int, concurrency as int);
                assert(base == 0);
                assert(base * b == 0) by (nonlinear_arith)
                    requires
                        base == 0,
                ;
                assert(base * (b + 1) == 0) by (nonlinear_arith)
                    requires
                        base == 0,
                ;
                vstd::arithmetic::div_mod::lemma_small_mod(n as nat, concurrency as nat);
                assert(rem == n);
                assert(pos + size <= n);
                assert(size >= 1);
            }
        }
        let mut batch: Vec<SegmentEntry> = Vec::new();
        let mut t: usize = 0;
        while t < size
            invariant
                t <= size,
                n == entries@.len(),
                pos + size <= n,
                batch@.len() == t,
                forall|j: int|
                    0 <= j < t ==> (#[trigger] batch@[j])@ == entries@[pos as int + j]@,
            decreases size - t,
        {
            let item = entries[pos + t].duplicate();
            batch.push(item);
            t = t + 1;
        }
        proof {
            assert(spec_entries_view(batch@) =~= spec_entries_view(entries@).subrange(
                pos as int,
                pos as int + size as int,
            ));
            lemma_flatten_entries_snoc(r@, batch);
            assert(spec_entries_view(entries@).take(pos as int) + spec_entries_view(
                entries@,
            ).subrange(pos as int, pos as int + size as int) =~= spec_entries_view(
                entries@,
            ).take(pos as int + size as int));
        }
        r.push(batch);
        pos = pos + size;
        b = b + 1;
        proof {
            assert(base * b == base * (b - 1) + base) by (nonlinear_arith);
        }
    }
    proof {
        // after the last batch the whole input is covered
        if n == 0 {
            assert(pos == 0);
        } else if n < concurrency {
            vstd::arithmetic::div_mod::lemma_basic_div(n as int, concurrency as int);
            assert(base == 0);
            assert(base * total_batches == 0) by (nonlinear_arith)
                requires
                    base == 0,
            ;
            vstd::arithmetic::div_mod::lemma_small_mod(n as nat, concurrency as nat);
            assert(rem == n);
            assert(pos == n);
        } else {
            assert(total_batches == concurrency);
            assert(rem <= concurrency);
            assert(pos as int == base * concurrency + rem);
            assert(pos == n);
        }
        assert(spec_entries_view(entries@).take(n as int) =~= spec_entries_view(entries@));
    }
    r
}

/// What the batch tasks of one pruning call hand back once they have all
/// finished: the surviving pairs, concatenated in batch order, and the
/// per-stage counter deltas.
pub struct BatchOutcome {
    pub out: Vec<(BlockMetaIndex, BlockMeta)>,
    pub d_segs_before: u64,
    pub d_segs_after: u64,
    pub d_blocks_range_before: u64,
    pub d_blocks_range_after: u64,
    pub d_blocks_bloom_after: u64,
}

/// Runs the segment-level and block-level pruning stages over every batch,
/// in batch order, sharing the one row-limit budget, and fails fast on the
/// first segment whose metadata is missing.
fn prune_batches(ps: PrunerSet, batches: &Vec<Vec<SegmentEntry>>) -> (r: Result<
    BatchOutcome,
    PruneError,
>)
    ensures
        match r {
            Ok(o) => {
                let evs = spec_flatten_entries(batches@);
                &&& spec_first_missing(ps, evs) is None
                &&& spec_pairs_view(o.out@) == spec_limit_stage(
                    spec_candidates(ps, evs),
                    ps.limit,
                    0,
                )
                &&& o.d_segs_before == spec_count_segs_before(ps, evs)
                &&& o.d_segs_after == spec_count_segs_after(ps, evs)
                &&& o.d_blocks_range_before == spec_count_blocks_range_before(ps, evs)
                &&& o.d_blocks_range_after == spec_count_blocks_range_after(ps, evs)
                &&& o.d_blocks_bloom_after == spec_count_blocks_bloom_after(ps, evs)
            },
            Err(e) => {
                let evs = spec_flatten_entries(batches@);
                &&& spec_first_missing(ps, evs) is Some
                &&& e == (PruneError::Storage {
                    segment: evs[spec_first_missing(ps, evs).unwrap()].location,
                })
            },
        },
{
    let mut out: Vec<(BlockMetaIndex, BlockMeta)> = Vec::new();
    let mut acc: u64 = 0;
    let mut d_segs_before: u64 = 0;
    let mut d_segs_after: u64 = 0;
    let mut d_blocks_range_before: u64 = 0;
    let mut d_blocks_range_after: u64 = 0;
    let mut d_blocks_bloom_after: u64 = 0;

    let ghost mut done: Seq<SegmentEntryView> = Seq::empty();
    proof {
        assert(spec_flatten_entries(batches@.take(0)).len() == 0);
        assert(done =~= spec_flatten_entries(batches@.take(0)));
        assert(spec_candidates(ps, done).len() == 0);
        assert(spec_pairs_view(out@) =~= spec_limit_stage(spec_candidates(ps, done), ps.limit, 0));
    }
    let mut bi: usize = 0;
    while bi < batches.len()
        invariant
            bi <= batches.len(),
            done == spec_flatten_entries(batches@.take(bi as int)),
            spec_first_missing(ps, done) is None,
            spec_pairs_view(out@) == spec_limit_stage(spec_candidates(ps, done), ps.limit, 0),
            acc == spec_limit_acc(spec_candidates(ps, done), ps.limit, 0),
            d_segs_before == spec_count_segs_before(ps, done),
            d_segs_after == spec_count_segs_after(ps, done),
            d_blocks_range_before == spec_count_blocks_range_before(ps, done),
            d_blocks_range_after == spec_count_blocks_range_after(ps, done),
            d_blocks_bloom_after == spec_count_blocks_bloom_after(ps, done),
        decreases batches.len() - bi,
    {
        let batch = &batches[bi];
        let ghost done_outer = done;
        let ghost bviews = spec_entries_view(batch@);
        let mut ei: usize = 0;
        proof {
            assert(bviews.take(0) =~= Seq::<SegmentEntryView>::empty());
            assert(done + bviews.take(0) =~= done);
        }
        while ei < batch.len()
            invariant
                bi < batches@.len(),
                batch == &batches@[bi as int],
                bviews == spec_entries_view(batches@[bi as int]@),
                done_outer == spec_flatten_entries(batches@.take(bi as int)),
                ei <= batch@.len(),
                bviews.len() == batch@.len(),
                done == done_outer + bviews.take(ei as int),
                spec_first_missing(ps, done) is None,
                spec_pairs_view(out@) == spec_limit_stage(spec_candidates(ps, done), ps.limit, 0),
                acc == spec_limit_acc(spec_candidates(ps, done), ps.limit, 0),
                d_segs_before == spec_count_segs_before(ps, done),
                d_segs_after == spec_count_segs_after(ps, done),
                d_blocks_range_before == spec_count_blocks_range_before(ps, done),
                d_blocks_range_after == spec_count_blocks_range_after(ps, done),
                d_blocks_bloom_after == spec_count_blocks_bloom_after(ps, done),
            decreases batch@.len() - ei,
        {
            let e = &batch[ei];
            let ghost ev = e@;
            proof {
                assert(bviews[ei as int] == batch@[ei as int]@);
            }
            let keep_seg = internal_keep(ps.internal, e.location);
            if keep_seg {
                match &e.info {
                    None => {
                        proof {
                            // the whole input splits around this entry
                            lemma_flatten_entries_split(batches@, bi as int);
                            assert(bviews =~= bviews.take(ei as int) + seq![ev] + bviews.skip(
                                ei as int + 1,
                            ));
                            let rest = bviews.skip(ei as int + 1) + spec_flatten_entries(
                                batches@.skip(bi as int + 1),
                            );
                            assert(spec_flatten_entries(batches@) =~= done + seq![ev] + rest);
                            lemma_first_missing_concat(ps, done, ev, rest);
                            assert(spec_flatten_entries(batches@)[done.len() as int] == ev);
                        }
                        return Err(PruneError::Storage { segment: e.location });
                    },
                    Some(info) => {
                        d_segs_before = d_segs_before.saturating_add(1);
                        let seg_keep = range_keep(ps.range, &info.col_stats);
                        if seg_keep {
                            d_segs_after = d_segs_after.saturating_add(1);
                            d_blocks_range_before = d_blocks_range_before.saturating_add(
                                info.blocks.len() as u64,
                            );
                            let ghost bv = info@.blocks;
                            let ghost segidx = e.location.segment_idx;
                            let mut seg_range_after: u64 = 0;
                            let mut seg_bloom_after: u64 = 0;
                            let ghost mut sub: Seq<(usize, BlockMetaView)> = Seq::empty();
                            let mut j: usize = 0;
                            proof {
                                assert(spec_enumerate(bv.take(0))
                                    =~= Seq::<(usize, BlockMetaView)>::empty());
                                assert(spec_after_range(ps.range, spec_enumerate(bv.take(0)))
                                    =~= Seq::<(usize, BlockMetaView)>::empty());
                                assert(spec_after_bloom(
                                    ps.bloom,
                                    spec_after_range(ps.range, spec_enumerate(bv.take(0))),
                                ) =~= Seq::<(usize, BlockMetaView)>::empty());
                                assert(spec_after_page(
                                    ps.page,
                                    spec_after_bloom(
                                        ps.bloom,
                                        spec_after_range(ps.range, spec_enumerate(bv.take(0))),
                                    ),
                                ) =~= Seq::<(usize, BlockMetaView)>::empty());
                                assert(sub =~= spec_after_page(
                                    ps.page,
                                    spec_after_bloom(
                                        ps.bloom,
                                        spec_after_range(ps.range, spec_enumerate(bv.take(0))),
                                    ),
                                ));
                                assert(spec_attach(segidx, sub)
                                    =~= Seq::<(BlockMetaIndex, BlockMetaView)>::empty());
                                assert(spec_candidates(ps, done) + spec_attach(segidx, sub)
                                    =~= spec_candidates(ps, done));
                            }
                            while j < info.blocks.len()
                                invariant
                                    bv == info@.blocks,
                                    bv.len() == info.blocks@.len(),
                                    j <= info.blocks@.len(),
                                    segidx == e.location.segment_idx,
                                    seg_range_after as int == spec_after_range(
                                        ps.range,
                                        spec_enumerate(bv.take(j as int)),
                                    ).len(),
                                    seg_bloom_after as int == spec_after_bloom(
                                        ps.bloom,
                                        spec_after_range(
                                            ps.range,
                                            spec_enumerate(bv.take(j as int)),
                                        ),
                                    ).len(),
                                    sub == spec_after_page(
                                        ps.page,
                                        spec_after_bloom(
                                            ps.bloom,
                                            spec_after_range(
                                                ps.range,
                                                spec_enumerate(bv.take(j as int)),
                                            ),
                                        ),
                                    ),
                                    spec_pairs_view(out@) == spec_limit_stage(
                                        spec_candidates(ps, done) + spec_attach(segidx, sub),
                                        ps.limit,
                                        0,
                                    ),
                                    acc == spec_limit_acc(
                                        spec_candidates(ps, done) + spec_attach(segidx, sub),
                                        ps.limit,
                                        0,
                                    ),
                                decreases info.blocks@.len() - j,
                            {
                                let bm = &info.blocks[j];
                                let ghost enum_prev = spec_enumerate(bv.take(j as int));
                                let ghost enum_next = spec_enumerate(bv.take(j as int + 1));
                                let ghost p: (usize, BlockMetaView) = (j, bm@);
                                proof {
                                    assert(enum_next =~= enum_prev.push(p));
                                    enum_prev.lemma_filter_push(p, spec_range_pred(ps.range));
                                    enum_prev.lemma_filter_len(spec_range_pred(ps.range));
                                    spec_after_range(ps.range, enum_prev).lemma_filter_len(
                                        spec_bloom_pred(ps.bloom),
                                    );
                                }
                                let r_keep = range_keep(ps.range, &bm.col_stats);
                                proof {
                                    assert(spec_range_pred(ps.range)(p) == r_keep);
                                }
                                if r_keep {
                                    seg_range_after = seg_range_after + 1;
                                    proof {
                                        spec_after_range(ps.range, enum_prev).lemma_filter_push(
                                            p,
                                            spec_bloom_pred(ps.bloom),
                                        );
                                    }
                                    let b_keep = bloom_keep(ps.bloom, &bm.bloom);
                                    proof {
                                        assert(spec_bloom_pred(ps.bloom)(p) == b_keep);
                                    }
                                    if b_keep {
                                        seg_bloom_after = seg_bloom_after + 1;
                                        proof {
                                            spec_after_bloom(
                                                ps.bloom,
                                                spec_after_range(ps.range, enum_prev),
                                            ).lemma_filter_push(p, spec_page_pred(ps.page));
                                        }
                                        let p_keep = page_keep(ps.page, &bm.page_stats);
                                        proof {
                                            assert(spec_page_pred(ps.page)(p) == p_keep);
                                        }
                                        if p_keep {
                                            let ghost cand = (
                                                BlockMetaIndex {
                                                    segment_idx: segidx,
                                                    block_idx: j,
                                                },
                                                bm@,
                                            );
                                            let ghost base = spec_candidates(ps, done)
                                                + spec_attach(segidx, sub);
                                            proof {
                                                assert(spec_attach(segidx, sub.push(p))
                                                    =~= spec_attach(segidx, sub).push(cand));
                                                assert(base.push(cand) =~= spec_candidates(
                                                    ps,
                                                    done,
                                                ) + spec_attach(segidx, sub.push(p)));
                                                lemma_limit_snoc(base, ps.limit, 0, cand);
                                            }
                                            let keep_now: bool = match ps.limit {
                                                None => true,
                                                Some(l) => acc < l,
                                            };
                                            if keep_now {
                                                let idx = BlockMetaIndex {
                                                    segment_idx: e.location.segment_idx,
                                                    block_idx: j,
                                                };
                                                let dup = bm.duplicate();
                                                let ghost out_prev = spec_pairs_view(out@);
                                                out.push((idx, dup));
                                                proof {
                                                    assert(spec_pairs_view(out@) =~= out_prev.push(
                                                        cand,
                                                    ));
                                                }
                                                acc = match ps.limit {
                                                    None => acc,
                                                    Some(l) => {
                                                        if acc >= l {
                                                            l
                                                        } else {
                                                            let room = l - acc;
                                                            if bm.row_count >= room {
                                                                l
                                                            } else {
                                                                acc + bm.row_count
                                                            }
                                                        }
                                                    },
                                                };
                                                proof {
                                                    if ps.limit is Some {
                                                        let l = ps.limit.unwrap();
                                                        assert(acc == spec_limit_step(
                                                            spec_limit_acc(base, ps.limit, 0),
                                                            l,
                                                            cand.1.row_count,
                                                        ));
                                                    }
                                                }
                                            }
                                            proof {
                                                sub = sub.push(p);
                                            }
                                        }
                                    }
                                }
                                j = j + 1;
                            }
                            proof {
                                assert(bv.take(bv.len() as int) =~= bv);
                                assert(sub == spec_segment_survivors(ps, info@));
                                assert(ev.info == Some(info@));
                                assert(spec_segment_passes(ps, ev));
                                assert(spec_segment_out(ps, ev) == spec_attach(segidx, sub));
                                lemma_candidates_snoc(ps, done, ev);
                                lemma_counts_snoc(ps, done, ev);
                                lemma_first_missing_snoc(ps, done, ev);
                                done = done.push(ev);
                            }
                            d_blocks_range_after = d_blocks_range_after.saturating_add(
                                seg_range_after,
                            );
                            d_blocks_bloom_after = d_blocks_bloom_after.saturating_add(
                                seg_bloom_after,
                            );
                        } else {
                            proof {
                                assert(!spec_segment_passes(ps, ev));
                                assert(spec_segment_out(ps, ev)
                                    =~= Seq::<(BlockMetaIndex, BlockMetaView)>::empty());
                                lemma_candidates_snoc(ps, done, ev);
                                lemma_counts_snoc(ps, done, ev);
                                lemma_first_missing_snoc(ps, done, ev);
                                assert(spec_candidates(ps, done.push(ev)) =~= spec_candidates(
                                    ps,
                                    done,
                                ));
                                done = done.push(ev);
                            }
                        }
                    },
                }
            } else {
                proof {
                    assert(!spec_segment_passes(ps, ev));
                    assert(spec_segment_out(ps, ev)
                        =~= Seq::<(BlockMetaIndex, BlockMetaView)>::empty());
                    lemma_candidates_snoc(ps, done, ev);
                    lemma_counts_snoc(ps, done, ev);
                    lemma_first_missing_snoc(ps, done, ev);
                    assert(spec_candidates(ps, done.push(ev)) =~= spec_candidates(ps, done));
                    done = done.push(ev);
                }
            }
            ei = ei + 1;
            proof {
                assert(bviews.take(ei as int) =~= bviews.take(ei - 1).push(bviews[ei - 1]));
                assert(done =~= done_outer + bviews.take(ei as int));
            }
        }
        proof {
            assert(bviews.take(batch@.len() as int) =~= bviews);
            assert(batches@.take(bi as int + 1) =~= batches@.take(bi as int).push(
                batches@[bi as int],
            ));
            lemma_flatten_entries_snoc(batches@.take(bi as int), batches@[bi as int]);
            assert(done =~= spec_flatten_entries(batches@.take(bi as int + 1)));
        }
        bi = bi + 1;
    }
    proof {
        assert(batches@.take(batches@.len() as int) =~= batches@);
    }
    Ok(BatchOutcome {
        out,
        d_segs_before,
        d_segs_after,
        d_blocks_range_before,
        d_blocks_range_after,
        d_blocks_bloom_after,
    })
}

/// The statistics counters after one pruning call folded its deltas in:
/// every counter grows, saturating, by what its stage saw.
pub open spec fn spec_stats_after(
    s: PruningStatistics,
    ps: PrunerSet,
    entries: Seq<SegmentEntryView>,
) -> PruningStatistics {
    PruningStatistics {
        segments_range_pruning_before: spec_sat_add(
            s.segments_range_pruning_before,
            spec_count_segs_before(ps, entries),
        ),
        segments_range_pruning_after: spec_sat_add(
            s.segments_range_pruning_after,
            spec_count_segs_after(ps, entries),
        ),
        blocks_range_pruning_before: spec_sat_add(
            s.blocks_range_pruning_before,
            spec_count_blocks_range_before(ps, entries),
        ),
        blocks_range_pruning_after: spec_sat_add(
            s.blocks_range_pruning_after,
            spec_count_blocks_range_after(ps, entries),
        ),
        blocks_bloom_pruning_before: spec_sat_add(
            s.blocks_bloom_pruning_before,
            if ps.bloom is Some {
                spec_count_blocks_range_after(ps, entries)
            } else {
                0
            },
        ),
        blocks_bloom_pruning_after: spec_sat_add(
            s.blocks_bloom_pruning_after,
            if ps.bloom is Some {
                spec_count_blocks_bloom_after(ps, entries)
            } else {
                0
            },
        ),
    }
}

/// The same context with its statistics counters replaced.
pub open spec fn spec_with_stats(ctx: PruningContext, s: PruningStatistics) -> PruningContext {
    PruningContext {
        max_threads: ctx.max_threads,
        max_concurrency: ctx.max_concurrency,
        concurrency_floored: ctx.concurrency_floored,
        limit_pruner: ctx.limit_pruner,
        range_pruner: ctx.range_pruner,
        bloom_pruner: ctx.bloom_pruner,
        page_pruner: ctx.page_pruner,
        internal_column_pruner: ctx.internal_column_pruner,
        pruning_stats: s,
    }
}

/// The two-level pruner over a table's segment list: derives the pruning
/// context once per query and runs the segment, block, and top-N stages
/// with bounded parallelism.
pub struct FusePruner {
    pub max_concurrency: usize,
    pub table_schema: TableSchema,
    pub pruning_ctx: PruningContext,
    pub push_down: Option<PushDownInfo>,
}

impl FusePruner {
    /// The concurrency budget the pruner was built with.
    pub open spec fn spec_max_concurrency(self) -> usize {
        self.max_concurrency
    }

    /// Creates a pruner without native-format page pruning.
    pub fn create(
        settings: Settings,
        table_schema: TableSchema,
        push_down: Option<&PushDownInfo>,
    ) -> (r: FusePruner)
        ensures
            r.table_schema@ == table_schema@,
            spec_pd_view(r.push_down) == PruningContext::spec_push_down_view(push_down),
            r.spec_max_concurrency() == r.pruning_ctx.max_concurrency,
            r.pruning_ctx == PruningContext::spec_create(
                table_schema@,
                PruningContext::spec_push_down_view(push_down),
                None,
                settings,
            ),
    {
        Self::create_with_pages(settings, table_schema, push_down, None)
    }

    /// Creates a pruner; `cluster_key` names the cluster key column when
    /// the table uses the native format and page pruning applies.
    pub fn create_with_pages(
        settings: Settings,
        table_schema: TableSchema,
        push_down: Option<&PushDownInfo>,
        cluster_key: Option<usize>,
    ) -> (r: FusePruner)
        ensures
            r.table_schema@ == table_schema@,
            spec_pd_view(r.push_down) == PruningContext::spec_push_down_view(push_down),
            r.spec_max_concurrency() == r.pruning_ctx.max_concurrency,
            r.pruning_ctx == PruningContext::spec_create(
                table_schema@,
                PruningContext::spec_push_down_view(push_down),
                cluster_key,
                settings,
            ),
    {
        let ctx = PruningContext::create(&table_schema, push_down, cluster_key, settings);
        let pd = match push_down {
            Some(p) => Some(p.duplicate()),
            None => None,
        };
        FusePruner {
            max_concurrency: ctx.max_concurrency,
            table_schema,
            pruning_ctx: ctx,
            push_down: pd,
        }
    }

    /// Runs the pruning chain — segment pruner, block pruner, top-N pruner
    /// — over the given segment list.
    ///
    /// The list is split into balanced batches, one per concurrent task;
    /// each batch drops segments the internal-column pruner rejects, then
    /// segments whose coarse statistics cannot match, then blocks stage by
    /// stage in the range, bloom, page, limit order. The first segment
    /// whose metadata is missing aborts the call with a storage error and
    /// leaves the pruner untouched. On success the statistics counters
    /// have grown by what each stage saw.
    pub fn pruning(&mut self, segment_locs: Vec<SegmentEntry>) -> (r: Result<
        Vec<(BlockMetaIndex, BlockMeta)>,
        PruneError,
    >)
        requires
            old(self).spec_max_concurrency() >= 1,
        ensures
            final(self).table_schema == old(self).table_schema,
            final(self).push_down == old(self).push_down,
            final(self).spec_max_concurrency() == old(self).spec_max_concurrency(),
            match r {
                Ok(v) => {
                    let ps = old(self).pruning_ctx.spec_pruners();
                    let evs = spec_entries_view(segment_locs@);
                    &&& spec_first_missing(ps, evs) is None
                    &&& spec_pairs_view(v@) == spec_topn_result(
                        spec_pd_view(old(self).push_down),
                        spec_prune(ps, evs),
                    )
                    &&& final(self).pruning_ctx == spec_with_stats(
                        old(self).pruning_ctx,
                        spec_stats_after(old(self).pruning_ctx.pruning_stats, ps, evs),
                    )
                },
                Err(e) => {
                    let ps = old(self).pruning_ctx.spec_pruners();
                    let evs = spec_entries_view(segment_locs@);
                    &&& spec_first_missing(ps, evs) is Some
                    &&& e == (PruneError::Storage {
                        segment: evs[spec_first_missing(ps, evs).unwrap()].location,
                    })
                    &&& final(self).pruning_ctx == old(self).pruning_ctx
                },
            },
    {
        let ps = self.pruning_ctx.pruners();
        let batches = make_batches(&segment_locs, self.max_concurrency);
        match prune_batches(ps, &batches) {
            Err(e) => Err(e),
            Ok(o) => {
                // Top-N reduction over the concatenated survivors.
                let reduced = self.topn_pruning(o.out);

                // Fold the per-call deltas into the shared counters.
                let s = self.pruning_ctx.pruning_stats;
                let has_bloom = match ps.bloom {
                    Some(_) => true,
                    None => false,
                };
                self.pruning_ctx.pruning_stats = PruningStatistics {
                    segments_range_pruning_before: s.segments_range_pruning_before.saturating_add(
                        o.d_segs_before,
                    ),
                    segments_range_pruning_after: s.segments_range_pruning_after.saturating_add(
                        o.d_segs_after,
                    ),
                    blocks_range_pruning_before: s.blocks_range_pruning_before.saturating_add(
                        o.d_blocks_range_before,
                    ),
                    blocks_range_pruning_after: s.blocks_range_pruning_after.saturating_add(
                        o.d_blocks_range_after,
                    ),
                    blocks_bloom_pruning_before: s.blocks_bloom_pruning_before.saturating_add(
                        if has_bloom {
                            o.d_blocks_range_after
                        } else {
                            0
                        },
                    ),
                    blocks_bloom_pruning_after: s.blocks_bloom_pruning_after.saturating_add(
                        if has_bloom {
                            o.d_blocks_bloom_after
                        } else {
                            0
                        },
                    ),
                };
                Ok(reduced)
            },
        }
    }

    /// The top-N stage: applies [`TopNPrunner`] when the push-down has an
    /// ordering and a limit but no filter, and degrades gracefully to the
    /// unpruned input when the prunner cannot run.
    pub fn topn_pruning(&self, metas: Vec<(BlockMetaIndex, BlockMeta)>) -> (r: Vec<
        (BlockMetaIndex, BlockMeta),
    >)
        ensures
            spec_pairs_view(r@) == spec_topn_result(
                spec_pd_view(self.push_down),
                spec_pairs_view(metas@),
            ),
    {
        let applicable = match &self.push_down {
            Some(pd) => pd.order_by.len() > 0 && pd.limit.is_some() && pd.filter.is_none(),
            None => false,
        };
        if !applicable {
            return metas;
        }
        let (sort, limit) = match &self.push_down {
            Some(pd) => (crate::meta::copy_vec(&pd.order_by), pd.limit.unwrap()),
            None => (Vec::new(), 0),
        };
        let prunner = TopNPrunner::create(sort, limit);
        match prunner.prune(&metas) {
            Ok(v) => v,
            Err(_) => metas,
        }
    }

    /// A read-only snapshot of the shared pruning counters.
    pub fn pruning_stats(&self) -> (r: PruningStatistics)
        ensures
            r == self.pruning_ctx.pruning_stats,
    {
        self.pruning_ctx.pruning_stats
    }
}

/// Pruning is idempotent: the surviving set is a function of the pruner
/// family, the push-down, and the segment list alone, so running the same
/// list twice under identical push-down information — or under two
/// contexts that differ only in their statistics counters — yields
/// identical surviving sets.
pub proof fn lemma_pruning_idempotent(
    ctx1: PruningContext,
    ctx2: PruningContext,
    pd: Option<PushDownInfoView>,
    entries: Seq<SegmentEntryView>,
)
    requires
        ctx1.spec_pruners() == ctx2.spec_pruners(),
    ensures
        spec_topn_result(pd, spec_prune(ctx1.spec_pruners(), entries)) == spec_topn_result(
            pd,
            spec_prune(ctx2.spec_pruners(), entries),
        ),
{
}

} // verus!
