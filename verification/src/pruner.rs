//! The pruner family and the pruning context.
//!
//! The pruners form a small closed set, fixed at construction time: a
//! limiter, a range pruner, an optional bloom pruner, an optional page
//! pruner, and an optional internal-column pruner on the segment name.
//! [`PruningContext::create`] derives all of them from the table schema,
//! the push-down information, and the runtime settings, and fixes the
//! concurrency budget of the pruning call.

use vstd::prelude::*;

use crate::meta::BlockMetaView;
use crate::meta::BloomDigest;
use crate::meta::ColumnStat;
use crate::meta::SegmentLocation;
use crate::meta::TableSchema;
use crate::push_down::CompareOp;
use crate::push_down::FilterPredicate;
use crate::push_down::PushDownInfo;
use crate::push_down::PushDownInfoView;
use crate::push_down::SegmentFilter;
use crate::push_down::eval_cmp_u64;
use crate::push_down::range_may_match;
use crate::push_down::spec_effective_limit;
use crate::push_down::spec_eval_cmp;
use crate::push_down::spec_range_may_match;
use crate::push_down::spec_stat_of;
use crate::push_down::stat_of;

verus! {

/// The concurrency floor: a misconfigured I/O request budget below this is
/// silently raised to it, so that pruning is never starved.
pub const CONCURRENCY_FLOOR: usize = 10;

/// Runtime settings that size the pruning runtime and the I/O semaphore.
#[derive(Clone, Copy, PartialEq, Eq, Structural, Debug)]
pub struct Settings {
    pub max_threads: u64,
    pub max_storage_io_requests: usize,
}

/// Shared pruning counters: how many segments and blocks each stage saw and
/// let through. Observability only; counters saturate rather than wrap and
/// never affect pruning decisions.
#[derive(Clone, Copy, PartialEq, Eq, Structural, Debug)]
pub struct PruningStatistics {
    pub segments_range_pruning_before: u64,
    pub segments_range_pruning_after: u64,
    pub blocks_range_pruning_before: u64,
    pub blocks_range_pruning_after: u64,
    pub blocks_bloom_pruning_before: u64,
    pub blocks_bloom_pruning_after: u64,
}

impl PruningStatistics {
    /// All counters at zero.
    pub open spec fn spec_zero() -> PruningStatistics {
        PruningStatistics {
            segments_range_pruning_before: 0,
            segments_range_pruning_after: 0,
            blocks_range_pruning_before: 0,
            blocks_range_pruning_after: 0,
            blocks_bloom_pruning_before: 0,
            blocks_bloom_pruning_after: 0,
        }
    }

    /// Fresh counters, all at zero.
    pub fn zero() -> (r: PruningStatistics)
        ensures
            r == Self::spec_zero(),
    {
        PruningStatistics {
            segments_range_pruning_before: 0,
            segments_range_pruning_after: 0,
            blocks_range_pruning_before: 0,
            blocks_range_pruning_after: 0,
            blocks_bloom_pruning_before: 0,
            blocks_bloom_pruning_after: 0,
        }
    }
}

impl Default for PruningStatistics {
    /// Fresh counters, all at zero.
    fn default() -> (r: PruningStatistics)
        ensures
            r == Self::spec_zero(),
    {
        PruningStatistics::zero()
    }
}

/// Bloom pruning configuration: a point predicate `column = value` on a
/// bloom-indexed column.
#[derive(Clone, Copy, PartialEq, Eq, Structural, Debug)]
pub struct BloomPruner {
    pub column: usize,
    pub value: i64,
}

/// Page pruning configuration: the pushed-down predicate restricted to the
/// cluster key column, evaluated against per-page statistics of the native
/// format.
#[derive(Clone, Copy, PartialEq, Eq, Structural, Debug)]
pub struct PagePruner {
    pub predicate: FilterPredicate,
}

/// Immutable, shared configuration of one pruning call: the derived pruner
/// family, the concurrency budget, and the shared statistics counters (the
/// only mutable part).
#[derive(Clone, Copy, PartialEq, Eq, Structural, Debug)]
pub struct PruningContext {
    pub max_threads: u64,
    pub max_concurrency: usize,
    pub concurrency_floored: bool,
    pub limit_pruner: Option<u64>,
    pub range_pruner: Option<FilterPredicate>,
    pub bloom_pruner: Option<BloomPruner>,
    pub page_pruner: Option<PagePruner>,
    pub internal_column_pruner: Option<SegmentFilter>,
    pub pruning_stats: PruningStatistics,
}

/// The bloom pruner that a push-down filter induces: present exactly when
/// the filter is a point predicate on a column whose type supports a bloom
/// index.
pub open spec fn spec_derive_bloom(
    schema: Seq<crate::meta::ColumnDataType>,
    filter: Option<FilterPredicate>,
) -> Option<BloomPruner> {
    match filter {
        Some(f) => {
            if f.op == CompareOp::Eq && f.column < schema.len()
                && schema[f.column as int].spec_bloom_supported() {
                Some(BloomPruner { column: f.column, value: f.value })
            } else {
                None
            }
        },
        None => None,
    }
}

/// The page pruner that a push-down filter induces: present exactly when a
/// cluster key exists and the filter reads that column.
pub open spec fn spec_derive_page(
    cluster_key: Option<usize>,
    filter: Option<FilterPredicate>,
) -> Option<PagePruner> {
    match (cluster_key, filter) {
        (Some(ck), Some(f)) => {
            if f.column == ck {
                Some(PagePruner { predicate: f })
            } else {
                None
            }
        },
        _ => None,
    }
}

/// The filter of a push-down, if any.
pub open spec fn spec_filter_of(p: Option<PushDownInfoView>) -> Option<FilterPredicate> {
    match p {
        Some(pd) => pd.filter,
        None => None,
    }
}

/// The segment-name predicate of a push-down, if any.
pub open spec fn spec_segment_filter_of(p: Option<PushDownInfoView>) -> Option<SegmentFilter> {
    match p {
        Some(pd) => pd.segment_filter,
        None => None,
    }
}

impl PruningContext {
    /// Spec-level image of the option of a borrowed push-down.
    pub open spec fn spec_push_down_view(p: Option<&PushDownInfo>) -> Option<PushDownInfoView> {
        match p {
            Some(pd) => Some(pd@),
            None => None,
        }
    }

    /// The context that [`Self::create`] derives.
    pub open spec fn spec_create(
        schema: Seq<crate::meta::ColumnDataType>,
        pd: Option<PushDownInfoView>,
        cluster_key: Option<usize>,
        settings: Settings,
    ) -> PruningContext {
        let filter = spec_filter_of(pd);
        PruningContext {
            max_threads: settings.max_threads,
            max_concurrency: if settings.max_storage_io_requests >= CONCURRENCY_FLOOR {
                settings.max_storage_io_requests
            } else {
                CONCURRENCY_FLOOR
            },
            concurrency_floored: settings.max_storage_io_requests < CONCURRENCY_FLOOR,
            limit_pruner: spec_effective_limit(pd),
            range_pruner: filter,
            bloom_pruner: spec_derive_bloom(schema, filter),
            page_pruner: spec_derive_page(cluster_key, filter),
            internal_column_pruner: spec_segment_filter_of(pd),
            pruning_stats: PruningStatistics::spec_zero(),
        }
    }

    /// Derives the pruner family from the schema, the push-down, the
    /// cluster key (present only for the native format), and the settings.
    ///
    /// The limiter is unlimited whenever a filter or ordering clause is
    /// present; the range pruner passes everything through when no filter
    /// was pushed down; the bloom pruner exists only for point predicates
    /// on bloom-capable columns; and a concurrency setting below the floor
    /// is raised to it, recorded in `concurrency_floored` so the caller can
    /// log the configuration warning.
    pub fn create(
        schema: &TableSchema,
        push_down: Option<&PushDownInfo>,
        cluster_key: Option<usize>,
        settings: Settings,
    ) -> (r: PruningContext)
        ensures
            r.max_threads == settings.max_threads,
            r.max_concurrency == if settings.max_storage_io_requests >= CONCURRENCY_FLOOR {
                settings.max_storage_io_requests
            } else {
                CONCURRENCY_FLOOR
            },
            r.max_concurrency >= CONCURRENCY_FLOOR,
            r.concurrency_floored == (settings.max_storage_io_requests < CONCURRENCY_FLOOR),
            r.limit_pruner == spec_effective_limit(Self::spec_push_down_view(push_down)),
            r.range_pruner == spec_filter_of(Self::spec_push_down_view(push_down)),
            r.bloom_pruner == spec_derive_bloom(
                schema@,
                spec_filter_of(Self::spec_push_down_view(push_down)),
            ),
            r.page_pruner == spec_derive_page(
                cluster_key,
                spec_filter_of(Self::spec_push_down_view(push_down)),
            ),
            r.internal_column_pruner == spec_segment_filter_of(Self::spec_push_down_view(push_down)),
            r.pruning_stats == PruningStatistics::spec_zero(),
            r == Self::spec_create(
                schema@,
                Self::spec_push_down_view(push_down),
                cluster_key,
                settings,
            ),
    {
        let filter: Option<FilterPredicate> = match push_down {
            Some(pd) => pd.filter,
            None => None,
        };

        // Limit pruning is sound only when row order is unconstrained, so
        // the limit is ignored whenever a filter or ordering is present.
        let limit_pruner: Option<u64> = match push_down {
            Some(pd) => {
                if pd.order_by.len() == 0 && pd.filter.is_none() {
                    pd.limit
                } else {
                    None
                }
            },
            None => None,
        };

        let bloom_pruner: Option<BloomPruner> = match filter {
            Some(f) => {
                if f.column < schema.columns.len() && schema.columns[f.column].bloom_supported() {
                    match f.op {
                        CompareOp::Eq => Some(BloomPruner { column: f.column, value: f.value }),
                        _ => None,
                    }
                } else {
                    None
                }
            },
            None => None,
        };

        let page_pruner: Option<PagePruner> = match (cluster_key, filter) {
            (Some(ck), Some(f)) => {
                if f.column == ck {
                    Some(PagePruner { predicate: f })
                } else {
                    None
                }
            },
            _ => None,
        };

        let internal_column_pruner: Option<SegmentFilter> = match push_down {
            Some(pd) => pd.segment_filter,
            None => None,
        };

        let floored = settings.max_storage_io_requests < CONCURRENCY_FLOOR;
        let max_concurrency = if floored {
            CONCURRENCY_FLOOR
        } else {
            settings.max_storage_io_requests
        };

        PruningContext {
            max_threads: settings.max_threads,
            max_concurrency,
            concurrency_floored: floored,
            limit_pruner,
            range_pruner: filter,
            bloom_pruner,
            page_pruner,
            internal_column_pruner,
            pruning_stats: PruningStatistics::zero(),
        }
    }
}

/// Whether the internal-column pruner keeps a segment, judged from its name
/// alone; with no such pruner every segment is kept.
pub open spec fn spec_internal_keep(p: Option<SegmentFilter>, loc: SegmentLocation) -> bool {
    match p {
        None => true,
        Some(f) => spec_eval_cmp(f.op, loc.location.object_id as int, f.value as int),
    }
}

/// Executable form of [`spec_internal_keep`].
pub fn internal_keep(p: Option<SegmentFilter>, loc: SegmentLocation) -> (b: bool)
    ensures
        b == spec_internal_keep(p, loc),
{
    match p {
        None => true,
        Some(f) => eval_cmp_u64(f.op, loc.location.object_id, f.value),
    }
}

/// Whether range pruning keeps an object with the given per-column
/// statistics; the same test serves segments (coarse statistics) and blocks
/// (fine statistics). With no filter everything is kept.
pub open spec fn spec_range_keep(
    f: Option<FilterPredicate>,
    stats: Seq<Option<ColumnStat>>,
) -> bool {
    match f {
        None => true,
        Some(p) => spec_range_may_match(p.op, p.value, spec_stat_of(stats, p.column)),
    }
}

/// Executable form of [`spec_range_keep`].
pub fn range_keep(f: Option<FilterPredicate>, stats: &Vec<Option<ColumnStat>>) -> (b: bool)
    ensures
        b == spec_range_keep(f, stats@),
{
    match f {
        None => true,
        Some(p) => range_may_match(p.op, p.value, stat_of(stats, p.column)),
    }
}

/// Whether the bloom digests of a block admit `column = value`, searching
/// the digest list from position `i` for the column's digest. A block with
/// no digest for the column cannot be ruled out.
pub open spec fn spec_bloom_may_contain_from(
    bloom: Seq<crate::meta::BloomDigestView>,
    column: usize,
    value: i64,
    i: int,
) -> bool
    decreases bloom.len() - i,
{
    if i < 0 || i >= bloom.len() {
        true
    } else if bloom[i].column == column {
        bloom[i].candidates.contains(value)
    } else {
        spec_bloom_may_contain_from(bloom, column, value, i + 1)
    }
}

/// Whether bloom pruning keeps a block with the given digest list; with no
/// bloom pruner every block is kept.
pub open spec fn spec_bloom_keep_digests(
    b: Option<BloomPruner>,
    digests: Seq<crate::meta::BloomDigestView>,
) -> bool {
    match b {
        None => true,
        Some(bp) => spec_bloom_may_contain_from(digests, bp.column, bp.value, 0),
    }
}

/// Whether bloom pruning keeps a block; with no bloom pruner every block is
/// kept.
pub open spec fn spec_bloom_keep(b: Option<BloomPruner>, m: BlockMetaView) -> bool {
    spec_bloom_keep_digests(b, m.bloom)
}

/// Linear search of a value in a vector.
pub fn vec_contains_i64(v: &Vec<i64>, x: i64) -> (b: bool)
    ensures
        b == v@.contains(x),
{
    let mut i: usize = 0;
    while i < v.len()
        invariant
            i <= v.len(),
            forall|j: int| 0 <= j < i ==> v@[j] != x,
        decreases v.len() - i,
    {
        if v[i] == x {
            return true;
        }
        i = i + 1;
    }
    false
}

/// Executable form of [`spec_bloom_keep_digests`].
pub fn bloom_keep(b: Option<BloomPruner>, bloom: &Vec<BloomDigest>) -> (r: bool)
    ensures
        r == spec_bloom_keep_digests(b, crate::meta::spec_digests_view(bloom@)),
{
    let bview = Ghost(crate::meta::spec_digests_view(bloom@));
    match b {
        None => true,
        Some(bp) => {
            let mut i: usize = 0;
            while i < bloom.len()
                invariant
                    b == Some(bp),
                    i <= bloom.len(),
                    bview@ == crate::meta::spec_digests_view(bloom@),
                    spec_bloom_may_contain_from(bview@, bp.column, bp.value, 0)
                        == spec_bloom_may_contain_from(bview@, bp.column, bp.value, i as int),
                decreases bloom.len() - i,
            {
                if bloom[i].column == bp.column {
                    proof {
                        assert(bview@[i as int] == bloom@[i as int]@);
                        assert(spec_bloom_may_contain_from(bview@, bp.column, bp.value, i as int)
                            == bview@[i as int].candidates.contains(bp.value));
                    }
                    let res = vec_contains_i64(&bloom[i].candidates, bp.value);
                    proof {
                        assert(bview@[i as int].candidates == bloom@[i as int].candidates@);
                        assert(res == spec_bloom_may_contain_from(bview@, bp.column, bp.value, i as int));
                        assert(res == spec_bloom_keep_digests(b, crate::meta::spec_digests_view(bloom@)));
                    }
                    return res;
                }
                proof {
                    assert(bview@[i as int] == bloom@[i as int]@);
                }
                i = i + 1;
            }
            true
        },
    }
}

/// Whether page pruning keeps a block with the given per-page statistics:
/// with statistics present, some page must admit the predicate; a block
/// without per-page statistics (non-native format) cannot be ruled out,
/// and an empty page list carries no information either.
pub open spec fn spec_page_keep_stats(
    pp: Option<PagePruner>,
    page_stats: Option<Seq<ColumnStat>>,
) -> bool {
    match pp {
        None => true,
        Some(p) => match page_stats {
            None => true,
            Some(ps) => ps.len() == 0 || exists|i: int|
                0 <= i < ps.len() && spec_range_may_match(
                    p.predicate.op,
                    p.predicate.value,
                    Some(ps[i]),
                ),
        },
    }
}

/// Whether page pruning keeps a block.
pub open spec fn spec_page_keep(pp: Option<PagePruner>, m: BlockMetaView) -> bool {
    spec_page_keep_stats(pp, m.page_stats)
}

/// Executable form of [`spec_page_keep_stats`].
pub fn page_keep(pp: Option<PagePruner>, page_stats: &Option<Vec<ColumnStat>>) -> (r: bool)
    ensures
        r == spec_page_keep_stats(
            pp,
            match page_stats {
                Some(ps) => Some(ps@),
                None => None,
            },
        ),
{
    match pp {
        None => true,
        Some(p) => match page_stats {
            None => true,
            Some(ps) => {
                if ps.len() == 0 {
                    return true;
                }
                let mut i: usize = 0;
                while i < ps.len()
                    invariant
                        pp == Some(p),
                        match *page_stats {
                            Some(v) => v@ == ps@ && v@.len() > 0,
                            None => false,
                        },
                        i <= ps.len(),
                        forall|j: int| 0 <= j < i ==> !spec_range_may_match(
                            p.predicate.op,
                            p.predicate.value,
                            Some(ps@[j]),
                        ),
                    decreases ps.len() - i,
                {
                    if range_may_match(p.predicate.op, p.predicate.value, Some(&ps[i])) {
                        proof {
                            assert(0 <= i < ps@.len() && spec_range_may_match(
                                p.predicate.op,
                                p.predicate.value,
                                Some(ps@[i as int]),
                            ));
                            assert(exists|j: int|
                                0 <= j < ps@.len() && spec_range_may_match(
                                    p.predicate.op,
                                    p.predicate.value,
                                    Some(ps@[j]),
                                ));
                        }
                        return true;
                    }
                    i = i + 1;
                }
                false
            },
        },
    }
}

} // verus!
