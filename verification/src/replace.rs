//! Mutation partitioning for replace/merge-into: spread the table's
//! segments across workers, each with exclusive ownership of its share,
//! and wire the per-partition aggregators and the single commit stage into
//! the caller's pipeline.
//!
//! The segment list is shuffled uniformly at random before slicing, so
//! hot and cold segments land evenly on workers whatever the input order;
//! ownership exclusivity — every segment in exactly one partition — is
//! the correctness invariant of the phase, stated here as a contract.

use vstd::prelude::*;

use rand::seq::SliceRandom;

use crate::commit::CommitSink;
use crate::commit::MutationKind;
use crate::commit::SegmentDelta;
use crate::commit::TableMutationAggregator;
use crate::meta::ColumnDataType;
use crate::meta::Location;
use crate::meta::Snapshot;
use crate::meta::TableSchema;
use crate::meta::copy_vec;

verus! {

/// A table column taking part in the merge key of a replace/merge-into:
/// conflict detection compares incoming rows to existing data on these.
#[derive(Clone, Copy, PartialEq, Eq, Structural, Debug)]
pub struct OnConflictField {
    pub column_id: u64,
    pub data_type: ColumnDataType,
}

/// The identity index sequence `0, 1, …, n-1`.
pub open spec fn spec_identity(n: nat) -> Seq<usize> {
    Seq::new(n, |i: int| i as usize)
}

/// The indices a partition list hands out, flattened in partition order.
pub open spec fn spec_flat_pairs(r: Seq<Vec<(usize, Location)>>) -> Seq<(usize, Location)>
    decreases r.len(),
{
    if r.len() == 0 {
        Seq::empty()
    } else {
        r.first()@ + spec_flat_pairs(r.drop_first())
    }
}

/// The index component of an indexed segment list.
pub open spec fn spec_indices_of(s: Seq<(usize, Location)>) -> Seq<usize> {
    s.map_values(|p: (usize, Location)| p.0)
}

/// Appending one partition appends its pairs to the flattened whole.
proof fn lemma_flat_pairs_snoc(r: Seq<Vec<(usize, Location)>>, b: Vec<(usize, Location)>)
    ensures
        spec_flat_pairs(r.push(b)) == spec_flat_pairs(r) + b@,
    decreases r.len(),
{
    if r.len() == 0 {
        let single = r.push(b);
        assert(single.first() == b);
        assert(single.drop_first() =~= Seq::<Vec<(usize, Location)>>::empty());
        assert(spec_flat_pairs(single.drop_first()).len() == 0);
        assert(spec_flat_pairs(single) =~= b@);
        assert(spec_flat_pairs(r).len() == 0);
        assert(spec_flat_pairs(r) + b@ =~= b@);
    } else {
        assert(r.push(b).first() == r.first());
        assert(r.push(b).drop_first() =~= r.drop_first().push(b));
        lemma_flat_pairs_snoc(r.drop_first(), b);
        assert(r.first()@ + (spec_flat_pairs(r.drop_first()) + b@)
            =~= (r.first()@ + spec_flat_pairs(r.drop_first())) + b@);
    }
}

/// Relies on rand's `SliceRandom::shuffle` with `thread_rng`: permutes the
/// slice in place, uniformly at random. Nothing can be promised of the
/// order that comes back; the values are exactly the old ones.
#[verifier::external_body]
fn shuffle_indices(v: &mut Vec<usize>)
    ensures
        final(v)@.to_multiset() == old(v)@.to_multiset(),
{
    v.shuffle(&mut rand::thread_rng());
}

/// The model of a table for the write path: its schema. The pruning and
/// commit machinery receive the snapshot and storage data explicitly.
pub struct FuseTable {
    pub schema: TableSchema,
}

/// One per-partition merge worker: it owns its share of the segments
/// exclusively, knows the merge key, and uses the most selective
/// bloom-indexed key column to reject non-matching blocks cheaply before
/// exact comparison.
pub struct MergeIntoOperationAggregator {
    pub on_conflicts: Vec<OnConflictField>,
    pub bloom_filter_column_index: Option<usize>,
    pub segments: Vec<(usize, Location)>,
}

/// The flattened segment pairs owned by a list of merge workers.
pub open spec fn spec_agg_flat(r: Seq<MergeIntoOperationAggregator>) -> Seq<(usize, Location)>
    decreases r.len(),
{
    if r.len() == 0 {
        Seq::empty()
    } else {
        r.first().segments@ + spec_agg_flat(r.drop_first())
    }
}

/// Worker lists with pointwise equal shares own the same flattened pairs.
proof fn lemma_agg_flat_pointwise(
    aggs: Seq<MergeIntoOperationAggregator>,
    chunks: Seq<Vec<(usize, Location)>>,
)
    requires
        aggs.len() == chunks.len(),
        forall|b: int| 0 <= b < aggs.len() ==> (#[trigger] aggs[b]).segments@ == chunks[b]@,
    ensures
        spec_agg_flat(aggs) == spec_flat_pairs(chunks),
    decreases aggs.len(),
{
    if aggs.len() > 0 {
        assert(aggs.first().segments@ == chunks.first()@);
        assert(forall|b: int|
            0 <= b < aggs.drop_first().len() ==> (#[trigger] aggs.drop_first()[b]).segments@
                == chunks.drop_first()[b]@);
        lemma_agg_flat_pointwise(aggs.drop_first(), chunks.drop_first());
    }
}

impl FuseTable {
    /// Partitions a segment list into `num_partition` worker shares.
    ///
    /// The list is indexed by original position, shuffled uniformly at
    /// random, and sliced into `len / num_partition` pieces with the
    /// remainder on the last share. Every share is non-empty, every pair
    /// carries the segment at its recorded position, and the positions
    /// over all shares are exactly `0 … len-1`, each exactly once —
    /// partitions never share segment ownership.
    pub fn partition_segments(segments: &Vec<Location>, num_partition: usize) -> (r: Vec<
        Vec<(usize, Location)>,
    >)
        requires
            num_partition >= 1,
            num_partition <= segments@.len(),
        ensures
            r@.len() == num_partition,
            forall|b: int| 0 <= b < num_partition ==> (#[trigger] r@[b]@).len() >= 1,
            forall|b: int|
                0 <= b < num_partition - 1 ==> (#[trigger] r@[b]@).len() == segments@.len() as int
                    / num_partition as int,
            r@[num_partition - 1]@.len() == segments@.len() - (segments@.len() as int
                / num_partition as int) * (num_partition - 1),
            forall|b: int, t: int|
                0 <= b < num_partition && 0 <= t < r@[b]@.len() ==> (#[trigger] r@[b]@[t]).0
                    < segments@.len() && r@[b]@[t].1 == segments@[r@[b]@[t].0 as int],
            spec_indices_of(spec_flat_pairs(r@)).to_multiset() == spec_identity(
                segments@.len(),
            ).to_multiset(),
    {
        broadcast use vstd::seq_lib::group_to_multiset_ensures;

        let n = segments.len();
        let chunk_size = n / num_partition;
        proof {
            vstd::arithmetic::div_mod::lemma_fundamental_div_mod(n as int, num_partition as int);
            assert(chunk_size >= 1) by (nonlinear_arith)
                requires
                    n as int == num_partition as int * chunk_size + n as int
                        % num_partition as int,
                    0 <= n as int % num_partition as int,
                    (n as int % num_partition as int) < num_partition as int,
                    num_partition as int <= n as int,
                    num_partition >= 1,
                    chunk_size >= 0,
            ;
        }

        // index the list, preserving the original position
        let mut order: Vec<usize> = Vec::new();
        let mut i: usize = 0;
        while i < n
            invariant
                i <= n,
                order@.len() == i,
                forall|j: int| 0 <= j < i ==> order@[j] == j as usize,
            decreases n - i,
        {
            order.push(i);
            i = i + 1;
        }
        proof {
            assert(order@ =~= spec_identity(n as nat));
        }

        // spread hot and cold segments evenly across the workers
        shuffle_indices(&mut order);
        proof {
            assert forall|j: int| 0 <= j < order@.len() implies order@[j] < n by {
                assert(order@.contains(order@[j]));
                assert(order@.to_multiset().count(order@[j]) > 0);
                assert(spec_identity(n as nat).to_multiset().count(order@[j]) > 0);
                assert(spec_identity(n as nat).contains(order@[j]));
                let w = choose|w: int|
                    0 <= w < spec_identity(n as nat).len() && spec_identity(n as nat)[w]
                        == order@[j];
            }
            assert(order@.len() == order@.to_multiset().len());
            assert(spec_identity(n as nat).len() == spec_identity(n as nat).to_multiset().len());
            assert(order@.len() == spec_identity(n as nat).len());
        }

        let mut shuffled: Vec<(usize, Location)> = Vec::new();
        let mut s: usize = 0;
        while s < n
            invariant
                n == segments@.len(),
                order@.len() == n,
                forall|j: int| 0 <= j < order@.len() ==> #[trigger] order@[j] < n,
                s <= n,
                shuffled@.len() == s,
                forall|j: int|
                    0 <= j < s ==> (#[trigger] shuffled@[j]).0 == order@[j] && shuffled@[j].1
                        == segments@[order@[j] as int],
            decreases n - s,
        {
            let idx = order[s];
            shuffled.push((idx, segments[idx]));
            s = s + 1;
        }

        // slice into num_partition shares; the remainder lands on the last
        let mut r: Vec<Vec<(usize, Location)>> = Vec::new();
        let mut pos: usize = 0;
        let mut b: usize = 0;
        proof {
            assert(spec_flat_pairs(r@).len() == 0);
            assert(spec_flat_pairs(r@) =~= shuffled@.take(0));
        }
        while b < num_partition
            invariant
                n == segments@.len(),
                num_partition >= 1,
                chunk_size == n as int / num_partition as int,
                chunk_size >= 1,
                n >= num_partition,
                shuffled@.len() == n,
                forall|j: int|
                    0 <= j < n ==> (#[trigger] shuffled@[j]).0 < n && shuffled@[j].1
                        == segments@[shuffled@[j].0 as int],
                b <= num_partition,
                r@.len() == b,
                b < num_partition ==> pos as int == b * chunk_size,
                b == num_partition ==> pos == n,
                pos <= n,
                spec_flat_pairs(r@) == shuffled@.take(pos as int),
                forall|p: int|
                    0 <= p < b ==> (#[trigger] r@[p]@).len() == if p < num_partition - 1 {
                        chunk_size as int
                    } else {
                        n - chunk_size * (num_partition - 1)
                    },
                forall|p: int, t: int|
                    0 <= p < b && 0 <= t < r@[p]@.len() ==> (#[trigger] r@[p]@[t]).0 < n
                        && r@[p]@[t].1 == segments@[r@[p]@[t].0 as int],
            decreases num_partition - b,
        {
            proof {
                assert((b + 1) * chunk_size == b * chunk_size + chunk_size) by (nonlinear_arith);
                vstd::arithmetic::div_mod::lemma_fundamental_div_mod(
                    n as int,
                    num_partition as int,
                );
                assert(num_partition * chunk_size <= n as int) by (nonlinear_arith)
                    requires
                        n as int == num_partition as int * chunk_size + n as int
                            % num_partition as int,
                        0 <= n as int % num_partition as int,
                ;
                if b < num_partition - 1 {
                    assert((b + 1) * chunk_size <= (num_partition - 1) * chunk_size)
                        by (nonlinear_arith)
                        requires
                            b + 1 <= num_partition - 1,
                            chunk_size >= 1,
                    ;
                    assert((num_partition - 1) * chunk_size + chunk_size
                        == num_partition * chunk_size) by (nonlinear_arith);
                    assert(pos as int + chunk_size as int <= n as int);
                }
            }
            let end: usize = if b == num_partition - 1 {
                n
            } else {
                pos + chunk_size
            };
            let mut part: Vec<(usize, Location)> = Vec::new();
            let mut t: usize = pos;
            while t < end
                invariant
                    pos <= t <= end,
                    end <= n,
                    n == shuffled@.len(),
                    part@.len() == t - pos,
                    part@ =~= shuffled@.subrange(pos as int, t as int),
                decreases end - t,
            {
                part.push(shuffled[t]);
                t = t + 1;
                proof {
                    assert(shuffled@.subrange(pos as int, t as int) =~= shuffled@.subrange(
                        pos as int,
                        t - 1,
                    ).push(shuffled@[t - 1]));
                }
            }
            proof {
                lemma_flat_pairs_snoc(r@, part);
                assert(shuffled@.take(pos as int) + shuffled@.subrange(pos as int, end as int)
                    =~= shuffled@.take(end as int));
                if b == num_partition - 1 {
                    assert(chunk_size * (num_partition - 1) == (num_partition - 1) * chunk_size)
                        by (nonlinear_arith);
                    assert(part@.len() == n - chunk_size * (num_partition - 1));
                }
            }
            r.push(part);
            pos = end;
            b = b + 1;
            proof {
                if b < num_partition {
                    assert(pos as int == b * chunk_size) by (nonlinear_arith)
                        requires
                            pos as int == (b - 1) * chunk_size + chunk_size,
                    ;
                }
            }
        }
        proof {
            assert(spec_flat_pairs(r@) == shuffled@.take(n as int));
            assert(shuffled@.take(n as int) =~= shuffled@);
            assert(spec_indices_of(shuffled@) =~= order@);
            assert(spec_indices_of(spec_flat_pairs(r@)).to_multiset() == spec_identity(
                n as nat,
            ).to_multiset());
            // the last share holds the remainder and is never empty
            vstd::arithmetic::div_mod::lemma_fundamental_div_mod(n as int, num_partition as int);
            assert(num_partition * chunk_size <= n as int) by (nonlinear_arith)
                requires
                    n as int == num_partition as int * chunk_size + n as int
                        % num_partition as int,
                    0 <= n as int % num_partition as int,
            ;
            assert((num_partition - 1) * chunk_size + chunk_size == num_partition * chunk_size)
                by (nonlinear_arith);
            assert(chunk_size * (num_partition - 1) == (num_partition - 1) * chunk_size)
                by (nonlinear_arith);
            assert(n - chunk_size * (num_partition - 1) >= chunk_size);
        }
        r
    }

    /// Builds one merge worker per partition of the snapshot's segments:
    /// the partitions are exclusive, so the workers need no cross-partition
    /// synchronization. Each worker carries the merge key and the chosen
    /// most-selective bloom-indexed key column.
    pub fn merge_into_mutators(
        &self,
        num_partition: usize,
        on_conflicts: &Vec<OnConflictField>,
        most_significant_on_conflict_field_index: Option<usize>,
        table_snapshot: &Snapshot,
    ) -> (r: Vec<MergeIntoOperationAggregator>)
        requires
            num_partition >= 1,
            num_partition <= table_snapshot.segments@.len(),
        ensures
            r@.len() == num_partition,
            forall|b: int|
                0 <= b < num_partition ==> {
                    &&& (#[trigger] r@[b]).on_conflicts@ == on_conflicts@
                    &&& r@[b].bloom_filter_column_index
                        == most_significant_on_conflict_field_index
                    &&& r@[b].segments@.len() >= 1
                },
            forall|b: int, t: int|
                0 <= b < num_partition && 0 <= t < r@[b].segments@.len()
                    ==> (#[trigger] r@[b].segments@[t]).0 < table_snapshot.segments@.len()
                    && r@[b].segments@[t].1
                        == table_snapshot.segments@[r@[b].segments@[t].0 as int],
            spec_indices_of(spec_agg_flat(r@)).to_multiset() == spec_identity(
                table_snapshot.segments@.len(),
            ).to_multiset(),
    {
        let chunks = Self::partition_segments(&table_snapshot.segments, num_partition);
        let mut r: Vec<MergeIntoOperationAggregator> = Vec::new();
        let mut b: usize = 0;
        while b < chunks.len()
            invariant
                chunks@.len() == num_partition,
                b <= chunks@.len(),
                r@.len() == b,
                forall|p: int|
                    0 <= p < b ==> {
                        &&& (#[trigger] r@[p]).on_conflicts@ == on_conflicts@
                        &&& r@[p].bloom_filter_column_index
                            == most_significant_on_conflict_field_index
                        &&& r@[p].segments@ == chunks@[p]@
                    },
            decreases chunks@.len() - b,
        {
            let item = MergeIntoOperationAggregator {
                on_conflicts: copy_vec(on_conflicts),
                bloom_filter_column_index: most_significant_on_conflict_field_index,
                segments: copy_vec(&chunks[b]),
            };
            r.push(item);
            b = b + 1;
        }
        proof {
            lemma_agg_flat_pointwise(r@, chunks@);
        }
        r
    }

    /// Picks the merge-key column to probe bloom indexes with: among the
    /// on-conflict fields whose type supports a bloom index and whose
    /// statistics are known, the one with the greatest
    /// number-of-distinct-values; the last such field wins a tie. `None`
    /// when no field qualifies. `column_ndv` holds the statistics
    /// provider's answer for each field.
    pub fn choose_most_significant_bloom_filter_column(
        &self,
        on_conflicts: &Vec<OnConflictField>,
        column_ndv: &Vec<Option<u64>>,
    ) -> (r: Option<usize>)
        requires
            column_ndv@.len() == on_conflicts@.len(),
        ensures
            r == spec_choose_bloom_column(on_conflicts@, column_ndv@),
    {
        let mut best: Option<usize> = None;
        let mut i: usize = 0;
        while i < on_conflicts.len()
            invariant
                column_ndv@.len() == on_conflicts@.len(),
                i <= on_conflicts@.len(),
                best == spec_choose_bloom_column(
                    on_conflicts@.take(i as int),
                    column_ndv@.take(i as int),
                ),
                best matches Some(p) ==> p < i && column_ndv@[p as int] is Some,
            decreases on_conflicts@.len() - i,
        {
            let eligible = on_conflicts[i].data_type.bloom_supported() && column_ndv[i].is_some();
            if eligible {
                match best {
                    None => {
                        best = Some(i);
                    },
                    Some(p) => {
                        if column_ndv[i].unwrap() >= column_ndv[p].unwrap() {
                            best = Some(i);
                        }
                    },
                }
            }
            i = i + 1;
            proof {
                assert(on_conflicts@.take(i as int) =~= on_conflicts@.take(i - 1).push(
                    on_conflicts@[i - 1],
                ));
                assert(column_ndv@.take(i as int) =~= column_ndv@.take(i - 1).push(
                    column_ndv@[i - 1],
                ));
                lemma_choose_bloom_column_snoc(
                    on_conflicts@.take(i - 1),
                    column_ndv@.take(i - 1),
                    on_conflicts@[i - 1],
                    column_ndv@[i - 1],
                );
            }
        }
        proof {
            assert(on_conflicts@.take(on_conflicts@.len() as int) =~= on_conflicts@);
            assert(column_ndv@.take(column_ndv@.len() as int) =~= column_ndv@);
        }
        best
    }
}

/// The most selective bloom-indexed merge-key field: the fold that keeps
/// the later field whenever its number-of-distinct-values is at least the
/// current best's.
pub open spec fn spec_choose_bloom_column(
    fields: Seq<OnConflictField>,
    ndv: Seq<Option<u64>>,
) -> Option<usize>
    decreases fields.len(),
{
    if fields.len() == 0 {
        None
    } else {
        let prev = spec_choose_bloom_column(fields.drop_last(), ndv.drop_last());
        let i = fields.len() - 1;
        if fields[i].data_type.spec_bloom_supported() && ndv[i] is Some {
            match prev {
                None => Some(i as usize),
                Some(p) => {
                    if ndv[i].unwrap() >= ndv[p as int].unwrap() {
                        Some(i as usize)
                    } else {
                        Some(p)
                    }
                },
            }
        } else {
            prev
        }
    }
}

/// The chosen field, when there is one, lies in range and has known
/// statistics.
proof fn lemma_choose_bloom_column_in_range(fields: Seq<OnConflictField>, ndv: Seq<Option<u64>>)
    requires
        fields.len() == ndv.len(),
        fields.len() <= usize::MAX,
    ensures
        spec_choose_bloom_column(fields, ndv) matches Some(p) ==> p < fields.len() && ndv[p as int]
            is Some,
    decreases fields.len(),
{
    if fields.len() > 0 {
        lemma_choose_bloom_column_in_range(fields.drop_last(), ndv.drop_last());
    }
}

/// Appending one field folds it against the previous best.
proof fn lemma_choose_bloom_column_snoc(
    fields: Seq<OnConflictField>,
    ndv: Seq<Option<u64>>,
    f: OnConflictField,
    v: Option<u64>,
)
    requires
        fields.len() == ndv.len(),
        fields.len() <= usize::MAX,
    ensures
        spec_choose_bloom_column(fields.push(f), ndv.push(v)) == {
            let prev = spec_choose_bloom_column(fields, ndv);
            if f.data_type.spec_bloom_supported() && v is Some {
                match prev {
                    None => Some(fields.len() as usize),
                    Some(p) => {
                        if v.unwrap() >= ndv[p as int].unwrap() {
                            Some(fields.len() as usize)
                        } else {
                            Some(p)
                        }
                    },
                }
            } else {
                prev
            }
        },
{
    lemma_choose_bloom_column_in_range(fields, ndv);
    assert(fields.push(f).drop_last() =~= fields);
    assert(ndv.push(v).drop_last() =~= ndv);
    assert(fields.push(f).last() == f);
    assert(ndv.push(v).last() == v);
}

/// One stage of a mutation pipeline, as the write path appends them.
pub enum PipeStage {
    /// Shrinks or widens the stage parallelism.
    Resize { width: usize },
    /// The single accumulating stage folding partition outcomes.
    Aggregator { aggregator: TableMutationAggregator },
    /// The single commit sink publishing the candidate snapshot.
    Commit { sink: CommitSink },
}

/// A model of the caller's execution pipeline: its current width and the
/// stages appended so far.
pub struct Pipeline {
    pub width: usize,
    pub stages: Vec<PipeStage>,
}

impl Pipeline {
    /// An empty pipeline at the given parallelism.
    pub fn create(width: usize) -> (r: Pipeline)
        ensures
            r.width == width,
            r.stages@.len() == 0,
    {
        Pipeline { width, stages: Vec::new() }
    }

    /// Changes the pipeline's parallelism.
    pub fn try_resize(&mut self, width: usize)
        ensures
            final(self).width == width,
            final(self).stages@ == old(self).stages@,
    {
        self.width = width;
    }
}

impl FuseTable {
    /// Appends the tail of every mutation pipeline: a resize to
    /// parallelism one — commit must be strictly sequential per table —
    /// then the single [`TableMutationAggregator`] over the base
    /// snapshot's segments and summary, then the single [`CommitSink`]
    /// for the aggregated delta, rooted at the base snapshot.
    pub fn chain_mutation_pipes(
        &self,
        pipeline: &mut Pipeline,
        base_snapshot: &Snapshot,
        mutation_kind: MutationKind,
        max_commit_attempts: u64,
    )
        requires
            base_snapshot@.version < u64::MAX,
            max_commit_attempts >= 1,
        ensures
            final(pipeline).width == 1,
            final(pipeline).stages@.len() == old(pipeline).stages@.len() + 2,
            final(pipeline).stages@.take(old(pipeline).stages@.len() as int) == old(
                pipeline,
            ).stages@,
            (final(pipeline).stages@[old(pipeline).stages@.len() as int] matches
                PipeStage::Aggregator { aggregator } && {
                &&& aggregator.base_segments@ == base_snapshot.segments@
                &&& aggregator.base_summary == base_snapshot.summary
                &&& aggregator.kind == mutation_kind
                &&& aggregator.removed@.len() == 0
                &&& aggregator.appended@.len() == 0
            }),
            (final(pipeline).stages@[old(pipeline).stages@.len() as int + 1] matches PipeStage::Commit {
                sink } && {
                &&& sink.state == crate::commit::CommitState::Committing
                &&& sink.base_version == base_snapshot@.version
                &&& sink.attempts == 0
                &&& sink.max_attempts == max_commit_attempts
                &&& sink.delta@.removed.len() == 0
                &&& sink.delta@.appended.len() == 0
            }),
    {
        // commit is strictly sequential per table
        pipeline.try_resize(1);

        let aggregator = TableMutationAggregator::create(
            copy_vec(&base_snapshot.segments),
            base_snapshot.summary,
            mutation_kind,
        );
        let empty_delta = SegmentDelta {
            removed: Vec::new(),
            appended: Vec::new(),
            added_rows: 0,
            removed_rows: 0,
        };
        let sink = CommitSink::try_create(base_snapshot, empty_delta, max_commit_attempts);
        let ghost len0 = pipeline.stages@.len();
        pipeline.stages.push(PipeStage::Aggregator { aggregator });
        pipeline.stages.push(PipeStage::Commit { sink });
        proof {
            assert(pipeline.stages@.take(len0 as int) =~= old(pipeline).stages@);
        }
    }
}

} // verus!
