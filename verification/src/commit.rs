//! Snapshot mutation aggregation and the optimistic-concurrency commit
//! protocol.
//!
//! A write computes a [`SegmentDelta`] against a base snapshot. The
//! [`TableMutationAggregator`] folds per-partition mutation outcomes into
//! one delta; the [`CommitSink`] then publishes a candidate snapshot
//! through the table's single current-snapshot pointer ([`TableHead`]),
//! conditioned on the base still being current. A conflicting concurrent
//! writer makes the conditional publish fail; the sink re-reads the new
//! head, rebases its delta, and retries, up to a bounded attempt count.
//! Readers never block and writers serialize only at the pointer swap.

use vstd::prelude::*;

use crate::meta::Location;
use crate::meta::Snapshot;
use crate::meta::SnapshotView;
use crate::meta::Summary;
use crate::meta::copy_vec;

verus! {

/// What kind of mutation a pipeline commits.
#[derive(Clone, Copy, PartialEq, Eq, Structural, Debug)]
pub enum MutationKind {
    Replace,
    Delete,
    Update,
    Compact,
}

/// The already-computed effect of one write against a base snapshot:
/// segment locations to drop, segment locations to append, and the row
/// deltas feeding the new summary.
#[derive(Clone, PartialEq, Eq, Debug)]
pub struct SegmentDelta {
    pub removed: Vec<Location>,
    pub appended: Vec<Location>,
    pub added_rows: u64,
    pub removed_rows: u64,
}

/// The element-wise view of a delta list.
pub open spec fn spec_deltas_view(s: Seq<SegmentDelta>) -> Seq<SegmentDeltaView> {
    s.map_values(|d: SegmentDelta| d@)
}

/// Spec-level image of a [`SegmentDelta`].
pub struct SegmentDeltaView {
    pub removed: Seq<Location>,
    pub appended: Seq<Location>,
    pub added_rows: u64,
    pub removed_rows: u64,
}

impl View for SegmentDelta {
    type V = SegmentDeltaView;

    open spec fn view(&self) -> SegmentDeltaView {
        SegmentDeltaView {
            removed: self.removed@,
            appended: self.appended@,
            added_rows: self.added_rows,
            removed_rows: self.removed_rows,
        }
    }
}

impl SegmentDelta {
    /// Field-by-field copy with a contract; derived `Clone` is opaque to
    /// the verifier.
    pub fn duplicate(&self) -> (r: SegmentDelta)
        ensures
            r@ == self@,
    {
        SegmentDelta {
            removed: copy_vec(&self.removed),
            appended: copy_vec(&self.appended),
            added_rows: self.added_rows,
            removed_rows: self.removed_rows,
        }
    }
}

/// The predicate a base segment must fail to be dropped by a delta.
pub open spec fn spec_keep_loc(removed: Seq<Location>) -> spec_fn(Location) -> bool {
    |l: Location| !removed.contains(l)
}

/// The segment list a delta produces: base segments not removed, in base
/// order, with the appended segments after them.
pub open spec fn spec_apply_segments(base: Seq<Location>, d: SegmentDeltaView) -> Seq<Location> {
    base.filter(spec_keep_loc(d.removed)) + d.appended
}

/// The summary a delta produces; counters saturate rather than wrap.
pub open spec fn spec_apply_summary(s: Summary, d: SegmentDeltaView) -> Summary {
    Summary {
        row_count: crate::block_prune::spec_sat_add(s.row_count, d.added_rows).saturating_sub(
            d.removed_rows,
        ),
        block_count: s.block_count,
        byte_size: s.byte_size,
    }
}

/// The snapshot a delta produces from a base snapshot: one version later,
/// the rewritten segment list, the adjusted summary.
pub open spec fn spec_apply_delta(base: SnapshotView, d: SegmentDeltaView) -> SnapshotView {
    SnapshotView {
        version: (base.version + 1) as u64,
        segments: spec_apply_segments(base.segments, d),
        summary: spec_apply_summary(base.summary, d),
    }
}

/// The snapshot after a list of deltas lands in order, each rebased onto
/// the previous writer's result.
pub open spec fn spec_apply_all(base: SnapshotView, ds: Seq<SegmentDeltaView>) -> SnapshotView
    decreases ds.len(),
{
    if ds.len() == 0 {
        base
    } else {
        spec_apply_all(spec_apply_delta(base, ds.first()), ds.drop_first())
    }
}

/// Builds the candidate snapshot a delta produces from a base snapshot.
pub fn apply_delta(base: &Snapshot, delta: &SegmentDelta) -> (r: Snapshot)
    requires
        base@.version < u64::MAX,
    ensures
        r@ == spec_apply_delta(base@, delta@),
{
    broadcast use Seq::lemma_filter_push;

    let ghost pred = spec_keep_loc(delta@.removed);
    let mut segments: Vec<Location> = Vec::new();
    let mut i: usize = 0;
    while i < base.segments.len()
        invariant
            i <= base.segments@.len(),
            pred == spec_keep_loc(delta@.removed),
            segments@ == base.segments@.take(i as int).filter(pred),
        decreases base.segments@.len() - i,
    {
        let loc = base.segments[i];
        let keep = !crate::commit::contains_loc(&delta.removed, loc);
        if keep {
            segments.push(loc);
        }
        i = i + 1;
        proof {
            assert(base.segments@.take(i as int) =~= base.segments@.take(i - 1).push(
                base.segments@[i - 1],
            ));
            assert(pred(base.segments@[i - 1]) == keep);
            base.segments@.take(i - 1).lemma_filter_push(base.segments@[i - 1], pred);
        }
    }
    proof {
        assert(base.segments@.take(base.segments@.len() as int) =~= base.segments@);
    }
    let mut j: usize = 0;
    while j < delta.appended.len()
        invariant
            j <= delta.appended@.len(),
            pred == spec_keep_loc(delta@.removed),
            segments@ == base.segments@.filter(pred) + delta.appended@.take(j as int),
        decreases delta.appended@.len() - j,
    {
        segments.push(delta.appended[j]);
        j = j + 1;
        proof {
            assert(delta.appended@.take(j as int) =~= delta.appended@.take(j - 1).push(
                delta.appended@[j - 1],
            ));
            assert(base.segments@.filter(pred) + delta.appended@.take(j as int)
                =~= (base.segments@.filter(pred) + delta.appended@.take(j - 1)).push(
                delta.appended@[j - 1],
            ));
        }
    }
    proof {
        assert(delta.appended@.take(delta.appended@.len() as int) =~= delta.appended@);
    }
    let row_count = base.summary.row_count.saturating_add(delta.added_rows).saturating_sub(
        delta.removed_rows,
    );
    Snapshot {
        version: base.version + 1,
        segments,
        summary: Summary {
            row_count,
            block_count: base.summary.block_count,
            byte_size: base.summary.byte_size,
        },
    }
}

/// Linear search of a location in a vector.
pub fn contains_loc(v: &Vec<Location>, x: Location) -> (b: bool)
    ensures
        b == v@.contains(x),
{
    let mut i: usize = 0;
    while i < v.len()
        invariant
            i <= v.len(),
            forall|j: int| 0 <= j < i ==> v@[j] != x,
        decreases v.len() - i,
    {
        if v[i].object_id == x.object_id && v[i].format_version == x.format_version {
            proof {
                assert(v@[i as int] == x);
            }
            return true;
        }
        i = i + 1;
    }
    false
}

/// One upstream partition's mutation outcome, as handed to the aggregator.
#[derive(Clone, PartialEq, Eq, Debug)]
pub struct MutationOutcome {
    pub removed: Vec<Location>,
    pub appended: Vec<Location>,
    pub added_rows: u64,
    pub removed_rows: u64,
}

/// Folds the mutation outcomes of all upstream partitions into one
/// [`SegmentDelta`] for the commit sink: the accumulating stage of the
/// mutation pipeline.
pub struct TableMutationAggregator {
    pub base_segments: Vec<Location>,
    pub base_summary: Summary,
    pub kind: MutationKind,
    pub removed: Vec<Location>,
    pub appended: Vec<Location>,
    pub added_rows: u64,
    pub removed_rows: u64,
}

impl TableMutationAggregator {
    /// An empty aggregator over a base snapshot's segment list and
    /// summary.
    pub fn create(base_segments: Vec<Location>, base_summary: Summary, kind: MutationKind) -> (r:
        TableMutationAggregator)
        ensures
            r.base_segments@ == base_segments@,
            r.base_summary == base_summary,
            r.kind == kind,
            r.removed@ == Seq::<Location>::empty(),
            r.appended@ == Seq::<Location>::empty(),
            r.added_rows == 0,
            r.removed_rows == 0,
    {
        TableMutationAggregator {
            base_segments,
            base_summary,
            kind,
            removed: Vec::new(),
            appended: Vec::new(),
            added_rows: 0,
            removed_rows: 0,
        }
    }

    /// Folds one partition's outcome in: removals and appends concatenate
    /// in arrival order, row deltas accumulate saturating.
    pub fn accumulate(&mut self, outcome: &MutationOutcome)
        ensures
            final(self).base_segments@ == old(self).base_segments@,
            final(self).base_summary == old(self).base_summary,
            final(self).kind == old(self).kind,
            final(self).removed@ == old(self).removed@ + outcome.removed@,
            final(self).appended@ == old(self).appended@ + outcome.appended@,
            final(self).added_rows == crate::block_prune::spec_sat_add(
                old(self).added_rows,
                outcome.added_rows,
            ),
            final(self).removed_rows == crate::block_prune::spec_sat_add(
                old(self).removed_rows,
                outcome.removed_rows,
            ),
    {
        let mut i: usize = 0;
        let ghost r0 = self.removed@;
        while i < outcome.removed.len()
            invariant
                i <= outcome.removed@.len(),
                self.removed@ == r0 + outcome.removed@.take(i as int),
                self.appended@ == old(self).appended@,
                self.base_segments@ == old(self).base_segments@,
                self.base_summary == old(self).base_summary,
                self.kind == old(self).kind,
                self.added_rows == old(self).added_rows,
                self.removed_rows == old(self).removed_rows,
            decreases outcome.removed@.len() - i,
        {
            self.removed.push(outcome.removed[i]);
            i = i + 1;
            proof {
                assert(outcome.removed@.take(i as int) =~= outcome.removed@.take(i - 1).push(
                    outcome.removed@[i - 1],
                ));
                assert(r0 + outcome.removed@.take(i as int) =~= (r0 + outcome.removed@.take(i - 1)).push(
                    outcome.removed@[i - 1],
                ));
            }
        }
        proof {
            assert(outcome.removed@.take(outcome.removed@.len() as int) =~= outcome.removed@);
        }
        let mut j: usize = 0;
        let ghost a0 = self.appended@;
        while j < outcome.appended.len()
            invariant
                j <= outcome.appended@.len(),
                self.appended@ == a0 + outcome.appended@.take(j as int),
                self.removed@ == old(self).removed@ + outcome.removed@,
                self.base_segments@ == old(self).base_segments@,
                self.base_summary == old(self).base_summary,
                self.kind == old(self).kind,
                self.added_rows == old(self).added_rows,
                self.removed_rows == old(self).removed_rows,
                a0 == old(self).appended@,
            decreases outcome.appended@.len() - j,
        {
            self.appended.push(outcome.appended[j]);
            j = j + 1;
            proof {
                assert(outcome.appended@.take(j as int) =~= outcome.appended@.take(j - 1).push(
                    outcome.appended@[j - 1],
                ));
                assert(a0 + outcome.appended@.take(j as int) =~= (a0 + outcome.appended@.take(j - 1)).push(
                    outcome.appended@[j - 1],
                ));
            }
        }
        proof {
            assert(outcome.appended@.take(outcome.appended@.len() as int) =~= outcome.appended@);
        }
        self.added_rows = self.added_rows.saturating_add(outcome.added_rows);
        self.removed_rows = self.removed_rows.saturating_add(outcome.removed_rows);
    }

    /// The accumulated delta, once the upstream has signalled completion.
    pub fn finalize(&self) -> (r: SegmentDelta)
        ensures
            r@.removed == self.removed@,
            r@.appended == self.appended@,
            r@.added_rows == self.added_rows,
            r@.removed_rows == self.removed_rows,
    {
        SegmentDelta {
            removed: copy_vec(&self.removed),
            appended: copy_vec(&self.appended),
            added_rows: self.added_rows,
            removed_rows: self.removed_rows,
        }
    }
}

/// The table's current-snapshot pointer: the only mutable shared state of
/// the whole write path, changed exclusively by the conditional publish.
pub struct TableHead {
    pub current: Snapshot,
}

impl TableHead {
    /// Wraps the initial snapshot.
    pub fn create(initial: Snapshot) -> (r: TableHead)
        ensures
            r.current@ == initial@,
    {
        TableHead { current: initial }
    }

    /// Reads the currently published snapshot.
    pub fn read_current(&self) -> (r: Snapshot)
        ensures
            r@ == self.current@,
    {
        self.current.duplicate()
    }

    /// Atomically publishes `candidate` if and only if the current
    /// snapshot's version still equals `expected_base_version`: the
    /// pointer swap on which conflicting writers serialize.
    pub fn try_publish(&mut self, expected_base_version: u64, candidate: Snapshot) -> (ok: bool)
        ensures
            ok == (old(self).current@.version == expected_base_version),
            ok ==> final(self).current@ == candidate@,
            !ok ==> final(self).current@ == old(self).current@,
    {
        if self.current.version == expected_base_version {
            self.current = candidate;
            true
        } else {
            false
        }
    }
}

/// Why a commit attempt ultimately failed.
#[derive(Clone, Copy, PartialEq, Eq, Structural, Debug)]
pub enum CommitError {
    /// The bounded retry budget ran out while concurrent writers kept
    /// winning; the table is left without this writer's delta.
    Exhausted,
}

/// The commit sink's phase: publishing, waiting to rebase after a lost
/// race, done, or given up.
#[derive(Clone, Copy, PartialEq, Eq, Structural, Debug)]
pub enum CommitState {
    Committing,
    Retrying,
    Committed,
    Aborted,
}

/// The result of one conditional publish, as the sink's driver reports it.
#[derive(Clone, Copy, PartialEq, Eq, Structural, Debug)]
pub enum PublishResult {
    Published,
    Conflict,
}

/// The commit stage of a mutation pipeline: holds the writer's delta and a
/// candidate snapshot against its believed base, and reacts to publish
/// results by finishing, rebasing, or giving up when the attempt budget is
/// spent.
pub struct CommitSink {
    pub state: CommitState,
    pub delta: SegmentDelta,
    pub base_version: u64,
    pub candidate: Snapshot,
    pub attempts: u64,
    pub max_attempts: u64,
}

impl CommitSink {
    /// A sink for one writer's delta against a base snapshot.
    pub fn try_create(base: &Snapshot, delta: SegmentDelta, max_attempts: u64) -> (r: CommitSink)
        requires
            base@.version < u64::MAX,
            max_attempts >= 1,
        ensures
            r.state == CommitState::Committing,
            r.delta@ == delta@,
            r.base_version == base@.version,
            r.candidate@ == spec_apply_delta(base@, delta@),
            r.attempts == 0,
            r.max_attempts == max_attempts,
    {
        let candidate = apply_delta(base, &delta);
        CommitSink {
            state: CommitState::Committing,
            delta,
            base_version: base.version,
            candidate,
            attempts: 0,
            max_attempts,
        }
    }

    /// Reacts to one publish attempt: success commits; a lost race moves
    /// to the retrying phase while attempts remain, and aborts once the
    /// budget is spent. The failed candidate is never partially applied.
    pub fn on_publish_result(&mut self, r: PublishResult)
        requires
            old(self).state == CommitState::Committing,
            old(self).attempts < old(self).max_attempts,
        ensures
            final(self).delta@ == old(self).delta@,
            final(self).max_attempts == old(self).max_attempts,
            final(self).attempts == old(self).attempts + 1,
            final(self).candidate@ == old(self).candidate@,
            final(self).base_version == old(self).base_version,
            match r {
                PublishResult::Published => final(self).state == CommitState::Committed,
                PublishResult::Conflict => {
                    if old(self).attempts + 1 < old(self).max_attempts {
                        final(self).state == CommitState::Retrying
                    } else {
                        final(self).state == CommitState::Aborted
                    }
                },
            },
    {
        self.attempts = self.attempts + 1;
        match r {
            PublishResult::Published => {
                self.state = CommitState::Committed;
            },
            PublishResult::Conflict => {
                if self.attempts < self.max_attempts {
                    self.state = CommitState::Retrying;
                } else {
                    self.state = CommitState::Aborted;
                }
            },
        }
    }

    /// The retrying phase's one step: re-reads the now-current snapshot,
    /// re-applies the already-computed delta against the new base, and
    /// returns to committing for the next attempt.
    pub fn rebase(&mut self, current: &Snapshot)
        requires
            old(self).state == CommitState::Retrying,
            current@.version < u64::MAX,
        ensures
            final(self).delta@ == old(self).delta@,
            final(self).max_attempts == old(self).max_attempts,
            final(self).attempts == old(self).attempts,
            final(self).state == CommitState::Committing,
            final(self).base_version == current@.version,
            final(self).candidate@ == spec_apply_delta(current@, old(self).delta@),
    {
        self.base_version = current.version;
        self.candidate = apply_delta(current, &self.delta);
        self.state = CommitState::Committing;
    }
}

/// Publishes one writer's delta through the head with the full protocol
/// loop: read the current snapshot, build the candidate, attempt the
/// conditional publish, and rebase on conflict. With no interfering
/// writer between the read and the publish the first attempt lands, so
/// the commit always succeeds.
pub fn commit_with_retry(head: &mut TableHead, delta: &SegmentDelta, max_attempts: u64) -> (r:
    Result<Snapshot, CommitError>)
    requires
        max_attempts >= 1,
        old(head).current@.version < u64::MAX,
    ensures
        r is Ok,
        match r {
            Ok(s) => {
                &&& s@ == spec_apply_delta(old(head).current@, delta@)
                &&& final(head).current@ == s@
            },
            Err(_) => false,
        },
{
    let mut attempts: u64 = 0;
    while attempts < max_attempts
        invariant
            max_attempts >= 1,
            attempts == 0,
            head.current@ == old(head).current@,
            head.current@.version < u64::MAX,
        decreases max_attempts - attempts,
    {
        let base = head.read_current();
        let candidate = apply_delta(&base, delta);
        let published = candidate.duplicate();
        let ok = head.try_publish(base.version, published);
        if ok {
            return Ok(candidate);
        }
        attempts = attempts + 1;
        proof {
            // the conditional publish cannot fail without interference
            assert(false);
        }
    }
    proof {
        assert(false);
    }
    Err(CommitError::Exhausted)
}

/// Simulates `K` writers that all computed their deltas against the same
/// base snapshot and now commit concurrently, round by round: in each
/// round every still-pending writer attempts the conditional publish
/// against the head it last read; exactly one wins, and every other
/// pending writer observes the conflict, rebases, and retries. After at
/// most `K` rounds all writers have committed — their deltas land in
/// writer order — unless the attempt budget runs out first, which aborts
/// the writers still pending and returns the rounds that did complete.
pub fn simulate_concurrent_commits(
    head: &mut TableHead,
    deltas: Vec<SegmentDelta>,
    max_attempts: u64,
) -> (r: Result<u64, CommitError>)
    requires
        max_attempts >= 1,
        old(head).current@.version + deltas@.len() <= u64::MAX,
    ensures
        (deltas@.len() <= max_attempts) == (r is Ok),
        match r {
            Ok(rounds) => {
                &&& rounds == deltas@.len()
                &&& final(head).current@ == spec_apply_all(
                    old(head).current@,
                    spec_deltas_view(deltas@),
                )
                &&& final(head).current@.version == old(head).current@.version + deltas@.len()
            },
            Err(e) => {
                &&& e == CommitError::Exhausted
                &&& final(head).current@ == spec_apply_all(
                    old(head).current@,
                    spec_deltas_view(deltas@).take(max_attempts as int),
                )
            },
        },
{
    let ghost dviews = spec_deltas_view(deltas@);
    let k = deltas.len();

    // every writer reads the same base and builds its first candidate
    let mut sinks: Vec<CommitSink> = Vec::new();
    let mut i: usize = 0;
    while i < k
        invariant
            k == deltas@.len(),
            dviews == spec_deltas_view(deltas@),
            head.current@ == old(head).current@,
            head.current@.version + k <= u64::MAX,
            max_attempts >= 1,
            i <= k,
            sinks@.len() == i,
            forall|p: int|
                0 <= p < i ==> {
                    &&& (#[trigger] sinks@[p]).state == CommitState::Committing
                    &&& sinks@[p].delta@ == dviews[p]
                    &&& sinks@[p].base_version == head.current@.version
                    &&& sinks@[p].candidate@ == spec_apply_delta(head.current@, dviews[p])
                    &&& sinks@[p].attempts == 0
                    &&& sinks@[p].max_attempts == max_attempts
                },
        decreases k - i,
    {
        let base = head.read_current();
        let d = deltas[i].duplicate();
        proof {
            assert(dviews[i as int] == deltas@[i as int]@);
        }
        let sink = CommitSink::try_create(&base, d, max_attempts);
        sinks.push(sink);
        i = i + 1;
    }

    // rounds: the first pending writer wins, the rest rebase
    let mut round: u64 = 0;
    while sinks.len() > 0
        invariant
            k == deltas@.len(),
            dviews == spec_deltas_view(deltas@),
            dviews.len() == k,
            max_attempts >= 1,
            round <= k,
            round <= max_attempts,
            sinks@.len() > 0 ==> round < max_attempts,
            sinks@.len() == k - round,
            old(head).current@.version + k <= u64::MAX,
            head.current@ == spec_apply_all(old(head).current@, dviews.take(round as int)),
            head.current@.version == old(head).current@.version + round,
            forall|p: int|
                0 <= p < sinks@.len() ==> {
                    &&& (#[trigger] sinks@[p]).state == CommitState::Committing
                    &&& sinks@[p].delta@ == dviews[round + p]
                    &&& sinks@[p].base_version == head.current@.version
                    &&& sinks@[p].candidate@ == spec_apply_delta(head.current@, dviews[round + p])
                    &&& sinks@[p].attempts == round
                    &&& sinks@[p].max_attempts == max_attempts
                },
        decreases sinks@.len(),
    {
        let ghost head_before = head.current@;
        let mut winner = sinks.remove(0);
        let candidate = winner.candidate.duplicate();
        let ok = head.try_publish(winner.base_version, candidate);
        proof {
            assert(ok);
        }
        winner.on_publish_result(PublishResult::Published);
        proof {
            assert(winner.state == CommitState::Committed);
            assert(head.current@ == spec_apply_delta(head_before, dviews[round as int]));
            lemma_apply_all_snoc(old(head).current@, dviews, round as int);
        }

        // every other pending writer attempts against its stale base,
        // loses, and reacts to the conflict
        let mut q: usize = 0;
        let mut aborted: bool = false;
        while q < sinks.len()
            invariant
                k == deltas@.len(),
                dviews.len() == k,
                max_attempts >= 1,
                round < k,
                round < max_attempts,
                q <= sinks@.len(),
                sinks@.len() == k - round - 1,
                head_before.version < u64::MAX,
                head_before.version == old(head).current@.version + round,
                head.current@ == spec_apply_all(old(head).current@, dviews.take(round + 1)),
                head.current@.version == old(head).current@.version + round + 1,
                old(head).current@.version + k <= u64::MAX,
                aborted == (round + 1 == max_attempts && q > 0),
                forall|p: int|
                    q <= p < sinks@.len() ==> {
                        &&& (#[trigger] sinks@[p]).state == CommitState::Committing
                        &&& sinks@[p].delta@ == dviews[round + 1 + p]
                        &&& sinks@[p].base_version == head_before.version
                        &&& sinks@[p].candidate@ == spec_apply_delta(
                            head_before,
                            dviews[round + 1 + p],
                        )
                        &&& sinks@[p].attempts == round
                        &&& sinks@[p].max_attempts == max_attempts
                    },
                !aborted ==> forall|p: int|
                    0 <= p < q ==> {
                        &&& (#[trigger] sinks@[p]).state == CommitState::Committing
                        &&& sinks@[p].delta@ == dviews[round + 1 + p]
                        &&& sinks@[p].base_version == head.current@.version
                        &&& sinks@[p].candidate@ == spec_apply_delta(
                            head.current@,
                            dviews[round + 1 + p],
                        )
                        &&& sinks@[p].attempts == round + 1
                        &&& sinks@[p].max_attempts == max_attempts
                    },
            decreases sinks@.len() - q,
        {
            let mut s = sinks.remove(q);
            let cand = s.candidate.duplicate();
            let lost = head.try_publish(s.base_version, cand);
            proof {
                assert(!lost);
            }
            s.on_publish_result(PublishResult::Conflict);
            if matches!(s.state, CommitState::Retrying) {
                let current = head.read_current();
                s.rebase(&current);
            } else {
                aborted = true;
            }
            sinks.insert(q, s);
            q = q + 1;
        }
        round = round + 1;
        if aborted {
            proof {
                assert(round == max_attempts);
                assert(round < k);
            }
            return Err(CommitError::Exhausted);
        }
    }
    proof {
        assert(round == k);
        assert(dviews.take(k as int) =~= dviews);
    }
    Ok(round)
}

/// Applying one more delta extends the fold by one step.
proof fn lemma_apply_all_snoc(base: SnapshotView, ds: Seq<SegmentDeltaView>, i: int)
    requires
        0 <= i < ds.len(),
    ensures
        spec_apply_all(base, ds.take(i + 1)) == spec_apply_delta(
            spec_apply_all(base, ds.take(i)),
            ds[i],
        ),
    decreases i,
{
    if i == 0 {
        assert(ds.take(0) =~= Seq::<SegmentDeltaView>::empty());
        assert(ds.take(1).first() == ds[0]);
        assert(ds.take(1).drop_first() =~= Seq::<SegmentDeltaView>::empty());
        assert(spec_apply_all(base, ds.take(1))
            == spec_apply_all(spec_apply_delta(base, ds[0]), Seq::<SegmentDeltaView>::empty()));
    } else {
        lemma_apply_all_snoc(spec_apply_delta(base, ds.first()), ds.drop_first(), i - 1);
        assert(ds.take(i + 1).first() == ds.first());
        assert(ds.take(i + 1).drop_first() =~= ds.drop_first().take(i));
        assert(ds.take(i).first() == ds.first());
        assert(ds.take(i).drop_first() =~= ds.drop_first().take(i - 1));
        assert(ds.drop_first()[i - 1] == ds[i]);
    }
}

} // verus!
