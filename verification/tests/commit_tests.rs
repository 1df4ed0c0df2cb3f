//! The mutation aggregator and the optimistic commit protocol: delta
//! application, accumulation, the retry loop, round-based concurrent
//! convergence, exhaustion, and the two-writer rebase scenario.

use fuse_engine::ColumnDataType;
use fuse_engine::CommitError;
use fuse_engine::FuseTable;
use fuse_engine::PipeStage;
use fuse_engine::Pipeline;
use fuse_engine::TableSchema;
use fuse_engine::CommitSink;
use fuse_engine::CommitState;
use fuse_engine::Location;
use fuse_engine::MutationKind;
use fuse_engine::MutationOutcome;
use fuse_engine::PublishResult;
use fuse_engine::SegmentDelta;
use fuse_engine::Snapshot;
use fuse_engine::Summary;
use fuse_engine::TableHead;
use fuse_engine::TableMutationAggregator;
use fuse_engine::apply_delta;
use fuse_engine::commit_with_retry;
use fuse_engine::simulate_concurrent_commits;

fn loc(id: u64) -> Location {
    Location {
        object_id: id,
        format_version: 0,
    }
}

fn base_snapshot() -> Snapshot {
    Snapshot {
        version: 5,
        segments: vec![loc(1), loc(2), loc(3)],
        summary: Summary {
            row_count: 300,
            block_count: 3,
            byte_size: 3000,
        },
    }
}

fn delta(removed: Vec<u64>, appended: Vec<u64>, added: u64, removed_rows: u64) -> SegmentDelta {
    SegmentDelta {
        removed: removed.into_iter().map(loc).collect(),
        appended: appended.into_iter().map(loc).collect(),
        added_rows: added,
        removed_rows,
    }
}

#[test]
fn apply_delta_rewrites_segments_and_summary() {
    let base = base_snapshot();
    let d = delta(vec![2], vec![9, 10], 150, 100);
    let next = apply_delta(&base, &d);
    assert_eq!(next.version, 6);
    assert_eq!(next.segments, vec![loc(1), loc(3), loc(9), loc(10)]);
    assert_eq!(next.summary.row_count, 350);
}

#[test]
fn aggregator_folds_outcomes_in_order() {
    let base = base_snapshot();
    let mut agg = TableMutationAggregator::create(
        base.segments.clone(),
        base.summary,
        MutationKind::Replace,
    );
    agg.accumulate(&MutationOutcome {
        removed: vec![loc(2)],
        appended: vec![loc(9)],
        added_rows: 100,
        removed_rows: 40,
    });
    agg.accumulate(&MutationOutcome {
        removed: vec![loc(3)],
        appended: vec![loc(10), loc(11)],
        added_rows: 50,
        removed_rows: 60,
    });
    let d = agg.finalize();
    assert_eq!(d.removed, vec![loc(2), loc(3)]);
    assert_eq!(d.appended, vec![loc(9), loc(10), loc(11)]);
    assert_eq!(d.added_rows, 150);
    assert_eq!(d.removed_rows, 100);
}

#[test]
fn single_writer_commits_first_try() {
    let mut head = TableHead::create(base_snapshot());
    let d = delta(vec![], vec![42], 10, 0);
    let committed = commit_with_retry(&mut head, &d, 3).unwrap();
    assert_eq!(committed.version, 6);
    assert_eq!(head.current.version, 6);
    assert_eq!(
        head.current.segments,
        vec![loc(1), loc(2), loc(3), loc(42)]
    );
}

#[test]
fn two_writers_rebase_scenario() {
    // writer A and writer B both compute deltas against version 5;
    // A commits first, B's conditional publish fails, B rebases onto
    // version 6 and commits; both deltas land
    let base = base_snapshot();
    let mut head = TableHead::create(base_snapshot());
    let da = delta(vec![1], vec![100], 10, 5);
    let db = delta(vec![2], vec![200], 20, 5);
    let mut sink_a = CommitSink::try_create(&base, da, 3);
    let mut sink_b = CommitSink::try_create(&base, db, 3);

    // A wins the pointer swap
    let ok_a = head.try_publish(sink_a.base_version, sink_a.candidate.clone());
    assert!(ok_a);
    sink_a.on_publish_result(PublishResult::Published);
    assert_eq!(sink_a.state, CommitState::Committed);
    assert_eq!(head.current.version, 6);

    // B loses against the stale base, enters the retrying phase, and
    // rebases onto the now-current snapshot
    let ok_b = head.try_publish(sink_b.base_version, sink_b.candidate.clone());
    assert!(!ok_b);
    sink_b.on_publish_result(PublishResult::Conflict);
    assert_eq!(sink_b.state, CommitState::Retrying);
    let current = head.read_current();
    sink_b.rebase(&current);
    assert_eq!(sink_b.state, CommitState::Committing);
    assert_eq!(sink_b.base_version, 6);

    // the rebased candidate lands
    let ok_b2 = head.try_publish(sink_b.base_version, sink_b.candidate.clone());
    assert!(ok_b2);
    sink_b.on_publish_result(PublishResult::Published);
    assert_eq!(sink_b.state, CommitState::Committed);

    // the final segment set reflects both deltas
    assert_eq!(head.current.version, 7);
    assert_eq!(head.current.segments, vec![loc(3), loc(100), loc(200)]);
}

#[test]
fn concurrent_commits_converge_one_per_round() {
    let mut head = TableHead::create(base_snapshot());
    let deltas = vec![
        delta(vec![], vec![100], 1, 0),
        delta(vec![], vec![200], 1, 0),
        delta(vec![], vec![300], 1, 0),
    ];
    let rounds = simulate_concurrent_commits(&mut head, deltas, 5).unwrap();
    // exactly one writer succeeds per round
    assert_eq!(rounds, 3);
    assert_eq!(head.current.version, 8);
    assert_eq!(
        head.current.segments,
        vec![loc(1), loc(2), loc(3), loc(100), loc(200), loc(300)]
    );
}

#[test]
fn commit_retry_bound_exhausts() {
    let mut head = TableHead::create(base_snapshot());
    let deltas = vec![
        delta(vec![], vec![100], 1, 0),
        delta(vec![], vec![200], 1, 0),
        delta(vec![], vec![300], 1, 0),
    ];
    // three writers against a budget of two attempts each: the third
    // writer runs out and aborts; the first two commits stand
    match simulate_concurrent_commits(&mut head, deltas, 2) {
        Err(CommitError::Exhausted) => {}
        Ok(_) => panic!("the retry bound must be exceeded"),
    }
    assert_eq!(head.current.version, 7);
    assert_eq!(
        head.current.segments,
        vec![loc(1), loc(2), loc(3), loc(100), loc(200)]
    );
}

#[test]
fn sink_aborts_when_budget_spent() {
    let base = base_snapshot();
    let mut sink = CommitSink::try_create(&base, delta(vec![], vec![9], 1, 0), 1);
    sink.on_publish_result(PublishResult::Conflict);
    assert_eq!(sink.state, CommitState::Aborted);
}

#[test]
fn mutation_pipeline_tail_wiring() {
    let table = FuseTable {
        schema: TableSchema {
            columns: vec![ColumnDataType::Number],
        },
    };
    let base = base_snapshot();
    let mut pipeline = Pipeline::create(8);
    table.chain_mutation_pipes(&mut pipeline, &base, MutationKind::Replace, 10);
    // commit is strictly sequential per table
    assert_eq!(pipeline.width, 1);
    assert_eq!(pipeline.stages.len(), 2);
    match &pipeline.stages[0] {
        PipeStage::Aggregator { aggregator } => {
            assert_eq!(aggregator.base_segments, base.segments);
            assert_eq!(aggregator.base_summary, base.summary);
            assert_eq!(aggregator.kind, MutationKind::Replace);
            assert!(aggregator.removed.is_empty());
            assert!(aggregator.appended.is_empty());
        }
        _ => panic!("the aggregator comes before the commit sink"),
    }
    match &pipeline.stages[1] {
        PipeStage::Commit { sink } => {
            assert_eq!(sink.state, CommitState::Committing);
            assert_eq!(sink.base_version, base.version);
            assert_eq!(sink.max_attempts, 10);
            assert_eq!(sink.attempts, 0);
        }
        _ => panic!("the commit sink ends the pipeline"),
    }
}

#[test]
fn summary_row_count_saturates() {
    let base = Snapshot {
        version: 0,
        segments: vec![],
        summary: Summary {
            row_count: 10,
            block_count: 0,
            byte_size: 0,
        },
    };
    // removing more rows than exist floors the counter at zero
    let d = delta(vec![], vec![], 0, 50);
    let next = apply_delta(&base, &d);
    assert_eq!(next.summary.row_count, 0);
}
