//! Pruning pipeline behavior: stage-by-stage pruning, batching, limits,
//! statistics counters, failure handling, and the top-N scenario.

use fuse_engine::BlockMeta;
use fuse_engine::BlockMetaIndex;
use fuse_engine::BloomDigest;
use fuse_engine::ColumnDataType;
use fuse_engine::ColumnStat;
use fuse_engine::CompareOp;
use fuse_engine::FilterPredicate;
use fuse_engine::FusePruner;
use fuse_engine::Location;
use fuse_engine::PruneError;
use fuse_engine::PushDownInfo;
use fuse_engine::SegmentEntry;
use fuse_engine::SegmentFilter;
use fuse_engine::SegmentInfo;
use fuse_engine::SegmentLocation;
use fuse_engine::Settings;
use fuse_engine::SortItem;
use fuse_engine::TableSchema;
use fuse_engine::make_batches;
use fuse_engine::range_may_match;
use fuse_engine::TopNError;
use fuse_engine::TopNPrunner;

fn stat(min: i64, max: i64) -> Option<ColumnStat> {
    Some(ColumnStat {
        min,
        max,
        null_count: 0,
    })
}

fn loc(id: u64) -> Location {
    Location {
        object_id: id,
        format_version: 0,
    }
}

fn block(id: u64, rows: u64, min: i64, max: i64) -> BlockMeta {
    BlockMeta {
        location: loc(id),
        row_count: rows,
        col_stats: vec![stat(min, max)],
        bloom: Vec::new(),
        page_stats: None,
    }
}

fn entry(idx: usize, blocks: Vec<BlockMeta>, seg_min: i64, seg_max: i64) -> SegmentEntry {
    SegmentEntry {
        location: SegmentLocation {
            segment_idx: idx,
            location: loc(1000 + idx as u64),
        },
        info: Some(SegmentInfo {
            col_stats: vec![stat(seg_min, seg_max)],
            blocks,
        }),
    }
}

fn schema_one_number() -> TableSchema {
    TableSchema {
        columns: vec![ColumnDataType::Number],
    }
}

fn settings() -> Settings {
    Settings {
        max_threads: 4,
        max_storage_io_requests: 10,
    }
}

fn no_push_down() -> Option<PushDownInfo> {
    None
}

#[test]
fn no_filter_keeps_everything() {
    let pd = no_push_down();
    let mut pruner = FusePruner::create(settings(), schema_one_number(), pd.as_ref());
    let entries = vec![
        entry(0, vec![block(1, 10, 0, 5), block(2, 10, 6, 9)], 0, 9),
        entry(1, vec![block(3, 10, 10, 20)], 10, 20),
    ];
    let out = pruner.pruning(entries).unwrap();
    assert_eq!(out.len(), 3);
    let stats = pruner.pruning_stats();
    assert_eq!(stats.segments_range_pruning_before, 2);
    assert_eq!(stats.segments_range_pruning_after, 2);
    assert_eq!(stats.blocks_range_pruning_before, 3);
    assert_eq!(stats.blocks_range_pruning_after, 3);
    assert_eq!(stats.blocks_bloom_pruning_before, 0);
    assert_eq!(stats.blocks_bloom_pruning_after, 0);
}

#[test]
fn range_filter_drops_segments_and_blocks() {
    // filter: column 0 == 15
    let pd = Some(PushDownInfo {
        filter: Some(FilterPredicate {
            column: 0,
            op: CompareOp::Eq,
            value: 15,
        }),
        limit: None,
        order_by: Vec::new(),
        segment_filter: None,
    });
    let mut pruner = FusePruner::create(settings(), schema_one_number(), pd.as_ref());
    let entries = vec![
        // whole segment out of range
        entry(0, vec![block(1, 10, 0, 5)], 0, 5),
        // segment in range; one block of two matches
        entry(1, vec![block(2, 10, 0, 9), block(3, 10, 10, 20)], 0, 20),
    ];
    let out = pruner.pruning(entries).unwrap();
    assert_eq!(out.len(), 1);
    assert_eq!(
        out[0].0,
        BlockMetaIndex {
            segment_idx: 1,
            block_idx: 1
        }
    );
    assert_eq!(out[0].1.location, loc(3));
    let stats = pruner.pruning_stats();
    assert_eq!(stats.segments_range_pruning_before, 2);
    assert_eq!(stats.segments_range_pruning_after, 1);
    assert_eq!(stats.blocks_range_pruning_before, 2);
    assert_eq!(stats.blocks_range_pruning_after, 1);
}

#[test]
fn range_test_per_operator() {
    let s = ColumnStat {
        min: 10,
        max: 20,
        null_count: 0,
    };
    assert!(range_may_match(CompareOp::Eq, 10, Some(&s)));
    assert!(range_may_match(CompareOp::Eq, 20, Some(&s)));
    assert!(!range_may_match(CompareOp::Eq, 9, Some(&s)));
    assert!(!range_may_match(CompareOp::Eq, 21, Some(&s)));
    assert!(range_may_match(CompareOp::NotEq, 10, Some(&s)));
    let point = ColumnStat {
        min: 7,
        max: 7,
        null_count: 0,
    };
    assert!(!range_may_match(CompareOp::NotEq, 7, Some(&point)));
    assert!(range_may_match(CompareOp::Lt, 11, Some(&s)));
    assert!(!range_may_match(CompareOp::Lt, 10, Some(&s)));
    assert!(range_may_match(CompareOp::Lte, 10, Some(&s)));
    assert!(!range_may_match(CompareOp::Lte, 9, Some(&s)));
    assert!(range_may_match(CompareOp::Gt, 19, Some(&s)));
    assert!(!range_may_match(CompareOp::Gt, 20, Some(&s)));
    assert!(range_may_match(CompareOp::Gte, 20, Some(&s)));
    assert!(!range_may_match(CompareOp::Gte, 21, Some(&s)));
    // no statistics: nothing can be ruled out
    assert!(range_may_match(CompareOp::Eq, 12345, None));
}

#[test]
fn bloom_filter_rejects_definite_misses() {
    let pd = Some(PushDownInfo {
        filter: Some(FilterPredicate {
            column: 0,
            op: CompareOp::Eq,
            value: 5,
        }),
        limit: None,
        order_by: Vec::new(),
        segment_filter: None,
    });
    let mut pruner = FusePruner::create(settings(), schema_one_number(), pd.as_ref());
    let with_digest_miss = BlockMeta {
        bloom: vec![BloomDigest {
            column: 0,
            candidates: vec![1, 2, 3],
        }],
        ..block(1, 10, 0, 9)
    };
    let with_digest_hit = BlockMeta {
        bloom: vec![BloomDigest {
            column: 0,
            candidates: vec![4, 5, 6],
        }],
        ..block(2, 10, 0, 9)
    };
    // a block without a digest cannot be ruled out
    let without_digest = block(3, 10, 0, 9);
    let entries = vec![entry(
        0,
        vec![with_digest_miss, with_digest_hit, without_digest],
        0,
        9,
    )];
    let out = pruner.pruning(entries).unwrap();
    let kept: Vec<u64> = out.iter().map(|p| p.1.location.object_id).collect();
    assert_eq!(kept, vec![2, 3]);
    let stats = pruner.pruning_stats();
    assert_eq!(stats.blocks_bloom_pruning_before, 3);
    assert_eq!(stats.blocks_bloom_pruning_after, 2);
}

#[test]
fn page_pruning_native_format() {
    let pd = Some(PushDownInfo {
        filter: Some(FilterPredicate {
            column: 0,
            op: CompareOp::Eq,
            value: 15,
        }),
        limit: None,
        order_by: Vec::new(),
        segment_filter: None,
    });
    // cluster key on column 0 enables page pruning
    let mut pruner =
        FusePruner::create_with_pages(settings(), schema_one_number(), pd.as_ref(), Some(0));
    let no_page_hits = BlockMeta {
        page_stats: Some(vec![
            ColumnStat {
                min: 0,
                max: 10,
                null_count: 0,
            },
            ColumnStat {
                min: 20,
                max: 30,
                null_count: 0,
            },
        ]),
        ..block(1, 10, 0, 30)
    };
    let page_hit = BlockMeta {
        page_stats: Some(vec![ColumnStat {
            min: 10,
            max: 16,
            null_count: 0,
        }]),
        ..block(2, 10, 0, 30)
    };
    let entries = vec![entry(0, vec![no_page_hits, page_hit], 0, 30)];
    let out = pruner.pruning(entries).unwrap();
    assert_eq!(out.len(), 1);
    assert_eq!(out[0].1.location, loc(2));
}

#[test]
fn internal_column_pruner_drops_by_segment_name() {
    let pd = Some(PushDownInfo {
        filter: None,
        limit: None,
        order_by: Vec::new(),
        segment_filter: Some(SegmentFilter {
            op: CompareOp::Gte,
            value: 1001,
        }),
    });
    let mut pruner = FusePruner::create(settings(), schema_one_number(), pd.as_ref());
    let entries = vec![
        entry(0, vec![block(1, 10, 0, 9)], 0, 9), // name 1000: dropped
        entry(1, vec![block(2, 10, 0, 9)], 0, 9), // name 1001: kept
    ];
    let out = pruner.pruning(entries).unwrap();
    assert_eq!(out.len(), 1);
    assert_eq!(out[0].0.segment_idx, 1);
    // a segment the internal pruner drops never reaches range pruning
    let stats = pruner.pruning_stats();
    assert_eq!(stats.segments_range_pruning_before, 1);
}

#[test]
fn limit_pruning_short_circuits() {
    let pd = Some(PushDownInfo {
        filter: None,
        limit: Some(10),
        order_by: Vec::new(),
        segment_filter: None,
    });
    let mut pruner = FusePruner::create(settings(), schema_one_number(), pd.as_ref());
    let entries = vec![entry(
        0,
        vec![
            block(1, 4, 0, 9),
            block(2, 4, 0, 9),
            block(3, 4, 0, 9),
            block(4, 4, 0, 9),
        ],
        0,
        9,
    )];
    let out = pruner.pruning(entries).unwrap();
    // blocks are accepted while the accumulated rows are below the limit
    assert_eq!(out.len(), 3);
}

#[test]
fn limit_is_ignored_under_filter_or_ordering() {
    // a filter makes limit pruning unsound, so everything stays
    let pd = Some(PushDownInfo {
        filter: Some(FilterPredicate {
            column: 0,
            op: CompareOp::Gte,
            value: 0,
        }),
        limit: Some(1),
        order_by: Vec::new(),
        segment_filter: None,
    });
    let mut pruner = FusePruner::create(settings(), schema_one_number(), pd.as_ref());
    let entries = vec![entry(0, vec![block(1, 5, 0, 9), block(2, 5, 0, 9)], 0, 9)];
    let out = pruner.pruning(entries).unwrap();
    assert_eq!(out.len(), 2);
}

#[test]
fn missing_segment_metadata_fails_fast() {
    let pd = no_push_down();
    let mut pruner = FusePruner::create(settings(), schema_one_number(), pd.as_ref());
    let broken = SegmentEntry {
        location: SegmentLocation {
            segment_idx: 1,
            location: loc(1001),
        },
        info: None,
    };
    let entries = vec![entry(0, vec![block(1, 10, 0, 9)], 0, 9), broken];
    match pruner.pruning(entries) {
        Err(PruneError::Storage { segment }) => {
            assert_eq!(segment.segment_idx, 1);
            assert_eq!(segment.location, loc(1001));
        }
        Ok(_) => panic!("pruning must fail on missing segment metadata"),
    }
    // a failed call leaves the counters untouched
    let stats = pruner.pruning_stats();
    assert_eq!(stats.segments_range_pruning_before, 0);
}

#[test]
fn missing_metadata_of_internally_dropped_segment_is_no_error() {
    let pd = Some(PushDownInfo {
        filter: None,
        limit: None,
        order_by: Vec::new(),
        segment_filter: Some(SegmentFilter {
            op: CompareOp::Lt,
            value: 1001,
        }),
    });
    let mut pruner = FusePruner::create(settings(), schema_one_number(), pd.as_ref());
    let dropped_and_broken = SegmentEntry {
        location: SegmentLocation {
            segment_idx: 1,
            location: loc(1001),
        },
        info: None,
    };
    let entries = vec![entry(0, vec![block(1, 10, 0, 9)], 0, 9), dropped_and_broken];
    let out = pruner.pruning(entries).unwrap();
    assert_eq!(out.len(), 1);
}

#[test]
fn pruning_twice_yields_identical_sets() {
    let mk = || {
        Some(PushDownInfo {
            filter: Some(FilterPredicate {
                column: 0,
                op: CompareOp::Gte,
                value: 5,
            }),
            limit: None,
            order_by: Vec::new(),
            segment_filter: None,
        })
    };
    let mk_entries = || {
        vec![
            entry(0, vec![block(1, 10, 0, 4), block(2, 10, 5, 9)], 0, 9),
            entry(1, vec![block(3, 10, 7, 12)], 7, 12),
        ]
    };
    let pd1 = mk();
    let mut p1 = FusePruner::create(settings(), schema_one_number(), pd1.as_ref());
    let out1 = p1.pruning(mk_entries()).unwrap();
    let pd2 = mk();
    let mut p2 = FusePruner::create(settings(), schema_one_number(), pd2.as_ref());
    let out2 = p2.pruning(mk_entries()).unwrap();
    assert_eq!(out1.len(), out2.len());
    for (a, b) in out1.iter().zip(out2.iter()) {
        assert_eq!(a.0, b.0);
        assert_eq!(a.1, b.1);
    }
    // and the same pruner run again agrees as well
    let out3 = p1.pruning(mk_entries()).unwrap();
    assert_eq!(out1.len(), out3.len());
    for (a, b) in out1.iter().zip(out3.iter()) {
        assert_eq!(a.0, b.0);
    }
}

#[test]
fn concurrency_floor_applies() {
    let low = Settings {
        max_threads: 4,
        max_storage_io_requests: 0,
    };
    let pd = no_push_down();
    let pruner = FusePruner::create(low, schema_one_number(), pd.as_ref());
    assert_eq!(pruner.pruning_ctx.max_concurrency, 10);
    assert!(pruner.pruning_ctx.concurrency_floored);
    let high = Settings {
        max_threads: 4,
        max_storage_io_requests: 64,
    };
    let pd2 = no_push_down();
    let pruner2 = FusePruner::create(high, schema_one_number(), pd2.as_ref());
    assert_eq!(pruner2.pruning_ctx.max_concurrency, 64);
    assert!(!pruner2.pruning_ctx.concurrency_floored);
}

#[test]
fn batches_balance_and_cover() {
    let entries: Vec<SegmentEntry> = (0..100)
        .map(|i| entry(i, vec![block(i as u64, 1, 0, 9)], 0, 9))
        .collect();
    let batches = make_batches(&entries, 10);
    assert_eq!(batches.len(), 10);
    for b in &batches {
        assert_eq!(b.len(), 10);
    }
    let total: usize = batches.iter().map(|b| b.len()).sum();
    assert_eq!(total, 100);

    // a remainder spreads one extra element over the first batches
    let entries: Vec<SegmentEntry> = (0..10)
        .map(|i| entry(i, vec![block(i as u64, 1, 0, 9)], 0, 9))
        .collect();
    let batches = make_batches(&entries, 3);
    let sizes: Vec<usize> = batches.iter().map(|b| b.len()).collect();
    assert_eq!(sizes, vec![4, 3, 3]);
    let total: usize = sizes.iter().sum();
    assert_eq!(total, 10);
    // batch sizes differ by at most one
    assert!(sizes.iter().max().unwrap() - sizes.iter().min().unwrap() <= 1);

    // fewer segments than the budget: one batch per segment
    let entries: Vec<SegmentEntry> = (0..3)
        .map(|i| entry(i, vec![block(i as u64, 1, 0, 9)], 0, 9))
        .collect();
    let batches = make_batches(&entries, 10);
    assert_eq!(batches.len(), 3);
    for b in &batches {
        assert_eq!(b.len(), 1);
    }

    // the batch order preserves the input order
    let entries: Vec<SegmentEntry> = (0..7)
        .map(|i| entry(i, vec![block(i as u64, 1, 0, 9)], 0, 9))
        .collect();
    let batches = make_batches(&entries, 2);
    let flat: Vec<usize> = batches
        .iter()
        .flat_map(|b| b.iter().map(|e| e.location.segment_idx))
        .collect();
    assert_eq!(flat, vec![0, 1, 2, 3, 4, 5, 6]);
}

#[test]
fn empty_segment_list_prunes_to_nothing() {
    let pd = no_push_down();
    let mut pruner = FusePruner::create(settings(), schema_one_number(), pd.as_ref());
    let out = pruner.pruning(Vec::new()).unwrap();
    assert!(out.is_empty());
    let entries: Vec<SegmentEntry> = Vec::new();
    let batches = make_batches(&entries, 10);
    assert!(batches.is_empty());
}

#[test]
fn topn_scenario_hundred_segments() {
    // 100 segments, concurrency 10, no filter, limit 50, ascending sort
    // on column 0; each block holds one row whose value is known exactly.
    let values: Vec<i64> = (0..100).map(|i| ((i * 37) % 100) as i64).collect();
    let pd = Some(PushDownInfo {
        filter: None,
        limit: Some(50),
        order_by: vec![SortItem {
            column: 0,
            asc: true,
        }],
        segment_filter: None,
    });
    let mut pruner = FusePruner::create(settings(), schema_one_number(), pd.as_ref());
    let entries: Vec<SegmentEntry> = values
        .iter()
        .enumerate()
        .map(|(i, &v)| entry(i, vec![block(i as u64, 1, v, v)], v, v))
        .collect();
    let out = pruner.pruning(entries).unwrap();

    // brute force: full sort of all rows, then the first 50
    let mut sorted = values.clone();
    sorted.sort();
    let mut expected: Vec<i64> = sorted[..50].to_vec();
    let mut got: Vec<i64> = out.iter().map(|p| p.1.col_stats[0].unwrap().min).collect();
    expected.sort();
    got.sort();
    assert_eq!(got, expected);
    assert_eq!(out.len(), 50);
}

#[test]
fn topn_desc_keeps_largest() {
    let pd = Some(PushDownInfo {
        filter: None,
        limit: Some(2),
        order_by: vec![SortItem {
            column: 0,
            asc: false,
        }],
        segment_filter: None,
    });
    let mut pruner = FusePruner::create(settings(), schema_one_number(), pd.as_ref());
    let entries: Vec<SegmentEntry> = (0..5)
        .map(|i| {
            let v = i as i64 * 10;
            entry(i, vec![block(i as u64, 1, v, v)], v, v)
        })
        .collect();
    let out = pruner.pruning(entries).unwrap();
    let mut got: Vec<i64> = out.iter().map(|p| p.1.col_stats[0].unwrap().min).collect();
    got.sort();
    assert_eq!(got, vec![30, 40]);
}

#[test]
fn topn_degrades_on_missing_stats() {
    // one block lacks statistics for the sort column: the top-N stage
    // falls back to the unpruned set
    let pd = Some(PushDownInfo {
        filter: None,
        limit: Some(1),
        order_by: vec![SortItem {
            column: 0,
            asc: true,
        }],
        segment_filter: None,
    });
    let mut pruner = FusePruner::create(settings(), schema_one_number(), pd.as_ref());
    let no_stats = BlockMeta {
        col_stats: vec![None],
        ..block(9, 1, 0, 0)
    };
    let entries = vec![
        entry(0, vec![block(1, 1, 5, 5)], 5, 5),
        entry(1, vec![no_stats], 0, 0),
    ];
    let out = pruner.pruning(entries).unwrap();
    assert_eq!(out.len(), 2);
}

#[test]
fn topn_degrades_on_multi_column_sort() {
    let pd = Some(PushDownInfo {
        filter: None,
        limit: Some(1),
        order_by: vec![
            SortItem {
                column: 0,
                asc: true,
            },
            SortItem {
                column: 1,
                asc: true,
            },
        ],
        segment_filter: None,
    });
    let mut pruner = FusePruner::create(settings(), schema_one_number(), pd.as_ref());
    let entries = vec![entry(0, vec![block(1, 1, 5, 5), block(2, 1, 7, 7)], 5, 7)];
    let out = pruner.pruning(entries).unwrap();
    assert_eq!(out.len(), 2);
}

#[test]
fn topn_skipped_when_filter_present() {
    // all three conditions must hold together; with a filter the top-N
    // stage never runs
    let pd = Some(PushDownInfo {
        filter: Some(FilterPredicate {
            column: 0,
            op: CompareOp::Gte,
            value: 0,
        }),
        limit: Some(1),
        order_by: vec![SortItem {
            column: 0,
            asc: true,
        }],
        segment_filter: None,
    });
    let mut pruner = FusePruner::create(settings(), schema_one_number(), pd.as_ref());
    let entries = vec![entry(0, vec![block(1, 1, 5, 5), block(2, 1, 7, 7)], 5, 7)];
    let out = pruner.pruning(entries).unwrap();
    assert_eq!(out.len(), 2);
}

#[test]
fn topn_prunner_reports_why_it_degrades() {
    // not a single-column ordering
    let p = TopNPrunner::create(Vec::new(), 5);
    match p.prune(&Vec::new()) {
        Err(TopNError::UnsupportedSort) => {}
        _ => panic!("an empty ordering is unsupported"),
    }
    // a block without statistics for the sort column
    let p2 = TopNPrunner::create(
        vec![SortItem {
            column: 0,
            asc: true,
        }],
        5,
    );
    let no_stats = BlockMeta {
        col_stats: vec![None],
        ..block(1, 1, 0, 0)
    };
    let pairs = vec![(
        BlockMetaIndex {
            segment_idx: 0,
            block_idx: 0,
        },
        no_stats,
    )];
    match p2.prune(&pairs) {
        Err(TopNError::MissingStats) => {}
        _ => panic!("missing sort-column statistics degrade the attempt"),
    }
}

#[test]
fn sort_i64_orders_and_preserves_values() {
    let v = vec![5i64, -3, 9, 5, 0];
    let sorted = fuse_engine::sort_i64(&v);
    assert_eq!(sorted, vec![-3, 0, 5, 5, 9]);
}

#[test]
fn monotonic_narrowing_across_stages() {
    // with filter, bloom, and limit all active, each stage's survivors
    // are a subset of the stage before: check via counters and output
    let pd = Some(PushDownInfo {
        filter: Some(FilterPredicate {
            column: 0,
            op: CompareOp::Eq,
            value: 5,
        }),
        limit: None,
        order_by: Vec::new(),
        segment_filter: None,
    });
    let mut pruner = FusePruner::create(settings(), schema_one_number(), pd.as_ref());
    let miss = BlockMeta {
        bloom: vec![BloomDigest {
            column: 0,
            candidates: vec![1],
        }],
        ..block(1, 10, 0, 9)
    };
    let entries = vec![entry(
        0,
        vec![miss, block(2, 10, 0, 9), block(3, 10, 100, 200)],
        0,
        200,
    )];
    let out = pruner.pruning(entries).unwrap();
    let stats = pruner.pruning_stats();
    assert!(stats.blocks_range_pruning_after <= stats.blocks_range_pruning_before);
    assert!(stats.blocks_bloom_pruning_after <= stats.blocks_bloom_pruning_before);
    assert!(stats.blocks_bloom_pruning_before <= stats.blocks_range_pruning_after);
    assert!((out.len() as u64) <= stats.blocks_bloom_pruning_after);
    assert_eq!(out.len(), 1);
    assert_eq!(out[0].1.location, loc(2));
}
