//! Mutation partitioning: balanced shares, exclusive ownership, the
//! shuffled-membership scenario, merge worker construction, and the
//! bloom-column choice.

use fuse_engine::ColumnDataType;
use fuse_engine::FuseTable;
use fuse_engine::Location;
use fuse_engine::OnConflictField;
use fuse_engine::Snapshot;
use fuse_engine::Summary;
use fuse_engine::TableSchema;

fn loc(id: u64) -> Location {
    Location {
        object_id: id,
        format_version: 0,
    }
}

fn segs(n: u64) -> Vec<Location> {
    (0..n).map(loc).collect()
}

#[test]
fn partition_ten_segments_into_three() {
    // ten segments over three workers: sizes {4,3,3} as a multiset, and
    // the membership is a permutation of the input, not its order
    let segments = segs(10);
    let parts = FuseTable::partition_segments(&segments, 3);
    assert_eq!(parts.len(), 3);
    let mut sizes: Vec<usize> = parts.iter().map(|p| p.len()).collect();
    sizes.sort();
    assert_eq!(sizes, vec![3, 3, 4]);
    let mut indices: Vec<usize> = parts.iter().flat_map(|p| p.iter().map(|x| x.0)).collect();
    indices.sort();
    let expected: Vec<usize> = (0..10).collect();
    assert_eq!(indices, expected);
    for p in &parts {
        for (idx, l) in p {
            assert_eq!(*l, segments[*idx]);
        }
    }
}

#[test]
fn partition_completeness_various_shapes() {
    for (n, p) in [(1u64, 1usize), (5, 5), (7, 2), (100, 7), (3, 1)] {
        let segments = segs(n);
        let parts = FuseTable::partition_segments(&segments, p);
        assert_eq!(parts.len(), p);
        let mut indices: Vec<usize> = parts.iter().flat_map(|c| c.iter().map(|x| x.0)).collect();
        assert_eq!(indices.len() as u64, n);
        indices.sort();
        indices.dedup();
        // every segment appears exactly once across all shares
        assert_eq!(indices.len() as u64, n);
        for part in &parts {
            assert!(!part.is_empty());
            for (idx, l) in part {
                assert_eq!(*l, segments[*idx]);
            }
        }
    }
}

#[test]
fn merge_workers_own_exclusive_shares() {
    let table = FuseTable {
        schema: TableSchema {
            columns: vec![ColumnDataType::Number, ColumnDataType::Text],
        },
    };
    let snapshot = Snapshot {
        version: 7,
        segments: segs(9),
        summary: Summary {
            row_count: 900,
            block_count: 9,
            byte_size: 9000,
        },
    };
    let on_conflicts = vec![
        OnConflictField {
            column_id: 0,
            data_type: ColumnDataType::Number,
        },
        OnConflictField {
            column_id: 1,
            data_type: ColumnDataType::Text,
        },
    ];
    let workers = table.merge_into_mutators(3, &on_conflicts, Some(1), &snapshot);
    assert_eq!(workers.len(), 3);
    let mut indices: Vec<usize> = Vec::new();
    for w in &workers {
        assert_eq!(w.on_conflicts, on_conflicts);
        assert_eq!(w.bloom_filter_column_index, Some(1));
        assert!(!w.segments.is_empty());
        for (idx, l) in &w.segments {
            assert_eq!(*l, snapshot.segments[*idx]);
            indices.push(*idx);
        }
    }
    indices.sort();
    let expected: Vec<usize> = (0..9).collect();
    assert_eq!(indices, expected);
}

#[test]
fn bloom_column_choice_takes_greatest_ndv() {
    let table = FuseTable {
        schema: TableSchema {
            columns: vec![ColumnDataType::Number],
        },
    };
    let fields = vec![
        OnConflictField {
            column_id: 0,
            data_type: ColumnDataType::Number,
        },
        OnConflictField {
            column_id: 1,
            data_type: ColumnDataType::Nested, // unsupported type
        },
        OnConflictField {
            column_id: 2,
            data_type: ColumnDataType::Text,
        },
        OnConflictField {
            column_id: 3,
            data_type: ColumnDataType::Number,
        },
    ];
    // greatest number-of-distinct-values wins; the nested field and the
    // field without statistics never qualify
    let ndv = vec![Some(50), Some(999), Some(80), None];
    let r = table.choose_most_significant_bloom_filter_column(&fields, &ndv);
    assert_eq!(r, Some(2));

    // the last field wins a tie
    let ndv_tie = vec![Some(80), None, Some(80), Some(80)];
    let r_tie = table.choose_most_significant_bloom_filter_column(&fields, &ndv_tie);
    assert_eq!(r_tie, Some(3));

    // no qualifying field at all
    let none = vec![None, Some(10), None, None];
    let r_none = table.choose_most_significant_bloom_filter_column(&fields, &none);
    assert_eq!(r_none, None);
}
