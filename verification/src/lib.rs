//! Metadata pruning and snapshot-commit engine for a columnar table format.
//!
//! The crate covers the two pipelines that decide, from metadata alone, which
//! storage blocks a query must read (segment, block, and top-N pruning with
//! bounded parallelism) and how a write publishes a new immutable snapshot
//! (mutation partitioning, aggregation, and optimistic-concurrency commit
//! with bounded retry).

mod meta;
mod push_down;
mod pruner;
mod block_prune;
mod topn;
mod fuse_pruner;
mod commit;
mod replace;
mod rules;
mod transform_index_knn;
mod vector_index;

pub use meta::BlockMeta;
pub use meta::BlockMetaIndex;
pub use meta::BlockMetaView;
pub use meta::BloomDigest;
pub use meta::BloomDigestView;
pub use meta::ColumnDataType;
pub use meta::ColumnStat;
pub use meta::TableSchema;
pub use meta::Location;
pub use meta::SegmentEntry;
pub use meta::SegmentEntryView;
pub use meta::SegmentInfo;
pub use meta::SegmentInfoView;
pub use meta::SegmentLocation;
pub use meta::Snapshot;
pub use meta::SnapshotView;
pub use meta::Summary;
pub use meta::copy_vec;
pub use push_down::CompareOp;
pub use push_down::FilterPredicate;
pub use push_down::PushDownInfo;
pub use push_down::PushDownInfoView;
pub use push_down::SegmentFilter;
pub use push_down::SortItem;
pub use push_down::eval_cmp_i64;
pub use push_down::eval_cmp_u64;
pub use push_down::range_may_match;
pub use push_down::stat_of;
pub use pruner::BloomPruner;
pub use pruner::CONCURRENCY_FLOOR;
pub use pruner::PagePruner;
pub use pruner::PruningContext;
pub use pruner::PruningStatistics;
pub use pruner::Settings;
pub use pruner::bloom_keep;
pub use pruner::internal_keep;
pub use pruner::page_keep;
pub use pruner::range_keep;
pub use pruner::vec_contains_i64;
pub use block_prune::PrunerSet;
pub use block_prune::lemma_monotonic_narrowing;
pub use topn::TopNError;
pub use topn::TopNPrunner;
pub use topn::sort_i64;
pub use fuse_pruner::FusePruner;
pub use fuse_pruner::PruneError;
pub use fuse_pruner::make_batches;
pub use fuse_pruner::lemma_pruning_idempotent;
pub use topn::lemma_topn_equivalence;
pub use commit::CommitError;
pub use commit::CommitSink;
pub use commit::CommitState;
pub use commit::MutationKind;
pub use commit::MutationOutcome;
pub use commit::PublishResult;
pub use commit::SegmentDelta;
pub use commit::SegmentDeltaView;
pub use commit::TableHead;
pub use commit::TableMutationAggregator;
pub use commit::apply_delta;
pub use commit::commit_with_retry;
pub use commit::contains_loc;
pub use commit::simulate_concurrent_commits;
pub use replace::FuseTable;
pub use replace::MergeIntoOperationAggregator;
pub use replace::OnConflictField;
pub use replace::PipeStage;
pub use replace::Pipeline;
pub use rules::Distribution;
pub use rules::FunctionName;
pub use rules::IndexKnn;
pub use rules::PatternPlan;
pub use rules::PatternTree;
pub use rules::PlanSortItem;
pub use rules::RelOp;
pub use rules::RelOperator;
pub use rules::RequiredProperty;
pub use rules::RuleID;
pub use rules::RuleRewritePivot;
pub use rules::RuleUseVectorIndex;
pub use rules::SExpr;
pub use rules::ScalarExpr;
pub use rules::ScalarItem;
pub use rules::TransformResult;
pub use transform_index_knn::Event;
pub use transform_index_knn::TransformIndexKnn;
pub use vector_index::CreateVectorIndexPlan;
pub use vector_index::MetricType;
pub use vector_index::VectorIndex;
