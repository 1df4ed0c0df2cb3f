//! The DDL plan for creating a vector index on a table column, with the
//! index algorithm and distance metric reduced to plain tags.

use vstd::prelude::*;

verus! {

/// The distance metric a vector index is built for.
#[derive(Clone, Copy, PartialEq, Eq, Structural, Debug)]
pub enum MetricType {
    L2,
    InnerProduct,
    Cosine,
}

/// The index algorithm the statement selects.
#[derive(Clone, Copy, PartialEq, Eq, Structural, Debug)]
pub enum VectorIndex {
    Flat,
    IvfPq,
    Hnsw,
}

/// A `CREATE VECTOR INDEX` plan: the fully qualified column it covers and
/// the index configuration.
#[derive(Clone, PartialEq, Eq, Debug)]
pub struct CreateVectorIndexPlan {
    pub catalog: String,
    pub database: String,
    pub table: String,
    pub column: String,
    pub vector_index: VectorIndex,
    pub metric_type: MetricType,
}

} // verus!
