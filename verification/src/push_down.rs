//! Query-supplied push-down information: an optional single-column filter
//! predicate, an optional row limit, an ordering clause, and an optional
//! predicate on the internal segment-name column. Pruning reads it, never
//! mutates it.

use vstd::prelude::*;

use crate::meta::ColumnStat;

verus! {

/// Comparison operator of a pushed-down predicate.
#[derive(Clone, Copy, PartialEq, Eq, Structural, Debug)]
pub enum CompareOp {
    Eq,
    NotEq,
    Lt,
    Lte,
    Gt,
    Gte,
}

/// A single-column predicate `column <op> value`.
#[derive(Clone, Copy, PartialEq, Eq, Structural, Debug)]
pub struct FilterPredicate {
    pub column: usize,
    pub op: CompareOp,
    pub value: i64,
}

/// One ordering clause: the sort column and its direction.
#[derive(Clone, Copy, PartialEq, Eq, Structural, Debug)]
pub struct SortItem {
    pub column: usize,
    pub asc: bool,
}

/// A predicate on the internal segment-name column, compared against the
/// segment location's object identifier.
#[derive(Clone, Copy, PartialEq, Eq, Structural, Debug)]
pub struct SegmentFilter {
    pub op: CompareOp,
    pub value: u64,
}

/// Push-down information handed to pruning by the planner.
#[derive(Clone, PartialEq, Eq, Debug)]
pub struct PushDownInfo {
    pub filter: Option<FilterPredicate>,
    pub limit: Option<u64>,
    pub order_by: Vec<SortItem>,
    pub segment_filter: Option<SegmentFilter>,
}

/// Spec-level image of a [`PushDownInfo`].
pub struct PushDownInfoView {
    pub filter: Option<FilterPredicate>,
    pub limit: Option<u64>,
    pub order_by: Seq<SortItem>,
    pub segment_filter: Option<SegmentFilter>,
}

impl View for PushDownInfo {
    type V = PushDownInfoView;

    open spec fn view(&self) -> PushDownInfoView {
        PushDownInfoView {
            filter: self.filter,
            limit: self.limit,
            order_by: self.order_by@,
            segment_filter: self.segment_filter,
        }
    }
}

impl PushDownInfo {
    /// Field-by-field copy with a contract; derived `Clone` is opaque to the
    /// verifier.
    pub fn duplicate(&self) -> (r: PushDownInfo)
        ensures
            r@ == self@,
    {
        PushDownInfo {
            filter: self.filter,
            limit: self.limit,
            order_by: crate::meta::copy_vec(&self.order_by),
            segment_filter: self.segment_filter,
        }
    }
}

/// Truth value of `l <op> r` over unbounded integers.
pub open spec fn spec_eval_cmp(op: CompareOp, l: int, r: int) -> bool {
    match op {
        CompareOp::Eq => l == r,
        CompareOp::NotEq => l != r,
        CompareOp::Lt => l < r,
        CompareOp::Lte => l <= r,
        CompareOp::Gt => l > r,
        CompareOp::Gte => l >= r,
    }
}

/// Evaluates `l <op> r` on signed 64-bit values.
pub fn eval_cmp_i64(op: CompareOp, l: i64, r: i64) -> (b: bool)
    ensures
        b == spec_eval_cmp(op, l as int, r as int),
{
    match op {
        CompareOp::Eq => l == r,
        CompareOp::NotEq => l != r,
        CompareOp::Lt => l < r,
        CompareOp::Lte => l <= r,
        CompareOp::Gt => l > r,
        CompareOp::Gte => l >= r,
    }
}

/// Evaluates `l <op> r` on unsigned 64-bit values.
pub fn eval_cmp_u64(op: CompareOp, l: u64, r: u64) -> (b: bool)
    ensures
        b == spec_eval_cmp(op, l as int, r as int),
{
    match op {
        CompareOp::Eq => l == r,
        CompareOp::NotEq => l != r,
        CompareOp::Lt => l < r,
        CompareOp::Lte => l <= r,
        CompareOp::Gt => l > r,
        CompareOp::Gte => l >= r,
    }
}

/// Whether a value drawn from `[min, max]` could satisfy `x <op> value`:
/// the range test that both segment-level and block-level range pruning use.
/// With no statistic available nothing can be ruled out.
pub open spec fn spec_range_may_match(op: CompareOp, value: i64, stat: Option<ColumnStat>) -> bool {
    match stat {
        None => true,
        Some(s) => match op {
            CompareOp::Eq => s.min <= value && value <= s.max,
            CompareOp::NotEq => !(s.min == value && s.max == value),
            CompareOp::Lt => s.min < value,
            CompareOp::Lte => s.min <= value,
            CompareOp::Gt => s.max > value,
            CompareOp::Gte => s.max >= value,
        },
    }
}

/// Executable form of [`spec_range_may_match`].
pub fn range_may_match(op: CompareOp, value: i64, stat: Option<&ColumnStat>) -> (b: bool)
    ensures
        b == spec_range_may_match(
            op,
            value,
            match stat {
                Some(s) => Some(*s),
                None => None,
            },
        ),
{
    match stat {
        None => true,
        Some(s) => match op {
            CompareOp::Eq => s.min <= value && value <= s.max,
            CompareOp::NotEq => !(s.min == value && s.max == value),
            CompareOp::Lt => s.min < value,
            CompareOp::Lte => s.min <= value,
            CompareOp::Gt => s.max > value,
            CompareOp::Gte => s.max >= value,
        },
    }
}

/// The range test never rules out a block that holds a matching value: if
/// some `x` within the recorded bounds satisfies the predicate, the block is
/// kept.
pub proof fn lemma_range_may_match_sound(op: CompareOp, value: i64, s: ColumnStat, x: i64)
    requires
        s.wf(),
        s.min <= x <= s.max,
        spec_eval_cmp(op, x as int, value as int),
    ensures
        spec_range_may_match(op, value, Some(s)),
{
}

/// The statistic of `column` in a per-column statistics list; a column
/// beyond the list, or one without statistics, yields `None`.
pub open spec fn spec_stat_of(stats: Seq<Option<ColumnStat>>, column: usize) -> Option<ColumnStat> {
    if column < stats.len() {
        stats[column as int]
    } else {
        None
    }
}

/// Executable form of [`spec_stat_of`].
pub fn stat_of(stats: &Vec<Option<ColumnStat>>, column: usize) -> (r: Option<&ColumnStat>)
    ensures
        match r {
            Some(s) => spec_stat_of(stats@, column) == Some(*s),
            None => spec_stat_of(stats@, column) is None,
        },
{
    if column < stats.len() {
        match &stats[column] {
            Some(s) => Some(s),
            None => None,
        }
    } else {
        None
    }
}

/// The row limit that limit pruning may use: present only when the
/// push-down has a limit and neither a filter nor an ordering clause, since
/// limit pruning is valid only when row order is unconstrained.
pub open spec fn spec_effective_limit(p: Option<PushDownInfoView>) -> Option<u64> {
    match p {
        Some(pd) => {
            if pd.order_by.len() == 0 && pd.filter is None {
                pd.limit
            } else {
                None
            }
        },
        None => None,
    }
}

/// Whether top-N pruning applies: an ordering clause and a limit are both
/// present and no filter is, so statistics alone can bound the result.
pub open spec fn spec_topn_applicable(p: Option<PushDownInfoView>) -> bool {
    match p {
        Some(pd) => pd.order_by.len() > 0 && pd.limit is Some && pd.filter is None,
        None => false,
    }
}

} // verus!
