//! The one optimizer rewrite that feeds the vector-index scan, and the
//! pivot-rewrite rule's pattern: thin classification steps over the plan
//! tree. A `Limit → Sort → EvalScalar` chain whose single ascending sort
//! key is a cosine-distance call is replaced by an index-backed KNN scan
//! bounded by the limit; anything else is left untouched.

use vstd::prelude::*;

verus! {

/// The plan operator kinds that patterns name.
#[derive(Clone, Copy, PartialEq, Eq, Structural, Debug)]
pub enum RelOp {
    Pattern,
    DummyTableScan,
    Limit,
    Sort,
    EvalScalar,
    IndexKnn,
}

/// Identifies a rewrite rule.
#[derive(Clone, Copy, PartialEq, Eq, Structural, Debug)]
pub enum RuleID {
    RewritePivot,
    UseVectorIndex,
}

/// A pattern node: matches any plan node of its kind.
#[derive(Clone, Copy, PartialEq, Eq, Structural, Debug)]
pub struct PatternPlan {
    pub plan_type: RelOp,
}

/// A unary pattern tree: each node matches on kind alone.
pub struct PatternTree {
    pub plan: PatternPlan,
    pub child: Option<Box<PatternTree>>,
}

/// Scalar function names the rewrite distinguishes: only the vector
/// distance matters, everything else is opaque.
#[derive(Clone, Copy, PartialEq, Eq, Structural, Debug)]
pub enum FunctionName {
    CosineDistance,
    Other,
}

/// A scalar expression, reduced to what the rewrite reads.
#[derive(Clone, Copy, PartialEq, Eq, Structural, Debug)]
pub enum ScalarExpr {
    FunctionCall { func: FunctionName },
    Other,
}

/// One projected scalar with its output binding.
#[derive(Clone, Copy, PartialEq, Eq, Structural, Debug)]
pub struct ScalarItem {
    pub scalar: ScalarExpr,
    pub index: usize,
}

/// One ordering clause of a plan-level sort.
#[derive(Clone, Copy, PartialEq, Eq, Structural, Debug)]
pub struct PlanSortItem {
    pub index: usize,
    pub asc: bool,
}

/// The index-backed KNN scan operator: returns the `limit` nearest rows.
#[derive(Clone, Copy, PartialEq, Eq, Structural, Debug)]
pub struct IndexKnn {
    pub limit: usize,
}

/// How an operator's output may be distributed across nodes.
#[derive(Clone, Copy, PartialEq, Eq, Structural, Debug)]
pub enum Distribution {
    Any,
    Serial,
}

/// The property a parent requires of a child's output.
#[derive(Clone, Copy, PartialEq, Eq, Structural, Debug)]
pub struct RequiredProperty {
    pub distribution: Distribution,
}

impl IndexKnn {
    /// The operator's kind.
    pub fn rel_op(&self) -> (r: RelOp)
        ensures
            r == RelOp::IndexKnn,
    {
        RelOp::IndexKnn
    }

    /// An index scan runs on one node: whatever the parent required, the
    /// child must deliver serially.
    pub fn compute_required_prop_child(&self, required: &RequiredProperty) -> (r: RequiredProperty)
        ensures
            r.distribution == Distribution::Serial,
    {
        let mut r = *required;
        r.distribution = Distribution::Serial;
        r
    }
}

/// A plan operator with its payload.
pub enum RelOperator {
    Pattern,
    DummyTableScan,
    Limit { limit: Option<usize>, offset: usize },
    Sort { items: Vec<PlanSortItem> },
    EvalScalar { items: Vec<ScalarItem> },
    IndexKnn(IndexKnn),
}

/// A plan expression: an operator over at most one child. The rules here
/// only walk unary chains.
pub struct SExpr {
    pub plan: RelOperator,
    pub child: Option<Box<SExpr>>,
}

/// Equality of plan operators, comparing list payloads by contents.
pub open spec fn spec_plan_eq(a: RelOperator, b: RelOperator) -> bool {
    match (a, b) {
        (RelOperator::Pattern, RelOperator::Pattern) => true,
        (RelOperator::DummyTableScan, RelOperator::DummyTableScan) => true,
        (
            RelOperator::Limit { limit: l1, offset: o1 },
            RelOperator::Limit { limit: l2, offset: o2 },
        ) => l1 == l2 && o1 == o2,
        (RelOperator::Sort { items: i1 }, RelOperator::Sort { items: i2 }) => i1@ == i2@,
        (RelOperator::EvalScalar { items: i1 }, RelOperator::EvalScalar { items: i2 }) => i1@
            == i2@,
        (RelOperator::IndexKnn(k1), RelOperator::IndexKnn(k2)) => k1 == k2,
        _ => false,
    }
}

/// Equality of plan expressions, node by node.
pub open spec fn spec_sexpr_eq(a: SExpr, b: SExpr) -> bool
    decreases a,
{
    &&& spec_plan_eq(a.plan, b.plan)
    &&& match (a.child, b.child) {
        (None, None) => true,
        (Some(x), Some(y)) => spec_sexpr_eq(*x, *y),
        _ => false,
    }
}

impl RelOperator {
    /// Copy with a contract; list payloads are copied element-wise.
    pub fn duplicate(&self) -> (r: RelOperator)
        ensures
            spec_plan_eq(r, *self),
    {
        match self {
            RelOperator::Pattern => RelOperator::Pattern,
            RelOperator::DummyTableScan => RelOperator::DummyTableScan,
            RelOperator::Limit { limit, offset } => RelOperator::Limit {
                limit: *limit,
                offset: *offset,
            },
            RelOperator::Sort { items } => RelOperator::Sort {
                items: crate::meta::copy_vec(items),
            },
            RelOperator::EvalScalar { items } => RelOperator::EvalScalar {
                items: crate::meta::copy_vec(items),
            },
            RelOperator::IndexKnn(k) => RelOperator::IndexKnn(*k),
        }
    }
}

impl SExpr {
    /// A childless plan expression.
    pub fn create_leaf(plan: RelOperator) -> (r: SExpr)
        ensures
            spec_plan_eq(r.plan, plan),
            r.child is None,
    {
        let ghost p0 = plan;
        let r = SExpr { plan, child: None };
        proof {
            assert(spec_plan_eq(r.plan, p0)) by {
                lemma_plan_eq_reflexive(p0);
            }
        }
        r
    }

    /// A plan expression over one child.
    pub fn create_unary(plan: RelOperator, child: SExpr) -> (r: SExpr)
        ensures
            spec_plan_eq(r.plan, plan),
            r.child is Some,
            spec_sexpr_eq(*r.child.unwrap(), child),
    {
        let ghost p0 = plan;
        let ghost c0 = child;
        let r = SExpr { plan, child: Some(Box::new(child)) };
        proof {
            lemma_plan_eq_reflexive(p0);
            lemma_sexpr_eq_reflexive(c0);
        }
        r
    }

    /// Copy with a contract, node by node.
    pub fn duplicate(&self) -> (r: SExpr)
        ensures
            spec_sexpr_eq(r, *self),
        decreases *self,
    {
        let plan = self.plan.duplicate();
        let child = match &self.child {
            None => None,
            Some(c) => Some(Box::new((**c).duplicate())),
        };
        SExpr { plan, child }
    }
}

/// Plan-operator equality is reflexive.
proof fn lemma_plan_eq_reflexive(a: RelOperator)
    ensures
        spec_plan_eq(a, a),
{
}

/// Plan-expression equality is reflexive.
proof fn lemma_sexpr_eq_reflexive(a: SExpr)
    ensures
        spec_sexpr_eq(a, a),
    decreases a,
{
    lemma_plan_eq_reflexive(a.plan);
    match a.child {
        None => {},
        Some(c) => {
            lemma_sexpr_eq_reflexive(*c);
        },
    }
}

/// Collects the expressions a rule rewrite produced.
pub struct TransformResult {
    pub results: Vec<SExpr>,
}

impl TransformResult {
    /// An empty collection.
    pub fn create() -> (r: TransformResult)
        ensures
            r.results@.len() == 0,
    {
        TransformResult { results: Vec::new() }
    }

    /// Adds one rewritten expression.
    pub fn add_result(&mut self, expr: SExpr)
        ensures
            final(self).results@ == old(self).results@.push(expr),
    {
        self.results.push(expr);
    }
}

/// Rewrites `PIVOT` into a group-by/aggregate: here only its pattern, a
/// dummy scan over anything.
pub struct RuleRewritePivot {
    pub id: RuleID,
    pub pattern: PatternTree,
}

impl RuleRewritePivot {
    /// The rule with its pattern.
    pub fn new() -> (r: RuleRewritePivot)
        ensures
            r.id == RuleID::RewritePivot,
            r.pattern.plan.plan_type == RelOp::DummyTableScan,
            r.pattern.child is Some,
            r.pattern.child.unwrap().plan.plan_type == RelOp::Pattern,
            r.pattern.child.unwrap().child is None,
    {
        RuleRewritePivot {
            id: RuleID::RewritePivot,
            // Scan
            //  \
            //   *
            pattern: PatternTree {
                plan: PatternPlan { plan_type: RelOp::DummyTableScan },
                child: Some(
                    Box::new(
                        PatternTree { plan: PatternPlan { plan_type: RelOp::Pattern }, child: None },
                    ),
                ),
            },
        }
    }

    /// The rule's identifier.
    pub fn id(&self) -> (r: RuleID)
        ensures
            r == self.id,
    {
        self.id
    }

    /// The rule's pattern.
    pub fn pattern(&self) -> (r: &PatternTree)
        ensures
            r == &self.pattern,
    {
        &self.pattern
    }
}

/// Whether a `Limit → Sort → EvalScalar` chain is a KNN candidate: a
/// bounded limit without offset over a single ascending sort key.
pub open spec fn spec_knn_candidate(s: SExpr) -> bool {
    &&& s.plan matches RelOperator::Limit { limit: Some(_), offset: 0 }
    &&& s.child is Some
    &&& match s.child.unwrap().plan {
        RelOperator::Sort { items } => items@.len() == 1 && items@[0].asc,
        _ => false,
    }
}

/// The first projected item bound to the given output index.
pub open spec fn spec_first_match(items: Seq<ScalarItem>, index: usize) -> Option<int>
    decreases items.len(),
{
    if items.len() == 0 {
        None
    } else if items.first().index == index {
        Some(0)
    } else {
        match spec_first_match(items.drop_first(), index) {
            Some(i) => Some(i + 1),
            None => None,
        }
    }
}

/// The shape the rule's pattern guarantees before `apply` runs: a limit
/// over a sort over a projection over one more node.
pub open spec fn spec_knn_pattern_shape(s: SExpr) -> bool {
    &&& s.plan matches RelOperator::Limit { .. }
    &&& s.child is Some
    &&& s.child.unwrap().plan matches RelOperator::Sort { .. }
    &&& s.child.unwrap().child is Some
    &&& s.child.unwrap().child.unwrap().plan matches RelOperator::EvalScalar { .. }
    &&& s.child.unwrap().child.unwrap().child is Some
}

/// The sort key's output index of a candidate chain.
pub open spec fn spec_knn_sort_index(s: SExpr) -> usize {
    match s.child.unwrap().plan {
        RelOperator::Sort { items } => items@[0].index,
        _ => 0,
    }
}

/// The projection items of the chain.
pub open spec fn spec_knn_eval_items(s: SExpr) -> Seq<ScalarItem> {
    match s.child.unwrap().child.unwrap().plan {
        RelOperator::EvalScalar { items } => items@,
        _ => Seq::empty(),
    }
}

/// Whether the rewrite fires: a candidate chain whose sort key is a
/// cosine-distance call.
pub open spec fn spec_knn_applicable(s: SExpr) -> bool {
    &&& spec_knn_candidate(s)
    &&& match spec_first_match(spec_knn_eval_items(s), spec_knn_sort_index(s)) {
        Some(i) => spec_knn_eval_items(s)[i].scalar == (ScalarExpr::FunctionCall {
            func: FunctionName::CosineDistance,
        }),
        None => false,
    }
}

/// What `apply` leaves in the transform result: for an applicable chain,
/// an index KNN scan bounded by the limit over the projection shorn of
/// the distance item, over the original input; otherwise the expression
/// itself, unchanged.
pub open spec fn spec_knn_apply_result(s: SExpr, r: SExpr) -> bool {
    if spec_knn_applicable(s) {
        &&& r.plan matches RelOperator::IndexKnn(k) && Some(k.limit) == (match s.plan {
            RelOperator::Limit { limit, .. } => limit,
            _ => None,
        })
        &&& r.child is Some
        &&& match r.child.unwrap().plan {
            RelOperator::EvalScalar { items } => items@ == spec_knn_eval_items(s).remove(
                spec_first_match(spec_knn_eval_items(s), spec_knn_sort_index(s)).unwrap(),
            ),
            _ => false,
        }
        &&& r.child.unwrap().child is Some
        &&& spec_sexpr_eq(
            *r.child.unwrap().child.unwrap(),
            *s.child.unwrap().child.unwrap().child.unwrap(),
        )
    } else {
        spec_sexpr_eq(r, s)
    }
}

/// Replaces a `Limit → Sort(cosine_distance) → EvalScalar` chain with an
/// index-backed KNN scan.
pub struct RuleUseVectorIndex {
    pub id: RuleID,
    pub patterns: Vec<PatternTree>,
}

impl RuleUseVectorIndex {
    /// The rule with its single pattern.
    pub fn new() -> (r: RuleUseVectorIndex)
        ensures
            r.id == RuleID::UseVectorIndex,
            r.patterns@.len() == 1,
            r.patterns@[0].plan.plan_type == RelOp::Limit,
            r.patterns@[0].child is Some,
            r.patterns@[0].child.unwrap().plan.plan_type == RelOp::Sort,
            r.patterns@[0].child.unwrap().child is Some,
            r.patterns@[0].child.unwrap().child.unwrap().plan.plan_type == RelOp::EvalScalar,
            r.patterns@[0].child.unwrap().child.unwrap().child is Some,
            r.patterns@[0].child.unwrap().child.unwrap().child.unwrap().plan.plan_type
                == RelOp::Pattern,
            r.patterns@[0].child.unwrap().child.unwrap().child.unwrap().child is None,
    {
        let mut patterns: Vec<PatternTree> = Vec::new();
        // Limit
        //   \
        //   Sort
        //     \
        //     EvalScalar
        //       \
        //        *
        let p = PatternTree {
            plan: PatternPlan { plan_type: RelOp::Limit },
            child: Some(
                Box::new(
                    PatternTree {
                        plan: PatternPlan { plan_type: RelOp::Sort },
                        child: Some(
                            Box::new(
                                PatternTree {
                                    plan: PatternPlan { plan_type: RelOp::EvalScalar },
                                    child: Some(
                                        Box::new(
                                            PatternTree {
                                                plan: PatternPlan { plan_type: RelOp::Pattern },
                                                child: None,
                                            },
                                        ),
                                    ),
                                },
                            ),
                        ),
                    },
                ),
            ),
        };
        patterns.push(p);
        RuleUseVectorIndex { id: RuleID::UseVectorIndex, patterns }
    }

    /// The rule's identifier.
    pub fn id(&self) -> (r: RuleID)
        ensures
            r == self.id,
    {
        self.id
    }

    /// The rule's patterns.
    pub fn patterns(&self) -> (r: &Vec<PatternTree>)
        ensures
            r == &self.patterns,
    {
        &self.patterns
    }

    /// Classifies the matched chain and adds either the KNN rewrite or
    /// the unchanged expression to the transform result.
    pub fn apply(&self, s_expr: &SExpr, state: &mut TransformResult)
        requires
            spec_knn_pattern_shape(*s_expr),
            spec_knn_candidate(*s_expr) ==> spec_first_match(
                spec_knn_eval_items(*s_expr),
                spec_knn_sort_index(*s_expr),
            ) is Some,
        ensures
            final(state).results@.len() == old(state).results@.len() + 1,
            final(state).results@.take(old(state).results@.len() as int) == old(state).results@,
            spec_knn_apply_result(*s_expr, final(state).results@.last()),
    {
        let sort_node = match &s_expr.child {
            Some(c) => &**c,
            None => {
                proof {
                    assert(false);
                }
                s_expr
            },
        };
        let eval_node = match &sort_node.child {
            Some(c) => &**c,
            None => {
                proof {
                    assert(false);
                }
                s_expr
            },
        };

        // a KNN chain: bounded, unoffset, single ascending sort key
        let (is_knn, limit_value, sort_index) = {
            let (has_limit, limit_value, offset_zero) = match &s_expr.plan {
                RelOperator::Limit { limit, offset } => {
                    match limit {
                        Some(l) => (true, *l, *offset == 0),
                        None => (false, 0, *offset == 0),
                    }
                },
                _ => (false, 0, false),
            };
            let (sort_ok, sort_index) = match &sort_node.plan {
                RelOperator::Sort { items } => {
                    if items.len() == 1 && items[0].asc {
                        (true, items[0].index)
                    } else {
                        (false, 0)
                    }
                },
                _ => (false, 0),
            };
            (has_limit && offset_zero && sort_ok, limit_value, sort_index)
        };

        if !is_knn {
            let copy = s_expr.duplicate();
            state.add_result(copy);
            proof {
                assert(state.results@.take(old(state).results@.len() as int) =~= old(
                    state,
                ).results@);
            }
            return;
        }

        let items = match &eval_node.plan {
            RelOperator::EvalScalar { items } => items,
            _ => {
                proof {
                    assert(false);
                }
                return;
            },
        };

        // find the projected item the sort key binds to
        let mut sort_by_idx: usize = 0;
        let mut found: bool = false;
        let mut i: usize = 0;
        proof {
            assert(items@.skip(0) =~= items@);
        }
        while i < items.len() && !found
            invariant
                i <= items@.len(),
                !found ==> spec_first_match(items@, sort_index) == match spec_first_match(
                    items@.skip(i as int),
                    sort_index,
                ) {
                    Some(p) => Some(p + i),
                    None => None,
                },
                found ==> spec_first_match(items@, sort_index) == Some(sort_by_idx as int)
                    && sort_by_idx < items@.len(),
            decreases items@.len() - i,
        {
            if items[i].index == sort_index {
                found = true;
                sort_by_idx = i;
                proof {
                    assert(items@.skip(i as int).first() == items@[i as int]);
                    assert(spec_first_match(items@.skip(i as int), sort_index) == Some(0int));
                }
            } else {
                proof {
                    assert(items@.skip(i as int).first() == items@[i as int]);
                    assert(items@.skip(i as int).drop_first() =~= items@.skip(i as int + 1));
                }
            }
            i = i + 1;
        }
        proof {
            if !found {
                assert(items@.skip(items@.len() as int).len() == 0);
                assert(spec_first_match(items@, sort_index) is None);
                assert(spec_knn_eval_items(*s_expr) == items@);
                assert(spec_knn_candidate(*s_expr));
                assert(false);
            }
        }

        let is_cosine = match items[sort_by_idx].scalar {
            ScalarExpr::FunctionCall { func: FunctionName::CosineDistance } => true,
            _ => false,
        };

        if is_cosine {
            // build the projection without the distance item
            let mut new_items = crate::meta::copy_vec(items);
            let _removed = new_items.remove(sort_by_idx);
            let grandchild = match &eval_node.child {
                Some(c) => (**c).duplicate(),
                None => {
                    proof {
                        assert(false);
                    }
                    return;
                },
            };
            let result = SExpr {
                plan: RelOperator::IndexKnn(IndexKnn { limit: limit_value }),
                child: Some(
                    Box::new(
                        SExpr {
                            plan: RelOperator::EvalScalar { items: new_items },
                            child: Some(Box::new(grandchild)),
                        },
                    ),
                ),
            };
            state.add_result(result);
            proof {
                assert(state.results@.take(old(state).results@.len() as int) =~= old(
                    state,
                ).results@);
            }
        } else {
            let copy = s_expr.duplicate();
            state.add_result(copy);
            proof {
                assert(state.results@.take(old(state).results@.len() as int) =~= old(
                    state,
                ).results@);
            }
        }
    }
}

} // verus!
