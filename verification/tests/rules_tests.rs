//! The vector-index rewrite rule, the pivot rule's pattern, and the KNN
//! pipeline stage's event contract.

use fuse_engine::CreateVectorIndexPlan;
use fuse_engine::Distribution;
use fuse_engine::MetricType;
use fuse_engine::VectorIndex;
use fuse_engine::Event;
use fuse_engine::FunctionName;
use fuse_engine::IndexKnn;
use fuse_engine::PlanSortItem;
use fuse_engine::RelOp;
use fuse_engine::RelOperator;
use fuse_engine::RequiredProperty;
use fuse_engine::RuleID;
use fuse_engine::RuleRewritePivot;
use fuse_engine::RuleUseVectorIndex;
use fuse_engine::SExpr;
use fuse_engine::ScalarExpr;
use fuse_engine::ScalarItem;
use fuse_engine::TransformIndexKnn;
use fuse_engine::TransformResult;

fn knn_chain(limit: Option<usize>, offset: usize, asc: bool, func: FunctionName) -> SExpr {
    let scan = SExpr {
        plan: RelOperator::DummyTableScan,
        child: None,
    };
    let eval = SExpr {
        plan: RelOperator::EvalScalar {
            items: vec![
                ScalarItem {
                    scalar: ScalarExpr::Other,
                    index: 1,
                },
                ScalarItem {
                    scalar: ScalarExpr::FunctionCall { func },
                    index: 7,
                },
            ],
        },
        child: Some(Box::new(scan)),
    };
    let sort = SExpr {
        plan: RelOperator::Sort {
            items: vec![PlanSortItem { index: 7, asc }],
        },
        child: Some(Box::new(eval)),
    };
    SExpr {
        plan: RelOperator::Limit { limit, offset },
        child: Some(Box::new(sort)),
    }
}

#[test]
fn vector_index_rule_rewrites_cosine_chain() {
    let rule = RuleUseVectorIndex::new();
    assert_eq!(rule.id(), RuleID::UseVectorIndex);
    let input = knn_chain(Some(10), 0, true, FunctionName::CosineDistance);
    let mut state = TransformResult::create();
    rule.apply(&input, &mut state);
    assert_eq!(state.results.len(), 1);
    let r = &state.results[0];
    match &r.plan {
        RelOperator::IndexKnn(IndexKnn { limit }) => assert_eq!(*limit, 10),
        _ => panic!("the rewrite must produce an index KNN scan"),
    }
    let child = r.child.as_ref().unwrap();
    match &child.plan {
        RelOperator::EvalScalar { items } => {
            // the distance item was removed; the other projection stays
            assert_eq!(items.len(), 1);
            assert_eq!(items[0].index, 1);
        }
        _ => panic!("the KNN scan must sit over the shorn projection"),
    }
    match &child.child.as_ref().unwrap().plan {
        RelOperator::DummyTableScan => {}
        _ => panic!("the original input stays below the projection"),
    }
}

#[test]
fn vector_index_rule_leaves_non_knn_chains() {
    let rule = RuleUseVectorIndex::new();
    // descending sort: not a KNN query
    let input = knn_chain(Some(10), 0, false, FunctionName::CosineDistance);
    let mut state = TransformResult::create();
    rule.apply(&input, &mut state);
    assert_eq!(state.results.len(), 1);
    match &state.results[0].plan {
        RelOperator::Limit { limit, offset } => {
            assert_eq!(*limit, Some(10));
            assert_eq!(*offset, 0);
        }
        _ => panic!("a non-KNN chain stays as it was"),
    }

    // an offset rules the rewrite out too
    let input = knn_chain(Some(10), 3, true, FunctionName::CosineDistance);
    let mut state = TransformResult::create();
    rule.apply(&input, &mut state);
    match &state.results[0].plan {
        RelOperator::Limit { .. } => {}
        _ => panic!("a non-KNN chain stays as it was"),
    }

    // a sort key that is not a cosine distance stays untouched
    let input = knn_chain(Some(10), 0, true, FunctionName::Other);
    let mut state = TransformResult::create();
    rule.apply(&input, &mut state);
    match &state.results[0].plan {
        RelOperator::Limit { .. } => {}
        _ => panic!("a non-KNN chain stays as it was"),
    }
}

#[test]
fn vector_index_rule_pattern_shape() {
    let rule = RuleUseVectorIndex::new();
    let patterns = rule.patterns();
    assert_eq!(patterns.len(), 1);
    let p = &patterns[0];
    assert_eq!(p.plan.plan_type, RelOp::Limit);
    let sort = p.child.as_ref().unwrap();
    assert_eq!(sort.plan.plan_type, RelOp::Sort);
    let eval = sort.child.as_ref().unwrap();
    assert_eq!(eval.plan.plan_type, RelOp::EvalScalar);
    let leaf = eval.child.as_ref().unwrap();
    assert_eq!(leaf.plan.plan_type, RelOp::Pattern);
    assert!(leaf.child.is_none());
}

#[test]
fn pivot_rule_pattern_shape() {
    let rule = RuleRewritePivot::new();
    assert_eq!(rule.id(), RuleID::RewritePivot);
    let p = rule.pattern();
    assert_eq!(p.plan.plan_type, RelOp::DummyTableScan);
    let leaf = p.child.as_ref().unwrap();
    assert_eq!(leaf.plan.plan_type, RelOp::Pattern);
    assert!(leaf.child.is_none());
}

#[test]
fn index_knn_operator_properties() {
    let knn = IndexKnn { limit: 25 };
    assert_eq!(knn.rel_op(), RelOp::IndexKnn);
    let required = RequiredProperty {
        distribution: Distribution::Any,
    };
    let r = knn.compute_required_prop_child(&required);
    assert_eq!(r.distribution, Distribution::Serial);
}

#[test]
fn create_vector_index_plan_holds_configuration() {
    let plan = CreateVectorIndexPlan {
        catalog: String::from("default"),
        database: String::from("db"),
        table: String::from("embeddings"),
        column: String::from("vec"),
        vector_index: VectorIndex::IvfPq,
        metric_type: MetricType::Cosine,
    };
    assert_eq!(plan.vector_index, VectorIndex::IvfPq);
    assert_eq!(plan.metric_type, MetricType::Cosine);
    assert_eq!(plan.table, "embeddings");
}

#[test]
fn knn_transform_event_contract() {
    let mut t = TransformIndexKnn::try_create(50);
    assert_eq!(t.limit, 50);
    assert_eq!(t.name(), "TransformIndexKnn");
    // unfinished: the stage asks for synchronous work
    assert_eq!(t.event(), Event::Sync);
    assert!(!t.input_finished);
    t.process();
    assert!(t.finished);
    // finished: the stage closes its ports and reports done
    assert_eq!(t.event(), Event::Finished);
    assert!(t.input_finished);
    assert!(t.output_finished);
}
