use std::rc::Rc;

use symex_analyzer::environment::Slice;
use symex_analyzer::features::{CausalityFeatureExtractor, FeatureExtractor, FeatureExtractors};
use symex_analyzer::ir::InstrRef;
use symex_analyzer::state::{Branch, Semantics, TraceNode};
use symex_analyzer::trace::{Trace, TraceIterDirection};
use symex_analyzer::value::{Comparison, Location, Predicate, Value, ValueList};

fn node(semantics: Semantics, result: Option<Rc<Value>>) -> TraceNode {
    TraceNode { semantics, result }
}

fn list(values: Vec<Value>) -> Rc<ValueList> {
    Rc::new(ValueList::from_vec(&values.into_iter().map(Rc::new).collect()))
}

fn call_node(func: usize, args: Vec<Value>) -> TraceNode {
    node(Semantics::Call { func, args: list(args) }, None)
}

fn slice(callee: usize) -> Slice {
    Slice { entry: 0, caller: 0, callee, instr: InstrRef { func: 0, block: 0, index: 0 }, functions: vec![0] }
}

fn opaque(id: usize, func: usize) -> Value {
    Value::Call { id, func, args: Rc::new(ValueList::Nil) }
}

/// helper(); if (a0 == 0) ...; p = target(a0, null); if (p != 0) ...; use(p); cleanup(); ret
fn sample_trace() -> Trace {
    let ret = Rc::new(opaque(1, 5));
    let cmp_before = node(
        Semantics::Compare { pred: Predicate::Eq, op0: Rc::new(Value::Argument(0)), op1: Rc::new(Value::Int(0)) },
        None,
    );
    let br_before = node(
        Semantics::ConditionalBr { cond: Rc::new(Value::Unknown), br: Branch::Else, begin_loop: false },
        None,
    );
    let cmp_after = node(Semantics::Compare { pred: Predicate::Ne, op0: ret.clone(), op1: Rc::new(Value::Int(0)) }, None);
    let br_after = node(
        Semantics::ConditionalBr { cond: Rc::new(Value::Unknown), br: Branch::Then, begin_loop: true },
        None,
    );
    Trace {
        target: 3,
        instrs: vec![
            call_node(7, vec![]),
            cmp_before,
            br_before,
            call_node(5, vec![Value::Argument(0), Value::Null]),
            cmp_after,
            br_after,
            call_node(8, vec![opaque(1, 5)]),
            call_node(9, vec![Value::Argument(0)]),
            node(Semantics::Return { op: None }, None),
        ],
    }
}

#[test]
fn direction_and_target_accessors() {
    let t = sample_trace();
    assert!(TraceIterDirection::Forward.is_forward());
    assert!(!TraceIterDirection::Backward.is_forward());
    assert!(t.target_result().is_none());
    assert_eq!(t.target_args().len(), 2);
    assert!(matches!(&*t.target_arg(1), Value::Null));
    assert!(matches!(t.target_instr().semantics, Semantics::Call { func: 5, .. }));
    assert_eq!(t.iter_instrs(TraceIterDirection::Forward).len(), 9);
    let back = t.iter_instrs(TraceIterDirection::Backward);
    assert!(matches!(back[0].semantics, Semantics::Return { .. }));
    let after = t.iter_instrs_from_target(TraceIterDirection::Forward);
    assert_eq!(after.len(), 5);
    assert!(matches!(after[0].semantics, Semantics::Compare { pred: Predicate::Ne, .. }));
    let before = t.iter_instrs_from_target(TraceIterDirection::Backward);
    assert_eq!(before.len(), 3);
    assert!(matches!(before[0].semantics, Semantics::ConditionalBr { br: Branch::Else, .. }));
    assert!(matches!(before[2].semantics, Semantics::Call { func: 7, .. }));
}

#[test]
fn return_value_features() {
    let t = sample_trace();
    assert_eq!(FeatureExtractor::ReturnValue.extract(&slice(5), &t), vec![0, 0, 1]);
    assert_eq!(FeatureExtractor::ReturnValueCheck.extract(&slice(5), &t), vec![1, 1]);
    assert_eq!(FeatureExtractor::ReturnValueCheck.extract(&slice(6), &t), vec![0, 0]);
}

#[test]
fn argument_features() {
    let t = sample_trace();
    // a0: an argument, compared before, passed again after.
    assert_eq!(FeatureExtractor::ArgumentPrecondition(0).extract(&slice(5), &t), vec![0, 0, 0, 1, 0, 0, 1]);
    assert_eq!(FeatureExtractor::ArgumentPostcondition(0).extract(&slice(5), &t), vec![1, 0, 0]);
    // null: a constant, never used again.
    assert_eq!(FeatureExtractor::ArgumentPrecondition(1).extract(&slice(5), &t), vec![0, 1, 0, 0, 0, 0, 0]);
    assert_eq!(FeatureExtractor::ArgumentPostcondition(1).extract(&slice(5), &t), vec![0, 0, 0]);
    // no third argument
    assert!(FeatureExtractor::ArgumentPrecondition(2).extract(&slice(5), &t).is_empty());
}

#[test]
fn control_flow_features() {
    let t = sample_trace();
    assert_eq!(FeatureExtractor::ControlFlow.extract(&slice(5), &t), vec![0, 1, 1, 0, 1]);
}

#[test]
fn store_through_argument_is_seen() {
    let p = Rc::new(Location::Global(3));
    let t = Trace {
        target: 0,
        instrs: vec![
            call_node(5, vec![Value::Location(p.clone())]),
            node(Semantics::Store { loc: p.clone(), val: Rc::new(Value::Int(1)) }, None),
        ],
    };
    assert_eq!(FeatureExtractor::ArgumentPostcondition(0).extract(&slice(5), &t), vec![0, 0, 1]);
    assert_eq!(FeatureExtractor::ArgumentPrecondition(0).extract(&slice(5), &t), vec![0, 0, 1, 0, 0, 0, 0]);
}

#[test]
fn causality_learns_a_bounded_vocabulary() {
    let t = sample_trace();
    let mut pre = CausalityFeatureExtractor::pre(1);
    let mut post = CausalityFeatureExtractor::post(2);
    pre.init(&t);
    post.init(&t);
    post.init(&t);
    let t2 = Trace { target: 0, instrs: vec![call_node(5, vec![]), call_node(9, vec![]), call_node(9, vec![])] };
    post.init(&t2);
    pre.finalize();
    post.finalize();
    assert_eq!(pre.dictionary, vec![7]);
    // callee 9 was seen four times, callee 8 twice
    assert_eq!(post.dictionary, vec![9, 8]);
    let e = FeatureExtractor::Causality(post);
    assert_eq!(e.name(), "causality_post");
    assert_eq!(e.extract(&slice(5), &t), vec![1, 1]);
    assert_eq!(e.extract(&slice(5), &t2), vec![1, 0]);
    let e = FeatureExtractor::Causality(pre);
    assert_eq!(e.name(), "causality_pre");
    assert_eq!(e.extract(&slice(5), &t), vec![1]);
    assert_eq!(e.extract(&slice(5), &t2), vec![0]);
}

#[test]
fn causality_keeps_everything_below_the_bound() {
    let t = sample_trace();
    let mut post = CausalityFeatureExtractor::post(10);
    post.init(&t);
    post.finalize();
    let mut d = post.dictionary.clone();
    d.sort();
    assert_eq!(d, vec![8, 9]);
}

#[test]
fn extractors_follow_the_target_signature() {
    assert_eq!(FeatureExtractors::all(5).extractors.len(), 13);
    let two = FeatureExtractors::extractors_for_target(2, 5);
    assert_eq!(two.extractors.len(), 9);
    let names: Vec<String> = two.extractors.iter().map(|e| e.name()).collect();
    assert_eq!(
        names,
        vec![
            "return_value",
            "return_value_check",
            "argument_precondition.0",
            "argument_precondition.1",
            "argument_postcondition.0",
            "argument_postcondition.1",
            "causality_pre",
            "causality_post",
            "control_flow",
        ]
    );
    assert_eq!(FeatureExtractors::extractors_for_target(0, 5).extractors.len(), 5);
    assert_eq!(FeatureExtractors::extractors_for_target(9, 5).extractors.len(), 13);
    assert!(FeatureExtractor::ArgumentPrecondition(1).filter(2));
    assert!(!FeatureExtractor::ArgumentPostcondition(2).filter(2));
    assert!(FeatureExtractor::ControlFlow.filter(0));
}

#[test]
fn feature_extraction_is_deterministic() {
    let t = sample_trace();
    let mut extractors = FeatureExtractors::extractors_for_target(2, 3);
    extractors.initialize(&slice(5), 1, &t);
    extractors.finalize();
    let first = extractors.extract_features(&slice(5), &t);
    let second = extractors.extract_features(&slice(5), &t);
    assert_eq!(first, second);
    assert_eq!(first.len(), 9);
    assert_eq!(first[0], ("return_value".to_string(), vec![0, 0, 1]));
    assert_eq!(first[7], ("causality_post".to_string(), vec![1, 1]));
}

#[test]
fn two_passes_over_all_slices() {
    let t = sample_trace();
    let t2 = Trace { target: 0, instrs: vec![call_node(5, vec![]), call_node(9, vec![]), call_node(9, vec![])] };
    let slices = vec![slice(5), slice(5)];
    let traces = vec![vec![sample_trace()], vec![t2, sample_trace()]];
    let mut extractors = FeatureExtractors::extractors_for_target(2, 1);
    let records = extractors.extract_slices(&slices, &traces);
    assert_eq!(records.len(), 2);
    assert_eq!(records[0].len(), 1);
    assert_eq!(records[1].len(), 2);
    // callee 9 is the most frequent callee after the target over all traces
    assert_eq!(records[0][0][7], ("causality_post".to_string(), vec![1]));
    assert_eq!(records[1][0][7], ("causality_post".to_string(), vec![1]));
    assert_eq!(records[0][0][8], ("control_flow".to_string(), vec![0, 1, 1, 0, 1]));
    assert_eq!(records[0][0], records[1][1]);
    let again = extractors.extract_features(&slice(5), &t);
    assert_eq!(again, records[0][0]);
}

#[test]
fn comparison_values_compare_structurally() {
    let a = Value::Comparison(Comparison {
        pred: Predicate::Slt,
        op0: Rc::new(Value::Symbol(1)),
        op1: Rc::new(Value::Int(4)),
    });
    let b = Value::Comparison(Comparison {
        pred: Predicate::Slt,
        op0: Rc::new(Value::Symbol(1)),
        op1: Rc::new(Value::Int(4)),
    });
    let c = Value::Comparison(Comparison {
        pred: Predicate::Sle,
        op0: Rc::new(Value::Symbol(1)),
        op1: Rc::new(Value::Int(4)),
    });
    assert!(symex_analyzer::value::value_eq(&a, &b));
    assert!(!symex_analyzer::value::value_eq(&a, &c));
}
