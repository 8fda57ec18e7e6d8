use std::rc::Rc;

use symex_analyzer::smt::{path_accepted, path_query, SatOutcome};
use symex_analyzer::state::Constraint;
use symex_analyzer::value::{BinaryOpcode, Comparison, Predicate, UnaryOpcode, Value};

fn constraint(pred: Predicate, op0: Value, op1: Value, branch: bool) -> Constraint {
    Constraint { cond: Comparison { pred, op0: Rc::new(op0), op1: Rc::new(op1) }, branch }
}

fn text(q: Vec<u8>) -> String {
    String::from_utf8(q).unwrap()
}

#[test]
fn query_declares_each_constant_once() {
    let cs = vec![
        constraint(Predicate::Sle, Value::Symbol(3), Value::Int(-12), false),
        constraint(Predicate::Ne, Value::Symbol(3), Value::Null, true),
        constraint(Predicate::Sgt, Value::Argument(1), Value::Symbol(3), true),
    ];
    assert_eq!(
        text(path_query(&cs)),
        "(declare-const s3 Int)\n(declare-const a1 Int)\n(assert (not (<= s3 (- 12))))\n(assert (distinct s3 0))\n(assert (> a1 s3))\n"
    );
}

#[test]
fn unlowerable_constraints_are_dropped() {
    let cs = vec![
        constraint(Predicate::Eq, Value::Unknown, Value::Int(1), true),
        constraint(
            Predicate::Sgt,
            Value::BinaryOperation { op: BinaryOpcode::Xor, op0: Rc::new(Value::Symbol(0)), op1: Rc::new(Value::Int(1)) },
            Value::Int(1),
            true,
        ),
        constraint(
            Predicate::Slt,
            Value::UnaryOperation { op: UnaryOpcode::ZExt, op0: Rc::new(Value::Argument(0)) },
            Value::Int(3),
            true,
        ),
        constraint(Predicate::Uge, Value::Argument(0), Value::Int(10), true),
        constraint(Predicate::Slt, Value::Argument(0), Value::Int(10), true),
    ];
    assert_eq!(text(path_query(&cs)), "(declare-const a0 Int)\n(assert (< a0 10))\n");
    assert_eq!(text(path_query(&Vec::new())), "");
}

#[test]
fn wrap_around_cannot_reject_a_path() {
    // x + 1 == 0 and x >u 5 hold together on bit-vectors (x = -1)
    let sum = Value::BinaryOperation { op: BinaryOpcode::Add, op0: Rc::new(Value::Argument(0)), op1: Rc::new(Value::Int(1)) };
    let cs = vec![
        constraint(Predicate::Eq, sum, Value::Int(0), true),
        constraint(Predicate::Ugt, Value::Argument(0), Value::Int(5), true),
    ];
    assert_eq!(text(path_query(&cs)), "");
}

#[test]
fn only_unsat_rejects() {
    assert!(path_accepted(SatOutcome::Sat));
    assert!(path_accepted(SatOutcome::Unknown));
    assert!(!path_accepted(SatOutcome::Unsat));
}
