use std::rc::Rc;

use symex_analyzer::environment::{Slice, SymbolicExecutionOptions};
use symex_analyzer::execution::SymbolicExecutionContext;
use symex_analyzer::ir::{Block, Function, Instr, InstrRef, Operand, Program};
use symex_analyzer::metadata::MetaData;
use symex_analyzer::scheduler::{AcceptedTrace, ExplorationStep};
use symex_analyzer::smt::SatOutcome;
use symex_analyzer::state::{Branch, Semantics};
use symex_analyzer::value::{Location, Predicate, UnaryOpcode, Value};

fn block(instrs: Vec<Instr>) -> Block {
    Block { instrs, is_loop_header: false }
}

fn func(name: &str, num_params: usize, blocks: Vec<Block>) -> Function {
    Function { name: name.to_string(), num_params, blocks }
}

fn options(max_trace: usize, max_explored: usize, max_node: usize) -> SymbolicExecutionOptions {
    SymbolicExecutionOptions {
        max_trace_per_slice: max_trace,
        max_explored_trace_per_slice: max_explored,
        max_node_per_trace: max_node,
        no_trace_reduction: false,
    }
}

fn call(callee: usize, args: Vec<Operand>) -> Instr {
    Instr::Call { callee: Some(callee), args }
}

fn ret() -> Instr {
    Instr::Return { op: None }
}

fn target_slice(entry: usize, callee: usize, at: (usize, usize), functions: Vec<usize>) -> Slice {
    Slice {
        entry,
        caller: entry,
        callee,
        instr: InstrRef { func: entry, block: at.0, index: at.1 },
        functions,
    }
}

/// Runs a slice to the end; `answer` stands for the solver.
fn run(
    program: &Program,
    opts: SymbolicExecutionOptions,
    slice: Slice,
    answer: &dyn Fn(&[u8]) -> SatOutcome,
) -> (MetaData, Vec<AcceptedTrace>, Vec<Vec<u8>>) {
    let ctx = SymbolicExecutionContext { program, options: opts };
    let mut x = ctx.start_slice(slice);
    let mut accepted = Vec::new();
    let mut queries = Vec::new();
    loop {
        match ctx.advance(&mut x) {
            ExplorationStep::Query(q) => {
                let outcome = answer(&q);
                queries.push(q);
                if let Some(t) = ctx.resolve(&mut x, outcome) {
                    accepted.push(t);
                }
            }
            ExplorationStep::Finished => break,
        }
    }
    (x.metadata, accepted, queries)
}

fn always_sat(_: &[u8]) -> SatOutcome {
    SatOutcome::Sat
}

fn total(m: &MetaData) -> u64 {
    m.proper_trace_count
        + m.path_unsat_trace_count
        + m.branch_explored_trace_count
        + m.duplicate_trace_count
        + m.no_target_trace_count
        + m.exceeding_length_trace_count
        + m.unreachable_trace_count
}

#[test]
fn straight_line_call() {
    let program = Program {
        functions: vec![
            func("entry", 1, vec![block(vec![call(1, vec![Operand::Argument(0)]), ret()])]),
            func("foo", 1, vec![]),
        ],
    };
    let (m, accepted, queries) = run(&program, options(50, 1000, 1000), target_slice(0, 1, (0, 0), vec![0]), &always_sat);
    assert_eq!(m.explored_trace_count, 1);
    assert_eq!(m.proper_trace_count, 1);
    assert_eq!(accepted.len(), 1);
    let t = &accepted[0];
    assert_eq!(t.trace_id, 0);
    assert_eq!(t.target, 0);
    assert_eq!(t.instrs.len(), 2);
    match &t.instrs[0].semantics {
        Semantics::Call { func, args } => {
            assert_eq!(*func, 1);
            let args = args.to_vec();
            assert_eq!(args.len(), 1);
            assert!(matches!(&*args[0], Value::Argument(0)));
        }
        _ => panic!("first node is not a call"),
    }
    assert!(matches!(t.instrs[1].semantics, Semantics::Return { op: None }));
    assert_eq!(queries, vec![Vec::<u8>::new()]);
}

fn diamond() -> Program {
    // if (a0 > 0) { target() } else { target() }; return
    Program {
        functions: vec![
            func(
                "entry",
                1,
                vec![
                    block(vec![
                        Instr::ICmp { pred: Predicate::Sgt, op0: Operand::Argument(0), op1: Operand::Int(0) },
                        Instr::CondBr { cond: Operand::Instr { block: 0, index: 0 }, then_block: 1, else_block: 2 },
                    ]),
                    block(vec![call(1, vec![]), Instr::Br { target: 3 }]),
                    block(vec![call(1, vec![]), Instr::Br { target: 3 }]),
                    block(vec![ret()]),
                ],
            ),
            func("target", 0, vec![]),
        ],
    }
}

#[test]
fn both_branches_reach_the_target() {
    let program = diamond();
    // The target callsite is the call in the then block.
    let (m, accepted, queries) = run(&program, options(8, 1000, 1000), target_slice(0, 1, (1, 0), vec![0]), &always_sat);
    assert_eq!(m.proper_trace_count, 1);
    assert_eq!(m.no_target_trace_count, 1);
    assert_eq!(m.branch_explored_trace_count, 0);
    assert_eq!(m.duplicate_trace_count, 0);
    assert_eq!(accepted.len(), 1);
    assert_eq!(
        String::from_utf8(queries[0].clone()).unwrap(),
        "(declare-const a0 Int)\n(assert (> a0 0))\n"
    );
}

#[test]
fn visited_branch_termination() {
    // Both sides call the target through one callee-level callsite: the slice
    // target is the shared call in a helper block reached by both sides.
    let program = Program {
        functions: vec![
            func(
                "entry",
                1,
                vec![
                    block(vec![
                        Instr::ICmp { pred: Predicate::Sgt, op0: Operand::Argument(0), op1: Operand::Int(0) },
                        Instr::CondBr { cond: Operand::Instr { block: 0, index: 0 }, then_block: 1, else_block: 2 },
                    ]),
                    block(vec![Instr::Br { target: 3 }]),
                    block(vec![Instr::Br { target: 3 }]),
                    block(vec![call(1, vec![]), ret()]),
                ],
            ),
            func("target", 0, vec![]),
        ],
    };
    let (m, accepted, _) = run(&program, options(8, 1000, 1000), target_slice(0, 1, (3, 0), vec![0]), &always_sat);
    assert_eq!(m.proper_trace_count, 2);
    assert_eq!(m.branch_explored_trace_count, 0);
    assert_eq!(m.duplicate_trace_count, 0);
    assert_eq!(accepted.len(), 2);
    assert_eq!(accepted[0].trace_id, 0);
    assert_eq!(accepted[1].trace_id, 1);
    for t in &accepted {
        assert!(matches!(t.instrs[t.target].semantics, Semantics::Call { func: 1, .. }));
    }
    let then_first = accepted.iter().any(|t| matches!(t.instrs[1].semantics, Semantics::ConditionalBr { br: Branch::Then, .. }));
    let else_first = accepted.iter().any(|t| matches!(t.instrs[1].semantics, Semantics::ConditionalBr { br: Branch::Else, .. }));
    assert!(then_first && else_first);
    assert_eq!(m.explored_trace_count, total(&m));
}

#[test]
fn loop_bound() {
    let program = Program {
        functions: vec![
            func(
                "entry",
                0,
                vec![block(vec![call(1, vec![]), Instr::Br { target: 1 }]), block(vec![Instr::Br { target: 1 }])],
            ),
            func("target", 0, vec![]),
        ],
    };
    let (m, accepted, _) = run(&program, options(50, 1000, 10), target_slice(0, 1, (0, 0), vec![0]), &always_sat);
    assert_eq!(m.exceeding_length_trace_count, 1);
    assert_eq!(m.proper_trace_count, 0);
    assert!(accepted.iter().all(|t| t.instrs.len() <= 10));
}

#[test]
fn path_infeasibility() {
    // if (a0 > 0) { if (a0 < 0) { target() } }
    let program = Program {
        functions: vec![
            func(
                "entry",
                1,
                vec![
                    block(vec![
                        Instr::ICmp { pred: Predicate::Sgt, op0: Operand::Argument(0), op1: Operand::Int(0) },
                        Instr::CondBr { cond: Operand::Instr { block: 0, index: 0 }, then_block: 1, else_block: 3 },
                    ]),
                    block(vec![
                        Instr::ICmp { pred: Predicate::Slt, op0: Operand::Argument(0), op1: Operand::Int(0) },
                        Instr::CondBr { cond: Operand::Instr { block: 1, index: 0 }, then_block: 2, else_block: 3 },
                    ]),
                    block(vec![call(1, vec![]), ret()]),
                    block(vec![ret()]),
                ],
            ),
            func("target", 0, vec![]),
        ],
    };
    let contradiction = "(declare-const a0 Int)\n(assert (> a0 0))\n(assert (< a0 0))\n";
    let answer = move |q: &[u8]| {
        if q == contradiction.as_bytes() {
            SatOutcome::Unsat
        } else {
            SatOutcome::Sat
        }
    };
    let (m, accepted, queries) = run(&program, options(50, 1000, 1000), target_slice(0, 1, (2, 0), vec![0]), &answer);
    assert!(m.path_unsat_trace_count >= 1);
    assert_eq!(m.proper_trace_count, 0);
    assert!(accepted.is_empty());
    assert_eq!(queries.len(), 1);
    assert_eq!(String::from_utf8(queries[0].clone()).unwrap(), contradiction);
    assert_eq!(m.explored_trace_count, total(&m));
}

#[test]
fn unknown_answer_accepts_the_path() {
    let program = diamond();
    let unknown = |_: &[u8]| SatOutcome::Unknown;
    let (m, accepted, _) = run(&program, options(8, 1000, 1000), target_slice(0, 1, (1, 0), vec![0]), &unknown);
    assert_eq!(m.proper_trace_count, 1);
    assert_eq!(accepted.len(), 1);
}

#[test]
fn intrinsic_skipping() {
    let program = Program {
        functions: vec![
            func(
                "entry",
                2,
                vec![block(vec![
                    call(1, vec![Operand::Argument(0), Operand::Argument(1)]),
                    call(2, vec![Operand::Argument(0)]),
                    ret(),
                ])],
            ),
            func("llvm.memcpy.p0.p0.i64", 3, vec![]),
            func("target", 1, vec![]),
        ],
    };
    let (m, accepted, _) = run(&program, options(50, 1000, 1000), target_slice(0, 2, (0, 1), vec![0]), &always_sat);
    assert_eq!(m.proper_trace_count, 1);
    let t = &accepted[0];
    assert_eq!(t.instrs.len(), 2);
    assert_eq!(t.target, 0);
    assert!(matches!(t.instrs[0].semantics, Semantics::Call { func: 2, .. }));
}

#[test]
fn intrinsic_names() {
    assert!(func("llvm.memcpy.p0.p0.i64", 0, vec![]).is_intrinsic());
    assert!(!func("memcpy", 0, vec![]).is_intrinsic());
    assert!(!func("llvm", 0, vec![]).is_intrinsic());
    assert!(!func("xllvm.memcpy", 0, vec![]).is_intrinsic());
}

#[test]
fn duplicate_block_traces_are_counted_once() {
    // switch (a0) { case 1: case 2: default: -> block 1 }, all to the same block
    let program = Program {
        functions: vec![
            func(
                "entry",
                1,
                vec![
                    block(vec![Instr::Switch { cond: Operand::Argument(0), cases: vec![1, 1], default: 1 }]),
                    block(vec![call(1, vec![]), ret()]),
                ],
            ),
            func("target", 0, vec![]),
        ],
    };
    let (m, accepted, queries) = run(&program, options(50, 1000, 1000), target_slice(0, 1, (1, 0), vec![0]), &always_sat);
    assert_eq!(m.proper_trace_count, 1);
    assert_eq!(m.duplicate_trace_count, 2);
    assert_eq!(accepted.len(), 1);
    assert_eq!(queries.len(), 1);
    assert_eq!(m.explored_trace_count, 3);
}

#[test]
fn trace_budget_stops_exploration() {
    let program = Program {
        functions: vec![
            func(
                "entry",
                1,
                vec![
                    block(vec![
                        Instr::ICmp { pred: Predicate::Eq, op0: Operand::Argument(0), op1: Operand::Int(3) },
                        Instr::CondBr { cond: Operand::Instr { block: 0, index: 0 }, then_block: 1, else_block: 2 },
                    ]),
                    block(vec![Instr::Br { target: 3 }]),
                    block(vec![Instr::Br { target: 3 }]),
                    block(vec![call(1, vec![]), ret()]),
                ],
            ),
            func("target", 0, vec![]),
        ],
    };
    let (m, accepted, _) = run(&program, options(1, 1000, 1000), target_slice(0, 1, (3, 0), vec![0]), &always_sat);
    assert_eq!(m.proper_trace_count, 1);
    assert_eq!(accepted.len(), 1);
    assert_eq!(m.explored_trace_count, 1);

    let (m, _, _) = run(&program, options(50, 1, 1000), target_slice(0, 1, (3, 0), vec![0]), &always_sat);
    assert!(m.explored_trace_count <= 2);
    assert_eq!(m.explored_trace_count, 1);
}

#[test]
fn unreachable_ends_the_path() {
    let program = Program {
        functions: vec![
            func("entry", 0, vec![block(vec![call(1, vec![]), Instr::Unreachable])]),
            func("target", 0, vec![]),
        ],
    };
    let (m, accepted, _) = run(&program, options(50, 1000, 1000), target_slice(0, 1, (0, 0), vec![0]), &always_sat);
    assert_eq!(m.unreachable_trace_count, 1);
    assert_eq!(m.explored_trace_count, 1);
    assert!(accepted.is_empty());
}

#[test]
fn descending_into_a_callee_patches_the_call_result() {
    // entry: %r = call helper(7); call target(%r); ret
    // helper(x): ret x
    let program = Program {
        functions: vec![
            func(
                "entry",
                0,
                vec![block(vec![
                    call(1, vec![Operand::Int(7)]),
                    call(2, vec![Operand::Instr { block: 0, index: 0 }]),
                    ret(),
                ])],
            ),
            func("helper", 1, vec![block(vec![Instr::Return { op: Some(Operand::Argument(0)) }])]),
            func("target", 1, vec![]),
        ],
    };
    let (m, accepted, _) = run(&program, options(50, 1000, 1000), target_slice(0, 2, (0, 1), vec![0, 1]), &always_sat);
    assert_eq!(m.proper_trace_count, 1);
    let t = &accepted[0];
    assert_eq!(t.instrs.len(), 4);
    assert_eq!(t.target, 2);
    match &t.instrs[0].result {
        Some(v) => assert!(matches!(&**v, Value::Int(7))),
        None => panic!("the helper's call node has no result"),
    }
    match &t.instrs[2].semantics {
        Semantics::Call { func: 2, args } => assert!(matches!(&*args.to_vec()[0], Value::Int(7))),
        _ => panic!("target node is not the target call"),
    }
}

#[test]
fn opaque_calls_get_summaries() {
    // %r = call ext(); call target(%r); ret
    let program = Program {
        functions: vec![
            func(
                "entry",
                0,
                vec![block(vec![call(1, vec![]), call(2, vec![Operand::Instr { block: 0, index: 0 }]), ret()])],
            ),
            func("ext", 0, vec![]),
            func("target", 1, vec![]),
        ],
    };
    let (_, accepted, _) = run(&program, options(50, 1000, 1000), target_slice(0, 2, (0, 1), vec![0]), &always_sat);
    let t = &accepted[0];
    assert!(t.instrs[0].result.is_none());
    match &t.instrs[1].semantics {
        Semantics::Call { args, .. } => {
            assert!(matches!(&*args.to_vec()[0], Value::Call { id: 0, func: 1, .. }))
        }
        _ => panic!("second node is not a call"),
    }
}

#[test]
fn memory_read_after_write() {
    // %p = alloca; store 5, %p; %v = load %p; call target(%v); ret
    let program = Program {
        functions: vec![
            func(
                "entry",
                0,
                vec![block(vec![
                    Instr::Alloca,
                    Instr::Store { loc: Operand::Instr { block: 0, index: 0 }, val: Operand::Int(5) },
                    Instr::Load { loc: Operand::Instr { block: 0, index: 0 } },
                    call(1, vec![Operand::Instr { block: 0, index: 2 }]),
                    ret(),
                ])],
            ),
            func("target", 1, vec![]),
        ],
    };
    let (_, accepted, _) = run(&program, options(50, 1000, 1000), target_slice(0, 1, (0, 3), vec![0]), &always_sat);
    let t = &accepted[0];
    assert_eq!(t.instrs.len(), 4);
    match &t.instrs[0].semantics {
        Semantics::Store { loc, val } => {
            assert!(matches!(&**loc, Location::Alloca(0)));
            assert!(matches!(&**val, Value::Int(5)));
        }
        _ => panic!("first node is not a store"),
    }
    match &t.instrs[1].result {
        Some(v) => assert!(matches!(&**v, Value::Int(5))),
        None => panic!("load without result"),
    }
    match &t.instrs[2].semantics {
        Semantics::Call { args, .. } => assert!(matches!(&*args.to_vec()[0], Value::Int(5))),
        _ => panic!("third node is not a call"),
    }
}

#[test]
fn lazy_symbols_are_stable() {
    // %x = load a0; %y = load a0; call target(%x, %y); ret
    let program = Program {
        functions: vec![
            func(
                "entry",
                1,
                vec![block(vec![
                    Instr::Load { loc: Operand::Argument(0) },
                    Instr::Load { loc: Operand::Argument(0) },
                    call(1, vec![Operand::Instr { block: 0, index: 0 }, Operand::Instr { block: 0, index: 1 }]),
                    ret(),
                ])],
            ),
            func("target", 2, vec![]),
        ],
    };
    let (_, accepted, _) = run(&program, options(50, 1000, 1000), target_slice(0, 1, (0, 2), vec![0]), &always_sat);
    let t = &accepted[0];
    for i in 0..2 {
        match (&t.instrs[i].semantics, &t.instrs[i].result) {
            (Semantics::Load { loc }, Some(v)) => {
                assert!(matches!(&**loc, Location::Argument(0)));
                assert!(matches!(&**v, Value::Symbol(0)));
            }
            _ => panic!("expected a load with a result"),
        }
    }
}

#[test]
fn combine_is_fieldwise_sum() {
    let mut a = MetaData::new();
    a.incr_proper();
    a.incr_duplicated();
    let mut b = MetaData::new();
    b.incr_path_unsat();
    b.incr_no_target();
    b.incr_proper();
    let ab = a.combine(b);
    let ba = b.combine(a);
    assert_eq!(ab, ba);
    assert_eq!(ab.proper_trace_count, 2);
    assert_eq!(ab.path_unsat_trace_count, 1);
    assert_eq!(ab.duplicate_trace_count, 1);
    assert_eq!(ab.no_target_trace_count, 1);
    assert_eq!(ab.explored_trace_count, 5);
    assert_eq!(a.combine(MetaData::new()), a);
    let mut c = MetaData::new();
    c.incr_unreachable();
    c.incr_exceeding_length();
    c.incr_branch_explored();
    assert_eq!(a.combine(b).combine(c), a.combine(b.combine(c)));
    assert_eq!(ab.combine(c).explored_trace_count, total(&ab.combine(c)));
}

#[test]
fn whole_slice_with_a_solver_callback() {
    let program = diamond();
    let ctx = SymbolicExecutionContext { program: &program, options: options(8, 1000, 1000) };
    let (m, traces) = ctx.execute_slice(target_slice(0, 1, (2, 0), vec![0]), |q: Vec<u8>| {
        if q.is_empty() {
            SatOutcome::Sat
        } else {
            SatOutcome::Unsat
        }
    });
    // the only path to the else-side target carries a constraint: rejected
    assert_eq!(m.proper_trace_count, 0);
    assert_eq!(m.path_unsat_trace_count, 1);
    assert_eq!(m.no_target_trace_count, 1);
    assert!(traces.is_empty());
    let (m, traces) = ctx.execute_slice(target_slice(0, 1, (2, 0), vec![0]), |_: Vec<u8>| SatOutcome::Sat);
    assert_eq!(m.proper_trace_count, 1);
    assert_eq!(traces.len(), 1);
    assert_eq!(traces[0].target, 2);
    assert!(matches!(traces[0].instrs[1].semantics, Semantics::ConditionalBr { br: Branch::Else, .. }));
}

#[test]
fn well_formedness_checks() {
    let program = diamond();
    assert!(program.check_wf());
    assert!(target_slice(0, 1, (1, 0), vec![0]).check_wf(&program));
    // not a call
    assert!(!target_slice(0, 1, (0, 0), vec![0]).check_wf(&program));
    // wrong callee
    assert!(!target_slice(0, 0, (1, 0), vec![0]).check_wf(&program));
    let broken = Program {
        functions: vec![func("entry", 0, vec![block(vec![Instr::Br { target: 4 }])])],
    };
    assert!(!broken.check_wf());
    let no_terminator = Program {
        functions: vec![func("entry", 0, vec![block(vec![Instr::Alloca])])],
    };
    assert!(!no_terminator.check_wf());
}

#[test]
fn conversions_stay_symbolic() {
    // %w = zext a0; call target(%w); ret
    let program = Program {
        functions: vec![
            func(
                "entry",
                1,
                vec![block(vec![
                    Instr::Unary { op: UnaryOpcode::ZExt, op0: Operand::Argument(0) },
                    call(1, vec![Operand::Instr { block: 0, index: 0 }]),
                    ret(),
                ])],
            ),
            func("target", 1, vec![]),
        ],
    };
    let (_, accepted, _) = run(&program, options(50, 1000, 1000), target_slice(0, 1, (0, 1), vec![0]), &always_sat);
    let t = &accepted[0];
    match (&t.instrs[0].semantics, &t.instrs[0].result) {
        (Semantics::UnaryOperation { op: UnaryOpcode::ZExt, op0 }, Some(r)) => {
            assert!(matches!(&**op0, Value::Argument(0)));
            assert!(matches!(&**r, Value::UnaryOperation { op: UnaryOpcode::ZExt, .. }));
        }
        _ => panic!("first node is not the conversion"),
    }
    match &t.instrs[1].semantics {
        Semantics::Call { args, .. } => {
            assert!(matches!(&*args.to_vec()[0], Value::UnaryOperation { op: UnaryOpcode::ZExt, .. }))
        }
        _ => panic!("second node is not a call"),
    }
}

#[test]
fn accepted_traces_fit_the_node_budget() {
    let program = Program {
        functions: vec![func("entry", 0, vec![block(vec![call(1, vec![]), ret()])]), func("target", 0, vec![])],
    };
    let (m, accepted, _) = run(&program, options(50, 1000, 1), target_slice(0, 1, (0, 0), vec![0]), &always_sat);
    assert_eq!(m.exceeding_length_trace_count, 1);
    assert_eq!(m.proper_trace_count, 0);
    assert!(accepted.is_empty());
    let (m, accepted, _) = run(&program, options(50, 1000, 2), target_slice(0, 1, (0, 0), vec![0]), &always_sat);
    assert_eq!(m.proper_trace_count, 1);
    assert_eq!(accepted[0].instrs.len(), 2);
}

fn phi_program(incomings: Vec<(usize, Operand)>) -> Program {
    // if (a0 > 0) {} else {}; %v = phi [1, then], [2, else]; target(%v); ret
    Program {
        functions: vec![
            func(
                "entry",
                1,
                vec![
                    block(vec![
                        Instr::ICmp { pred: Predicate::Sgt, op0: Operand::Argument(0), op1: Operand::Int(0) },
                        Instr::CondBr { cond: Operand::Instr { block: 0, index: 0 }, then_block: 1, else_block: 2 },
                    ]),
                    block(vec![Instr::Br { target: 3 }]),
                    block(vec![Instr::Br { target: 3 }]),
                    block(vec![Instr::Phi { incomings }, call(1, vec![Operand::Instr { block: 3, index: 0 }]), ret()]),
                ],
            ),
            func("target", 1, vec![]),
        ],
    }
}

#[test]
fn phi_takes_the_value_of_the_edge_taken() {
    let program = phi_program(vec![(1, Operand::Int(10)), (2, Operand::Int(20))]);
    assert!(program.check_wf());
    let (m, accepted, _) = run(&program, options(8, 1000, 1000), target_slice(0, 1, (3, 1), vec![0]), &always_sat);
    assert_eq!(m.proper_trace_count, 2);
    let mut seen = Vec::new();
    for t in &accepted {
        match &t.instrs[t.target].semantics {
            Semantics::Call { args, .. } => match &*args.to_vec()[0] {
                Value::Int(n) => seen.push(*n),
                _ => panic!("the phi value is not a constant"),
            },
            _ => panic!("target node is not a call"),
        }
    }
    seen.sort();
    assert_eq!(seen, vec![10, 20]);
}

#[test]
fn misplaced_phis_are_rejected() {
    // a predecessor missing from the phi
    assert!(!phi_program(vec![(1, Operand::Int(10))]).check_wf());
    // a phi in the entry block
    let in_entry = Program {
        functions: vec![func("entry", 0, vec![block(vec![Instr::Phi { incomings: vec![] }, ret()])])],
    };
    assert!(!in_entry.check_wf());
    // a phi after another instruction
    let late = Program {
        functions: vec![func(
            "entry",
            0,
            vec![
                block(vec![Instr::Br { target: 1 }]),
                block(vec![Instr::Alloca, Instr::Phi { incomings: vec![(0, Operand::Int(1))] }, ret()]),
            ],
        )],
    };
    assert!(!late.check_wf());
}
