use std::rc::Rc;
use vstd::prelude::*;
use crate::metadata::MetaData;
use crate::environment::{Environment, Slice, SymbolicExecutionOptions, Work};
use crate::ir::{BlockRef, Instr, InstrRef, Operand, Program, branches_to, is_intrinsic_name};
use crate::memory::{LocalMemory, load_result};
use crate::state::{StackFrame, Branch, BranchDirection, Constraint, FinishState, FrameView, Semantics, State, StateView, TraceNode};
use crate::value::{BinaryOpcode, Comparison, Location, Predicate, UnaryOpcode, Value, ValueList, list_of};

verus! {

/// Where a path goes after one instruction.
pub enum Next {
    /// Enter a block: it is appended to the block trace.
    Enter(BlockRef),
    /// Go on with another instruction of an already entered block.
    Continue(InstrRef),
    /// The path is finished; `finish_state` says why.
    Stop,
}

/// Frame `j` runs a function with a body; every frame but the entry one
/// records the `Call` node and the call instruction that created it.
pub open spec fn frame_ok(p: &Program, s: StateView, j: int) -> bool {
    let f = s.stack[j];
    &&& f.function < p.functions@.len()
    &&& p.functions@[f.function as int].has_body()
    &&& if j == 0 {
        f.callsite.is_none()
    } else {
        &&& f.callsite.is_some()
        &&& f.callsite.unwrap().0 < s.trace.len()
        &&& s.trace[f.callsite.unwrap().0 as int].semantics is Call
        &&& p.valid_instr(f.callsite.unwrap().1)
        &&& f.callsite.unwrap().1.func == s.stack[j - 1].function
        &&& p.instr_at(f.callsite.unwrap().1) is Call
    }
}

/// A recorded target node indexes a `Call` node of the slice's callee.
pub open spec fn target_ok(slice: &Slice, s: StateView) -> bool {
    s.target_node.is_some() ==> {
        let t = s.target_node.unwrap();
        &&& t < s.trace.len()
        &&& s.trace[t as int].semantics matches Semantics::Call { func, .. }
        &&& func == slice.callee
    }
}

/// A `Call` node has no result, or the value that a later `Return` node returned.
pub open spec fn result_ok(t: Seq<TraceNode>, n: int) -> bool {
    (t[n].semantics is Call && t[n].result.is_some()) ==> exists|m: int|
        n < m < t.len() && t[m].semantics == Semantics::Return { op: t[n].result }
}

pub open spec fn results_ok(t: Seq<TraceNode>) -> bool {
    forall|n: int| 0 <= n < t.len() ==> #[trigger] result_ok(t, n)
}

/// Appending a node keeps the results of the earlier nodes explained.
pub proof fn lemma_results_push(a: Seq<TraceNode>, b: Seq<TraceNode>)
    requires
        results_ok(a),
        b.len() == a.len() + 1,
        b.subrange(0, a.len() as int) == a,
        !(b.last().semantics is Call) || b.last().result.is_none(),
    ensures
        results_ok(b),
{
    assert forall|n: int| 0 <= n < b.len() implies #[trigger] result_ok(b, n) by {
        if n < a.len() {
            assert(b[n] == a[n]);
            assert(result_ok(a, n));
            if a[n].semantics is Call && a[n].result.is_some() {
                let m = choose|m: int| n < m < a.len() && a[m].semantics == Semantics::Return { op: a[n].result };
                assert(b[m] == a[m]);
            }
        }
    }
}

/// What holds of every state of a path of `slice`.
pub open spec fn state_inv(p: &Program, slice: &Slice, max_node: usize, s: StateView) -> bool {
    &&& s.stack.len() > 0
    &&& forall|j: int| 0 <= j < s.stack.len() ==> #[trigger] frame_ok(p, s, j)
    &&& target_ok(slice, s)
    &&& s.trace.len() <= max_node + 1
    &&& s.symbol_id <= s.trace.len()
    &&& results_ok(s.trace)
}

/// `at` is an instruction of the function of the top frame.
pub open spec fn at_ok(p: &Program, s: StateView, at: InstrRef) -> bool {
    &&& p.valid_instr(at)
    &&& at.func == s.stack.last().function
    &&& phi_ready(p, s, at)
}

/// A phi at `at` is reached from a block of its function that can go to its
/// block, and the path knows which.
pub open spec fn phi_ready(p: &Program, s: StateView, at: InstrRef) -> bool {
    p.instr_at(at) is Phi ==> (s.prev_block matches Some(pb) && pb.func == at.func && pb.block
        < p.functions@[at.func as int].blocks@.len() && p.functions@[at.func as int].is_edge(
        pb.block as int,
        at.block as int,
    ))
}

/// An instruction that can go to block `b` makes an edge from its block.
pub proof fn lemma_edge(p: &Program, at: InstrRef, b: usize)
    requires
        p.valid_instr(at),
        branches_to(p.instr_at(at), b),
    ensures
        p.functions@[at.func as int].is_edge(at.block as int, b as int),
{
    let f = p.functions@[at.func as int];
    assert(branches_to(f.blocks@[at.block as int].instrs@[at.index as int], (b as int) as usize));
}

/// The first instruction of block `b`.
pub open spec fn block_start(b: BlockRef) -> InstrRef {
    InstrRef { func: b.func, block: b.block, index: 0 }
}

/// `b` starts with `a`.
pub open spec fn keeps_prefix<T>(a: Seq<T>, b: Seq<T>) -> bool {
    &&& a.len() <= b.len()
    &&& forall|k: int| 0 <= k < a.len() ==> #[trigger] b[k] == a[k]
}

/// A pending path is about to enter a block of its top frame's function.
pub open spec fn work_ok(p: &Program, slice: &Slice, max_node: usize, w: Work) -> bool {
    &&& p.valid_block(w.block)
    &&& w.block.func == w.state@.stack.last().function
    &&& state_inv(p, slice, max_node, w.state@)
    &&& phi_ready(p, w.state@, block_start(w.block))
}

pub open spec fn env_inv(p: &Program, max_node: usize, env: &Environment) -> bool {
    forall|k: int|
        0 <= k < env.work_list@.len() ==> #[trigger] work_ok(
            p,
            &env.slice,
            max_node,
            env.work_list@[k],
        )
}

/// The frames keep their functions, call sites and arguments.
pub open spec fn same_frames(a: Seq<FrameView>, b: Seq<FrameView>) -> bool {
    &&& a.len() == b.len()
    &&& forall|j: int|
        0 <= j < a.len() ==> (#[trigger] b[j]).function == a[j].function && b[j].callsite
            == a[j].callsite && b[j].arguments == a[j].arguments
}

/// Evaluating an operand changes at most the top frame's bindings and the
/// alloca counter.
pub open spec fn eval_effect(a: StateView, b: StateView) -> bool {
    &&& b == StateView { alloca_id: b.alloca_id, stack: b.stack, ..a }
    &&& b.alloca_id >= a.alloca_id
    &&& same_frames(a.stack, b.stack)
}

pub proof fn lemma_same_frames_inv(p: &Program, slice: &Slice, max_node: usize, a: StateView, b: StateView)
    requires
        state_inv(p, slice, max_node, a),
        eval_effect(a, b),
    ensures
        state_inv(p, slice, max_node, b),
{
    assert forall|j: int| 0 <= j < b.stack.len() implies #[trigger] frame_ok(p, b, j) by {
        assert(frame_ok(p, a, j));
        if j > 0 {
            assert(b.stack[j - 1].function == a.stack[j - 1].function);
        }
    }
}

/// The invariant reads only the frames, the trace, the target and the symbol counter.
pub proof fn lemma_inv_frame(p: &Program, slice: &Slice, max_node: usize, a: StateView, b: StateView)
    requires
        state_inv(p, slice, max_node, a),
        b.stack == a.stack,
        b.trace == a.trace,
        b.target_node == a.target_node,
        b.symbol_id <= a.symbol_id,
    ensures
        state_inv(p, slice, max_node, b),
{
    assert forall|j: int| 0 <= j < b.stack.len() implies #[trigger] frame_ok(p, b, j) by {
        assert(frame_ok(p, a, j));
    }
}

/// The state with `v` bound to instruction `key` in the top frame.
pub open spec fn bind_top(s: StateView, key: (usize, usize), v: Value) -> StateView {
    let last = s.stack.len() - 1;
    StateView {
        stack: s.stack.update(last, FrameView { memory: s.stack[last].memory.insert(key, v), ..s.stack[last] }),
        ..s
    }
}

/// The result of instruction (`block`, `index`) of the top frame, and the
/// state after reading it: a bound result as it is; an alloca not yet used
/// gets a fresh location; anything else is unknown.
pub open spec fn eval_instr_spec(p: &Program, s: StateView, block: usize, index: usize) -> (Value, StateView) {
    let top = s.stack.last();
    let at = InstrRef { func: top.function, block, index };
    if top.memory.contains_key((block, index)) {
        (top.memory[(block, index)], s)
    } else if p.valid_instr(at) && p.instr_at(at) is Alloca && s.alloca_id < usize::MAX {
        let v = Value::Location(Rc::new(Location::Alloca(s.alloca_id)));
        (v, bind_top(StateView { alloca_id: (s.alloca_id + 1) as usize, ..s }, (block, index), v))
    } else {
        (Value::Unknown, s)
    }
}

/// An operand as an r-value, and the state after evaluating it.
pub open spec fn eval_value_spec(p: &Program, s: StateView, op: Operand) -> (Value, StateView) {
    let args = s.stack.last().arguments;
    match op {
        Operand::Int(n) => (Value::Int(n), s),
        Operand::Null => (Value::Null, s),
        Operand::Global(g) => (Value::Location(Rc::new(Location::Global(g))), s),
        Operand::Argument(i) => (if i < args.len() { *args[i as int] } else { Value::Unknown }, s),
        Operand::Instr { block, index } => eval_instr_spec(p, s, block, index),
        Operand::Other => (Value::Unknown, s),
    }
}

/// The location a pointer value holds.
pub open spec fn location_of_value(v: Value) -> Location {
    match v {
        Value::Location(l) => *l,
        Value::Argument(j) => Location::Argument(j),
        _ => Location::Unknown,
    }
}

/// An operand as an l-value, and the state after evaluating it.
pub open spec fn eval_location_spec(p: &Program, s: StateView, op: Operand) -> (Location, StateView) {
    let args = s.stack.last().arguments;
    match op {
        Operand::Global(g) => (Location::Global(g), s),
        Operand::Argument(i) => (if i < args.len() { location_of_value(*args[i as int]) } else { Location::Unknown }, s),
        Operand::Instr { block, index } => {
            let (v, s2) = eval_instr_spec(p, s, block, index);
            (if v is Location { location_of_value(v) } else { Location::Unknown }, s2)
        },
        _ => (Location::Unknown, s),
    }
}

/// Operands evaluated in order, and the state after the last.
pub open spec fn eval_values_spec(p: &Program, s: StateView, ops: Seq<Operand>) -> (Seq<Rc<Value>>, StateView)
    decreases ops.len(),
{
    if ops.len() == 0 {
        (Seq::empty(), s)
    } else {
        let (vs, s1) = eval_values_spec(p, s, ops.drop_last());
        let (v, s2) = eval_value_spec(p, s1, ops.last());
        (vs.push(Rc::new(v)), s2)
    }
}

/// The first incoming edge at or after `i` that comes from block `b`.
pub open spec fn first_incoming(incs: Seq<(usize, Operand)>, b: usize, i: int) -> Option<int>
    decreases incs.len() - i,
{
    if i < 0 || i >= incs.len() {
        None
    } else if incs[i].0 == b {
        Some(i)
    } else {
        first_incoming(incs, b, i + 1)
    }
}

/// An incoming edge from `b` at or after `i` is found.
pub proof fn lemma_first_incoming(incs: Seq<(usize, Operand)>, b: usize, i: int, k: int)
    requires
        0 <= i <= k < incs.len(),
        incs[k].0 == b,
    ensures
        first_incoming(incs, b, i).is_some(),
    decreases k - i,
{
    if incs[i].0 != b {
        lemma_first_incoming(incs, b, i + 1, k);
    }
}

/// The incoming edge of a phi in function `func` that the previous block selects.
pub open spec fn phi_source(incs: Seq<(usize, Operand)>, prev: Option<BlockRef>, func: usize) -> Option<int> {
    match prev {
        Some(p) => if p.func == func { first_incoming(incs, p.block, 0) } else { None },
        None => None,
    }
}

/// The returned value of `ret op` (none for `ret void`) and the state after
/// evaluating it.
pub open spec fn ret_value_spec(p: &Program, s: StateView, op: Option<Operand>) -> (Option<Rc<Value>>, StateView) {
    match op {
        Some(o) => {
            let (v, s1) = eval_value_spec(p, s, o);
            (Some(Rc::new(v)), s1)
        },
        None => (None, s),
    }
}

/// `at` is a conditional branch whose two edges, or a switch whose default
/// edge, the path has taken.
pub open spec fn branch_exhausted(p: &Program, at: InstrRef, visited: Seq<BranchDirection>) -> bool {
    let from = BlockRef { func: at.func, block: at.block };
    match p.instr_at(at) {
        Instr::CondBr { then_block, else_block, .. } => visited.contains(
            BranchDirection { from, to: BlockRef { func: at.func, block: then_block } },
        ) && visited.contains(BranchDirection { from, to: BlockRef { func: at.func, block: else_block } }),
        Instr::Switch { default, .. } => visited.contains(
            BranchDirection { from, to: BlockRef { func: at.func, block: default } },
        ),
        _ => false,
    }
}

/// The state after an instruction that neither branches, calls nor returns;
/// `None` for those that do.
pub open spec fn straight_effect(p: &Program, s: StateView, at: InstrRef) -> Option<StateView> {
    let key = (at.block, at.index);
    match p.instr_at(at) {
        Instr::Store { loc, val } => {
            let (l, s1) = eval_location_spec(p, s, loc);
            let (v, s2) = eval_value_spec(p, s1, val);
            Some(StateView {
                memory: s2.memory.insert(l, v),
                trace: s2.trace.push(TraceNode { semantics: Semantics::Store { loc: Rc::new(l), val: Rc::new(v) }, result: None }),
                ..s2
            })
        },
        Instr::Load { loc } => {
            let (l, s1) = eval_location_spec(p, s, loc);
            let (v, m, n) = load_result(s1.memory, s1.symbol_id, l);
            Some(bind_top(
                StateView {
                    memory: m,
                    symbol_id: n,
                    trace: s1.trace.push(TraceNode { semantics: Semantics::Load { loc: Rc::new(l) }, result: Some(Rc::new(v)) }),
                    ..s1
                },
                key,
                v,
            ))
        },
        Instr::ICmp { pred, op0, op1 } => {
            let (a, s1) = eval_value_spec(p, s, op0);
            let (b, s2) = eval_value_spec(p, s1, op1);
            let r = Value::Comparison(Comparison { pred, op0: Rc::new(a), op1: Rc::new(b) });
            Some(bind_top(
                StateView {
                    trace: s2.trace.push(TraceNode { semantics: Semantics::Compare { pred, op0: Rc::new(a), op1: Rc::new(b) }, result: Some(Rc::new(r)) }),
                    ..s2
                },
                key,
                r,
            ))
        },
        Instr::Binary { op, op0, op1 } => {
            let (a, s1) = eval_value_spec(p, s, op0);
            let (b, s2) = eval_value_spec(p, s1, op1);
            let r = Value::BinaryOperation { op, op0: Rc::new(a), op1: Rc::new(b) };
            Some(bind_top(
                StateView {
                    trace: s2.trace.push(TraceNode { semantics: Semantics::BinaryOperation { op, op0: Rc::new(a), op1: Rc::new(b) }, result: Some(Rc::new(r)) }),
                    ..s2
                },
                key,
                r,
            ))
        },
        Instr::Unary { op, op0 } => {
            let (a, s1) = eval_value_spec(p, s, op0);
            let r = Value::UnaryOperation { op, op0: Rc::new(a) };
            Some(bind_top(
                StateView {
                    trace: s1.trace.push(TraceNode { semantics: Semantics::UnaryOperation { op, op0: Rc::new(a) }, result: Some(Rc::new(r)) }),
                    ..s1
                },
                key,
                r,
            ))
        },
        Instr::GetElementPtr { loc, indices } => {
            let (l, s1) = eval_location_spec(p, s, loc);
            let (ix, s2) = eval_values_spec(p, s1, indices@);
            let r = Value::Location(Rc::new(Location::GetElementPtr(Rc::new(l), Rc::new(list_of(ix)))));
            Some(bind_top(
                StateView {
                    trace: s2.trace.push(TraceNode {
                        semantics: Semantics::GetElementPtr { loc: Rc::new(l), indices: Rc::new(list_of(ix)) },
                        result: Some(Rc::new(r)),
                    }),
                    ..s2
                },
                key,
                r,
            ))
        },
        Instr::Phi { incomings } => Some(match phi_source(incomings@, s.prev_block, at.func) {
            Some(k) => {
                let (v, s1) = eval_value_spec(p, s, incomings@[k].1);
                bind_top(s1, key, v)
            },
            None => bind_top(s, key, Value::Unknown),
        }),
        Instr::Alloca | Instr::Other => Some(s),
        _ => None,
    }
}

/// Binds `v` to instruction `key` in the top frame.
pub fn bind_local(state: &mut State, key: (usize, usize), v: Rc<Value>)
    requires
        old(state).stack@.len() > 0,
    ensures
        final(state)@ == bind_top(old(state)@, key, *v),
        final(state)@ == (StateView { stack: final(state)@.stack, ..old(state)@ }),
        same_frames(old(state)@.stack, final(state)@.stack),
        final(state)@.stack.last().memory == old(state)@.stack.last().memory.insert(key, *v),
        forall|j: int|
            0 <= j < old(state)@.stack.len() - 1 ==> final(state)@.stack[j] == old(state)@.stack[j],
{
    let last = state.stack.len() - 1;
    state.stack[last].memory.insert(key, v);
    assert(same_frames(old(state)@.stack, state@.stack));
    assert(state@.stack =~= bind_top(old(state)@, key, *v).stack);
}

pub struct SymbolicExecutionContext<'a> {
    pub program: &'a Program,
    pub options: SymbolicExecutionOptions,
}

impl<'a> SymbolicExecutionContext<'a> {
    pub open spec fn wf(&self) -> bool {
        &&& self.program.wf()
        &&& self.options.max_node_per_trace < usize::MAX
    }

    /// The result of instruction (`block`, `index`) of the top frame. An
    /// alloca gets its location on first use.
    pub fn eval_instr_result(&self, state: &mut State, block: usize, index: usize) -> (r: Rc<Value>)
        requires
            old(state).stack@.len() > 0,
            old(state)@.stack.last().function < self.program.functions@.len(),
        ensures
            eval_effect(old(state)@, final(state)@),
            (*r, final(state)@) == eval_instr_spec(self.program, old(state)@, block, index),
    {
        let last = state.stack.len() - 1;
        match state.stack[last].memory.get((block, index)) {
            Some(v) => v,
            None => {
                let f = state.stack[last].function;
                let func = &self.program.functions[f];
                if block < func.blocks.len() && index < func.blocks[block].instrs.len()
                    && state.alloca_id < usize::MAX {
                    if let Instr::Alloca = &func.blocks[block].instrs[index] {
                        let id = state.new_alloca_id();
                        let v = Rc::new(Value::Location(Rc::new(Location::Alloca(id))));
                        bind_local(state, (block, index), v.clone());
                        return v;
                    }
                }
                Rc::new(Value::Unknown)
            },
        }
    }

    /// An operand as an r-value.
    pub fn eval_operand_value(&self, state: &mut State, op: &Operand) -> (r: Rc<Value>)
        requires
            old(state).stack@.len() > 0,
            old(state)@.stack.last().function < self.program.functions@.len(),
        ensures
            eval_effect(old(state)@, final(state)@),
            (*r, final(state)@) == eval_value_spec(self.program, old(state)@, *op),
    {
        match op {
            Operand::Int(n) => Rc::new(Value::Int(*n)),
            Operand::Null => Rc::new(Value::Null),
            Operand::Global(g) => Rc::new(Value::Location(Rc::new(Location::Global(*g)))),
            Operand::Argument(i) => {
                let last = state.stack.len() - 1;
                if *i < state.stack[last].arguments.len() {
                    state.stack[last].arguments[*i].clone()
                } else {
                    Rc::new(Value::Unknown)
                }
            },
            Operand::Instr { block, index } => self.eval_instr_result(state, *block, *index),
            Operand::Other => Rc::new(Value::Unknown),
        }
    }

    /// An operand as an l-value: a pointer value denotes the location it holds.
    pub fn eval_operand_location(&self, state: &mut State, op: &Operand) -> (r: Rc<Location>)
        requires
            old(state).stack@.len() > 0,
            old(state)@.stack.last().function < self.program.functions@.len(),
        ensures
            eval_effect(old(state)@, final(state)@),
            (*r, final(state)@) == eval_location_spec(self.program, old(state)@, *op),
    {
        match op {
            Operand::Global(g) => Rc::new(Location::Global(*g)),
            Operand::Argument(i) => {
                let last = state.stack.len() - 1;
                if *i < state.stack[last].arguments.len() {
                    match &*state.stack[last].arguments[*i] {
                        Value::Location(l) => l.clone(),
                        Value::Argument(j) => Rc::new(Location::Argument(*j)),
                        _ => Rc::new(Location::Unknown),
                    }
                } else {
                    Rc::new(Location::Unknown)
                }
            },
            Operand::Instr { block, index } => {
                let v = self.eval_instr_result(state, *block, *index);
                match &*v {
                    Value::Location(l) => l.clone(),
                    _ => Rc::new(Location::Unknown),
                }
            },
            _ => Rc::new(Location::Unknown),
        }
    }

    /// Reads `location`; a location never written gets a fresh symbol, which
    /// is stored there so that later reads agree.
    pub fn load_from_memory(&self, state: &mut State, location: Rc<Location>) -> (r: Rc<Value>)
        requires
            *location is Unknown || old(state)@.memory.contains_key(*location) || old(state).symbol_id < usize::MAX,
        ensures
            (*r, final(state)@.memory, final(state)@.symbol_id) == load_result(
                old(state)@.memory,
                old(state)@.symbol_id,
                *location,
            ),
            final(state)@ == (StateView {
                memory: final(state)@.memory,
                symbol_id: final(state)@.symbol_id,
                ..old(state)@
            }),
    {
        match &*location {
            Location::Unknown => Rc::new(Value::Unknown),
            _ => match state.memory.get(&*location) {
                Some(value) => value,
                None => {
                    let symbol_id = state.new_symbol_id();
                    let value = Rc::new(Value::Symbol(symbol_id));
                    state.memory.insert(location, value.clone());
                    value
                },
            },
        }
    }
}

/// Appends `node` to the trace.
pub fn push_node(state: &mut State, node: TraceNode)
    ensures
        final(state)@ == (StateView { trace: old(state)@.trace.push(node), ..old(state)@ }),
{
    state.trace.push(node);
}

/// Appending a node that is not a call keeps the invariant, while the trace
/// stays within one node over the budget.
pub proof fn lemma_push_inv(
    p: &Program,
    slice: &Slice,
    max_node: usize,
    a: StateView,
    b: StateView,
)
    requires
        state_inv(p, slice, max_node, a),
        a.trace.len() <= max_node,
        b.trace.len() == a.trace.len() + 1,
        b.trace.subrange(0, a.trace.len() as int) == a.trace,
        b.stack == a.stack,
        b.target_node == a.target_node,
        b.symbol_id <= b.trace.len(),
        !(b.trace.last().semantics is Call),
    ensures
        state_inv(p, slice, max_node, b),
{
    lemma_results_push(a.trace, b.trace);
    assert forall|j: int| 0 <= j < b.stack.len() implies #[trigger] frame_ok(p, b, j) by {
        assert(frame_ok(p, a, j));
        if j > 0 {
            let n = a.stack[j].callsite.unwrap().0 as int;
            assert(b.trace[n] == b.trace.subrange(0, a.trace.len() as int)[n]);
        }
    }
    if b.target_node.is_some() {
        let t = b.target_node.unwrap() as int;
        assert(b.trace[t] == b.trace.subrange(0, a.trace.len() as int)[t]);
    }
}

/// Setting the result of a recorded node keeps the invariant.
pub proof fn lemma_patch_inv(
    p: &Program,
    slice: &Slice,
    max_node: usize,
    a: StateView,
    b: StateView,
    n: int,
)
    requires
        state_inv(p, slice, max_node, a),
        0 <= n < a.trace.len() - 1,
        b.trace == a.trace.update(n, TraceNode { semantics: a.trace[n].semantics, result: b.trace[n].result }),
        a.trace.last().semantics == (Semantics::Return { op: b.trace[n].result }),
        b.stack == a.stack,
        b.target_node == a.target_node,
        b.symbol_id == a.symbol_id,
    ensures
        state_inv(p, slice, max_node, b),
{
    assert forall|k: int| 0 <= k < b.trace.len() implies #[trigger] result_ok(b.trace, k) by {
        if k == n {
            assert(b.trace[a.trace.len() - 1] == a.trace.last());
        } else {
            assert(b.trace[k] == a.trace[k]);
            assert(result_ok(a.trace, k));
            if a.trace[k].semantics is Call && a.trace[k].result.is_some() {
                let m = choose|m: int| k < m < a.trace.len() && a.trace[m].semantics == Semantics::Return { op: a.trace[k].result };
                assert(b.trace[m].semantics == a.trace[m].semantics);
            }
        }
    }
    assert forall|j: int| 0 <= j < b.stack.len() implies #[trigger] frame_ok(p, b, j) by {
        assert(frame_ok(p, a, j));
    }
}

/// Popping the top frame keeps the invariant.
pub proof fn lemma_pop_inv(p: &Program, slice: &Slice, max_node: usize, a: StateView, b: StateView)
    requires
        state_inv(p, slice, max_node, a),
        a.stack.len() > 1,
        b.stack == a.stack.drop_last(),
        b.trace == a.trace,
        b.target_node == a.target_node,
        b.symbol_id == a.symbol_id,
    ensures
        state_inv(p, slice, max_node, b),
{
    assert forall|j: int| 0 <= j < b.stack.len() implies #[trigger] frame_ok(p, b, j) by {
        assert(frame_ok(p, a, j));
    }
}

impl<'a> SymbolicExecutionContext<'a> {
    /// What a transfer function relies on.
    pub open spec fn pre(&self, env: &Environment, s: StateView, at: InstrRef) -> bool {
        &&& self.wf()
        &&& env.slice.wf(self.program)
        &&& env_inv(self.program, self.options.max_node_per_trace, env)
        &&& state_inv(self.program, &env.slice, self.options.max_node_per_trace, s)
        &&& s.trace.len() <= self.options.max_node_per_trace
        &&& at_ok(self.program, s, at)
    }

    /// What `execute_instr` relies on: a transfer's needs, but for the node budget.
    pub open spec fn pre_exec(&self, env: &Environment, s: StateView, at: InstrRef) -> bool {
        &&& self.wf()
        &&& env.slice.wf(self.program)
        &&& env_inv(self.program, self.options.max_node_per_trace, env)
        &&& state_inv(self.program, &env.slice, self.options.max_node_per_trace, s)
        &&& at_ok(self.program, s, at)
    }

    /// What every transfer function guarantees.
    pub open spec fn post(
        &self,
        env0: &Environment,
        env1: &Environment,
        s0: StateView,
        s1: StateView,
        at: InstrRef,
        next: Next,
    ) -> bool {
        &&& env1.slice == env0.slice
        &&& env1.block_traces == env0.block_traces
        &&& env1.call_id >= env0.call_id
        &&& keeps_prefix(env0.work_list@, env1.work_list@)
        &&& env_inv(self.program, self.options.max_node_per_trace, env1)
        &&& state_inv(self.program, &env0.slice, self.options.max_node_per_trace, s1)
        &&& s0.target_node.is_some() ==> s1.target_node == s0.target_node
        &&& s1.trace.len() >= s0.trace.len()
        &&& s1.block_trace == s0.block_trace
        &&& !(next is Stop) ==> s1.finish_state == s0.finish_state
        &&& s1.alloca_id >= s0.alloca_id
        &&& s1.symbol_id >= s0.symbol_id
        &&& match next {
            Next::Enter(b) => {
                &&& self.program.valid_block(b)
                &&& b.func == s1.stack.last().function
                &&& phi_ready(self.program, s1, block_start(b))
                &&& s1.trace.len() > s0.trace.len()
            },
            Next::Continue(i) => {
                &&& at_ok(self.program, s1, i)
                &&& s1.trace.len() > s0.trace.len() || (i.func == at.func && i.block == at.block
                    && i.index > at.index)
            },
            Next::Stop => {
                &&& s1.finish_state == FinishState::ProperlyReturned ==> s1.stack.len() == 1 && s1.trace.len() > 0
                    && s1.trace.last().semantics is Return
                &&& s1.finish_state == FinishState::Unreachable ==> self.program.instr_at(at) is Unreachable
                &&& s1.finish_state == FinishState::BranchExplored ==> branch_exhausted(self.program, at, s1.visited_branch)
                &&& s1.finish_state == FinishState::ExceedingMaxTraceLength ==> s1.trace.len() > self.options.max_node_per_trace
            },
        }
    }

    /// A `Return`: the relation `transfer_ret_instr` ensures.
    pub open spec fn ret_effect(&self, env0: &Environment, env1: &Environment, pre_s: StateView, post_s: StateView, at: InstrRef, next: Next) -> bool {
        match self.program.instr_at(at) {
            Instr::Return { op } => {
                &&& *env1 == *env0
                &&& ({
                    let (val, s1) = ret_value_spec(self.program, pre_s, op);
                    let s2 = StateView {
                        trace: s1.trace.push(TraceNode { semantics: Semantics::Return { op: val }, result: None }),
                        ..s1
                    };
                    if pre_s.stack.len() == 1 {
                        &&& next is Stop
                        &&& post_s == (StateView { finish_state: FinishState::ProperlyReturned, ..s2 })
                    } else {
                        let (n, cs) = pre_s.stack.last().callsite.unwrap();
                        let s3 = StateView { stack: s2.stack.drop_last(), ..s2 };
                        &&& next == Next::Continue(InstrRef { index: (cs.index + 1) as usize, ..cs })
                        &&& post_s == match val {
                            Some(v) => bind_top(
                                StateView {
                                    trace: s3.trace.update(n as int, TraceNode { semantics: s3.trace[n as int].semantics, result: Some(v) }),
                                    ..s3
                                },
                                (cs.block, cs.index),
                                *v,
                            ),
                            None => s3,
                        }
                    }
                })
            },
            _ => true,
        }
    }

    /// A `Call`: the relation `transfer_call_instr` ensures.
    pub open spec fn call_effect(&self, env0: &Environment, env1: &Environment, pre_s: StateView, post_s: StateView, at: InstrRef, next: Next) -> bool {
        match self.program.instr_at(at) {
            Instr::Call { callee, args } => {
                if callee.is_none() || is_intrinsic_name(self.program.functions@[callee.unwrap() as int].name@) {
                    &&& post_s == pre_s
                    &&& *env1 == *env0
                    &&& next == Next::Continue(InstrRef { index: (at.index + 1) as usize, ..at })
                } else {
                    let f = callee.unwrap();
                    let (vs, s1) = eval_values_spec(self.program, pre_s, args@);
                    let n = pre_s.trace.len();
                    let node = TraceNode { semantics: Semantics::Call { func: f, args: Rc::new(list_of(vs)) }, result: None };
                    let s2 = StateView { trace: s1.trace.push(node), ..s1 };
                    let s3 = if at == env0.slice.instr && s2.target_node.is_none() {
                        StateView { target_node: Some(n as usize), ..s2 }
                    } else {
                        s2
                    };
                    let key = (at.block, at.index);
                    if self.program.functions@[f as int].has_body() && env0.slice.functions@.contains(f) {
                        &&& *env1 == *env0
                        &&& next == Next::Enter(BlockRef { func: f, block: 0 })
                        &&& post_s == (StateView {
                            stack: s3.stack.push(FrameView {
                                function: f,
                                callsite: Some((n as usize, at)),
                                memory: Map::empty(),
                                arguments: vs,
                            }),
                            ..s3
                        })
                    } else {
                        &&& next == Next::Continue(InstrRef { index: (at.index + 1) as usize, ..at })
                        &&& env1.slice == env0.slice
                        &&& env1.work_list == env0.work_list
                        &&& env1.block_traces == env0.block_traces
                        &&& if env0.call_id < usize::MAX {
                            &&& env1.call_id == env0.call_id + 1
                            &&& post_s == bind_top(s3, key, Value::Call { id: env0.call_id, func: f, args: Rc::new(list_of(vs)) })
                        } else {
                            &&& env1.call_id == env0.call_id
                            &&& post_s == bind_top(s3, key, Value::Unknown)
                        }
                    }
                }
            },
            _ => true,
        }
    }

    /// A branch: the relation `transfer_br_instr` ensures.
    pub open spec fn br_effect(&self, env0: &Environment, env1: &Environment, pre_s: StateView, post_s: StateView, at: InstrRef, next: Next) -> bool {
        let from = BlockRef { func: at.func, block: at.block };
        let s0 = StateView { prev_block: Some(from), ..pre_s };
        let is_loop = self.program.block_at(from).is_loop_header;
        match self.program.instr_at(at) {
            Instr::Br { target } => {
                &&& next == Next::Enter(BlockRef { func: at.func, block: target })
                &&& *env1 == *env0
                &&& post_s == (StateView {
                    trace: s0.trace.push(TraceNode { semantics: Semantics::UnconditionalBr { end_loop: false }, result: None }),
                    ..s0
                })
            },
            Instr::CondBr { cond, then_block, else_block } => {
                let (c, s1) = eval_value_spec(self.program, s0, cond);
                let comp = comparison_of(c);
                let then_d = BranchDirection { from, to: BlockRef { func: at.func, block: then_block } };
                let else_d = BranchDirection { from, to: BlockRef { func: at.func, block: else_block } };
                let vt = pre_s.visited_branch.contains(then_d);
                let ve = pre_s.visited_branch.contains(else_d);
                let then_node = TraceNode {
                    semantics: Semantics::ConditionalBr { cond: Rc::new(c), br: Branch::Then, begin_loop: is_loop },
                    result: None,
                };
                let else_node = TraceNode {
                    semantics: Semantics::ConditionalBr { cond: Rc::new(c), br: Branch::Else, begin_loop: false },
                    result: None,
                };
                &&& !vt ==> next == Next::Enter(then_d.to) && post_s == taken(s1, then_d, comp, true, is_loop, then_node)
                &&& (!vt && !ve) ==> env1.work_list@.len() == env0.work_list@.len() + 1
                    && env1.work_list@.subrange(0, env0.work_list@.len() as int) == env0.work_list@
                    && env1.work_list@.last().block == else_d.to
                    && env1.work_list@.last().state@ == taken(s1, else_d, comp, false, is_loop, else_node)
                    && env1.slice == env0.slice
                    && env1.block_traces == env0.block_traces
                    && env1.call_id == env0.call_id
                &&& !(!vt && !ve) ==> *env1 == *env0
                &&& (vt && !ve) ==> next == Next::Enter(else_d.to) && post_s == taken(s1, else_d, comp, false, is_loop, else_node)
                &&& (vt && ve) ==> next is Stop && post_s == (StateView { finish_state: FinishState::BranchExplored, ..s1 })
            },
            _ => true,
        }
    }

    /// A `Switch`: the relation `transfer_switch_instr` ensures.
    pub open spec fn switch_effect(&self, env0: &Environment, env1: &Environment, pre_s: StateView, post_s: StateView, at: InstrRef, next: Next) -> bool {
        match self.program.instr_at(at) {
            Instr::Switch { cond, cases, default } => {
                let from = BlockRef { func: at.func, block: at.block };
                let s0 = StateView { prev_block: Some(from), ..pre_s };
                let (c, s1) = eval_value_spec(self.program, s0, cond);
                let s2 = StateView {
                    trace: s1.trace.push(TraceNode { semantics: Semantics::Switch { cond: Rc::new(c) }, result: None }),
                    ..s1
                };
                let forks = switch_forks(s2, from, cases@);
                let n0 = env0.work_list@.len();
                let d = BranchDirection { from, to: BlockRef { func: at.func, block: default } };
                &&& env1.slice == env0.slice
                &&& env1.block_traces == env0.block_traces
                &&& env1.call_id == env0.call_id
                &&& env1.work_list@.len() == n0 + forks.len()
                &&& env1.work_list@.subrange(0, n0 as int) == env0.work_list@
                &&& forall|k: int|
                    0 <= k < forks.len() ==> (#[trigger] env1.work_list@[n0 + k]).block == forks[k].0
                        && env1.work_list@[n0 + k].state@ == forks[k].1
                &&& !s2.visited_branch.contains(d) ==> next == Next::Enter(d.to)
                    && post_s == (StateView { visited_branch: s2.visited_branch.push(d), ..s2 })
                &&& s2.visited_branch.contains(d) ==> next is Stop
                    && post_s == (StateView { finish_state: FinishState::BranchExplored, ..s2 })
            },
            _ => true,
        }
    }

    /// The instruction after `at`, which is not a terminator.
    pub fn next_of(&self, at: InstrRef) -> (r: InstrRef)
        requires
            self.program.wf(),
            self.program.valid_instr(at),
            !self.program.instr_at(at).is_terminator(),
        ensures
            r == (InstrRef { index: (at.index + 1) as usize, ..at }),
            r.index == at.index + 1,
            self.program.valid_instr(r),
            self.program.instr_at(r) is Phi ==> self.program.instr_at(at) is Phi,
    {
        proof {
            let f = self.program.functions@[at.func as int];
            assert(f.wf(self.program.functions@.len() as nat));
            assert(f.phis_wf());
            assert(f.blocks@[at.block as int].wf(f.blocks@.len(), self.program.functions@.len() as nat));
            assert(f.blocks@[at.block as int].instrs@.len() == f.blocks@[at.block as int].instrs.len());
        }
        InstrRef { func: at.func, block: at.block, index: at.index + 1 }
    }

    /// Stores the value at the location and records a `Store` node.
    pub fn transfer_store_instr(
        &self,
        loc: &Operand,
        val: &Operand,
        at: InstrRef,
        state: &mut State,
        env: &mut Environment,
    ) -> (next: Next)
        requires
            self.pre(old(env), old(state)@, at),
            self.program.instr_at(at) == (Instr::Store { loc: *loc, val: *val }),
        ensures
            self.post(old(env), final(env), old(state)@, final(state)@, at, next),
            *final(env) == *old(env),
            next == Next::Continue(InstrRef { index: (at.index + 1) as usize, ..at }),
            ({
                let (l, s1) = eval_location_spec(self.program, old(state)@, *loc);
                let (v, s2) = eval_value_spec(self.program, s1, *val);
                final(state)@ == (StateView {
                    memory: s2.memory.insert(l, v),
                    trace: s2.trace.push(TraceNode { semantics: Semantics::Store { loc: Rc::new(l), val: Rc::new(v) }, result: None }),
                    ..s2
                })
            }),
    {
        let l = self.eval_operand_location(state, loc);
        proof {
            lemma_same_frames_inv(self.program, &env.slice, self.options.max_node_per_trace, old(state)@, state@);
        }
        let ghost s1 = state@;
        let v = self.eval_operand_value(state, val);
        proof {
            lemma_same_frames_inv(self.program, &env.slice, self.options.max_node_per_trace, s1, state@);
        }
        let ghost s2 = state@;
        state.memory.insert(l.clone(), v.clone());
        let ghost mid = state@;
        proof {
            lemma_inv_frame(self.program, &env.slice, self.options.max_node_per_trace, s2, mid);
        }
        push_node(state, TraceNode { semantics: Semantics::Store { loc: l, val: v }, result: None });
        proof {
            assert(state@.trace.subrange(0, mid.trace.len() as int) =~= mid.trace);
            lemma_push_inv(self.program, &env.slice, self.options.max_node_per_trace, mid, state@);
        }
        Next::Continue(self.next_of(at))
    }
}

impl<'a> SymbolicExecutionContext<'a> {
    /// Reads memory at the location, binds the value read to the instruction
    /// and records a `Load` node with it as result.
    pub fn transfer_load_instr(&self, loc: &Operand, at: InstrRef, state: &mut State, env: &mut Environment) -> (next: Next)
        requires
            self.pre(old(env), old(state)@, at),
            self.program.instr_at(at) == (Instr::Load { loc: *loc }),
        ensures
            self.post(old(env), final(env), old(state)@, final(state)@, at, next),
            *final(env) == *old(env),
            next == Next::Continue(InstrRef { index: (at.index + 1) as usize, ..at }),
            ({
                let (l, s1) = eval_location_spec(self.program, old(state)@, *loc);
                let (v, m, n) = load_result(s1.memory, s1.symbol_id, l);
                final(state)@ == bind_top(
                    StateView {
                        memory: m,
                        symbol_id: n,
                        trace: s1.trace.push(TraceNode { semantics: Semantics::Load { loc: Rc::new(l) }, result: Some(Rc::new(v)) }),
                        ..s1
                    },
                    (at.block, at.index),
                    v,
                )
            }),
    {
        let l = self.eval_operand_location(state, loc);
        proof {
            lemma_same_frames_inv(self.program, &env.slice, self.options.max_node_per_trace, old(state)@, state@);
        }
        let ghost s1 = state@;
        let res = self.load_from_memory(state, l.clone());
        let ghost s2 = state@;
        push_node(state, TraceNode { semantics: Semantics::Load { loc: l }, result: Some(res.clone()) });
        proof {
            lemma_inv_frame(self.program, &env.slice, self.options.max_node_per_trace, s1, StateView { symbol_id: s1.symbol_id, ..s2 });
            assert(state@.trace.subrange(0, s2.trace.len() as int) =~= s2.trace);
            lemma_push_inv(self.program, &env.slice, self.options.max_node_per_trace, StateView { symbol_id: s1.symbol_id, ..s2 }, state@);
        }
        let ghost s3 = state@;
        bind_local(state, (at.block, at.index), res);
        proof {
            lemma_same_frames_inv(self.program, &env.slice, self.options.max_node_per_trace, s3, state@);
        }
        Next::Continue(self.next_of(at))
    }

    /// Binds the comparison, kept symbolic, and records a `Compare` node.
    pub fn transfer_icmp_instr(
        &self,
        pred: Predicate,
        op0: &Operand,
        op1: &Operand,
        at: InstrRef,
        state: &mut State,
        env: &mut Environment,
    ) -> (next: Next)
        requires
            self.pre(old(env), old(state)@, at),
            self.program.instr_at(at) == (Instr::ICmp { pred, op0: *op0, op1: *op1 }),
        ensures
            self.post(old(env), final(env), old(state)@, final(state)@, at, next),
            *final(env) == *old(env),
            next == Next::Continue(InstrRef { index: (at.index + 1) as usize, ..at }),
            ({
                let (a, s1) = eval_value_spec(self.program, old(state)@, *op0);
                let (b, s2) = eval_value_spec(self.program, s1, *op1);
                let r = Value::Comparison(Comparison { pred, op0: Rc::new(a), op1: Rc::new(b) });
                final(state)@ == bind_top(
                    StateView {
                        trace: s2.trace.push(TraceNode { semantics: Semantics::Compare { pred, op0: Rc::new(a), op1: Rc::new(b) }, result: Some(Rc::new(r)) }),
                        ..s2
                    },
                    (at.block, at.index),
                    r,
                )
            }),
    {
        let v0 = self.eval_operand_value(state, op0);
        proof {
            lemma_same_frames_inv(self.program, &env.slice, self.options.max_node_per_trace, old(state)@, state@);
        }
        let ghost s1 = state@;
        let v1 = self.eval_operand_value(state, op1);
        proof {
            lemma_same_frames_inv(self.program, &env.slice, self.options.max_node_per_trace, s1, state@);
        }
        let ghost s2 = state@;
        let res = Rc::new(Value::Comparison(Comparison { pred, op0: v0.clone(), op1: v1.clone() }));
        push_node(state, TraceNode { semantics: Semantics::Compare { pred, op0: v0, op1: v1 }, result: Some(res.clone()) });
        proof {
            assert(state@.trace.subrange(0, s2.trace.len() as int) =~= s2.trace);
            lemma_push_inv(self.program, &env.slice, self.options.max_node_per_trace, s2, state@);
        }
        let ghost s3 = state@;
        bind_local(state, (at.block, at.index), res);
        proof {
            lemma_same_frames_inv(self.program, &env.slice, self.options.max_node_per_trace, s3, state@);
        }
        Next::Continue(self.next_of(at))
    }

    /// Binds the operation, kept symbolic, and records a `BinaryOperation` node.
    pub fn transfer_binary_instr(
        &self,
        op: BinaryOpcode,
        op0: &Operand,
        op1: &Operand,
        at: InstrRef,
        state: &mut State,
        env: &mut Environment,
    ) -> (next: Next)
        requires
            self.pre(old(env), old(state)@, at),
            self.program.instr_at(at) == (Instr::Binary { op, op0: *op0, op1: *op1 }),
        ensures
            self.post(old(env), final(env), old(state)@, final(state)@, at, next),
            *final(env) == *old(env),
            next == Next::Continue(InstrRef { index: (at.index + 1) as usize, ..at }),
            ({
                let (a, s1) = eval_value_spec(self.program, old(state)@, *op0);
                let (b, s2) = eval_value_spec(self.program, s1, *op1);
                let r = Value::BinaryOperation { op, op0: Rc::new(a), op1: Rc::new(b) };
                final(state)@ == bind_top(
                    StateView {
                        trace: s2.trace.push(TraceNode { semantics: Semantics::BinaryOperation { op, op0: Rc::new(a), op1: Rc::new(b) }, result: Some(Rc::new(r)) }),
                        ..s2
                    },
                    (at.block, at.index),
                    r,
                )
            }),
    {
        let v0 = self.eval_operand_value(state, op0);
        proof {
            lemma_same_frames_inv(self.program, &env.slice, self.options.max_node_per_trace, old(state)@, state@);
        }
        let ghost s1 = state@;
        let v1 = self.eval_operand_value(state, op1);
        proof {
            lemma_same_frames_inv(self.program, &env.slice, self.options.max_node_per_trace, s1, state@);
        }
        let ghost s2 = state@;
        let res = Rc::new(Value::BinaryOperation { op, op0: v0.clone(), op1: v1.clone() });
        push_node(state, TraceNode { semantics: Semantics::BinaryOperation { op, op0: v0, op1: v1 }, result: Some(res.clone()) });
        proof {
            assert(state@.trace.subrange(0, s2.trace.len() as int) =~= s2.trace);
            lemma_push_inv(self.program, &env.slice, self.options.max_node_per_trace, s2, state@);
        }
        let ghost s3 = state@;
        bind_local(state, (at.block, at.index), res);
        proof {
            lemma_same_frames_inv(self.program, &env.slice, self.options.max_node_per_trace, s3, state@);
        }
        Next::Continue(self.next_of(at))
    }

    /// Binds the operation, kept symbolic, and records a `UnaryOperation` node.
    pub fn transfer_unary_instr(
        &self,
        op: UnaryOpcode,
        op0: &Operand,
        at: InstrRef,
        state: &mut State,
        env: &mut Environment,
    ) -> (next: Next)
        requires
            self.pre(old(env), old(state)@, at),
            self.program.instr_at(at) == (Instr::Unary { op, op0: *op0 }),
        ensures
            self.post(old(env), final(env), old(state)@, final(state)@, at, next),
            *final(env) == *old(env),
            next == Next::Continue(InstrRef { index: (at.index + 1) as usize, ..at }),
            ({
                let (a, s1) = eval_value_spec(self.program, old(state)@, *op0);
                let r = Value::UnaryOperation { op, op0: Rc::new(a) };
                final(state)@ == bind_top(
                    StateView {
                        trace: s1.trace.push(TraceNode { semantics: Semantics::UnaryOperation { op, op0: Rc::new(a) }, result: Some(Rc::new(r)) }),
                        ..s1
                    },
                    (at.block, at.index),
                    r,
                )
            }),
    {
        let v0 = self.eval_operand_value(state, op0);
        proof {
            lemma_same_frames_inv(self.program, &env.slice, self.options.max_node_per_trace, old(state)@, state@);
        }
        let ghost s2 = state@;
        let res = Rc::new(Value::UnaryOperation { op, op0: v0.clone() });
        push_node(state, TraceNode { semantics: Semantics::UnaryOperation { op, op0: v0 }, result: Some(res.clone()) });
        proof {
            assert(state@.trace.subrange(0, s2.trace.len() as int) =~= s2.trace);
            lemma_push_inv(self.program, &env.slice, self.options.max_node_per_trace, s2, state@);
        }
        let ghost s3 = state@;
        bind_local(state, (at.block, at.index), res);
        proof {
            lemma_same_frames_inv(self.program, &env.slice, self.options.max_node_per_trace, s3, state@);
        }
        Next::Continue(self.next_of(at))
    }

    /// Binds the address `GetElementPtr(base, indices)` and records a
    /// `GetElementPtr` node with it as result.
    pub fn transfer_gep_instr(
        &self,
        loc: &Operand,
        indices: &Vec<Operand>,
        at: InstrRef,
        state: &mut State,
        env: &mut Environment,
    ) -> (next: Next)
        requires
            self.pre(old(env), old(state)@, at),
            self.program.instr_at(at) == (Instr::GetElementPtr { loc: *loc, indices: *indices }),
        ensures
            self.post(old(env), final(env), old(state)@, final(state)@, at, next),
            *final(env) == *old(env),
            next == Next::Continue(InstrRef { index: (at.index + 1) as usize, ..at }),
            ({
                let (l, s1) = eval_location_spec(self.program, old(state)@, *loc);
                let (ix, s2) = eval_values_spec(self.program, s1, indices@);
                let r = Value::Location(Rc::new(Location::GetElementPtr(Rc::new(l), Rc::new(list_of(ix)))));
                final(state)@ == bind_top(
                    StateView {
                        trace: s2.trace.push(TraceNode {
                            semantics: Semantics::GetElementPtr { loc: Rc::new(l), indices: Rc::new(list_of(ix)) },
                            result: Some(Rc::new(r)),
                        }),
                        ..s2
                    },
                    (at.block, at.index),
                    r,
                )
            }),
    {
        let l = self.eval_operand_location(state, loc);
        proof {
            lemma_same_frames_inv(self.program, &env.slice, self.options.max_node_per_trace, old(state)@, state@);
        }
        let ghost s1 = state@;
        let vals = self.eval_operand_values(state, indices);
        proof {
            lemma_same_frames_inv(self.program, &env.slice, self.options.max_node_per_trace, s1, state@);
        }
        let ix = Rc::new(ValueList::from_vec(&vals));
        let ghost s2 = state@;
        let res = Rc::new(Value::Location(Rc::new(Location::GetElementPtr(l.clone(), ix.clone()))));
        push_node(state, TraceNode { semantics: Semantics::GetElementPtr { loc: l, indices: ix }, result: Some(res.clone()) });
        proof {
            assert(state@.trace.subrange(0, s2.trace.len() as int) =~= s2.trace);
            lemma_push_inv(self.program, &env.slice, self.options.max_node_per_trace, s2, state@);
        }
        let ghost s3 = state@;
        bind_local(state, (at.block, at.index), res);
        proof {
            lemma_same_frames_inv(self.program, &env.slice, self.options.max_node_per_trace, s3, state@);
        }
        Next::Continue(self.next_of(at))
    }
}

impl<'a> SymbolicExecutionContext<'a> {
    /// Binds the value of the first incoming edge that comes from the
    /// previous block. Such an edge exists: the path came from a block that
    /// can go to this one, and a well-formed phi names each such block.
    pub fn transfer_phi_instr(
        &self,
        incomings: &Vec<(usize, Operand)>,
        at: InstrRef,
        state: &mut State,
        env: &mut Environment,
    ) -> (next: Next)
        requires
            self.pre(old(env), old(state)@, at),
            self.program.instr_at(at) == (Instr::Phi { incomings: *incomings }),
        ensures
            phi_source(incomings@, old(state)@.prev_block, at.func).is_some(),
            self.post(old(env), final(env), old(state)@, final(state)@, at, next),
            *final(env) == *old(env),
            next == Next::Continue(InstrRef { index: (at.index + 1) as usize, ..at }),
            final(state)@ == match phi_source(incomings@, old(state)@.prev_block, at.func) {
                Some(k) => {
                    let (v, s1) = eval_value_spec(self.program, old(state)@, incomings@[k].1);
                    bind_top(s1, (at.block, at.index), v)
                },
                None => bind_top(old(state)@, (at.block, at.index), Value::Unknown),
            },
    {
        proof {
            let f = self.program.functions@[at.func as int];
            assert(f.phis_wf());
            let pb = old(state)@.prev_block.unwrap();
            assert(crate::ir::phi_covers(f.blocks@[at.block as int].instrs@[at.index as int], (pb.block as int) as usize));
            let kk = choose|kk: int| 0 <= kk < incomings@.len() && incomings@[kk].0 == pb.block;
            lemma_first_incoming(incomings@, pb.block, 0, kk);
        }
        let mut found: Option<usize> = None;
        if let Some(prev) = state.prev_block {
            if prev.func == at.func {
                let mut i: usize = 0;
                while i < incomings.len()
                    invariant_except_break
                        found.is_none(),
                    invariant
                        i <= incomings@.len(),
                        first_incoming(incomings@, prev.block, 0) == first_incoming(incomings@, prev.block, i as int),
                    ensures
                        found matches Some(k) ==> k < incomings@.len() && first_incoming(incomings@, prev.block, 0) == Some(k as int),
                        found.is_none() ==> first_incoming(incomings@, prev.block, 0).is_none(),
                    decreases incomings@.len() - i,
                {
                    if incomings[i].0 == prev.block {
                        found = Some(i);
                        break;
                    }
                    i = i + 1;
                }
            }
        }
        let res = match found {
            Some(k) => self.eval_operand_value(state, &incomings[k].1),
            None => Rc::new(Value::Unknown),
        };
        proof {
            lemma_same_frames_inv(self.program, &env.slice, self.options.max_node_per_trace, old(state)@, state@);
        }
        let ghost s3 = state@;
        bind_local(state, (at.block, at.index), res);
        proof {
            lemma_same_frames_inv(self.program, &env.slice, self.options.max_node_per_trace, s3, state@);
        }
        Next::Continue(self.next_of(at))
    }

    /// Allocas are not materialised: a location is minted on first use.
    pub fn transfer_alloca_instr(&self, at: InstrRef, state: &mut State, env: &mut Environment) -> (next: Next)
        requires
            self.pre(old(env), old(state)@, at),
            self.program.instr_at(at) is Alloca,
        ensures
            self.post(old(env), final(env), old(state)@, final(state)@, at, next),
            final(state)@ == old(state)@,
            *final(env) == *old(env),
            next == Next::Continue(InstrRef { index: (at.index + 1) as usize, ..at }),
    {
        Next::Continue(self.next_of(at))
    }

    /// An opcode the engine does not model: nothing changes.
    pub fn transfer_instr(&self, at: InstrRef, state: &mut State, env: &mut Environment) -> (next: Next)
        requires
            self.pre(old(env), old(state)@, at),
            !self.program.instr_at(at).is_terminator(),
        ensures
            self.post(old(env), final(env), old(state)@, final(state)@, at, next),
            final(state)@ == old(state)@,
            *final(env) == *old(env),
            next == Next::Continue(InstrRef { index: (at.index + 1) as usize, ..at }),
    {
        Next::Continue(self.next_of(at))
    }

    pub fn transfer_unreachable_instr(&self, at: InstrRef, state: &mut State, env: &mut Environment) -> (next: Next)
        requires
            self.pre(old(env), old(state)@, at),
            self.program.instr_at(at) is Unreachable,
        ensures
            self.post(old(env), final(env), old(state)@, final(state)@, at, next),
            next is Stop,
            *final(env) == *old(env),
            final(state)@ == (StateView { finish_state: FinishState::Unreachable, ..old(state)@ }),
    {
        state.finish_state = FinishState::Unreachable;
        proof {
            lemma_inv_frame(self.program, &env.slice, self.options.max_node_per_trace, old(state)@, state@);
        }
        Next::Stop
    }

    /// Records a `Return` node and pops the frame. A callee's return value
    /// becomes the result of its `Call` node and is bound to the call
    /// instruction in the caller, which goes on after the call; a return from
    /// the entry function ends the path.
    pub fn transfer_ret_instr(
        &self,
        op: &Option<Operand>,
        at: InstrRef,
        state: &mut State,
        env: &mut Environment,
    ) -> (next: Next)
        requires
            self.pre(old(env), old(state)@, at),
            self.program.instr_at(at) == (Instr::Return { op: *op }),
        ensures
            self.post(old(env), final(env), old(state)@, final(state)@, at, next),
            self.ret_effect(old(env), final(env), old(state)@, final(state)@, at, next),
    {
        let val: Option<Rc<Value>> = match op {
            Some(o) => Some(self.eval_operand_value(state, o)),
            None => None,
        };
        proof {
            lemma_same_frames_inv(self.program, &env.slice, self.options.max_node_per_trace, old(state)@, state@);
        }
        let ghost s2 = state@;
        proof {
            if s2.stack.len() > 1 {
                assert(frame_ok(self.program, s2, s2.stack.len() - 1));
            }
        }
        push_node(state, TraceNode { semantics: Semantics::Return { op: crate::state::share_opt(&val) }, result: None });
        proof {
            assert(state@.trace.subrange(0, s2.trace.len() as int) =~= s2.trace);
            lemma_push_inv(self.program, &env.slice, self.options.max_node_per_trace, s2, state@);
        }
        if state.stack.len() > 1 {
            let ghost s3 = state@;
            assert(frame_ok(self.program, s3, s3.stack.len() - 1));
            let frame = state.stack.pop().unwrap();
            proof {
                assert(state@.stack =~= s3.stack.drop_last());
                lemma_pop_inv(self.program, &env.slice, self.options.max_node_per_trace, s3, state@);
            }
            let (node_id, call_site) = frame.callsite.unwrap();
            if let Some(v) = val {
                let ghost s4 = state@;
                state.trace[node_id].result = Some(v.clone());
                proof {
                    assert(state@.trace =~= s4.trace.update(node_id as int, TraceNode { semantics: s4.trace[node_id as int].semantics, result: Some(v) }));
                    lemma_patch_inv(self.program, &env.slice, self.options.max_node_per_trace, s4, state@, node_id as int);
                }
                let ghost s5 = state@;
                bind_local(state, (call_site.block, call_site.index), v);
                proof {
                    lemma_same_frames_inv(self.program, &env.slice, self.options.max_node_per_trace, s5, state@);
                }
            }
            Next::Continue(self.next_of(call_site))
        } else {
            let ghost s6 = state@;
            state.finish_state = FinishState::ProperlyReturned;
            proof {
                lemma_inv_frame(self.program, &env.slice, self.options.max_node_per_trace, s6, state@);
            }
            Next::Stop
        }
    }
}

impl<'a> SymbolicExecutionContext<'a> {
    /// Evaluates each operand as an r-value, in order.
    pub fn eval_operand_values(&self, state: &mut State, ops: &Vec<Operand>) -> (r: Vec<Rc<Value>>)
        requires
            old(state).stack@.len() > 0,
            old(state)@.stack.last().function < self.program.functions@.len(),
        ensures
            eval_effect(old(state)@, final(state)@),
            r@.len() == ops@.len(),
            (r@, final(state)@) == eval_values_spec(self.program, old(state)@, ops@),
    {
        let mut vals: Vec<Rc<Value>> = Vec::new();
        let mut i: usize = 0;
        while i < ops.len()
            invariant
                i <= ops@.len(),
                vals@.len() == i,
                eval_effect(old(state)@, state@),
                state.stack@.len() > 0,
                state@.stack.last().function < self.program.functions@.len(),
                (vals@, state@) == eval_values_spec(self.program, old(state)@, ops@.subrange(0, i as int)),
            decreases ops@.len() - i,
        {
            let ghost s0 = state@;
            proof {
                assert(ops@.subrange(0, i + 1).drop_last() =~= ops@.subrange(0, i as int));
            }
            let v = self.eval_operand_value(state, &ops[i]);
            proof {
                assert(state@.stack.len() == state.stack@.len());
                assert(state@.stack[state@.stack.len() - 1].function == s0.stack[s0.stack.len() - 1].function);
            }
            vals.push(v);
            i = i + 1;
        }
        assert(ops@.subrange(0, ops@.len() as int) =~= ops@);
        vals
    }

    /// Records a `Call` node. The target callsite sets the target node once.
    /// A callee with a body inside the slice is descended into; any other call
    /// gets an opaque summary value. Intrinsics and calls without a known
    /// callee are skipped.
    pub fn transfer_call_instr(
        &self,
        callee: &Option<usize>,
        args: &Vec<Operand>,
        at: InstrRef,
        state: &mut State,
        env: &mut Environment,
    ) -> (next: Next)
        requires
            self.pre(old(env), old(state)@, at),
            self.program.instr_at(at) == (Instr::Call { callee: *callee, args: *args }),
        ensures
            self.post(old(env), final(env), old(state)@, final(state)@, at, next),
            self.call_effect(old(env), final(env), old(state)@, final(state)@, at, next),
    {
        let f = match callee {
            Some(f) => *f,
            None => {
                return Next::Continue(self.next_of(at));
            },
        };
        proof {
            let fun = self.program.functions@[at.func as int];
            assert(fun.wf(self.program.functions@.len() as nat));
            assert(fun.blocks@[at.block as int].wf(fun.blocks@.len(), self.program.functions@.len() as nat));
            assert(self.program.instr_at(at).targets_ok(fun.blocks@.len(), self.program.functions@.len() as nat));
        }
        if self.program.functions[f].is_intrinsic() {
            return Next::Continue(self.next_of(at));
        }
        let vals = self.eval_operand_values(state, args);
        proof {
            lemma_same_frames_inv(self.program, &env.slice, self.options.max_node_per_trace, old(state)@, state@);
        }
        let node_id = state.trace.len();
        let arg_list = Rc::new(ValueList::from_vec(&vals));
        let ghost s2 = state@;
        push_node(state, TraceNode { semantics: Semantics::Call { func: f, args: arg_list.clone() }, result: None });
        proof {
            assert(state@.trace.subrange(0, s2.trace.len() as int) =~= s2.trace);
        }
        if at == env.slice.instr && state.target_node.is_none() {
            state.target_node = Some(node_id);
        }
        proof {
            let s3 = state@;
            lemma_results_push(s2.trace, s3.trace);
            assert forall|j: int| 0 <= j < s3.stack.len() implies #[trigger] frame_ok(self.program, s3, j) by {
                assert(frame_ok(self.program, s2, j));
                if j > 0 {
                    let k = s2.stack[j].callsite.unwrap().0 as int;
                    assert(s3.trace[k] == s3.trace.subrange(0, s2.trace.len() as int)[k]);
                }
            }
            if s2.target_node.is_some() {
                let t = s2.target_node.unwrap() as int;
                assert(s3.trace[t] == s3.trace.subrange(0, s2.trace.len() as int)[t]);
            }
            assert(state_inv(self.program, &env.slice, self.options.max_node_per_trace, s3));
        }
        if self.program.functions[f].blocks.len() > 0 && env.slice.contains_function(f) {
            self.execute_function(node_id, at, f, vals, state, Ghost(&env.slice))
        } else {
            let v = if env.call_id < usize::MAX {
                let id = env.new_call_id();
                Rc::new(Value::Call { id, func: f, args: arg_list })
            } else {
                Rc::new(Value::Unknown)
            };
            let ghost s4 = state@;
            bind_local(state, (at.block, at.index), v);
            proof {
                lemma_same_frames_inv(self.program, &env.slice, self.options.max_node_per_trace, s4, state@);
            }
            Next::Continue(self.next_of(at))
        }
    }
}

/// Whether this path already took edge `d`.
pub fn has_visited(state: &State, d: BranchDirection) -> (r: bool)
    ensures
        r == state@.visited_branch.contains(d),
{
    let mut i: usize = 0;
    while i < state.visited_branch.len()
        invariant
            i <= state.visited_branch@.len(),
            forall|j: int| 0 <= j < i ==> state.visited_branch@[j] != d,
        decreases state.visited_branch@.len() - i,
    {
        if state.visited_branch[i] == d {
            return true;
        }
        i = i + 1;
    }
    false
}

/// The comparison that a branch condition carries, if it is one.
pub fn as_comparison(v: &Value) -> (r: Option<Comparison>)
    ensures
        *v matches Value::Comparison(c) ==> r == Some(c),
        !(*v is Comparison) ==> r.is_none(),
{
    match v {
        Value::Comparison(c) => Some(c.clone()),
        _ => None,
    }
}

/// The comparison a branch condition carries, if it is one.
pub open spec fn comparison_of(v: Value) -> Option<Comparison> {
    match v {
        Value::Comparison(c) => Some(c),
        _ => None,
    }
}

/// The path after taking edge `d`: the constraint with this polarity is
/// recorded unless the block is a loop header, the edge is marked, and the
/// branch node is recorded.
pub open spec fn taken(
    s: StateView,
    d: BranchDirection,
    comparison: Option<Comparison>,
    polarity: bool,
    is_loop: bool,
    node: TraceNode,
) -> StateView {
    StateView {
        visited_branch: s.visited_branch.push(d),
        constraints: if comparison.is_some() && !is_loop {
            s.constraints.push(Constraint { cond: comparison.unwrap(), branch: polarity })
        } else {
            s.constraints
        },
        trace: s.trace.push(node),
        ..s
    }
}

/// The paths a switch in block `from` queues: one for each case edge that
/// `s` has not taken, in order, each with its edge marked.
pub open spec fn switch_forks(s: StateView, from: BlockRef, cases: Seq<usize>) -> Seq<(BlockRef, StateView)>
    decreases cases.len(),
{
    if cases.len() == 0 {
        Seq::empty()
    } else {
        let f = switch_forks(s, from, cases.drop_last());
        let d = BranchDirection { from, to: BlockRef { func: from.func, block: cases.last() } };
        if s.visited_branch.contains(d) {
            f
        } else {
            f.push((d.to, StateView { visited_branch: s.visited_branch.push(d), ..s }))
        }
    }
}

impl<'a> SymbolicExecutionContext<'a> {
    /// Takes `d` in this path: records the constraint (unless the block is a
    /// loop header), marks the edge and records the branch node.
    fn take_branch(
        &self,
        state: &mut State,
        d: BranchDirection,
        comparison: &Option<Comparison>,
        polarity: bool,
        is_loop: bool,
        node: TraceNode,
        Ghost(slice): Ghost<&Slice>,
    )
        requires
            state_inv(self.program, slice, self.options.max_node_per_trace, old(state)@),
            old(state)@.trace.len() <= self.options.max_node_per_trace,
            !(node.semantics is Call),
        ensures
            state_inv(self.program, slice, self.options.max_node_per_trace, final(state)@),
            final(state)@ == taken(old(state)@, d, *comparison, polarity, is_loop, node),
    {
        let ghost s0 = state@;
        if let Some(c) = comparison {
            if !is_loop {
                state.add_constraint(c.clone(), polarity);
            }
        }
        state.visited_branch.push(d);
        let ghost s1 = state@;
        push_node(state, node);
        proof {
            lemma_inv_frame(self.program, slice, self.options.max_node_per_trace, s0, s1);
            assert(state@.trace.subrange(0, s1.trace.len() as int) =~= s1.trace);
            lemma_push_inv(self.program, slice, self.options.max_node_per_trace, s1, state@);
        }
    }

    /// An unconditional branch records a node and enters its target. A
    /// conditional one continues along the first successor whose edge this
    /// path has not taken, queues the else successor as new work when both
    /// are open, and ends the path when both were taken.
    #[verifier::rlimit(100)]
    pub fn transfer_br_instr(&self, at: InstrRef, state: &mut State, env: &mut Environment) -> (next: Next)
        requires
            self.pre(old(env), old(state)@, at),
            self.program.instr_at(at) is CondBr || self.program.instr_at(at) is Br,
        ensures
            self.post(old(env), final(env), old(state)@, final(state)@, at, next),
            self.br_effect(old(env), final(env), old(state)@, final(state)@, at, next),
    {
        let curr = BlockRef { func: at.func, block: at.block };
        proof {
            let fun = self.program.functions@[at.func as int];
            assert(fun.wf(self.program.functions@.len() as nat));
            assert(fun.blocks@[at.block as int].wf(fun.blocks@.len(), self.program.functions@.len() as nat));
            assert(self.program.instr_at(at).targets_ok(fun.blocks@.len(), self.program.functions@.len() as nat));
        }
        let ghost s0 = state@;
        state.prev_block = Some(curr);
        proof {
            lemma_inv_frame(self.program, &env.slice, self.options.max_node_per_trace, s0, state@);
        }
        let is_loop = self.program.functions[at.func].blocks[at.block].is_loop_header;
        match &self.program.functions[at.func].blocks[at.block].instrs[at.index] {
            Instr::Br { target } => {
                proof {
                    lemma_edge(self.program, at, *target);
                }
                let ghost s1 = state@;
                push_node(state, TraceNode { semantics: Semantics::UnconditionalBr { end_loop: false }, result: None });
                proof {
                    assert(state@.trace.subrange(0, s1.trace.len() as int) =~= s1.trace);
                    lemma_push_inv(self.program, &env.slice, self.options.max_node_per_trace, s1, state@);
                }
                Next::Enter(BlockRef { func: at.func, block: *target })
            },
            Instr::CondBr { cond, then_block, else_block } => {
                proof {
                    lemma_edge(self.program, at, *then_block);
                    lemma_edge(self.program, at, *else_block);
                }
                let ghost s1 = state@;
                let c = self.eval_operand_value(state, cond);
                proof {
                    lemma_same_frames_inv(self.program, &env.slice, self.options.max_node_per_trace, s1, state@);
                }
                let comparison = as_comparison(&*c);
                let then_d = BranchDirection { from: curr, to: BlockRef { func: at.func, block: *then_block } };
                let else_d = BranchDirection { from: curr, to: BlockRef { func: at.func, block: *else_block } };
                let visited_then = has_visited(state, then_d);
                let visited_else = has_visited(state, else_d);
                if !visited_then {
                    if !visited_else {
                        let mut else_state = state.duplicate();
                        self.take_branch(
                            &mut else_state,
                            else_d,
                            &comparison,
                            false,
                            is_loop,
                            TraceNode {
                                semantics: Semantics::ConditionalBr { cond: c.clone(), br: Branch::Else, begin_loop: false },
                                result: None,
                            },
                            Ghost(&env.slice),
                        );
                        let ghost e0 = *env;
                        env.add_work(Work { block: else_d.to, state: else_state });
                        proof {
                            assert(env.work_list@.subrange(0, e0.work_list@.len() as int) =~= e0.work_list@);
                            assert forall|k: int| 0 <= k < env.work_list@.len() implies #[trigger] work_ok(
                                self.program, &env.slice, self.options.max_node_per_trace, env.work_list@[k]) by {
                                if k < e0.work_list@.len() {
                                    assert(work_ok(self.program, &e0.slice, self.options.max_node_per_trace, e0.work_list@[k]));
                                }
                            }
                        }
                    }
                    self.take_branch(
                        state,
                        then_d,
                        &comparison,
                        true,
                        is_loop,
                        TraceNode {
                            semantics: Semantics::ConditionalBr { cond: c, br: Branch::Then, begin_loop: is_loop },
                            result: None,
                        },
                        Ghost(&env.slice),
                    );
                    Next::Enter(then_d.to)
                } else if !visited_else {
                    self.take_branch(
                        state,
                        else_d,
                        &comparison,
                        false,
                        is_loop,
                        TraceNode {
                            semantics: Semantics::ConditionalBr { cond: c, br: Branch::Else, begin_loop: false },
                            result: None,
                        },
                        Ghost(&env.slice),
                    );
                    Next::Enter(else_d.to)
                } else {
                    let ghost s2 = state@;
                    state.finish_state = FinishState::BranchExplored;
                    proof {
                        lemma_inv_frame(self.program, &env.slice, self.options.max_node_per_trace, s2, state@);
                    }
                    Next::Stop
                }
            },
            _ => {
                Next::Stop
            },
        }
    }
}

impl<'a> SymbolicExecutionContext<'a> {
    /// Records a node, queues one new path for each case edge this path has
    /// not taken, and continues to the default block when its edge is open;
    /// otherwise the path ends as explored.
    #[verifier::rlimit(100)]
    pub fn transfer_switch_instr(
        &self,
        cond: &Operand,
        cases: &Vec<usize>,
        default: usize,
        at: InstrRef,
        state: &mut State,
        env: &mut Environment,
    ) -> (next: Next)
        requires
            self.pre(old(env), old(state)@, at),
            self.program.instr_at(at) matches Instr::Switch { cond: c, cases: cs, default: d } && c == *cond
                && cs@ == cases@ && d == default,
        ensures
            self.post(old(env), final(env), old(state)@, final(state)@, at, next),
            self.switch_effect(old(env), final(env), old(state)@, final(state)@, at, next),
    {
        let curr = BlockRef { func: at.func, block: at.block };
        proof {
            let fun = self.program.functions@[at.func as int];
            assert(fun.wf(self.program.functions@.len() as nat));
            assert(fun.blocks@[at.block as int].wf(fun.blocks@.len(), self.program.functions@.len() as nat));
            assert(self.program.instr_at(at).targets_ok(fun.blocks@.len(), self.program.functions@.len() as nat));
        }
        let ghost s0 = state@;
        state.prev_block = Some(curr);
        proof {
            lemma_inv_frame(self.program, &env.slice, self.options.max_node_per_trace, s0, state@);
        }
        let ghost s1 = state@;
        let c = self.eval_operand_value(state, cond);
        proof {
            lemma_same_frames_inv(self.program, &env.slice, self.options.max_node_per_trace, s1, state@);
        }
        let ghost s2 = state@;
        push_node(state, TraceNode { semantics: Semantics::Switch { cond: c }, result: None });
        proof {
            assert(state@.trace.subrange(0, s2.trace.len() as int) =~= s2.trace);
            lemma_push_inv(self.program, &env.slice, self.options.max_node_per_trace, s2, state@);
        }
        let ghost s3 = state@;
        let mut i: usize = 0;
        while i < cases.len()
            invariant
                self.wf(),
                env.slice == old(env).slice,
                env.block_traces == old(env).block_traces,
                env.call_id == old(env).call_id,
                env_inv(self.program, self.options.max_node_per_trace, env),
                env.work_list@.len() == old(env).work_list@.len() + switch_forks(s3, curr, cases@.subrange(0, i as int)).len(),
                env.work_list@.subrange(0, old(env).work_list@.len() as int) == old(env).work_list@,
                forall|k: int|
                    0 <= k < switch_forks(s3, curr, cases@.subrange(0, i as int)).len() ==> (#[trigger] env.work_list@[old(env).work_list@.len() + k]).block
                        == switch_forks(s3, curr, cases@.subrange(0, i as int))[k].0
                        && env.work_list@[old(env).work_list@.len() + k].state@ == switch_forks(s3, curr, cases@.subrange(0, i as int))[k].1,
                curr == (BlockRef { func: at.func, block: at.block }),
                self.program.valid_instr(at),
                self.program.instr_at(at) matches Instr::Switch { cases: cs, .. } && cs@ == cases@,
                s3.prev_block == Some(curr),
                state@ == s3,
                state_inv(self.program, &env.slice, self.options.max_node_per_trace, s3),
                s3.stack.last().function == at.func,
                i <= cases@.len(),
                forall|k: int| 0 <= k < cases@.len() ==> #[trigger] cases@[k] < self.program.functions@[at.func as int].blocks@.len(),
                at.func < self.program.functions@.len(),
            decreases cases@.len() - i,
        {
            let d = BranchDirection { from: curr, to: BlockRef { func: at.func, block: cases[i] } };
            proof {
                assert(cases@.contains(cases@[i as int]));
                lemma_edge(self.program, at, cases@[i as int]);
            }
            let ghost n0 = old(env).work_list@.len();
            let ghost f0 = switch_forks(s3, curr, cases@.subrange(0, i as int));
            proof {
                assert(cases@.subrange(0, i + 1).drop_last() =~= cases@.subrange(0, i as int));
            }
            let ghost w0 = env.work_list@;
            if !has_visited(state, d) {
                let mut br_state = state.duplicate();
                br_state.visited_branch.push(d);
                proof {
                    lemma_inv_frame(self.program, &env.slice, self.options.max_node_per_trace, s3, br_state@);
                    assert(cases@[i as int] < self.program.functions@[at.func as int].blocks@.len());
                }
                let ghost e0 = *env;
                env.add_work(Work { block: d.to, state: br_state });
                proof {
                    assert forall|k: int| 0 <= k < env.work_list@.len() implies #[trigger] work_ok(
                        self.program, &env.slice, self.options.max_node_per_trace, env.work_list@[k]) by {
                        if k < e0.work_list@.len() {
                            assert(work_ok(self.program, &e0.slice, self.options.max_node_per_trace, e0.work_list@[k]));
                        }
                    }
                    assert(env.work_list@.subrange(0, old(env).work_list@.len() as int) =~= e0.work_list@.subrange(0, old(env).work_list@.len() as int));
                    let f1 = switch_forks(s3, curr, cases@.subrange(0, i + 1));
                    assert(f1 == f0.push((d.to, StateView { visited_branch: s3.visited_branch.push(d), ..s3 })));
                    assert forall|k: int| 0 <= k < f1.len() implies (#[trigger] env.work_list@[n0 + k]).block == f1[k].0
                        && env.work_list@[n0 + k].state@ == f1[k].1 by {
                        if k < f0.len() {
                            assert(env.work_list@[n0 + k] == w0[n0 + k]);
                        }
                    }
                }
            }
            i = i + 1;
        }
        assert(cases@.subrange(0, cases@.len() as int) =~= cases@);
        let default_d = BranchDirection { from: curr, to: BlockRef { func: at.func, block: default } };
        proof {
            lemma_edge(self.program, at, default);
        }
        if !has_visited(state, default_d) {
            state.visited_branch.push(default_d);
            proof {
                lemma_inv_frame(self.program, &env.slice, self.options.max_node_per_trace, s3, state@);
            }
            Next::Enter(default_d.to)
        } else {
            state.finish_state = FinishState::BranchExplored;
            proof {
                lemma_inv_frame(self.program, &env.slice, self.options.max_node_per_trace, s3, state@);
            }
            Next::Stop
        }
    }
}

impl<'a> SymbolicExecutionContext<'a> {
    /// Executes the instruction at `at` by its opcode.
    /// Checks the node budget, then executes the instruction at `at` by its
    /// opcode. A path whose trace is already over the budget stops as
    /// exceeding it, with nothing else changed.
    pub fn execute_instr(&self, at: InstrRef, state: &mut State, env: &mut Environment) -> (next: Next)
        requires
            self.pre_exec(old(env), old(state)@, at),
        ensures
            self.post(old(env), final(env), old(state)@, final(state)@, at, next),
            old(state)@.trace.len() > self.options.max_node_per_trace ==> next is Stop && *final(env) == *old(env)
                && final(state)@ == (StateView { finish_state: FinishState::ExceedingMaxTraceLength, ..old(state)@ }),
            old(state)@.trace.len() <= self.options.max_node_per_trace ==> {
                &&& straight_effect(self.program, old(state)@, at) matches Some(s1) ==> final(state)@ == s1
                    && *final(env) == *old(env) && next == Next::Continue(InstrRef { index: (at.index + 1) as usize, ..at })
                &&& self.program.instr_at(at) is Unreachable ==> next is Stop && *final(env) == *old(env)
                    && final(state)@ == (StateView { finish_state: FinishState::Unreachable, ..old(state)@ })
                &&& self.ret_effect(old(env), final(env), old(state)@, final(state)@, at, next)
                &&& self.call_effect(old(env), final(env), old(state)@, final(state)@, at, next)
                &&& self.switch_effect(old(env), final(env), old(state)@, final(state)@, at, next)
                &&& (self.program.instr_at(at) is Br || self.program.instr_at(at) is CondBr) ==> self.br_effect(
                    old(env),
                    final(env),
                    old(state)@,
                    final(state)@,
                    at,
                    next,
                )
            },
    {
        if state.trace.len() > self.options.max_node_per_trace {
            let ghost s1 = state@;
            state.finish_state = FinishState::ExceedingMaxTraceLength;
            proof {
                lemma_inv_frame(self.program, &env.slice, self.options.max_node_per_trace, s1, state@);
            }
            return Next::Stop;
        }
        match &self.program.functions[at.func].blocks[at.block].instrs[at.index] {
            Instr::Return { op } => self.transfer_ret_instr(op, at, state, env),
            Instr::CondBr { .. } => self.transfer_br_instr(at, state, env),
            Instr::Br { .. } => self.transfer_br_instr(at, state, env),
            Instr::Switch { cond, cases, default } => self.transfer_switch_instr(
                cond,
                cases,
                *default,
                at,
                state,
                env,
            ),
            Instr::Call { callee, args } => self.transfer_call_instr(callee, args, at, state, env),
            Instr::Alloca => self.transfer_alloca_instr(at, state, env),
            Instr::Store { loc, val } => self.transfer_store_instr(loc, val, at, state, env),
            Instr::Load { loc } => self.transfer_load_instr(loc, at, state, env),
            Instr::ICmp { pred, op0, op1 } => self.transfer_icmp_instr(*pred, op0, op1, at, state, env),
            Instr::Phi { incomings } => self.transfer_phi_instr(incomings, at, state, env),
            Instr::GetElementPtr { loc, indices } => self.transfer_gep_instr(loc, indices, at, state, env),
            Instr::Binary { op, op0, op1 } => self.transfer_binary_instr(*op, op0, op1, at, state, env),
            Instr::Unary { op, op0 } => self.transfer_unary_instr(*op, op0, at, state, env),
            Instr::Unreachable => self.transfer_unreachable_instr(at, state, env),
            Instr::Other => self.transfer_instr(at, state, env),
        }
    }

    /// Enters `block` and runs the path until it finishes: it returns from the
    /// entry function, meets only taken edges, reaches `unreachable`, or its
    /// trace grows past the node budget. The budget is checked before every
    /// instruction and once more when the path stops, so a path that ends over
    /// the budget counts as exceeding it. Forks are queued in `env`.
    pub fn execute_block(&self, block: BlockRef, state: &mut State, env: &mut Environment)
        requires
            self.wf(),
            old(env).slice.wf(self.program),
            env_inv(self.program, self.options.max_node_per_trace, old(env)),
            state_inv(self.program, &old(env).slice, self.options.max_node_per_trace, old(state)@),
            self.program.valid_block(block),
            block.func == old(state)@.stack.last().function,
            phi_ready(self.program, old(state)@, block_start(block)),
        ensures
            final(env).slice == old(env).slice,
            final(env).block_traces == old(env).block_traces,
            final(env).call_id >= old(env).call_id,
            keeps_prefix(old(env).work_list@, final(env).work_list@),
            env_inv(self.program, self.options.max_node_per_trace, final(env)),
            state_inv(self.program, &old(env).slice, self.options.max_node_per_trace, final(state)@),
            old(state)@.target_node.is_some() ==> final(state)@.target_node == old(state)@.target_node,
            final(state)@.finish_state == FinishState::ProperlyReturned ==> final(state)@.stack.len() == 1,
            final(state)@.finish_state != FinishState::ExceedingMaxTraceLength ==> final(state)@.trace.len()
                <= self.options.max_node_per_trace,
            final(state)@.trace.len() > self.options.max_node_per_trace ==> final(state)@.finish_state
                == FinishState::ExceedingMaxTraceLength,
            final(state)@.trace.len() >= old(state)@.trace.len(),
            final(state)@.block_trace.len() > old(state)@.block_trace.len(),
            final(state)@.block_trace[old(state)@.block_trace.len() as int] == block,
            final(state)@.finish_state == FinishState::ProperlyReturned ==> final(state)@.trace.len() > 0
                && final(state)@.trace.last().semantics is Return,
            final(state)@.finish_state == FinishState::Unreachable ==> exists|at: InstrRef|
                self.program.valid_instr(at) && #[trigger] self.program.instr_at(at) is Unreachable,
            final(state)@.finish_state == FinishState::BranchExplored ==> exists|at: InstrRef|
                self.program.valid_instr(at) && #[trigger] branch_exhausted(self.program, at, final(state)@.visited_branch),
            final(state)@.finish_state == FinishState::ExceedingMaxTraceLength <==> final(state)@.trace.len()
                > self.options.max_node_per_trace,
            old(state)@.trace.len() > self.options.max_node_per_trace ==> *final(env) == *old(env)
                && final(state)@ == (StateView {
                    finish_state: FinishState::ExceedingMaxTraceLength,
                    block_trace: old(state)@.block_trace.push(block),
                    ..old(state)@
                }),
    {
        let ghost s0 = state@;
        state.block_trace.push(block);
        if state.trace.len() > self.options.max_node_per_trace {
            let ghost s1 = state@;
            state.finish_state = FinishState::ExceedingMaxTraceLength;
            proof {
                lemma_inv_frame(self.program, &env.slice, self.options.max_node_per_trace, s0, s1);
                lemma_inv_frame(self.program, &env.slice, self.options.max_node_per_trace, s1, state@);
            }
            return;
        }
        proof {
            lemma_inv_frame(self.program, &env.slice, self.options.max_node_per_trace, s0, state@);
            let fun = self.program.functions@[block.func as int];
            assert(fun.wf(self.program.functions@.len() as nat));
            assert(fun.blocks@[block.block as int].wf(fun.blocks@.len(), self.program.functions@.len() as nat));
        }
        let mut at = InstrRef { func: block.func, block: block.block, index: 0 };
        let ghost mut stop_at = at;
        loop
            invariant_except_break
                at_ok(self.program, state@, at),
            invariant
                self.wf(),
                env.slice == old(env).slice,
                env.slice.wf(self.program),
                env.block_traces == old(env).block_traces,
                env.call_id >= old(env).call_id,
                keeps_prefix(old(env).work_list@, env.work_list@),
                env_inv(self.program, self.options.max_node_per_trace, env),
                state_inv(self.program, &env.slice, self.options.max_node_per_trace, state@),
                old(state)@.target_node.is_some() ==> state@.target_node == old(state)@.target_node,
                state@.trace.len() >= old(state)@.trace.len(),
                state@.block_trace.len() > old(state)@.block_trace.len(),
                state@.block_trace[old(state)@.block_trace.len() as int] == block,
            ensures
                state@.finish_state == FinishState::ProperlyReturned ==> state@.stack.len() == 1 && state@.trace.len() > 0
                    && state@.trace.last().semantics is Return,
                state@.finish_state == FinishState::Unreachable ==> self.program.valid_instr(stop_at)
                    && self.program.instr_at(stop_at) is Unreachable,
                state@.finish_state == FinishState::BranchExplored ==> self.program.valid_instr(stop_at)
                    && branch_exhausted(self.program, stop_at, state@.visited_branch),
                state@.finish_state == FinishState::ExceedingMaxTraceLength ==> state@.trace.len() > self.options.max_node_per_trace,
            decreases
                self.options.max_node_per_trace + 1 - state@.trace.len(),
                self.program.block_at(BlockRef { func: at.func, block: at.block }).instrs@.len() - at.index,
        {
            proof {
                stop_at = at;
            }
            let ghost w_before = env.work_list@;
            let next = self.execute_instr(at, state, env);
            proof {
                assert forall|k: int| 0 <= k < old(env).work_list@.len() implies #[trigger] env.work_list@[k] == old(env).work_list@[k] by {
                    assert(w_before[k] == old(env).work_list@[k]);
                }
            }
            match next {
                Next::Enter(b) => {
                    let ghost s1 = state@;
                    state.block_trace.push(b);
                    proof {
                        lemma_inv_frame(self.program, &env.slice, self.options.max_node_per_trace, s1, state@);
                        let fun = self.program.functions@[b.func as int];
                        assert(fun.wf(self.program.functions@.len() as nat));
                        assert(fun.blocks@[b.block as int].wf(fun.blocks@.len(), self.program.functions@.len() as nat));
                        assert(state@.block_trace =~= s1.block_trace.push(b));
                        assert(state@.block_trace[old(state)@.block_trace.len() as int] == s1.block_trace[old(state)@.block_trace.len() as int]);
                    }
                    at = InstrRef { func: b.func, block: b.block, index: 0 };
                },
                Next::Continue(i) => {
                    at = i;
                },
                Next::Stop => {
                    break;
                },
            }
        }
        if state.trace.len() > self.options.max_node_per_trace {
            let ghost s1 = state@;
            state.finish_state = FinishState::ExceedingMaxTraceLength;
            proof {
                lemma_inv_frame(self.program, &env.slice, self.options.max_node_per_trace, s1, state@);
            }
        }
    }

    /// Whether both slice budgets still allow another path.
    pub fn continue_execution(&self, metadata: &MetaData) -> (r: bool)
        ensures
            r == (metadata.explored_trace_count < self.options.max_explored_trace_per_slice
                && metadata.proper_trace_count < self.options.max_trace_per_slice),
    {
        (metadata.explored_trace_count as u128) < (self.options.max_explored_trace_per_slice as u128)
            && (metadata.proper_trace_count as u128) < (self.options.max_trace_per_slice as u128)
    }
}

impl<'a> SymbolicExecutionContext<'a> {
    /// Descends into `func`, called by the `Call` node `instr_node_id` at
    /// `instr`: a new frame binds the arguments, and its entry block is next.
    pub fn execute_function(
        &self,
        instr_node_id: usize,
        instr: InstrRef,
        func: usize,
        args: Vec<Rc<Value>>,
        state: &mut State,
        Ghost(slice): Ghost<&Slice>,
    ) -> (next: Next)
        requires
            self.wf(),
            state_inv(self.program, slice, self.options.max_node_per_trace, old(state)@),
            at_ok(self.program, old(state)@, instr),
            self.program.instr_at(instr) is Call,
            instr_node_id < old(state)@.trace.len(),
            old(state)@.trace[instr_node_id as int].semantics is Call,
            func < self.program.functions@.len(),
            self.program.functions@[func as int].has_body(),
        ensures
            state_inv(self.program, slice, self.options.max_node_per_trace, final(state)@),
            next == Next::Enter(BlockRef { func, block: 0 }),
            self.program.valid_block(BlockRef { func, block: 0 }),
            final(state)@ == (StateView { stack: final(state)@.stack, ..old(state)@ }),
            final(state)@.stack == old(state)@.stack.push(
                FrameView {
                    function: func,
                    callsite: Some((instr_node_id, instr)),
                    memory: Map::empty(),
                    arguments: args@,
                },
            ),
    {
        let ghost s4 = state@;
        let frame = StackFrame {
            function: func,
            callsite: Some((instr_node_id, instr)),
            memory: LocalMemory::new(),
            arguments: args,
        };
        state.stack.push(frame);
        proof {
            let s5 = state@;
            assert(s5.stack =~= s4.stack.push(s5.stack.last()));
            assert forall|j: int| 0 <= j < s5.stack.len() implies #[trigger] frame_ok(self.program, s5, j) by {
                if j < s4.stack.len() {
                    assert(frame_ok(self.program, s4, j));
                    assert(s5.stack[j] == s4.stack[j]);
                    if j > 0 {
                        assert(s5.stack[j - 1] == s4.stack[j - 1]);
                    }
                } else {
                    assert(s5.stack[j - 1] == s4.stack[j - 1]);
                }
            }
            assert(self.program.valid_block(BlockRef { func, block: 0 }));
        }
        Next::Enter(BlockRef { func, block: 0 })
    }
}

} // verus!
