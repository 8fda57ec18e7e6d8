use std::rc::Rc;
use vstd::prelude::*;
use crate::ir::{BlockRef, InstrRef};
use crate::memory::{LocalMemory, Memory};
use crate::value::{BinaryOpcode, Comparison, Location, Predicate, UnaryOpcode, Value, ValueList, share_all};

verus! {

/// Which successor of a conditional branch a path took.
#[derive(Debug, Clone, Copy, PartialEq, Eq, Structural)]
pub enum Branch {
    Then,
    Else,
}

/// What one executed instruction did, with its operands in symbolic form.
#[allow(inconsistent_fields)]
pub enum Semantics {
    Return { op: Option<Rc<Value>> },
    ConditionalBr { cond: Rc<Value>, br: Branch, begin_loop: bool },
    UnconditionalBr { end_loop: bool },
    Switch { cond: Rc<Value> },
    /// `func` is the callee's index in the program.
    Call { func: usize, args: Rc<ValueList> },
    Store { loc: Rc<Location>, val: Rc<Value> },
    Load { loc: Rc<Location> },
    Compare { pred: Predicate, op0: Rc<Value>, op1: Rc<Value> },
    GetElementPtr { loc: Rc<Location>, indices: Rc<ValueList> },
    BinaryOperation { op: BinaryOpcode, op0: Rc<Value>, op1: Rc<Value> },
    UnaryOperation { op: UnaryOpcode, op0: Rc<Value> },
}

/// One entry of a trace.
pub struct TraceNode {
    pub semantics: Semantics,
    pub result: Option<Rc<Value>>,
}

/// Why a path stopped.
#[derive(Debug, Clone, Copy, PartialEq, Eq, Structural)]
pub enum FinishState {
    ProperlyReturned,
    BranchExplored,
    ExceedingMaxTraceLength,
    Unreachable,
}

/// A branch condition together with the polarity the path took.
pub struct Constraint {
    pub cond: Comparison,
    pub branch: bool,
}

/// A control-flow edge between two blocks of one function.
#[derive(Debug, Clone, Copy, PartialEq, Eq, Structural)]
pub struct BranchDirection {
    pub from: BlockRef,
    pub to: BlockRef,
}

pub fn share_opt(v: &Option<Rc<Value>>) -> (r: Option<Rc<Value>>)
    ensures
        r == *v,
{
    match v {
        Some(x) => Some(x.clone()),
        None => None,
    }
}

impl Clone for Comparison {
    fn clone(&self) -> (r: Comparison)
        ensures
            r == *self,
    {
        Comparison { pred: self.pred, op0: self.op0.clone(), op1: self.op1.clone() }
    }
}

impl Clone for Semantics {
    fn clone(&self) -> (r: Semantics)
        ensures
            r == *self,
    {
        match self {
            Semantics::Return { op } => Semantics::Return { op: share_opt(op) },
            Semantics::ConditionalBr { cond, br, begin_loop } => Semantics::ConditionalBr {
                cond: cond.clone(),
                br: *br,
                begin_loop: *begin_loop,
            },
            Semantics::UnconditionalBr { end_loop } => Semantics::UnconditionalBr {
                end_loop: *end_loop,
            },
            Semantics::Switch { cond } => Semantics::Switch { cond: cond.clone() },
            Semantics::Call { func, args } => Semantics::Call { func: *func, args: args.clone() },
            Semantics::Store { loc, val } => Semantics::Store { loc: loc.clone(), val: val.clone() },
            Semantics::Load { loc } => Semantics::Load { loc: loc.clone() },
            Semantics::Compare { pred, op0, op1 } => Semantics::Compare {
                pred: *pred,
                op0: op0.clone(),
                op1: op1.clone(),
            },
            Semantics::GetElementPtr { loc, indices } => Semantics::GetElementPtr {
                loc: loc.clone(),
                indices: indices.clone(),
            },
            Semantics::BinaryOperation { op, op0, op1 } => Semantics::BinaryOperation {
                op: *op,
                op0: op0.clone(),
                op1: op1.clone(),
            },
            Semantics::UnaryOperation { op, op0 } => Semantics::UnaryOperation {
                op: *op,
                op0: op0.clone(),
            },
        }
    }
}

impl Clone for TraceNode {
    fn clone(&self) -> (r: TraceNode)
        ensures
            r == *self,
    {
        TraceNode { semantics: self.semantics.clone(), result: share_opt(&self.result) }
    }
}

impl Clone for Constraint {
    fn clone(&self) -> (r: Constraint)
        ensures
            r == *self,
    {
        Constraint { cond: self.cond.clone(), branch: self.branch }
    }
}

/// One active call.
pub struct StackFrame {
    pub function: usize,
    /// For a callee: the trace index of its `Call` node and the call instruction.
    pub callsite: Option<(usize, InstrRef)>,
    pub memory: LocalMemory,
    pub arguments: Vec<Rc<Value>>,
}

pub struct FrameView {
    pub function: usize,
    pub callsite: Option<(usize, InstrRef)>,
    pub memory: Map<(usize, usize), Value>,
    pub arguments: Seq<Rc<Value>>,
}

impl View for StackFrame {
    type V = FrameView;

    open spec fn view(&self) -> FrameView {
        FrameView {
            function: self.function,
            callsite: self.callsite,
            memory: self.memory@,
            arguments: self.arguments@,
        }
    }
}

/// The first `n` arguments of a function, each its own `Argument` value.
pub open spec fn entry_arguments(n: nat) -> Seq<Rc<Value>> {
    Seq::new(n, |i: int| Rc::new(Value::Argument(i as usize)))
}

impl StackFrame {
    /// The frame of the entry function of a slice.
    pub fn entry(function: usize, num_params: usize) -> (r: StackFrame)
        ensures
            r@ == (FrameView {
                function,
                callsite: None,
                memory: Map::empty(),
                arguments: entry_arguments(num_params as nat),
            }),
    {
        let mut arguments: Vec<Rc<Value>> = Vec::new();
        let mut i: usize = 0;
        while i < num_params
            invariant
                i <= num_params,
                arguments@ == entry_arguments(i as nat),
            decreases num_params - i,
        {
            arguments.push(Rc::new(Value::Argument(i)));
            assert(arguments@ =~= entry_arguments((i + 1) as nat));
            i = i + 1;
        }
        StackFrame { function, callsite: None, memory: LocalMemory::new(), arguments }
    }

    pub fn duplicate(&self) -> (r: StackFrame)
        ensures
            r@ == self@,
    {
        StackFrame {
            function: self.function,
            callsite: self.callsite,
            memory: self.memory.clone(),
            arguments: share_all(&self.arguments),
        }
    }
}

/// A snapshot of one path.
pub struct State {
    pub stack: Vec<StackFrame>,
    pub memory: Memory,
    pub visited_branch: Vec<BranchDirection>,
    pub block_trace: Vec<BlockRef>,
    pub trace: Vec<TraceNode>,
    pub target_node: Option<usize>,
    pub prev_block: Option<BlockRef>,
    pub finish_state: FinishState,
    pub constraints: Vec<Constraint>,
    pub alloca_id: usize,
    pub symbol_id: usize,
    pub pointer_value_id: usize,
}

pub struct StateView {
    pub stack: Seq<FrameView>,
    pub memory: Map<Location, Value>,
    pub visited_branch: Seq<BranchDirection>,
    pub block_trace: Seq<BlockRef>,
    pub trace: Seq<TraceNode>,
    pub target_node: Option<usize>,
    pub prev_block: Option<BlockRef>,
    pub finish_state: FinishState,
    pub constraints: Seq<Constraint>,
    pub alloca_id: usize,
    pub symbol_id: usize,
    pub pointer_value_id: usize,
}

impl View for State {
    type V = StateView;

    open spec fn view(&self) -> StateView {
        StateView {
            stack: self.stack@.map_values(|f: StackFrame| f@),
            memory: self.memory@,
            visited_branch: self.visited_branch@,
            block_trace: self.block_trace@,
            trace: self.trace@,
            target_node: self.target_node,
            prev_block: self.prev_block,
            finish_state: self.finish_state,
            constraints: self.constraints@,
            alloca_id: self.alloca_id,
            symbol_id: self.symbol_id,
            pointer_value_id: self.pointer_value_id,
        }
    }
}

/// The state in which a path of a slice with entry function `entry` starts.
pub open spec fn initial_state(entry: usize, num_params: nat) -> StateView {
    StateView {
        stack: seq![
            FrameView {
                function: entry,
                callsite: None,
                memory: Map::empty(),
                arguments: entry_arguments(num_params),
            },
        ],
        memory: Map::empty(),
        visited_branch: Seq::empty(),
        block_trace: Seq::empty(),
        trace: Seq::empty(),
        target_node: None,
        prev_block: None,
        finish_state: FinishState::ProperlyReturned,
        constraints: Seq::empty(),
        alloca_id: 0,
        symbol_id: 0,
        pointer_value_id: 0,
    }
}

impl State {
    pub fn new(entry: usize, num_params: usize) -> (r: State)
        ensures
            r@ == initial_state(entry, num_params as nat),
    {
        let frame = StackFrame::entry(entry, num_params);
        let stack = vec![frame];
        let r = State {
            stack,
            memory: Memory::new(),
            visited_branch: Vec::new(),
            block_trace: Vec::new(),
            trace: Vec::new(),
            target_node: None,
            prev_block: None,
            finish_state: FinishState::ProperlyReturned,
            constraints: Vec::new(),
            alloca_id: 0,
            symbol_id: 0,
            pointer_value_id: 0,
        };
        assert(r@.stack =~= initial_state(entry, num_params as nat).stack);
        r
    }

    /// A copy of the path, to be continued separately.
    pub fn duplicate(&self) -> (r: State)
        ensures
            r@ == self@,
    {
        let mut stack: Vec<StackFrame> = Vec::new();
        let mut i: usize = 0;
        while i < self.stack.len()
            invariant
                i <= self.stack@.len(),
                stack@.len() == i,
                forall|j: int| 0 <= j < i ==> (#[trigger] stack@[j])@ == self.stack@[j]@,
            decreases self.stack@.len() - i,
        {
            stack.push(self.stack[i].duplicate());
            i = i + 1;
        }
        assert(stack@.map_values(|f: StackFrame| f@) =~= self.stack@.map_values(
            |f: StackFrame| f@,
        ));
        let r = State {
            stack,
            memory: self.memory.clone(),
            visited_branch: self.visited_branch.clone(),
            block_trace: self.block_trace.clone(),
            trace: self.trace.clone(),
            target_node: self.target_node,
            prev_block: self.prev_block,
            finish_state: self.finish_state,
            constraints: self.constraints.clone(),
            alloca_id: self.alloca_id,
            symbol_id: self.symbol_id,
            pointer_value_id: self.pointer_value_id,
        };
        assert(r.visited_branch@ =~= self.visited_branch@);
        assert(r.block_trace@ =~= self.block_trace@);
        assert(r.trace@ =~= self.trace@);
        assert(r.constraints@ =~= self.constraints@);
        r
    }

    /// The frame of the function that runs now.
    pub fn top(&self) -> (r: &StackFrame)
        requires
            self.stack@.len() > 0,
        ensures
            *r == self.stack@.last(),
    {
        &self.stack[self.stack.len() - 1]
    }

    pub fn new_alloca_id(&mut self) -> (r: usize)
        requires
            old(self).alloca_id < usize::MAX,
        ensures
            r == old(self).alloca_id,
            final(self)@ == (StateView { alloca_id: (r + 1) as usize, ..old(self)@ }),
    {
        let r = self.alloca_id;
        self.alloca_id = self.alloca_id + 1;
        r
    }

    pub fn new_symbol_id(&mut self) -> (r: usize)
        requires
            old(self).symbol_id < usize::MAX,
        ensures
            r == old(self).symbol_id,
            final(self)@ == (StateView { symbol_id: (r + 1) as usize, ..old(self)@ }),
    {
        let r = self.symbol_id;
        self.symbol_id = self.symbol_id + 1;
        r
    }

    pub fn new_pointer_value_id(&mut self) -> (r: usize)
        requires
            old(self).pointer_value_id < usize::MAX,
        ensures
            r == old(self).pointer_value_id,
            final(self)@ == (StateView { pointer_value_id: (r + 1) as usize, ..old(self)@ }),
    {
        let r = self.pointer_value_id;
        self.pointer_value_id = self.pointer_value_id + 1;
        r
    }

    pub fn add_constraint(&mut self, cond: Comparison, branch: bool)
        ensures
            final(self)@ == (StateView {
                constraints: old(self)@.constraints.push(Constraint { cond, branch }),
                ..old(self)@
            }),
    {
        self.constraints.push(Constraint { cond, branch });
    }
}

} // verus!
