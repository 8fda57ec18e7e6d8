use std::rc::Rc;
use vstd::prelude::*;
use crate::state::{Branch, Semantics, TraceNode};
use crate::value::{Location, Value, ValueList, location_eq, value_eq};

verus! {

#[derive(Debug, Clone, Copy, PartialEq, Eq, Structural)]
pub enum TraceIterDirection {
    Forward,
    Backward,
}

impl TraceIterDirection {
    pub fn is_forward(&self) -> (r: bool)
        ensures
            r == (*self == TraceIterDirection::Forward),
    {
        match self {
            TraceIterDirection::Forward => true,
            TraceIterDirection::Backward => false,
        }
    }
}

/// An accepted trace as the feature extractors read it.
pub struct Trace {
    /// Index of the target call in `instrs`.
    pub target: usize,
    pub instrs: Vec<TraceNode>,
}

/// The arguments of a `Call` node; empty for any other node.
pub open spec fn call_args(s: Semantics) -> Seq<Rc<Value>> {
    match s {
        Semantics::Call { args, .. } => args.seq(),
        _ => Seq::empty(),
    }
}

impl Trace {
    /// The target indexes a `Call` node.
    pub open spec fn wf(&self) -> bool {
        &&& self.target < self.instrs@.len()
        &&& self.instrs@[self.target as int].semantics is Call
    }

    /// The nodes before the target, in trace order.
    pub open spec fn before_target(&self) -> Seq<TraceNode> {
        self.instrs@.subrange(0, self.target as int)
    }

    /// The nodes after the target, in trace order.
    pub open spec fn after_target(&self) -> Seq<TraceNode> {
        self.instrs@.subrange(self.target + 1, self.instrs@.len() as int)
    }

    pub fn target_instr(&self) -> (r: &TraceNode)
        requires
            self.wf(),
        ensures
            *r == self.instrs@[self.target as int],
    {
        &self.instrs[self.target]
    }

    pub fn target_result(&self) -> (r: &Option<Rc<Value>>)
        requires
            self.wf(),
        ensures
            *r == self.instrs@[self.target as int].result,
    {
        &self.instrs[self.target].result
    }

    pub fn target_args(&self) -> (r: Vec<Rc<Value>>)
        requires
            self.wf(),
        ensures
            r@ == call_args(self.instrs@[self.target as int].semantics),
    {
        match &self.instrs[self.target].semantics {
            Semantics::Call { args, .. } => args.to_vec(),
            _ => Vec::new(),
        }
    }

    pub fn target_arg(&self, index: usize) -> (r: Rc<Value>)
        requires
            self.wf(),
            index < call_args(self.instrs@[self.target as int].semantics).len(),
        ensures
            r == call_args(self.instrs@[self.target as int].semantics)[index as int],
    {
        let args = self.target_args();
        args[index].clone()
    }

    /// All nodes, in the given direction.
    pub fn iter_instrs(&self, dir: TraceIterDirection) -> (r: Vec<&TraceNode>)
        ensures
            r@.len() == self.instrs@.len(),
            forall|i: int|
                0 <= i < r@.len() ==> *r@[i] == if dir == TraceIterDirection::Forward {
                    self.instrs@[i]
                } else {
                    self.instrs@[self.instrs@.len() - 1 - i]
                },
    {
        let n = self.instrs.len();
        let mut r: Vec<&TraceNode> = Vec::new();
        let mut i: usize = 0;
        while i < n
            invariant
                n == self.instrs@.len(),
                i <= n,
                r@.len() == i,
                forall|j: int|
                    0 <= j < i ==> *r@[j] == if dir == TraceIterDirection::Forward {
                        self.instrs@[j]
                    } else {
                        self.instrs@[n - 1 - j]
                    },
            decreases n - i,
        {
            if dir.is_forward() {
                r.push(&self.instrs[i]);
            } else {
                r.push(&self.instrs[n - 1 - i]);
            }
            i = i + 1;
        }
        r
    }

    /// The nodes after `from` going forward, or before it going backward
    /// (nearest first).
    pub fn iter_instrs_from(&self, dir: TraceIterDirection, from: usize) -> (r: Vec<&TraceNode>)
        requires
            from < self.instrs@.len(),
        ensures
            dir == TraceIterDirection::Forward ==> r@.len() == self.instrs@.len() - from - 1
                && forall|i: int| 0 <= i < r@.len() ==> *r@[i] == self.instrs@[from + 1 + i],
            dir == TraceIterDirection::Backward ==> r@.len() == from && forall|i: int|
                0 <= i < r@.len() ==> *r@[i] == self.instrs@[from - 1 - i],
    {
        let mut r: Vec<&TraceNode> = Vec::new();
        let n = self.instrs.len();
        if dir.is_forward() {
            let mut i: usize = from + 1;
            while i < self.instrs.len()
                invariant
                    from < self.instrs@.len(),
                    from + 1 <= i <= self.instrs@.len(),
                    r@.len() == i - from - 1,
                    forall|j: int| 0 <= j < r@.len() ==> *r@[j] == self.instrs@[from + 1 + j],
                decreases self.instrs@.len() - i,
            {
                r.push(&self.instrs[i]);
                i = i + 1;
            }
        } else {
            let mut i: usize = from;
            while i > 0
                invariant
                    from < self.instrs@.len(),
                    i <= from,
                    r@.len() == from - i,
                    forall|j: int| 0 <= j < r@.len() ==> *r@[j] == self.instrs@[from - 1 - j],
                decreases i,
            {
                i = i - 1;
                r.push(&self.instrs[i]);
            }
        }
        r
    }

    pub fn iter_instrs_from_target(&self, dir: TraceIterDirection) -> (r: Vec<&TraceNode>)
        requires
            self.wf(),
        ensures
            dir == TraceIterDirection::Forward ==> r@.len() == self.after_target().len()
                && forall|i: int| 0 <= i < r@.len() ==> *r@[i] == self.after_target()[i],
            dir == TraceIterDirection::Backward ==> r@.len() == self.before_target().len()
                && forall|i: int| 0 <= i < r@.len() ==> *r@[i] == self.before_target()[self.target - 1 - i],
    {
        self.iter_instrs_from(dir, self.target)
    }
}

/// The value names a call of function `f`, anywhere inside it.
pub open spec fn mentions_call(v: Value, f: usize) -> bool
    decreases v,
{
    match v {
        Value::Call { func, args, .. } => func == f || list_mentions_call(*args, f),
        Value::Location(l) => location_mentions_call(*l, f),
        Value::Comparison(c) => mentions_call(*c.op0, f) || mentions_call(*c.op1, f),
        Value::BinaryOperation { op0, op1, .. } => mentions_call(*op0, f) || mentions_call(*op1, f),
        Value::UnaryOperation { op0, .. } => mentions_call(*op0, f),
        _ => false,
    }
}

pub open spec fn list_mentions_call(l: ValueList, f: usize) -> bool
    decreases l,
{
    match l {
        ValueList::Nil => false,
        ValueList::Cons(h, t) => mentions_call(*h, f) || list_mentions_call(*t, f),
    }
}

pub open spec fn location_mentions_call(l: Location, f: usize) -> bool
    decreases l,
{
    match l {
        Location::GetElementPtr(b, ix) => location_mentions_call(*b, f) || list_mentions_call(*ix, f),
        _ => false,
    }
}

pub fn value_mentions_call(v: &Value, f: usize) -> (r: bool)
    ensures
        r == mentions_call(*v, f),
    decreases v,
{
    match v {
        Value::Call { func, args, .. } => *func == f || list_has_call(&**args, f),
        Value::Location(l) => loc_has_call(&**l, f),
        Value::Comparison(c) => value_mentions_call(&*c.op0, f) || value_mentions_call(&*c.op1, f),
        Value::BinaryOperation { op0, op1, .. } => value_mentions_call(&**op0, f)
            || value_mentions_call(&**op1, f),
        Value::UnaryOperation { op0, .. } => value_mentions_call(&**op0, f),
        _ => false,
    }
}

pub fn list_has_call(l: &ValueList, f: usize) -> (r: bool)
    ensures
        r == list_mentions_call(*l, f),
    decreases l,
{
    match l {
        ValueList::Nil => false,
        ValueList::Cons(h, t) => value_mentions_call(&**h, f) || list_has_call(&**t, f),
    }
}

pub fn loc_has_call(l: &Location, f: usize) -> (r: bool)
    ensures
        r == location_mentions_call(*l, f),
    decreases l,
{
    match l {
        Location::GetElementPtr(b, ix) => loc_has_call(&**b, f) || list_has_call(&**ix, f),
        _ => false,
    }
}

/// The list holds a value equal to `a`.
pub open spec fn list_has(l: ValueList, a: Value) -> bool
    decreases l,
{
    match l {
        ValueList::Nil => false,
        ValueList::Cons(h, t) => *h == a || list_has(*t, a),
    }
}

pub fn list_contains(l: &ValueList, a: &Value) -> (r: bool)
    ensures
        r == list_has(*l, *a),
    decreases l,
{
    match l {
        ValueList::Nil => false,
        ValueList::Cons(h, t) => value_eq(&**h, a) || list_contains(&**t, a),
    }
}

/// A question asked of one trace node.
pub enum NodeTest {
    /// A conditional branch that took its `then` side.
    Then,
    /// A conditional branch that took its `else` side.
    Else,
    /// A branch that enters a loop.
    LoopBegin,
    /// A call of the function.
    CallOf(usize),
    /// A comparison with an operand that names a call of the function.
    CompareOfCall(usize),
    /// A comparison of a call of the function with zero or null.
    ZeroCheckOfCall(usize),
    /// A store of a value that names a call of the function.
    StoreOfCall(usize),
    /// A call with an argument that names a call of the function.
    PassOfCall(usize),
    /// A comparison with the value as an operand.
    CompareOf(Rc<Value>),
    /// A call with the value among its arguments.
    PassOf(Rc<Value>),
    /// A store of the value, or through it.
    StoreOf(Rc<Value>),
}

pub open spec fn is_zero(v: Value) -> bool {
    v == Value::Int(0) || v == Value::Null
}

pub open spec fn node_test(t: NodeTest, n: TraceNode) -> bool {
    match t {
        NodeTest::Then => n.semantics matches Semantics::ConditionalBr { br, .. } && br == Branch::Then,
        NodeTest::Else => n.semantics matches Semantics::ConditionalBr { br, .. } && br == Branch::Else,
        NodeTest::LoopBegin => n.semantics matches Semantics::ConditionalBr { begin_loop, .. } && begin_loop,
        NodeTest::CallOf(f) => n.semantics matches Semantics::Call { func, .. } && func == f,
        NodeTest::CompareOfCall(f) => n.semantics matches Semantics::Compare { op0, op1, .. }
            && (mentions_call(*op0, f) || mentions_call(*op1, f)),
        NodeTest::ZeroCheckOfCall(f) => n.semantics matches Semantics::Compare { op0, op1, .. }
            && ((mentions_call(*op0, f) && is_zero(*op1)) || (mentions_call(*op1, f) && is_zero(*op0))),
        NodeTest::StoreOfCall(f) => n.semantics matches Semantics::Store { val, .. } && mentions_call(*val, f),
        NodeTest::PassOfCall(f) => n.semantics matches Semantics::Call { args, .. } && list_mentions_call(*args, f),
        NodeTest::CompareOf(a) => n.semantics matches Semantics::Compare { op0, op1, .. }
            && (*op0 == *a || *op1 == *a),
        NodeTest::PassOf(a) => n.semantics matches Semantics::Call { args, .. } && list_has(*args, *a),
        NodeTest::StoreOf(a) => n.semantics matches Semantics::Store { loc, val }
            && (*val == *a || (*a matches Value::Location(l) && *l == *loc)),
    }
}

pub fn is_zero_value(v: &Value) -> (r: bool)
    ensures
        r == is_zero(*v),
{
    match v {
        Value::Int(n) => *n == 0,
        Value::Null => true,
        _ => false,
    }
}

pub fn test_node(t: &NodeTest, n: &TraceNode) -> (r: bool)
    ensures
        r == node_test(*t, *n),
{
    match (t, &n.semantics) {
        (NodeTest::Then, Semantics::ConditionalBr { br, .. }) => *br == Branch::Then,
        (NodeTest::Else, Semantics::ConditionalBr { br, .. }) => *br == Branch::Else,
        (NodeTest::LoopBegin, Semantics::ConditionalBr { begin_loop, .. }) => *begin_loop,
        (NodeTest::CallOf(f), Semantics::Call { func, .. }) => *func == *f,
        (NodeTest::CompareOfCall(f), Semantics::Compare { op0, op1, .. }) => {
            value_mentions_call(&**op0, *f) || value_mentions_call(&**op1, *f)
        },
        (NodeTest::ZeroCheckOfCall(f), Semantics::Compare { op0, op1, .. }) => {
            (value_mentions_call(&**op0, *f) && is_zero_value(&**op1)) || (value_mentions_call(
                &**op1,
                *f,
            ) && is_zero_value(&**op0))
        },
        (NodeTest::StoreOfCall(f), Semantics::Store { val, .. }) => value_mentions_call(&**val, *f),
        (NodeTest::PassOfCall(f), Semantics::Call { args, .. }) => list_has_call(&**args, *f),
        (NodeTest::CompareOf(a), Semantics::Compare { op0, op1, .. }) => {
            value_eq(&**op0, &**a) || value_eq(&**op1, &**a)
        },
        (NodeTest::PassOf(a), Semantics::Call { args, .. }) => list_contains(&**args, &**a),
        (NodeTest::StoreOf(a), Semantics::Store { loc, val }) => {
            value_eq(&**val, &**a) || match &**a {
                Value::Location(l) => location_eq(&**l, &**loc),
                _ => false,
            }
        },
        _ => false,
    }
}

/// How many nodes of `s` pass the test.
pub open spec fn count_in(s: Seq<TraceNode>, t: NodeTest) -> nat
    decreases s.len(),
{
    if s.len() == 0 {
        0
    } else {
        count_in(s.drop_last(), t) + if node_test(t, s.last()) {
            1nat
        } else {
            0nat
        }
    }
}

/// How many of the nodes `lo .. hi` pass the test.
pub fn count_nodes(instrs: &Vec<TraceNode>, lo: usize, hi: usize, t: &NodeTest) -> (r: u64)
    requires
        lo <= hi <= instrs@.len(),
    ensures
        r == count_in(instrs@.subrange(lo as int, hi as int), *t),
{
    let mut k: u64 = 0;
    let mut i: usize = lo;
    while i < hi
        invariant
            lo <= i <= hi <= instrs@.len(),
            k == count_in(instrs@.subrange(lo as int, i as int), *t),
            k <= i - lo,
        decreases hi - i,
    {
        proof {
            assert(instrs@.subrange(lo as int, i + 1).drop_last() =~= instrs@.subrange(lo as int, i as int));
        }
        if test_node(t, &instrs[i]) {
            k = k + 1;
        }
        i = i + 1;
    }
    k
}

} // verus!
