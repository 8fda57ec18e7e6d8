use std::rc::Rc;
use vstd::prelude::*;

verus! {

/// Integer comparison predicates.
#[derive(Debug, Clone, Copy, PartialEq, Eq, Structural)]
pub enum Predicate {
    Eq,
    Ne,
    Ugt,
    Uge,
    Ult,
    Ule,
    Sgt,
    Sge,
    Slt,
    Sle,
}

/// Binary integer operations.
#[derive(Debug, Clone, Copy, PartialEq, Eq, Structural)]
pub enum BinaryOpcode {
    Add,
    Sub,
    Mul,
    UDiv,
    SDiv,
    URem,
    SRem,
    Shl,
    LShr,
    AShr,
    And,
    Or,
    Xor,
}

/// Unary (conversion) operations.
#[derive(Debug, Clone, Copy, PartialEq, Eq, Structural)]
pub enum UnaryOpcode {
    Trunc,
    ZExt,
    SExt,
    BitCast,
    PtrToInt,
    IntToPtr,
}

/// A comparison that is kept symbolic rather than evaluated.
pub struct Comparison {
    pub pred: Predicate,
    pub op0: Rc<Value>,
    pub op1: Rc<Value>,
}

/// A symbolic r-value. Sub-values are shared, immutable nodes.
pub enum Value {
    Unknown,
    Null,
    Int(i64),
    Argument(usize),
    Symbol(usize),
    Location(Rc<Location>),
    Comparison(Comparison),
    BinaryOperation { op: BinaryOpcode, op0: Rc<Value>, op1: Rc<Value> },
    UnaryOperation { op: UnaryOpcode, op0: Rc<Value> },
    /// The summary of a call that was not descended into; `func` is the
    /// callee's index in the program.
    Call { id: usize, func: usize, args: Rc<ValueList> },
}

/// A persistent list of shared values.
pub enum ValueList {
    Nil,
    Cons(Rc<Value>, Rc<ValueList>),
}

/// A symbolic address; the keys of the memory.
pub enum Location {
    Unknown,
    Argument(usize),
    Alloca(usize),
    Global(usize),
    GetElementPtr(Rc<Location>, Rc<ValueList>),
}

/// The list of the values of `s`, in order.
pub open spec fn list_of(s: Seq<Rc<Value>>) -> ValueList
    decreases s.len(),
{
    if s.len() == 0 {
        ValueList::Nil
    } else {
        ValueList::Cons(s[0], Rc::new(list_of(s.drop_first())))
    }
}

impl ValueList {
    /// The values of the list, in order.
    pub open spec fn seq(&self) -> Seq<Rc<Value>>
        decreases self,
    {
        match self {
            ValueList::Nil => Seq::empty(),
            ValueList::Cons(h, t) => seq![*h].add(t.seq()),
        }
    }

    /// Builds the list of the values of `v`, in order.
    pub fn from_vec(v: &Vec<Rc<Value>>) -> (r: ValueList)
        ensures
            r.seq() == v@,
            r == list_of(v@),
    {
        let mut acc = ValueList::Nil;
        let mut i: usize = v.len();
        while i > 0
            invariant
                i <= v.len(),
                acc.seq() == v@.subrange(i as int, v.len() as int),
                acc == list_of(v@.subrange(i as int, v.len() as int)),
            decreases i,
        {
            i = i - 1;
            let h = v[i].clone();
            let ghost prev = v@.subrange(i + 1, v.len() as int);
            acc = ValueList::Cons(h, Rc::new(acc));
            assert(acc.seq() =~= v@.subrange(i as int, v.len() as int));
            assert(v@.subrange(i as int, v.len() as int).drop_first() =~= prev);
        }
        assert(v@.subrange(0, v.len() as int) =~= v@);
        acc
    }

    /// The values of the list, in order, as a vector.
    pub fn to_vec(&self) -> (r: Vec<Rc<Value>>)
        ensures
            r@ == self.seq(),
    {
        let mut out: Vec<Rc<Value>> = Vec::new();
        let mut cur: &ValueList = self;
        loop
            invariant
                out@.add(cur.seq()) == self.seq(),
            decreases cur,
        {
            match cur {
                ValueList::Nil => {
                    assert(out@.add(cur.seq()) =~= out@);
                    return out;
                },
                ValueList::Cons(h, t) => {
                    out.push(h.clone());
                    assert(out@.add(t.seq()) =~= out@.subrange(0, out@.len() - 1).add(
                        cur.seq(),
                    ));
                    cur = &**t;
                },
            }
        }
    }
}

/// Decides structural equality of two values.
pub fn value_eq(a: &Value, b: &Value) -> (r: bool)
    ensures
        r == (*a == *b),
    decreases a,
{
    match (a, b) {
        (Value::Unknown, Value::Unknown) => true,
        (Value::Null, Value::Null) => true,
        (Value::Int(x), Value::Int(y)) => *x == *y,
        (Value::Argument(x), Value::Argument(y)) => *x == *y,
        (Value::Symbol(x), Value::Symbol(y)) => *x == *y,
        (Value::Location(x), Value::Location(y)) => location_eq(&**x, &**y),
        (Value::Comparison(x), Value::Comparison(y)) => {
            x.pred == y.pred && value_eq(&*x.op0, &*y.op0) && value_eq(&*x.op1, &*y.op1)
        },
        (
            Value::BinaryOperation { op: o1, op0: x0, op1: x1 },
            Value::BinaryOperation { op: o2, op0: y0, op1: y1 },
        ) => *o1 == *o2 && value_eq(&**x0, &**y0) && value_eq(&**x1, &**y1),
        (Value::UnaryOperation { op: o1, op0: x0 }, Value::UnaryOperation { op: o2, op0: y0 }) => {
            *o1 == *o2 && value_eq(&**x0, &**y0)
        },
        (Value::Call { id: i1, func: f1, args: a1 }, Value::Call { id: i2, func: f2, args: a2 }) => {
            *i1 == *i2 && *f1 == *f2 && list_eq(&**a1, &**a2)
        },
        _ => false,
    }
}

/// Decides structural equality of two value lists.
pub fn list_eq(a: &ValueList, b: &ValueList) -> (r: bool)
    ensures
        r == (*a == *b),
    decreases a,
{
    match (a, b) {
        (ValueList::Nil, ValueList::Nil) => true,
        (ValueList::Cons(h1, t1), ValueList::Cons(h2, t2)) => {
            value_eq(&**h1, &**h2) && list_eq(&**t1, &**t2)
        },
        _ => false,
    }
}

/// Decides structural equality of two locations.
pub fn location_eq(a: &Location, b: &Location) -> (r: bool)
    ensures
        r == (*a == *b),
    decreases a,
{
    match (a, b) {
        (Location::Unknown, Location::Unknown) => true,
        (Location::Argument(x), Location::Argument(y)) => *x == *y,
        (Location::Alloca(x), Location::Alloca(y)) => *x == *y,
        (Location::Global(x), Location::Global(y)) => *x == *y,
        (Location::GetElementPtr(l1, i1), Location::GetElementPtr(l2, i2)) => {
            location_eq(&**l1, &**l2) && list_eq(&**i1, &**i2)
        },
        _ => false,
    }
}

/// A second handle on each value of `v`.
pub fn share_all(v: &Vec<Rc<Value>>) -> (r: Vec<Rc<Value>>)
    ensures
        r@ == v@,
{
    let mut r: Vec<Rc<Value>> = Vec::new();
    let mut i: usize = 0;
    while i < v.len()
        invariant
            i <= v@.len(),
            r@ == v@.subrange(0, i as int),
        decreases v@.len() - i,
    {
        r.push(v[i].clone());
        assert(r@ =~= v@.subrange(0, i + 1));
        i = i + 1;
    }
    assert(r@ =~= v@);
    r
}

} // verus!
