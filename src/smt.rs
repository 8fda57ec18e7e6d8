use vstd::prelude::*;
use crate::state::Constraint;
use crate::value::{Comparison, Predicate, Value};

verus! {

/// The ASCII bytes of `s`.
pub open spec fn ascii(s: Seq<char>) -> Seq<u8> {
    Seq::new(s.len(), |i: int| s[i] as u8)
}

/// Appends the bytes of the ASCII text `s`.
pub fn push_text(out: &mut Vec<u8>, s: &str)
    requires
        s.is_ascii(),
    ensures
        final(out)@ == old(out)@ + ascii(s@),
{
    proof {
        vstd::string::is_ascii_spec_bytes(s);
    }
    let b = s.as_bytes();
    let mut i: usize = 0;
    while i < b.len()
        invariant
            b@ == ascii(s@),
            i <= b@.len(),
            out@ == old(out)@ + b@.subrange(0, i as int),
        decreases b@.len() - i,
    {
        out.push(b[i]);
        assert(out@ =~= old(out)@ + b@.subrange(0, i + 1));
        i = i + 1;
    }
    assert(b@.subrange(0, b@.len() as int) =~= b@);
}

/// Decimal digits of `n`, most significant first.
pub open spec fn dec(n: nat) -> Seq<u8>
    decreases n,
{
    if n < 10 {
        seq![(48 + n) as u8]
    } else {
        dec(n / 10) + seq![(48 + n % 10) as u8]
    }
}

/// Appends the decimal digits of `n`.
pub fn push_dec(out: &mut Vec<u8>, n: u128)
    ensures
        final(out)@ == old(out)@ + dec(n as nat),
    decreases n,
{
    if n >= 10 {
        push_dec(out, n / 10);
    }
    let d: u8 = (n % 10) as u8;
    out.push(48 + d);
    assert(final(out)@ =~= old(out)@ + dec(n as nat));
}

/// An SMT integer constant standing for a symbol or an argument.
#[derive(Debug, Clone, Copy, PartialEq, Eq, Structural)]
pub enum SmtConst {
    Symbol(usize),
    Argument(usize),
}

/// The name of a constant: `s<id>` or `a<index>`.
pub open spec fn const_name(c: SmtConst) -> Seq<u8> {
    match c {
        SmtConst::Symbol(id) => ascii("s"@) + dec(id as nat),
        SmtConst::Argument(i) => ascii("a"@) + dec(i as nat),
    }
}

/// The integer term of a value. Symbols and arguments become constants,
/// integers and null (as 0) literals; nothing else is lowered, as
/// wrap-around and width would make an integer reading reject paths that
/// are feasible on bit-vectors.
pub open spec fn term_of(v: Value) -> Option<Seq<u8>>
{
    match v {
        Value::Symbol(id) => Some(const_name(SmtConst::Symbol(id))),
        Value::Argument(i) => Some(const_name(SmtConst::Argument(i))),
        Value::Int(n) => Some(
            if n >= 0 {
                dec(n as nat)
            } else {
                ascii("(- "@) + dec((-n) as nat) + ascii(")"@)
            },
        ),
        Value::Null => Some(dec(0)),
        _ => None,
    }
}

/// The constants that the term of a lowered value names.
pub open spec fn term_consts(v: Value) -> Set<SmtConst>
{
    match v {
        Value::Symbol(id) => set![SmtConst::Symbol(id)],
        Value::Argument(i) => set![SmtConst::Argument(i)],
        _ => Set::empty(),
    }
}

/// Equality and the signed orders mean the same on integers as on
/// bit-vectors read as signed numbers; the unsigned orders do not, so they
/// are not lowered.
pub open spec fn lowers_pred(p: Predicate) -> bool {
    match p {
        Predicate::Ugt | Predicate::Uge | Predicate::Ult | Predicate::Ule => false,
        _ => true,
    }
}

/// The SMT relation of a lowered predicate.
pub open spec fn pred_op(p: Predicate) -> Seq<u8> {
    match p {
        Predicate::Eq => ascii("="@),
        Predicate::Ne => ascii("distinct"@),
        Predicate::Ugt | Predicate::Sgt => ascii(">"@),
        Predicate::Uge | Predicate::Sge => ascii(">="@),
        Predicate::Ult | Predicate::Slt => ascii("<"@),
        Predicate::Ule | Predicate::Sle => ascii("<="@),
    }
}

/// The formula of a comparison whose two operands are lowered.
pub open spec fn formula_of(c: Comparison) -> Option<Seq<u8>> {
    match (term_of(*c.op0), term_of(*c.op1)) {
        (Some(a), Some(b)) => if !lowers_pred(c.pred) { None } else { Some(
            ascii("("@) + pred_op(c.pred) + ascii(" "@) + a + ascii(" "@) + b + ascii(")"@),
        ) },
        _ => None,
    }
}

/// The assertion of one constraint: the formula, negated for the `false`
/// polarity; nothing for a comparison that is not lowered.
pub open spec fn assertion_of(c: Constraint) -> Seq<u8> {
    match formula_of(c.cond) {
        Some(f) => if c.branch {
            ascii("(assert "@) + f + ascii(")\n"@)
        } else {
            ascii("(assert (not "@) + f + ascii("))\n"@)
        },
        None => Seq::empty(),
    }
}

pub open spec fn assertions(cs: Seq<Constraint>) -> Seq<u8>
    decreases cs.len(),
{
    if cs.len() == 0 {
        Seq::empty()
    } else {
        assertions(cs.drop_last()) + assertion_of(cs.last())
    }
}

/// The constants named by the constraints that are lowered.
pub open spec fn constraint_consts(cs: Seq<Constraint>) -> Set<SmtConst>
    decreases cs.len(),
{
    if cs.len() == 0 {
        Set::empty()
    } else {
        let c = cs.last();
        constraint_consts(cs.drop_last()).union(
            if formula_of(c.cond).is_some() {
                term_consts(*c.cond.op0).union(term_consts(*c.cond.op1))
            } else {
                Set::empty()
            },
        )
    }
}

pub open spec fn declaration(c: SmtConst) -> Seq<u8> {
    ascii("(declare-const "@) + const_name(c) + ascii(" Int)\n"@)
}

pub open spec fn declarations(ds: Seq<SmtConst>) -> Seq<u8>
    decreases ds.len(),
{
    if ds.len() == 0 {
        Seq::empty()
    } else {
        declarations(ds.drop_last()) + declaration(ds.last())
    }
}

/// Appends the name of `c`.
pub fn push_const_name(out: &mut Vec<u8>, c: SmtConst)
    ensures
        final(out)@ == old(out)@ + const_name(c),
{
    proof {
        reveal_strlit("s");
        reveal_strlit("a");
    }
    match c {
        SmtConst::Symbol(id) => {
            push_text(out, "s");
            push_dec(out, id as u128);
        },
        SmtConst::Argument(i) => {
            push_text(out, "a");
            push_dec(out, i as u128);
        },
    }
    assert(final(out)@ =~= old(out)@ + const_name(c));
}

/// Whether the value can be lowered to an integer term.
pub fn lowerable(v: &Value) -> (r: bool)
    ensures
        r == term_of(*v).is_some(),
{
    match v {
        Value::Symbol(_) | Value::Argument(_) | Value::Int(_) | Value::Null => true,
        _ => false,
    }
}

/// Appends the term of a lowerable value.
pub fn push_term(out: &mut Vec<u8>, v: &Value)
    requires
        term_of(*v).is_some(),
    ensures
        final(out)@ == old(out)@ + term_of(*v).unwrap(),
{
    proof {
        reveal_strlit("(- ");
        reveal_strlit(")");
        reveal_strlit("(");
        reveal_strlit(" ");
    }
    match v {
        Value::Symbol(id) => push_const_name(out, SmtConst::Symbol(*id)),
        Value::Argument(i) => push_const_name(out, SmtConst::Argument(*i)),
        Value::Int(n) => {
            if *n >= 0 {
                push_dec(out, *n as u128);
            } else {
                push_text(out, "(- ");
                let m: i128 = -(*n as i128);
                push_dec(out, m as u128);
                push_text(out, ")");
            }
        },
        Value::Null => push_dec(out, 0),
        _ => {},
    }
    assert(final(out)@ =~= old(out)@ + term_of(*v).unwrap());
}

/// Appends the formula of a comparison whose operands are lowered.
pub fn push_formula(out: &mut Vec<u8>, c: &Comparison)
    requires
        formula_of(*c).is_some(),
    ensures
        final(out)@ == old(out)@ + formula_of(*c).unwrap(),
{
    proof {
        reveal_strlit("(");
        reveal_strlit(" ");
        reveal_strlit(")");
        reveal_strlit("=");
        reveal_strlit("distinct");
        reveal_strlit(">");
        reveal_strlit(">=");
        reveal_strlit("<");
        reveal_strlit("<=");
    }
    push_text(out, "(");
    match c.pred {
        Predicate::Eq => push_text(out, "="),
        Predicate::Ne => push_text(out, "distinct"),
        Predicate::Ugt | Predicate::Sgt => push_text(out, ">"),
        Predicate::Uge | Predicate::Sge => push_text(out, ">="),
        Predicate::Ult | Predicate::Slt => push_text(out, "<"),
        Predicate::Ule | Predicate::Sle => push_text(out, "<="),
    }
    push_text(out, " ");
    push_term(out, &*c.op0);
    push_text(out, " ");
    push_term(out, &*c.op1);
    push_text(out, ")");
    assert(final(out)@ =~= old(out)@ + formula_of(*c).unwrap());
}

/// Whether both operands of the comparison are lowered.
pub fn formula_lowerable(c: &Comparison) -> (r: bool)
    ensures
        r == formula_of(*c).is_some(),
{
    let unsigned = match c.pred {
        Predicate::Ugt | Predicate::Uge | Predicate::Ult | Predicate::Ule => true,
        _ => false,
    };
    !unsigned && lowerable(&*c.op0) && lowerable(&*c.op1)
}

/// Appends the assertion of one constraint.
pub fn push_assertion(out: &mut Vec<u8>, c: &Constraint)
    ensures
        final(out)@ == old(out)@ + assertion_of(*c),
{
    proof {
        reveal_strlit("(assert ");
        reveal_strlit("(assert (not ");
        reveal_strlit(")\n");
        reveal_strlit("))\n");
    }
    if formula_lowerable(&c.cond) {
        if c.branch {
            push_text(out, "(assert ");
            push_formula(out, &c.cond);
            push_text(out, ")\n");
        } else {
            push_text(out, "(assert (not ");
            push_formula(out, &c.cond);
            push_text(out, "))\n");
        }
    }
    assert(final(out)@ =~= old(out)@ + assertion_of(*c));
}

/// Adds `c` unless it is already there.
pub fn add_const(acc: &mut Vec<SmtConst>, c: SmtConst)
    requires
        old(acc)@.no_duplicates(),
    ensures
        final(acc)@.no_duplicates(),
        final(acc)@.to_set() == old(acc)@.to_set().insert(c),
{
    let mut i: usize = 0;
    while i < acc.len()
        invariant
            acc@ == old(acc)@,
            acc@.no_duplicates(),
            i <= acc@.len(),
            forall|j: int| 0 <= j < i ==> acc@[j] != c,
        decreases acc@.len() - i,
    {
        if acc[i] == c {
            proof {
                assert(acc@.to_set().contains(c));
                assert(acc@.to_set().insert(c) =~= acc@.to_set());
            }
            return;
        }
        i = i + 1;
    }
    let ghost a0 = acc@;
    acc.push(c);
    proof {
        assert(acc@.to_set() =~= a0.to_set().insert(c)) by {
            assert forall|x: SmtConst| acc@.to_set().contains(x) <==> a0.to_set().insert(c).contains(x) by {
                if acc@.to_set().contains(x) {
                    let j = choose|j: int| 0 <= j < acc@.len() && acc@[j] == x;
                    if j < a0.len() {
                        assert(a0[j] == x);
                    }
                }
                if a0.to_set().contains(x) {
                    let j = choose|j: int| 0 <= j < a0.len() && a0[j] == x;
                    assert(acc@[j] == x);
                }
                if x == c {
                    assert(acc@[a0.len() as int] == c);
                }
            }
        }
    }
}

/// Adds the constants that the term of `v` names.
pub fn collect_term_consts(acc: &mut Vec<SmtConst>, v: &Value)
    requires
        old(acc)@.no_duplicates(),
    ensures
        final(acc)@.no_duplicates(),
        final(acc)@.to_set() == old(acc)@.to_set().union(term_consts(*v)),
{
    match v {
        Value::Symbol(id) => add_const(acc, SmtConst::Symbol(*id)),
        Value::Argument(i) => add_const(acc, SmtConst::Argument(*i)),
        _ => {},
    }
    assert(final(acc)@.to_set() =~= old(acc)@.to_set().union(term_consts(*v)));
}

/// The SMT-LIB query of a path: one integer constant for each symbol and
/// argument that a lowered constraint names, declared once, then one
/// assertion per lowered constraint, negated where the path took the `false`
/// side. Constraints that cannot be lowered do not constrain the query.
pub fn path_query(cs: &Vec<Constraint>) -> (r: Vec<u8>)
    ensures
        exists|ds: Seq<SmtConst>|
            ds.no_duplicates() && ds.to_set() == constraint_consts(cs@) && r@ == declarations(ds)
                + assertions(cs@),
{
    let mut acc: Vec<SmtConst> = Vec::new();
    let mut i: usize = 0;
    while i < cs.len()
        invariant
            i <= cs@.len(),
            acc@.no_duplicates(),
            acc@.to_set() == constraint_consts(cs@.subrange(0, i as int)),
        decreases cs@.len() - i,
    {
        proof {
            assert(cs@.subrange(0, i + 1).drop_last() =~= cs@.subrange(0, i as int));
        }
        if formula_lowerable(&cs[i].cond) {
            collect_term_consts(&mut acc, &*cs[i].cond.op0);
            collect_term_consts(&mut acc, &*cs[i].cond.op1);
        }
        proof {
            assert(acc@.to_set() =~= constraint_consts(cs@.subrange(0, i + 1)));
        }
        i = i + 1;
    }
    proof {
        assert(cs@.subrange(0, cs@.len() as int) =~= cs@);
    }
    let mut out: Vec<u8> = Vec::new();
    let mut k: usize = 0;
    while k < acc.len()
        invariant
            k <= acc@.len(),
            out@ == declarations(acc@.subrange(0, k as int)),
        decreases acc@.len() - k,
    {
        proof {
            reveal_strlit("(declare-const ");
            reveal_strlit(" Int)\n");
            assert(acc@.subrange(0, k + 1).drop_last() =~= acc@.subrange(0, k as int));
        }
        push_text(&mut out, "(declare-const ");
        push_const_name(&mut out, acc[k]);
        push_text(&mut out, " Int)\n");
        proof {
            assert(out@ =~= declarations(acc@.subrange(0, k + 1)));
        }
        k = k + 1;
    }
    proof {
        assert(acc@.subrange(0, acc@.len() as int) =~= acc@);
    }
    let ghost decls = out@;
    let mut j: usize = 0;
    while j < cs.len()
        invariant
            j <= cs@.len(),
            out@ == decls + assertions(cs@.subrange(0, j as int)),
        decreases cs@.len() - j,
    {
        proof {
            assert(cs@.subrange(0, j + 1).drop_last() =~= cs@.subrange(0, j as int));
        }
        push_assertion(&mut out, &cs[j]);
        proof {
            assert(out@ =~= decls + assertions(cs@.subrange(0, j + 1)));
        }
        j = j + 1;
    }
    proof {
        assert(cs@.subrange(0, cs@.len() as int) =~= cs@);
    }
    out
}

/// What the solver said about a query.
#[derive(Debug, Clone, Copy, PartialEq, Eq, Structural)]
pub enum SatOutcome {
    Sat,
    Unsat,
    Unknown,
}

/// A path is kept unless the solver proved its constraints unsatisfiable.
pub fn path_accepted(outcome: SatOutcome) -> (r: bool)
    ensures
        r == (outcome != SatOutcome::Unsat),
{
    match outcome {
        SatOutcome::Unsat => false,
        _ => true,
    }
}

} // verus!
