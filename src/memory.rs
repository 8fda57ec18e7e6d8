use std::rc::Rc;
use vstd::prelude::*;
use crate::value::{Location, Value, location_eq};

verus! {

/// The map that a sequence of writes leaves: later writes win.
pub open spec fn writes_map(s: Seq<(Rc<Location>, Rc<Value>)>) -> Map<Location, Value>
    decreases s.len(),
{
    if s.len() == 0 {
        Map::empty()
    } else {
        let last = s.last();
        writes_map(s.drop_last()).insert(*last.0, *last.1)
    }
}

/// A key that no write of `s` names is absent from the map.
pub proof fn lemma_writes_map_absent(s: Seq<(Rc<Location>, Rc<Value>)>, l: Location)
    requires
        forall|k: int| 0 <= k < s.len() ==> *(#[trigger] s[k]).0 != l,
    ensures
        !writes_map(s).contains_key(l),
    decreases s.len(),
{
    if s.len() > 0 {
        assert forall|k: int| 0 <= k < s.drop_last().len() implies *(#[trigger] s.drop_last()[k]).0
            != l by {
            assert(s.drop_last()[k] == s[k]);
        }
        lemma_writes_map_absent(s.drop_last(), l);
    }
}

/// The map holds, at `l`, the value of the last write to `l`.
pub proof fn lemma_writes_map_last(s: Seq<(Rc<Location>, Rc<Value>)>, i: int)
    requires
        0 <= i < s.len(),
        forall|k: int| i < k < s.len() ==> *(#[trigger] s[k]).0 != *s[i].0,
    ensures
        writes_map(s).contains_key(*s[i].0),
        writes_map(s)[*s[i].0] == *s[i].1,
    decreases s.len(),
{
    if i < s.len() - 1 {
        let t = s.drop_last();
        assert forall|k: int| i < k < t.len() implies *(#[trigger] t[k]).0 != *t[i].0 by {
            assert(t[k] == s[k]);
        }
        lemma_writes_map_last(t, i);
    }
}

/// The heap of one path: a mapping from symbolic locations to symbolic values.
pub struct Memory {
    writes: Vec<(Rc<Location>, Rc<Value>)>,
}

impl View for Memory {
    type V = Map<Location, Value>;

    closed spec fn view(&self) -> Map<Location, Value> {
        writes_map(self.writes@)
    }
}

impl Clone for Memory {
    fn clone(&self) -> (r: Memory)
        ensures
            r@ == self@,
    {
        let mut writes: Vec<(Rc<Location>, Rc<Value>)> = Vec::new();
        let mut i: usize = 0;
        while i < self.writes.len()
            invariant
                i <= self.writes@.len(),
                writes@ == self.writes@.subrange(0, i as int),
            decreases self.writes@.len() - i,
        {
            let (l, v) = &self.writes[i];
            writes.push((l.clone(), v.clone()));
            assert(writes@ =~= self.writes@.subrange(0, i + 1));
            i = i + 1;
        }
        assert(writes@ =~= self.writes@);
        Memory { writes }
    }
}

impl Memory {
    pub fn new() -> (r: Memory)
        ensures
            r@ == Map::<Location, Value>::empty(),
    {
        Memory { writes: Vec::new() }
    }

    /// The value stored at `loc`, if any.
    pub fn get(&self, loc: &Location) -> (r: Option<Rc<Value>>)
        ensures
            r.is_some() == self@.contains_key(*loc),
            r.is_some() ==> *r.unwrap() == self@[*loc],
    {
        let mut i: usize = self.writes.len();
        while i > 0
            invariant
                i <= self.writes@.len(),
                forall|k: int| i <= k < self.writes@.len() ==> *(#[trigger] self.writes@[k]).0
                    != *loc,
            decreases i,
        {
            i = i - 1;
            if location_eq(&*self.writes[i].0, loc) {
                proof {
                    lemma_writes_map_last(self.writes@, i as int);
                }
                return Some(self.writes[i].1.clone());
            }
        }
        proof {
            lemma_writes_map_absent(self.writes@, *loc);
        }
        None
    }

    /// Stores `val` at `loc`, replacing what was there.
    pub fn insert(&mut self, loc: Rc<Location>, val: Rc<Value>)
        ensures
            final(self)@ == old(self)@.insert(*loc, *val),
    {
        self.writes.push((loc, val));
        assert(self.writes@.drop_last() =~= old(self).writes@);
    }
}

/// The map that a sequence of bindings leaves: later bindings win.
pub open spec fn bindings_map(s: Seq<((usize, usize), Rc<Value>)>) -> Map<(usize, usize), Value>
    decreases s.len(),
{
    if s.len() == 0 {
        Map::empty()
    } else {
        let last = s.last();
        bindings_map(s.drop_last()).insert(last.0, *last.1)
    }
}

proof fn lemma_bindings_map_absent(s: Seq<((usize, usize), Rc<Value>)>, k: (usize, usize))
    requires
        forall|j: int| 0 <= j < s.len() ==> (#[trigger] s[j]).0 != k,
    ensures
        !bindings_map(s).contains_key(k),
    decreases s.len(),
{
    if s.len() > 0 {
        assert forall|j: int| 0 <= j < s.drop_last().len() implies (#[trigger] s.drop_last()[j]).0
            != k by {
            assert(s.drop_last()[j] == s[j]);
        }
        lemma_bindings_map_absent(s.drop_last(), k);
    }
}

proof fn lemma_bindings_map_last(s: Seq<((usize, usize), Rc<Value>)>, i: int)
    requires
        0 <= i < s.len(),
        forall|j: int| i < j < s.len() ==> (#[trigger] s[j]).0 != s[i].0,
    ensures
        bindings_map(s).contains_key(s[i].0),
        bindings_map(s)[s[i].0] == *s[i].1,
    decreases s.len(),
{
    if i < s.len() - 1 {
        let t = s.drop_last();
        assert forall|j: int| i < j < t.len() implies (#[trigger] t[j]).0 != t[i].0 by {
            assert(t[j] == s[j]);
        }
        lemma_bindings_map_last(t, i);
    }
}

/// The results of the instructions that one call frame has executed, keyed
/// by (block, index) within the frame's function.
pub struct LocalMemory {
    bindings: Vec<((usize, usize), Rc<Value>)>,
}

impl View for LocalMemory {
    type V = Map<(usize, usize), Value>;

    closed spec fn view(&self) -> Map<(usize, usize), Value> {
        bindings_map(self.bindings@)
    }
}

impl Clone for LocalMemory {
    fn clone(&self) -> (r: LocalMemory)
        ensures
            r@ == self@,
    {
        let mut bindings: Vec<((usize, usize), Rc<Value>)> = Vec::new();
        let mut i: usize = 0;
        while i < self.bindings.len()
            invariant
                i <= self.bindings@.len(),
                bindings@ == self.bindings@.subrange(0, i as int),
            decreases self.bindings@.len() - i,
        {
            let (k, v) = &self.bindings[i];
            bindings.push((*k, v.clone()));
            assert(bindings@ =~= self.bindings@.subrange(0, i + 1));
            i = i + 1;
        }
        assert(bindings@ =~= self.bindings@);
        LocalMemory { bindings }
    }
}

impl LocalMemory {
    pub fn new() -> (r: LocalMemory)
        ensures
            r@ == Map::<(usize, usize), Value>::empty(),
    {
        LocalMemory { bindings: Vec::new() }
    }

    /// The value bound to instruction `key`, if any.
    pub fn get(&self, key: (usize, usize)) -> (r: Option<Rc<Value>>)
        ensures
            r.is_some() == self@.contains_key(key),
            r.is_some() ==> *r.unwrap() == self@[key],
    {
        let mut i: usize = self.bindings.len();
        while i > 0
            invariant
                i <= self.bindings@.len(),
                forall|j: int| i <= j < self.bindings@.len() ==> (#[trigger] self.bindings@[j]).0
                    != key,
            decreases i,
        {
            i = i - 1;
            let k = self.bindings[i].0;
            if k.0 == key.0 && k.1 == key.1 {
                proof {
                    lemma_bindings_map_last(self.bindings@, i as int);
                }
                return Some(self.bindings[i].1.clone());
            }
        }
        proof {
            lemma_bindings_map_absent(self.bindings@, key);
        }
        None
    }

    /// Binds `val` to instruction `key`, replacing any earlier binding.
    pub fn insert(&mut self, key: (usize, usize), val: Rc<Value>)
        ensures
            final(self)@ == old(self)@.insert(key, *val),
    {
        self.bindings.push((key, val));
        assert(self.bindings@.drop_last() =~= old(self).bindings@);
    }
}

/// A read of `loc` from memory `m`, with `next_symbol` the next fresh symbol:
/// the value read, the memory after, and the next fresh symbol after.
pub open spec fn load_result(m: Map<Location, Value>, next_symbol: usize, loc: Location) -> (
    Value,
    Map<Location, Value>,
    usize,
) {
    if loc is Unknown {
        (Value::Unknown, m, next_symbol)
    } else if m.contains_key(loc) {
        (m[loc], m, next_symbol)
    } else {
        (
            Value::Symbol(next_symbol),
            m.insert(loc, Value::Symbol(next_symbol)),
            (next_symbol + 1) as usize,
        )
    }
}

/// A read after a write to the same known location returns the value written.
pub proof fn lemma_read_after_write(m: Map<Location, Value>, next_symbol: usize, loc: Location, v: Value)
    requires
        !(loc is Unknown),
    ensures
        load_result(m.insert(loc, v), next_symbol, loc).0 == v,
{
}

/// Two reads of one location in a row return the same value.
pub proof fn lemma_read_twice(m: Map<Location, Value>, next_symbol: usize, loc: Location)
    ensures
        ({
            let (v1, m1, s1) = load_result(m, next_symbol, loc);
            load_result(m1, s1, loc).0 == v1
        }),
{
}

} // verus!
