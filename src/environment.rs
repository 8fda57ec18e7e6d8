use vstd::prelude::*;
use crate::ir::{BlockRef, InstrRef, Instr, Program};
use crate::state::State;

verus! {

/// The budgets of the exploration.
#[derive(Debug, Clone, Copy, PartialEq, Eq, Structural)]
pub struct SymbolicExecutionOptions {
    /// Accepted traces per slice.
    pub max_trace_per_slice: usize,
    /// Paths examined per slice.
    pub max_explored_trace_per_slice: usize,
    /// Trace nodes per path.
    pub max_node_per_trace: usize,
    /// Reserved: disables post-trace simplification.
    pub no_trace_reduction: bool,
}

/// The part of the program around one callsite of a target function.
pub struct Slice {
    pub entry: usize,
    pub caller: usize,
    pub callee: usize,
    /// The target call.
    pub instr: InstrRef,
    /// The functions that may be descended into.
    pub functions: Vec<usize>,
}

impl Slice {
    /// The entry function has a body, and `instr` is a call of `callee`.
    pub open spec fn wf(&self, p: &Program) -> bool {
        &&& self.entry < p.functions@.len()
        &&& p.functions@[self.entry as int].has_body()
        &&& p.valid_instr(self.instr)
        &&& p.instr_at(self.instr) matches Instr::Call { callee, .. }
        &&& callee == Some(self.callee)
    }

    /// Decides `wf`.
    pub fn check_wf(&self, p: &Program) -> (r: bool)
        ensures
            r == self.wf(p),
    {
        if self.entry >= p.functions.len() || p.functions[self.entry].blocks.len() == 0 {
            return false;
        }
        let i = self.instr;
        if i.func >= p.functions.len() || i.block >= p.functions[i.func].blocks.len()
            || i.index >= p.functions[i.func].blocks[i.block].instrs.len() {
            return false;
        }
        match &p.functions[i.func].blocks[i.block].instrs[i.index] {
            Instr::Call { callee: Some(c), .. } => *c == self.callee,
            _ => false,
        }
    }

    /// Whether the slice allows descending into function `f`.
    pub fn contains_function(&self, f: usize) -> (r: bool)
        ensures
            r == self.functions@.contains(f),
    {
        let mut i: usize = 0;
        while i < self.functions.len()
            invariant
                i <= self.functions@.len(),
                forall|j: int| 0 <= j < i ==> self.functions@[j] != f,
            decreases self.functions@.len() - i,
        {
            if self.functions[i] == f {
                return true;
            }
            i = i + 1;
        }
        false
    }
}

/// A suspended path whose next step is to enter `block`.
pub struct Work {
    pub block: BlockRef,
    pub state: State,
}

impl Work {
    /// The path that starts at the entry block of the slice's entry function.
    pub fn entry(p: &Program, slice: &Slice) -> (r: Work)
        requires
            slice.wf(p),
        ensures
            r.block == (BlockRef { func: slice.entry, block: 0 }),
            r.state@ == crate::state::initial_state(
                slice.entry,
                p.functions@[slice.entry as int].num_params as nat,
            ),
    {
        let state = State::new(slice.entry, p.functions[slice.entry].num_params);
        Work { block: BlockRef { func: slice.entry, block: 0 }, state }
    }
}

/// Pointwise equality of two block traces.
pub fn block_trace_equals(a: &Vec<BlockRef>, b: &Vec<BlockRef>) -> (r: bool)
    ensures
        r == (a@ == b@),
{
    if a.len() != b.len() {
        return false;
    }
    let mut i: usize = 0;
    while i < a.len()
        invariant
            a@.len() == b@.len(),
            i <= a@.len(),
            forall|j: int| 0 <= j < i ==> a@[j] == b@[j],
        decreases a@.len() - i,
    {
        if a[i] != b[i] {
            return false;
        }
        i = i + 1;
    }
    assert(a@ =~= b@);
    true
}

/// The exploration of one slice: pending paths, the block traces of the
/// accepted paths, and the counter of opaque calls.
pub struct Environment {
    pub slice: Slice,
    pub work_list: Vec<Work>,
    pub block_traces: Vec<Vec<BlockRef>>,
    pub call_id: usize,
}

/// The block traces of `v`, as sequences.
pub open spec fn trace_seqs(v: Seq<Vec<BlockRef>>) -> Seq<Seq<BlockRef>> {
    v.map_values(|t: Vec<BlockRef>| t@)
}

impl Environment {
    pub fn new(p: &Program, slice: Slice) -> (r: Environment)
        requires
            slice.wf(p),
        ensures
            r.slice == slice,
            r.work_list@.len() == 1,
            r.work_list@[0].block == (BlockRef { func: slice.entry, block: 0 }),
            r.work_list@[0].state@ == crate::state::initial_state(
                slice.entry,
                p.functions@[slice.entry as int].num_params as nat,
            ),
            r.block_traces@.len() == 0,
            r.call_id == 0,
    {
        let work = Work::entry(p, &slice);
        Environment { slice, work_list: vec![work], block_traces: Vec::new(), call_id: 0 }
    }

    pub fn has_work(&self) -> (r: bool)
        ensures
            r == (self.work_list@.len() > 0),
    {
        self.work_list.len() > 0
    }

    /// Takes the most recently added path (depth first).
    pub fn pop_work(&mut self) -> (r: Work)
        requires
            old(self).work_list@.len() > 0,
        ensures
            r == old(self).work_list@.last(),
            final(self).work_list@ == old(self).work_list@.drop_last(),
            final(self).slice == old(self).slice,
            final(self).block_traces == old(self).block_traces,
            final(self).call_id == old(self).call_id,
    {
        self.work_list.pop().unwrap()
    }

    pub fn add_work(&mut self, work: Work)
        ensures
            final(self).work_list@ == old(self).work_list@.push(work),
            final(self).slice == old(self).slice,
            final(self).block_traces == old(self).block_traces,
            final(self).call_id == old(self).call_id,
    {
        self.work_list.push(work);
    }

    pub fn new_call_id(&mut self) -> (r: usize)
        requires
            old(self).call_id < usize::MAX,
        ensures
            r == old(self).call_id,
            final(self).call_id == r + 1,
            final(self).slice == old(self).slice,
            final(self).work_list == old(self).work_list,
            final(self).block_traces == old(self).block_traces,
    {
        let r = self.call_id;
        self.call_id = self.call_id + 1;
        r
    }

    /// Whether an accepted path already went through exactly these blocks.
    pub fn has_duplicate(&self, block_trace: &Vec<BlockRef>) -> (r: bool)
        ensures
            r == trace_seqs(self.block_traces@).contains(block_trace@),
    {
        let mut i: usize = 0;
        while i < self.block_traces.len()
            invariant
                i <= self.block_traces@.len(),
                forall|j: int| 0 <= j < i ==> self.block_traces@[j]@ != block_trace@,
            decreases self.block_traces@.len() - i,
        {
            if block_trace_equals(block_trace, &self.block_traces[i]) {
                assert(trace_seqs(self.block_traces@)[i as int] == block_trace@);
                return true;
            }
            i = i + 1;
        }
        assert(!trace_seqs(self.block_traces@).contains(block_trace@)) by {
            if trace_seqs(self.block_traces@).contains(block_trace@) {
                let j = choose|j: int|
                    0 <= j < trace_seqs(self.block_traces@).len() && trace_seqs(
                        self.block_traces@,
                    )[j] == block_trace@;
                assert(self.block_traces@[j]@ == block_trace@);
            }
        }
        false
    }
}

} // verus!
