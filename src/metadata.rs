use vstd::prelude::*;

verus! {

/// Counters of how the explored paths of one or more slices ended.
#[derive(Debug, Clone, Copy, PartialEq, Eq, Structural)]
pub struct MetaData {
    pub proper_trace_count: u64,
    pub path_unsat_trace_count: u64,
    pub branch_explored_trace_count: u64,
    pub duplicate_trace_count: u64,
    pub no_target_trace_count: u64,
    pub exceeding_length_trace_count: u64,
    pub unreachable_trace_count: u64,
    pub explored_trace_count: u64,
}

/// The sum of the seven outcome counters.
pub open spec fn outcome_sum(m: MetaData) -> int {
    m.proper_trace_count + m.path_unsat_trace_count + m.branch_explored_trace_count
        + m.duplicate_trace_count + m.no_target_trace_count + m.exceeding_length_trace_count
        + m.unreachable_trace_count
}

/// The all-zero record.
pub open spec fn zero_meta() -> MetaData {
    MetaData {
        proper_trace_count: 0,
        path_unsat_trace_count: 0,
        branch_explored_trace_count: 0,
        duplicate_trace_count: 0,
        no_target_trace_count: 0,
        exceeding_length_trace_count: 0,
        unreachable_trace_count: 0,
        explored_trace_count: 0,
    }
}

/// Field-wise sum of two records, in unbounded integers.
pub open spec fn combine_spec(a: MetaData, b: MetaData) -> MetaData {
    MetaData {
        proper_trace_count: (a.proper_trace_count + b.proper_trace_count) as u64,
        path_unsat_trace_count: (a.path_unsat_trace_count + b.path_unsat_trace_count) as u64,
        branch_explored_trace_count: (a.branch_explored_trace_count
            + b.branch_explored_trace_count) as u64,
        duplicate_trace_count: (a.duplicate_trace_count + b.duplicate_trace_count) as u64,
        no_target_trace_count: (a.no_target_trace_count + b.no_target_trace_count) as u64,
        exceeding_length_trace_count: (a.exceeding_length_trace_count
            + b.exceeding_length_trace_count) as u64,
        unreachable_trace_count: (a.unreachable_trace_count + b.unreachable_trace_count) as u64,
        explored_trace_count: (a.explored_trace_count + b.explored_trace_count) as u64,
    }
}

/// No field of the sum of `a` and `b` exceeds `u64::MAX`.
pub open spec fn combinable(a: MetaData, b: MetaData) -> bool {
    &&& a.proper_trace_count + b.proper_trace_count <= u64::MAX
    &&& a.path_unsat_trace_count + b.path_unsat_trace_count <= u64::MAX
    &&& a.branch_explored_trace_count + b.branch_explored_trace_count <= u64::MAX
    &&& a.duplicate_trace_count + b.duplicate_trace_count <= u64::MAX
    &&& a.no_target_trace_count + b.no_target_trace_count <= u64::MAX
    &&& a.exceeding_length_trace_count + b.exceeding_length_trace_count <= u64::MAX
    &&& a.unreachable_trace_count + b.unreachable_trace_count <= u64::MAX
    &&& a.explored_trace_count + b.explored_trace_count <= u64::MAX
}

impl MetaData {
    /// The total count equals the sum of the outcome counts.
    pub open spec fn wf(&self) -> bool {
        self.explored_trace_count == outcome_sum(*self)
    }

    /// There is room for one more explored path.
    pub open spec fn can_count(&self) -> bool {
        self.explored_trace_count < u64::MAX
    }

    pub fn new() -> (r: MetaData)
        ensures
            r == zero_meta(),
            r.wf(),
    {
        MetaData {
            proper_trace_count: 0,
            path_unsat_trace_count: 0,
            branch_explored_trace_count: 0,
            duplicate_trace_count: 0,
            no_target_trace_count: 0,
            exceeding_length_trace_count: 0,
            unreachable_trace_count: 0,
            explored_trace_count: 0,
        }
    }

    pub fn combine(self, other: MetaData) -> (r: MetaData)
        requires
            combinable(self, other),
        ensures
            r == combine_spec(self, other),
            self.wf() && other.wf() ==> r.wf(),
    {
        MetaData {
            proper_trace_count: self.proper_trace_count + other.proper_trace_count,
            path_unsat_trace_count: self.path_unsat_trace_count + other.path_unsat_trace_count,
            branch_explored_trace_count: self.branch_explored_trace_count
                + other.branch_explored_trace_count,
            duplicate_trace_count: self.duplicate_trace_count + other.duplicate_trace_count,
            no_target_trace_count: self.no_target_trace_count + other.no_target_trace_count,
            exceeding_length_trace_count: self.exceeding_length_trace_count
                + other.exceeding_length_trace_count,
            unreachable_trace_count: self.unreachable_trace_count + other.unreachable_trace_count,
            explored_trace_count: self.explored_trace_count + other.explored_trace_count,
        }
    }

    pub fn incr_proper(&mut self)
        requires
            old(self).wf(),
            old(self).can_count(),
        ensures
            *final(self) == (MetaData {
                proper_trace_count: (old(self).proper_trace_count + 1) as u64,
                explored_trace_count: (old(self).explored_trace_count + 1) as u64,
                ..*old(self)
            }),
            final(self).wf(),
    {
        self.proper_trace_count = self.proper_trace_count + 1;
        self.explored_trace_count = self.explored_trace_count + 1;
    }

    pub fn incr_path_unsat(&mut self)
        requires
            old(self).wf(),
            old(self).can_count(),
        ensures
            *final(self) == (MetaData {
                path_unsat_trace_count: (old(self).path_unsat_trace_count + 1) as u64,
                explored_trace_count: (old(self).explored_trace_count + 1) as u64,
                ..*old(self)
            }),
            final(self).wf(),
    {
        self.path_unsat_trace_count = self.path_unsat_trace_count + 1;
        self.explored_trace_count = self.explored_trace_count + 1;
    }

    pub fn incr_branch_explored(&mut self)
        requires
            old(self).wf(),
            old(self).can_count(),
        ensures
            *final(self) == (MetaData {
                branch_explored_trace_count: (old(self).branch_explored_trace_count + 1) as u64,
                explored_trace_count: (old(self).explored_trace_count + 1) as u64,
                ..*old(self)
            }),
            final(self).wf(),
    {
        self.branch_explored_trace_count = self.branch_explored_trace_count + 1;
        self.explored_trace_count = self.explored_trace_count + 1;
    }

    pub fn incr_duplicated(&mut self)
        requires
            old(self).wf(),
            old(self).can_count(),
        ensures
            *final(self) == (MetaData {
                duplicate_trace_count: (old(self).duplicate_trace_count + 1) as u64,
                explored_trace_count: (old(self).explored_trace_count + 1) as u64,
                ..*old(self)
            }),
            final(self).wf(),
    {
        self.duplicate_trace_count = self.duplicate_trace_count + 1;
        self.explored_trace_count = self.explored_trace_count + 1;
    }

    pub fn incr_no_target(&mut self)
        requires
            old(self).wf(),
            old(self).can_count(),
        ensures
            *final(self) == (MetaData {
                no_target_trace_count: (old(self).no_target_trace_count + 1) as u64,
                explored_trace_count: (old(self).explored_trace_count + 1) as u64,
                ..*old(self)
            }),
            final(self).wf(),
    {
        self.no_target_trace_count = self.no_target_trace_count + 1;
        self.explored_trace_count = self.explored_trace_count + 1;
    }

    pub fn incr_exceeding_length(&mut self)
        requires
            old(self).wf(),
            old(self).can_count(),
        ensures
            *final(self) == (MetaData {
                exceeding_length_trace_count: (old(self).exceeding_length_trace_count + 1) as u64,
                explored_trace_count: (old(self).explored_trace_count + 1) as u64,
                ..*old(self)
            }),
            final(self).wf(),
    {
        self.exceeding_length_trace_count = self.exceeding_length_trace_count + 1;
        self.explored_trace_count = self.explored_trace_count + 1;
    }

    pub fn incr_unreachable(&mut self)
        requires
            old(self).wf(),
            old(self).can_count(),
        ensures
            *final(self) == (MetaData {
                unreachable_trace_count: (old(self).unreachable_trace_count + 1) as u64,
                explored_trace_count: (old(self).explored_trace_count + 1) as u64,
                ..*old(self)
            }),
            final(self).wf(),
    {
        self.unreachable_trace_count = self.unreachable_trace_count + 1;
        self.explored_trace_count = self.explored_trace_count + 1;
    }
}

/// Combining is commutative.
pub proof fn lemma_combine_commutative(a: MetaData, b: MetaData)
    ensures
        combine_spec(a, b) == combine_spec(b, a),
{
}

/// Combining is associative, wherever no count exceeds `u64::MAX`.
pub proof fn lemma_combine_associative(a: MetaData, b: MetaData, c: MetaData)
    requires
        combinable(a, b),
        combinable(combine_spec(a, b), c),
    ensures
        combinable(b, c),
        combinable(a, combine_spec(b, c)),
        combine_spec(combine_spec(a, b), c) == combine_spec(a, combine_spec(b, c)),
{
}

/// The all-zero record is the identity of combining.
pub proof fn lemma_combine_zero(m: MetaData)
    ensures
        combinable(m, zero_meta()),
        combine_spec(m, zero_meta()) == m,
{
}

/// Combining keeps the total equal to the sum of the outcome counts.
pub proof fn lemma_combine_keeps_total(a: MetaData, b: MetaData)
    requires
        a.wf(),
        b.wf(),
        combinable(a, b),
    ensures
        combine_spec(a, b).wf(),
{
}

} // verus!
