use vstd::prelude::*;
use crate::environment::{Environment, Slice, Work, trace_seqs};
use crate::execution::{SymbolicExecutionContext, env_inv, keeps_prefix, results_ok, state_inv, target_ok};
use crate::ir::BlockRef;
use crate::metadata::MetaData;
use crate::smt::{SatOutcome, assertions, constraint_consts, declarations, path_accepted, path_query, SmtConst};
use crate::state::{FinishState, Semantics, State, StateView, TraceNode};

verus! {

/// How a finished path is counted, before any solver is asked.
#[derive(Debug, Clone, Copy, PartialEq, Eq, Structural)]
pub enum Verdict {
    NoTarget,
    Duplicate,
    /// A new path that returned properly: its feasibility decides.
    NeedsCheck,
    BranchExplored,
    ExceedingLength,
    Unreachable,
}

/// The verdict on a finished path, given the block traces already accepted.
pub open spec fn verdict_of(accepted: Seq<Seq<BlockRef>>, s: StateView) -> Verdict {
    if s.target_node.is_none() {
        Verdict::NoTarget
    } else {
        match s.finish_state {
            FinishState::ProperlyReturned => if accepted.contains(s.block_trace) {
                Verdict::Duplicate
            } else {
                Verdict::NeedsCheck
            },
            FinishState::BranchExplored => Verdict::BranchExplored,
            FinishState::ExceedingMaxTraceLength => Verdict::ExceedingLength,
            FinishState::Unreachable => Verdict::Unreachable,
        }
    }
}

pub open spec fn bump_proper(m: MetaData) -> MetaData {
    MetaData {
        proper_trace_count: (m.proper_trace_count + 1) as u64,
        explored_trace_count: (m.explored_trace_count + 1) as u64,
        ..m
    }
}

pub open spec fn bump_path_unsat(m: MetaData) -> MetaData {
    MetaData {
        path_unsat_trace_count: (m.path_unsat_trace_count + 1) as u64,
        explored_trace_count: (m.explored_trace_count + 1) as u64,
        ..m
    }
}

pub open spec fn bump_duplicate(m: MetaData) -> MetaData {
    MetaData {
        duplicate_trace_count: (m.duplicate_trace_count + 1) as u64,
        explored_trace_count: (m.explored_trace_count + 1) as u64,
        ..m
    }
}

/// The counters after one more path with a verdict that needs no solver.
pub open spec fn count_of_verdict(m: MetaData, v: Verdict) -> MetaData {
    let e = (m.explored_trace_count + 1) as u64;
    match v {
        Verdict::Duplicate => bump_duplicate(m),
        Verdict::NoTarget => MetaData { no_target_trace_count: (m.no_target_trace_count + 1) as u64, explored_trace_count: e, ..m },
        Verdict::BranchExplored => MetaData {
            branch_explored_trace_count: (m.branch_explored_trace_count + 1) as u64,
            explored_trace_count: e,
            ..m
        },
        Verdict::ExceedingLength => MetaData {
            exceeding_length_trace_count: (m.exceeding_length_trace_count + 1) as u64,
            explored_trace_count: e,
            ..m
        },
        Verdict::Unreachable => MetaData {
            unreachable_trace_count: (m.unreachable_trace_count + 1) as u64,
            explored_trace_count: e,
            ..m
        },
        Verdict::NeedsCheck => m,
    }
}

/// The counters and accepted block traces after submitting the finished
/// paths of `log` in order, each with the solver's answer next to it.
pub open spec fn submit_all(
    m: MetaData,
    accepted: Seq<Seq<BlockRef>>,
    log: Seq<(StateView, SatOutcome)>,
) -> (MetaData, Seq<Seq<BlockRef>>)
    decreases log.len(),
{
    if log.len() == 0 {
        (m, accepted)
    } else {
        let (m1, a1) = submit_all(m, accepted, log.drop_last());
        submit(m1, a1, log.last().0, log.last().1)
    }
}

/// Adding a step at the end of a chain.
pub proof fn lemma_chain_push(
    ctx: &SymbolicExecutionContext,
    slice: &Slice,
    lists: Seq<Seq<Work>>,
    states: Seq<StateView>,
    next: Seq<Work>,
    s: StateView,
)
    requires
        ctx.chain(slice, lists, states),
        ctx.step_ok(slice, lists.last(), next, s),
    ensures
        ctx.chain(slice, lists.push(next), states.push(s)),
{
    let l2 = lists.push(next);
    let s2 = states.push(s);
    assert forall|i: int| 0 <= i < s2.len() implies ctx.step_ok(slice, l2[i], l2[i + 1], #[trigger] s2[i]) by {
        if i < states.len() {
            assert(ctx.step_ok(slice, lists[i], lists[i + 1], states[i]));
        }
    }
}

/// Joining two chains that meet at a work list.
pub proof fn lemma_chain_concat(
    ctx: &SymbolicExecutionContext,
    slice: &Slice,
    l1: Seq<Seq<Work>>,
    s1: Seq<StateView>,
    l2: Seq<Seq<Work>>,
    s2: Seq<StateView>,
)
    requires
        ctx.chain(slice, l1, s1),
        ctx.chain(slice, l2, s2),
        l1.last() == l2[0],
    ensures
        ctx.chain(slice, l1.drop_last() + l2, s1 + s2),
        (l1.drop_last() + l2).last() == l2.last(),
        (l1.drop_last() + l2)[0] == l1[0],
{
    let l = l1.drop_last() + l2;
    let st = s1 + s2;
    let n = s1.len();
    assert forall|i: int| 0 <= i < st.len() implies ctx.step_ok(slice, l[i], l[i + 1], #[trigger] st[i]) by {
        if i < n {
            assert(ctx.step_ok(slice, l1[i], l1[i + 1], s1[i]));
            assert(l[i] == l1[i]);
            if i + 1 < n {
                assert(l[i + 1] == l1[i + 1]);
            } else {
                assert(l[i + 1] == l2[0]);
            }
        } else {
            assert(ctx.step_ok(slice, l2[i - n], l2[i - n + 1], s2[i - n]));
            assert(l[i] == l2[i - n]);
            assert(l[i + 1] == l2[i - n + 1]);
        }
    }
}

/// Submitting two logs one after the other is submitting their concatenation.
pub proof fn lemma_submit_all_concat(
    m: MetaData,
    accepted: Seq<Seq<BlockRef>>,
    a: Seq<(StateView, SatOutcome)>,
    b: Seq<(StateView, SatOutcome)>,
)
    ensures
        submit_all(m, accepted, a + b) == ({
            let (m1, a1) = submit_all(m, accepted, a);
            submit_all(m1, a1, b)
        }),
    decreases b.len(),
{
    if b.len() > 0 {
        lemma_submit_all_concat(m, accepted, a, b.drop_last());
        assert((a + b).drop_last() =~= a + b.drop_last());
    } else {
        assert(a + b =~= a);
    }
}

/// The counters and accepted block traces after one finished path is
/// submitted, the solver answering `outcome` if it is asked.
pub open spec fn submit(
    m: MetaData,
    accepted: Seq<Seq<BlockRef>>,
    s: StateView,
    outcome: SatOutcome,
) -> (MetaData, Seq<Seq<BlockRef>>) {
    match verdict_of(accepted, s) {
        Verdict::NeedsCheck => if outcome != SatOutcome::Unsat {
            (bump_proper(m), accepted.push(s.block_trace))
        } else {
            (bump_path_unsat(m), accepted)
        },
        v => (count_of_verdict(m, v), accepted),
    }
}

/// Submitting a new, feasible path twice in a row counts it once as proper
/// and once as a duplicate, and accepts its block trace once.
pub proof fn lemma_resubmission(
    m: MetaData,
    accepted: Seq<Seq<BlockRef>>,
    s: StateView,
    first: SatOutcome,
    second: SatOutcome,
)
    requires
        verdict_of(accepted, s) == Verdict::NeedsCheck,
        first != SatOutcome::Unsat,
        m.explored_trace_count + 2 <= u64::MAX,
        m.wf(),
    ensures
        ({
            let (m1, a1) = submit(m, accepted, s, first);
            let (m2, a2) = submit(m1, a1, s, second);
            &&& m2 == bump_duplicate(bump_proper(m))
            &&& a2 == accepted.push(s.block_trace)
            &&& m2.wf()
        }),
{
    let (m1, a1) = submit(m, accepted, s, first);
    assert(a1.last() == s.block_trace);
    assert(a1.contains(s.block_trace));
}

/// The view of a waiting path, if any.
pub open spec fn pending_view(p: Option<State>) -> Option<StateView> {
    match p {
        Some(s) => Some(s@),
        None => None,
    }
}

/// The paths of a log, without the answers.
pub open spec fn states_of(log: Seq<(StateView, SatOutcome)>) -> Seq<StateView> {
    Seq::new(log.len(), |i: int| log[i].0)
}

/// A path that was accepted: its trace and the index of the target call in it.
pub struct AcceptedTrace {
    /// Zero-based index of the path among the accepted paths of its slice.
    pub trace_id: u64,
    pub target: usize,
    pub instrs: Vec<TraceNode>,
}

/// The exploration of one slice, advanced step by step; between steps the
/// caller answers feasibility queries.
pub struct SliceExploration {
    pub env: Environment,
    pub metadata: MetaData,
    /// A path that waits for the answer to its feasibility query.
    pub pending: Option<State>,
}

/// What the exploration needs next.
pub enum ExplorationStep {
    /// The SMT-LIB query of the pending path.
    Query(Vec<u8>),
    /// No path is left, or a budget is spent.
    Finished,
}

/// `q` is the feasibility query of a path with these constraints.
pub open spec fn is_query_of(q: Seq<u8>, s: StateView) -> bool {
    exists|ds: Seq<SmtConst>|
        ds.no_duplicates() && ds.to_set() == constraint_consts(s.constraints) && q == declarations(ds)
            + assertions(s.constraints)
}

impl<'a> SymbolicExecutionContext<'a> {
    /// Both budgets still allow another path.
    pub open spec fn budget_left(&self, m: MetaData) -> bool {
        m.explored_trace_count < self.options.max_explored_trace_per_slice
            && m.proper_trace_count < self.options.max_trace_per_slice
    }

    /// What holds of a path that `execute_block` has run to its end.
    pub open spec fn finished_path(&self, slice: &Slice, s: StateView) -> bool {
        &&& state_inv(self.program, slice, self.options.max_node_per_trace, s)
        &&& s.finish_state == FinishState::ProperlyReturned ==> s.stack.len() == 1
            && s.trace.len() <= self.options.max_node_per_trace
        &&& s.trace.len() > self.options.max_node_per_trace ==> s.finish_state
            == FinishState::ExceedingMaxTraceLength
    }

    /// Running pending path `w` to its end gave `s`: `s` is finished, went on
    /// from `w`'s block, and kept `w`'s target.
    pub open spec fn ran(&self, slice: &Slice, w: Work, s: StateView) -> bool {
        &&& self.finished_path(slice, s)
        &&& s.block_trace.len() > w.state@.block_trace.len()
        &&& s.block_trace[w.state@.block_trace.len() as int] == w.block
        &&& s.trace.len() >= w.state@.trace.len()
        &&& w.state@.target_node.is_some() ==> s.target_node == w.state@.target_node
    }

    /// One step of the exploration: the last pending path of `before` (depth
    /// first) ran to `s`; `after` is the rest of `before` and then its forks.
    pub open spec fn step_ok(&self, slice: &Slice, before: Seq<Work>, after: Seq<Work>, s: StateView) -> bool {
        &&& before.len() > 0
        &&& keeps_prefix(before.drop_last(), after)
        &&& self.ran(slice, before.last(), s)
    }

    /// `lists` are the work lists around each step, `states` the paths run.
    pub open spec fn chain(&self, slice: &Slice, lists: Seq<Seq<Work>>, states: Seq<StateView>) -> bool {
        &&& lists.len() == states.len() + 1
        &&& forall|i: int| 0 <= i < states.len() ==> self.step_ok(slice, lists[i], lists[i + 1], #[trigger] states[i])
    }

    /// What one call of `advance` did: from work list `w0` and counts `m0` it
    /// ran the paths of `log`, counted each without the solver, and, when a
    /// path waits for the solver, ran that one last; it ends at `w1`, `m1`.
    pub open spec fn advance_record(
        &self,
        slice: &Slice,
        reg: Seq<Seq<BlockRef>>,
        m0: MetaData,
        m1: MetaData,
        w0: Seq<Work>,
        w1: Seq<Work>,
        pending: Option<StateView>,
        log: Seq<(StateView, SatOutcome)>,
        lists: Seq<Seq<Work>>,
    ) -> bool {
        &&& forall|i: int| 0 <= i < log.len() ==> verdict_of(reg, (#[trigger] log[i]).0) != Verdict::NeedsCheck
        &&& submit_all(m0, reg, log) == (m1, reg)
        &&& lists.len() > 0
        &&& lists[0] == w0
        &&& lists.last() == w1
        &&& self.chain(
            slice,
            lists,
            match pending {
                Some(p) => states_of(log).push(p),
                None => states_of(log),
            },
        )
    }

    /// A whole exploration: starting from the single entry path of `slice`,
    /// the paths of `log` were run depth first (`lists` are the work lists
    /// around each), the counts `m` are those of submitting them in order, and
    /// the exploration stopped because no work was left or a budget was spent.
    pub open spec fn slice_record(
        &self,
        slice: &Slice,
        m: MetaData,
        log: Seq<(StateView, SatOutcome)>,
        lists: Seq<Seq<Work>>,
    ) -> bool {
        &&& lists.len() > 0
        &&& lists[0].len() == 1
        &&& lists[0][0].block == (BlockRef { func: slice.entry, block: 0 })
        &&& lists[0][0].state@ == crate::state::initial_state(
            slice.entry,
            self.program.functions@[slice.entry as int].num_params as nat,
        )
        &&& self.chain(slice, lists, states_of(log))
        &&& submit_all(crate::metadata::zero_meta(), Seq::empty(), log).0 == m
        &&& (lists.last().len() == 0 || !self.budget_left(m))
    }

    /// What holds between the steps of an exploration.
    pub open spec fn exploration_wf(&self, x: &SliceExploration) -> bool {
        &&& self.wf()
        &&& x.env.slice.wf(self.program)
        &&& env_inv(self.program, self.options.max_node_per_trace, &x.env)
        &&& x.metadata.wf()
        &&& x.metadata.explored_trace_count <= self.options.max_explored_trace_per_slice
        &&& x.metadata.proper_trace_count <= self.options.max_trace_per_slice
        &&& x.env.block_traces@.len() == x.metadata.proper_trace_count
        &&& x.pending matches Some(s) ==> {
            &&& state_inv(self.program, &x.env.slice, self.options.max_node_per_trace, s@)
            &&& verdict_of(trace_seqs(x.env.block_traces@), s@) == Verdict::NeedsCheck
            &&& s@.stack.len() == 1
            &&& s@.trace.len() <= self.options.max_node_per_trace
            &&& self.budget_left(x.metadata)
        }
    }

    /// The exploration of `slice`, with its entry path as the only work.
    pub fn start_slice(&self, slice: Slice) -> (r: SliceExploration)
        requires
            self.wf(),
            slice.wf(self.program),
        ensures
            self.exploration_wf(&r),
            r.metadata == crate::metadata::zero_meta(),
            r.pending.is_none(),
            r.env.slice == slice,
            r.env.work_list@.len() == 1,
            r.env.work_list@[0].block == (BlockRef { func: slice.entry, block: 0 }),
            r.env.work_list@[0].state@ == crate::state::initial_state(
                slice.entry,
                self.program.functions@[slice.entry as int].num_params as nat,
            ),
    {
        let env = Environment::new(self.program, slice);
        proof {
            let s = env.work_list@[0].state@;
            assert(crate::execution::frame_ok(self.program, s, 0));
            assert(crate::execution::work_ok(self.program, &env.slice, self.options.max_node_per_trace, env.work_list@[0]));
        }
        SliceExploration { env, metadata: MetaData::new(), pending: None }
    }

    /// Counts a finished path whose verdict needs no solver.
    fn count_verdict(&self, m: &mut MetaData, v: Verdict)
        requires
            old(m).wf(),
            old(m).can_count(),
            v != Verdict::NeedsCheck,
        ensures
            final(m).wf(),
            *final(m) == count_of_verdict(*old(m), v),
            final(m).explored_trace_count == old(m).explored_trace_count + 1,
            final(m).proper_trace_count == old(m).proper_trace_count,
    {
        match v {
            Verdict::NoTarget => m.incr_no_target(),
            Verdict::Duplicate => m.incr_duplicated(),
            Verdict::BranchExplored => m.incr_branch_explored(),
            Verdict::ExceedingLength => m.incr_exceeding_length(),
            Verdict::Unreachable => m.incr_unreachable(),
            Verdict::NeedsCheck => {},
        }
    }

    /// The verdict on a finished path.
    pub fn classify(&self, env: &Environment, state: &State) -> (r: Verdict)
        ensures
            r == verdict_of(trace_seqs(env.block_traces@), state@),
    {
        match state.target_node {
            None => Verdict::NoTarget,
            Some(_) => match state.finish_state {
                FinishState::ProperlyReturned => if env.has_duplicate(&state.block_trace) {
                    Verdict::Duplicate
                } else {
                    Verdict::NeedsCheck
                },
                FinishState::BranchExplored => Verdict::BranchExplored,
                FinishState::ExceedingMaxTraceLength => Verdict::ExceedingLength,
                FinishState::Unreachable => Verdict::Unreachable,
            },
        }
    }

    /// Runs pending paths, depth first, and counts each finished one, until a
    /// new path that returned properly needs its feasibility query answered,
    /// or no work or no budget is left.
    pub fn advance(&self, x: &mut SliceExploration) -> (r: ExplorationStep)
        requires
            self.exploration_wf(old(x)),
            old(x).pending.is_none(),
        ensures
            self.exploration_wf(final(x)),
            final(x).env.slice == old(x).env.slice,
            final(x).metadata.explored_trace_count >= old(x).metadata.explored_trace_count,
            final(x).metadata.proper_trace_count == old(x).metadata.proper_trace_count,
            r matches ExplorationStep::Query(q) ==> final(x).pending matches Some(s) && is_query_of(q@, s@),
            r is Finished ==> final(x).pending.is_none() && (final(x).env.work_list@.len() == 0
                || !self.budget_left(final(x).metadata)),
            final(x).env.block_traces == old(x).env.block_traces,
            exists|log: Seq<(StateView, SatOutcome)>, lists: Seq<Seq<Work>>|
                #[trigger] self.advance_record(
                    &old(x).env.slice,
                    trace_seqs(old(x).env.block_traces@),
                    old(x).metadata,
                    final(x).metadata,
                    old(x).env.work_list@,
                    final(x).env.work_list@,
                    pending_view(final(x).pending),
                    log,
                    lists,
                ),
            r matches ExplorationStep::Query(_) ==> self.finished_path(&old(x).env.slice, final(x).pending.unwrap()@),
            (r is Finished && old(x).env.work_list@.len() > 0 && self.budget_left(old(x).metadata))
                ==> final(x).metadata.explored_trace_count > old(x).metadata.explored_trace_count,
    {
        let ghost reg = trace_seqs(old(x).env.block_traces@);
        let ghost mut log: Seq<(StateView, SatOutcome)> = Seq::empty();
        let ghost mut lists: Seq<Seq<Work>> = seq![old(x).env.work_list@];
        while x.env.has_work() && self.continue_execution(&x.metadata)
            invariant
                self.advance_record(&old(x).env.slice, reg, old(x).metadata, x.metadata, old(x).env.work_list@, x.env.work_list@, None, log, lists),
                self.exploration_wf(x),
                x.pending.is_none(),
                x.env.slice == old(x).env.slice,
                x.env.block_traces == old(x).env.block_traces,
                reg == trace_seqs(old(x).env.block_traces@),
                x.metadata.explored_trace_count >= old(x).metadata.explored_trace_count,
                x.metadata.proper_trace_count == old(x).metadata.proper_trace_count,
                forall|i: int|
                    0 <= i < log.len() ==> verdict_of(reg, (#[trigger] log[i]).0) != Verdict::NeedsCheck
                        && self.finished_path(&old(x).env.slice, log[i].0),
                submit_all(old(x).metadata, reg, log) == (x.metadata, reg),
                log.len() == 0 ==> x.env.work_list == old(x).env.work_list && x.metadata == old(x).metadata,
                log.len() > 0 ==> x.metadata.explored_trace_count > old(x).metadata.explored_trace_count,
            decreases self.options.max_explored_trace_per_slice - x.metadata.explored_trace_count,
        {
            let ghost before = x.env.work_list@;
            let mut work = x.env.pop_work();
            proof {
                assert(crate::execution::work_ok(self.program, &old(x).env.slice, self.options.max_node_per_trace, work));
            }
            self.execute_block(work.block, &mut work.state, &mut x.env);
            let ghost after = x.env.work_list@;
            proof {
                assert(self.step_ok(&old(x).env.slice, before, after, work.state@));
                lemma_chain_push(self, &old(x).env.slice, lists, states_of(log), after, work.state@);
            }
            let v = self.classify(&x.env, &work.state);
            if v == Verdict::NeedsCheck {
                let q = path_query(&work.state.constraints);
                x.pending = Some(work.state);
                proof {
                    let lists2 = lists.push(after);
                    assert(self.advance_record(&old(x).env.slice, reg, old(x).metadata, x.metadata, old(x).env.work_list@,
                        x.env.work_list@, Some(x.pending.unwrap()@), log, lists2));
                }
                return ExplorationStep::Query(q);
            }
            let ghost m0 = x.metadata;
            self.count_verdict(&mut x.metadata, v);
            proof {
                let old_log = log;
                log = log.push((work.state@, SatOutcome::Sat));
                lists = lists.push(after);
                assert(states_of(log) =~= states_of(old_log).push(work.state@));
                assert(log.drop_last() =~= old_log);
                assert forall|i: int| 0 <= i < log.len() implies verdict_of(reg, (#[trigger] log[i]).0)
                    != Verdict::NeedsCheck && self.finished_path(&old(x).env.slice, log[i].0) by {
                    if i < old_log.len() {
                        assert(log[i] == old_log[i]);
                    }
                }
            }
        }
        ExplorationStep::Finished
    }

    /// Counts the pending path with the solver's answer: it is accepted, and
    /// its block trace registered, unless the answer is `Unsat`.
    pub fn resolve(&self, x: &mut SliceExploration, outcome: SatOutcome) -> (r: Option<AcceptedTrace>)
        requires
            self.exploration_wf(old(x)),
            old(x).pending.is_some(),
        ensures
            self.exploration_wf(final(x)),
            final(x).pending.is_none(),
            final(x).env.slice == old(x).env.slice,
            final(x).env.work_list == old(x).env.work_list,
            ({
                let s = old(x).pending.unwrap()@;
                let (m, a) = submit(old(x).metadata, trace_seqs(old(x).env.block_traces@), s, outcome);
                &&& final(x).metadata == m
                &&& trace_seqs(final(x).env.block_traces@) == a
            }),
            r.is_some() == (outcome != SatOutcome::Unsat),
            r matches Some(t) ==> {
                let s = old(x).pending.unwrap()@;
                &&& t.trace_id == old(x).metadata.proper_trace_count
                &&& t.instrs@ == s.trace
                &&& Some(t.target) == s.target_node
                &&& t.target < t.instrs@.len()
                &&& t.instrs@[t.target as int].semantics matches Semantics::Call { func, .. }
                    && func == old(x).env.slice.callee
                &&& t.instrs@.len() <= self.options.max_node_per_trace
                &&& results_ok(t.instrs@)
            },
    {
        let state = x.pending.take().unwrap();
        proof {
            assert(target_ok(&x.env.slice, state@));
        }
        if path_accepted(outcome) {
            let trace_id = x.metadata.proper_trace_count;
            let ghost b0 = x.env.block_traces@;
            x.env.block_traces.push(state.block_trace.clone());
            proof {
                assert(trace_seqs(x.env.block_traces@) =~= trace_seqs(b0).push(state@.block_trace));
            }
            x.metadata.incr_proper();
            let target = match state.target_node {
                Some(t) => t,
                None => 0,
            };
            Some(AcceptedTrace { trace_id, target, instrs: state.trace })
        } else {
            x.metadata.incr_path_unsat();
            None
        }
    }
}

impl<'a> SymbolicExecutionContext<'a> {
    /// Between steps, the accepted paths stay within the trace budget, the
    /// explored ones within the exploration budget plus one, and the total
    /// is the sum of the outcome counts.
    pub proof fn lemma_budgets_respected(&self, x: &SliceExploration)
        requires
            self.exploration_wf(x),
        ensures
            x.metadata.proper_trace_count <= self.options.max_trace_per_slice,
            x.metadata.explored_trace_count <= self.options.max_explored_trace_per_slice + 1,
            x.metadata.explored_trace_count == crate::metadata::outcome_sum(x.metadata),
    {
    }
}

/// An accepted trace of `slice`: its target indexes a `Call` of the callee.
pub open spec fn trace_of_slice(t: AcceptedTrace, slice: &Slice, max_node: usize) -> bool {
    &&& t.target < t.instrs@.len()
    &&& t.instrs@[t.target as int].semantics matches Semantics::Call { func, .. } && func == slice.callee
    &&& t.instrs@.len() <= max_node
    &&& results_ok(t.instrs@)
}

impl<'a> SymbolicExecutionContext<'a> {
    /// Explores `slice` to the end, asking `answer` for the feasibility of
    /// each new path that returned properly, and returns the counts and the
    /// accepted traces, in order of acceptance.
    pub fn execute_slice<F: Fn(Vec<u8>) -> SatOutcome>(&self, slice: Slice, answer: F) -> (r: (
        MetaData,
        Vec<AcceptedTrace>,
    ))
        requires
            self.wf(),
            slice.wf(self.program),
            forall|q: Vec<u8>| answer.requires((q,)),
        ensures
            r.0.wf(),
            r.0.proper_trace_count <= self.options.max_trace_per_slice,
            r.0.explored_trace_count <= self.options.max_explored_trace_per_slice,
            r.1@.len() == r.0.proper_trace_count,
            forall|i: int|
                0 <= i < r.1@.len() ==> (#[trigger] r.1@[i]).trace_id == i && trace_of_slice(
                    r.1@[i],
                    &slice,
                    self.options.max_node_per_trace,
                ),
            exists|log: Seq<(StateView, SatOutcome)>, lists: Seq<Seq<Work>>|
                #[trigger] self.slice_record(&slice, r.0, log, lists),
            self.options.max_explored_trace_per_slice > 0 && self.options.max_trace_per_slice > 0
                ==> r.0.explored_trace_count >= 1,
    {
        let ghost slice0 = slice;
        let mut x = self.start_slice(slice);
        let mut accepted: Vec<AcceptedTrace> = Vec::new();
        let ghost mut log: Seq<(StateView, SatOutcome)> = Seq::empty();
        let ghost mut lists: Seq<Seq<Work>> = seq![x.env.work_list@];
        let ghost w_init = x.env.work_list@;
        let ghost mut started = false;
        proof {
            assert(trace_seqs(x.env.block_traces@) =~= Seq::<Seq<BlockRef>>::empty());
            assert(states_of(log) =~= Seq::<StateView>::empty());
        }
        loop
            invariant
                self.chain(&slice0, lists, states_of(log)),
                lists.len() > 0,
                lists[0] == w_init,
                w_init.len() == 1,
                w_init[0].block == (BlockRef { func: slice0.entry, block: 0 }),
                w_init[0].state@ == crate::state::initial_state(
                    slice0.entry,
                    self.program.functions@[slice0.entry as int].num_params as nat,
                ),
                lists.last() == x.env.work_list@,
                submit_all(crate::metadata::zero_meta(), Seq::empty(), log) == (x.metadata, trace_seqs(x.env.block_traces@)),
                !started ==> x.metadata == crate::metadata::zero_meta() && x.env.work_list@.len() == 1,
                started && self.options.max_explored_trace_per_slice > 0 && self.options.max_trace_per_slice > 0
                    ==> x.metadata.explored_trace_count >= 1,
                self.exploration_wf(&x),
                x.pending.is_none(),
                x.env.slice == slice0,
                forall|q: Vec<u8>| answer.requires((q,)),
                accepted@.len() == x.metadata.proper_trace_count,
                forall|i: int|
                    0 <= i < accepted@.len() ==> (#[trigger] accepted@[i]).trace_id == i && trace_of_slice(
                        accepted@[i],
                        &slice0,
                        self.options.max_node_per_trace,
                    ),
            ensures
                self.options.max_explored_trace_per_slice > 0 && self.options.max_trace_per_slice > 0
                    ==> x.metadata.explored_trace_count >= 1,
                self.slice_record(&slice0, x.metadata, log, lists),
            decreases self.options.max_explored_trace_per_slice - x.metadata.explored_trace_count,
        {
            let ghost x0_m = x.metadata;
            let ghost x0_reg = trace_seqs(x.env.block_traces@);
            let ghost x0_w = x.env.work_list@;
            let step = self.advance(&mut x);
            let ghost pend = pending_view(x.pending);
            let ghost (alog, alists) = choose|l: Seq<(StateView, SatOutcome)>, ls: Seq<Seq<Work>>|
                #[trigger] self.advance_record(&slice0, x0_reg, x0_m, x.metadata, x0_w, x.env.work_list@, pend, l, ls);
            proof {
                lemma_submit_all_concat(crate::metadata::zero_meta(), Seq::empty(), log, alog);
                let astates = match pend {
                    Some(p) => states_of(alog).push(p),
                    None => states_of(alog),
                };
                lemma_chain_concat(self, &slice0, lists, states_of(log), alists, astates);
                lists = lists.drop_last() + alists;
                assert(lists[0] == w_init);
                let old_log = log;
                log = log + alog;
                assert(states_of(log) =~= states_of(old_log) + states_of(alog));
            }
            match step {
                ExplorationStep::Query(q) => {
                    let outcome = answer(q);
                    let ghost m0 = x.metadata;
                    let ghost s = x.pending.unwrap()@;
                    if let Some(t) = self.resolve(&mut x, outcome) {
                        accepted.push(t);
                    }
                    proof {
                        assert(x.metadata.explored_trace_count == m0.explored_trace_count + 1);
                        let old_log = log;
                        log = log.push((s, outcome));
                        assert(log.drop_last() =~= old_log);
                        assert(states_of(log) =~= states_of(old_log).push(s));
                        started = true;
                    }
                },
                ExplorationStep::Finished => {
                    proof {
                        started = true;
                    }
                    break;
                },
            }
        }
        (x.metadata, accepted)
    }
}

} // verus!
