use vstd::prelude::*;
use crate::environment::Slice;
use crate::trace::{NodeTest, Trace, TraceIterDirection, call_args, count_in, count_nodes};
use crate::value::Value;

verus! {

/// How often each callee was seen: (function index, count), one entry per function.
pub open spec fn count_of(s: Seq<(usize, u64)>, f: usize) -> nat
    decreases s.len(),
{
    if s.len() == 0 {
        0
    } else if s.last().0 == f {
        s.last().1 as nat
    } else {
        count_of(s.drop_last(), f)
    }
}

/// Each function has at most one entry.
pub open spec fn unique_keys(s: Seq<(usize, u64)>) -> bool {
    forall|i: int, j: int| 0 <= i < j < s.len() ==> s[i].0 != s[j].0
}

/// The count of a function that has no entry is zero.
proof fn lemma_count_absent(s: Seq<(usize, u64)>, f: usize)
    requires
        forall|i: int| 0 <= i < s.len() ==> s[i].0 != f,
    ensures
        count_of(s, f) == 0,
    decreases s.len(),
{
    if s.len() > 0 {
        lemma_count_absent(s.drop_last(), f);
    }
}

/// With unique keys, the count of a function is the one of its entry.
proof fn lemma_count_at(s: Seq<(usize, u64)>, j: int)
    requires
        unique_keys(s),
        0 <= j < s.len(),
    ensures
        count_of(s, s[j].0) == s[j].1,
    decreases s.len(),
{
    if j < s.len() - 1 {
        lemma_count_at(s.drop_last(), j);
    }
}

/// Changing one entry's count changes only that function's count.
proof fn lemma_count_update(s: Seq<(usize, u64)>, j: int, c: u64, f: usize)
    requires
        unique_keys(s),
        0 <= j < s.len(),
    ensures
        count_of(s.update(j, (s[j].0, c)), f) == if f == s[j].0 {
            c as nat
        } else {
            count_of(s, f)
        },
    decreases s.len(),
{
    let t = s.update(j, (s[j].0, c));
    if j == s.len() - 1 {
        assert(t.drop_last() =~= s.drop_last());
    } else {
        assert(t.drop_last() =~= s.drop_last().update(j, (s[j].0, c)));
        lemma_count_update(s.drop_last(), j, c, f);
    }
}

/// The nodes before the target (`Backward`) or after it (`Forward`).
pub open spec fn side(dir: TraceIterDirection, tr: Trace) -> Seq<crate::state::TraceNode> {
    if dir == TraceIterDirection::Backward {
        tr.before_target()
    } else {
        tr.after_target()
    }
}

/// The Causality extractor: which callees appear before (or after) the target.
pub struct CausalityFeatureExtractor {
    /// `Backward` looks before the target, `Forward` after it.
    pub dir: TraceIterDirection,
    pub dictionary_size: usize,
    pub counts: Vec<(usize, u64)>,
    /// The learnt vocabulary, most frequent first (see `is_top`).
    pub dictionary: Vec<usize>,
}

impl CausalityFeatureExtractor {
    pub open spec fn wf(&self) -> bool {
        unique_keys(self.counts@)
    }

    /// The nodes of the trace on this extractor's side of the target.
    pub open spec fn part(&self, tr: Trace) -> Seq<crate::state::TraceNode> {
        side(self.dir, tr)
    }

    pub fn pre(dictionary_size: usize) -> (r: CausalityFeatureExtractor)
        ensures
            r.wf(),
            r.dir == TraceIterDirection::Backward,
            r.dictionary_size == dictionary_size,
            r.counts@.len() == 0,
            r.dictionary@.len() == 0,
    {
        CausalityFeatureExtractor {
            dir: TraceIterDirection::Backward,
            dictionary_size,
            counts: Vec::new(),
            dictionary: Vec::new(),
        }
    }

    pub fn post(dictionary_size: usize) -> (r: CausalityFeatureExtractor)
        ensures
            r.wf(),
            r.dir == TraceIterDirection::Forward,
            r.dictionary_size == dictionary_size,
            r.counts@.len() == 0,
            r.dictionary@.len() == 0,
    {
        CausalityFeatureExtractor {
            dir: TraceIterDirection::Forward,
            dictionary_size,
            counts: Vec::new(),
            dictionary: Vec::new(),
        }
    }

    /// Counts one more call of `f`, saturating at `u64::MAX`.
    pub fn bump(&mut self, f: usize)
        requires
            old(self).wf(),
        ensures
            final(self).wf(),
            final(self).dir == old(self).dir,
            final(self).dictionary_size == old(self).dictionary_size,
            final(self).dictionary == old(self).dictionary,
            forall|g: usize|
                count_of(final(self).counts@, g) == if g == f {
                    if count_of(old(self).counts@, f) < u64::MAX {
                        count_of(old(self).counts@, f) + 1
                    } else {
                        count_of(old(self).counts@, f)
                    }
                } else {
                    count_of(old(self).counts@, g)
                },
            final(self).counts@ == bumped(old(self).counts@, f),
    {
        let mut i: usize = 0;
        while i < self.counts.len()
            invariant
                *self == *old(self),
                self.wf(),
                i <= self.counts@.len(),
                forall|j: int| 0 <= j < i ==> self.counts@[j].0 != f,
            decreases self.counts@.len() - i,
        {
            if self.counts[i].0 == f {
                let c = self.counts[i].1;
                let c2 = if c < u64::MAX { c + 1 } else { c };
                proof {
                    lemma_count_at(self.counts@, i as int);
                    assert forall|g: usize| #[trigger] count_of(self.counts@.update(i as int, (f, c2)), g) == if g == f {
                        c2 as nat
                    } else {
                        count_of(self.counts@, g)
                    } by {
                        lemma_count_update(self.counts@, i as int, c2, g);
                    }
                }
                proof {
                    let j = choose|j: int| 0 <= j < self.counts@.len() && self.counts@[j].0 == f;
                    assert(j == i);
                }
                self.counts.set(i, (f, c2));
                return;
            }
            i = i + 1;
        }
        proof {
            lemma_count_absent(self.counts@, f);
        }
        let ghost s0 = self.counts@;
        self.counts.push((f, 1));
        proof {
            assert(self.counts@.drop_last() =~= s0);
        }
    }
}

/// The counts after one more call of `f`: its entry grows by one (capped at
/// `u64::MAX`), or a new entry is appended.
pub open spec fn bumped(s: Seq<(usize, u64)>, f: usize) -> Seq<(usize, u64)> {
    if exists|j: int| 0 <= j < s.len() && s[j].0 == f {
        let j = choose|j: int| 0 <= j < s.len() && s[j].0 == f;
        s.update(j, (f, if s[j].1 < u64::MAX { (s[j].1 + 1) as u64 } else { s[j].1 }))
    } else {
        s.push((f, 1))
    }
}

/// The counts after the calls among `nodes`, in order.
pub open spec fn counts_after(s: Seq<(usize, u64)>, nodes: Seq<crate::state::TraceNode>) -> Seq<(usize, u64)>
    decreases nodes.len(),
{
    if nodes.len() == 0 {
        s
    } else {
        let t = counts_after(s, nodes.drop_last());
        match nodes.last().semantics {
            crate::state::Semantics::Call { func, .. } => bumped(t, func),
            _ => t,
        }
    }
}

/// `n`, capped at `u64::MAX`.
pub open spec fn saturate(n: nat) -> nat {
    if n > u64::MAX {
        u64::MAX as nat
    } else {
        n
    }
}

proof fn lemma_count_bound(s: Seq<(usize, u64)>, f: usize)
    ensures
        count_of(s, f) <= u64::MAX,
    decreases s.len(),
{
    if s.len() > 0 {
        lemma_count_bound(s.drop_last(), f);
    }
}

/// Some entry counts function `f`.
pub open spec fn has_key(counts: Seq<(usize, u64)>, f: usize) -> bool {
    exists|j: int| 0 <= j < counts.len() && counts[j].0 == f
}

/// The vocabulary is a top-`k` of the counts: at most `k` distinct seen
/// functions, all of them when fewer, none outcounted by a function left out,
/// most frequent first. Among equal counts the function counted first (its
/// entry comes earlier) goes in first and comes first.
pub open spec fn is_top(counts: Seq<(usize, u64)>, dict: Seq<usize>, k: nat) -> bool {
    &&& dict.len() <= k
    &&& dict.len() < k ==> forall|j: int| 0 <= j < counts.len() ==> dict.contains(#[trigger] counts[j].0)
    &&& dict.no_duplicates()
    &&& forall|i: int| 0 <= i < dict.len() ==> #[trigger] has_key(counts, dict[i])
    &&& forall|i: int, j: int|
        #![trigger dict[i], counts[j]]
        0 <= i < dict.len() && 0 <= j < counts.len() && !dict.contains(counts[j].0) ==> counts[j].1
            <= count_of(counts, dict[i])
    &&& forall|i: int, k: int|
        #![trigger dict[i], dict[k]]
        0 <= i < k < dict.len() ==> count_of(counts, dict[k]) <= count_of(counts, dict[i])
    &&& forall|i: int, j: int|
        #![trigger dict[i], counts[j]]
        0 <= i < dict.len() && 0 <= j < counts.len() && !dict.contains(counts[j].0) && counts[j].1 == count_of(
            counts,
            dict[i],
        ) ==> key_before(counts, dict[i], j)
    &&& forall|i: int, k: int|
        #![trigger dict[i], dict[k]]
        0 <= i < k < dict.len() && count_of(counts, dict[k]) == count_of(counts, dict[i]) ==> exists|p: int|
            0 <= p < counts.len() && counts[p].0 == dict[i] && key_before(counts, dict[k], p) == false
}

/// Entry `b` is the one a selection round picks: not taken yet, with the
/// highest count, and the earliest among equal counts.
pub open spec fn is_best(counts: Seq<(usize, u64)>, taken: Seq<bool>, b: int) -> bool {
    &&& 0 <= b < counts.len()
    &&& b < taken.len()
    &&& !taken[b]
    &&& forall|k: int|
        0 <= k < counts.len() && k < taken.len() && !taken[k] ==> counts[k].1 < counts[b].1 || (counts[k].1
            == counts[b].1 && b <= k)
}

/// Some entry is not taken yet.
pub open spec fn any_left(counts: Seq<(usize, u64)>, taken: Seq<bool>) -> bool {
    exists|j: int| 0 <= j < counts.len() && j < taken.len() && !taken[j]
}

/// The vocabulary that `m` more selection rounds add, from the entries not
/// yet taken.
pub open spec fn top_dict(counts: Seq<(usize, u64)>, taken: Seq<bool>, m: nat) -> Seq<usize>
    decreases m,
{
    if m == 0 || !(exists|b: int| is_best(counts, taken, b)) {
        Seq::empty()
    } else {
        let b = choose|b: int| is_best(counts, taken, b);
        seq![counts[b].0] + top_dict(counts, taken.update(b, true), (m - 1) as nat)
    }
}

proof fn lemma_best_unique(counts: Seq<(usize, u64)>, taken: Seq<bool>, b1: int, b2: int)
    requires
        is_best(counts, taken, b1),
        is_best(counts, taken, b2),
    ensures
        b1 == b2,
{
}

/// Function `f` has an entry before position `j`.
pub open spec fn key_before(counts: Seq<(usize, u64)>, f: usize, j: int) -> bool {
    exists|p: int| 0 <= p < j && counts[p].0 == f
}

impl CausalityFeatureExtractor {
    /// Counts the callees on this extractor's side of the target.
    pub fn init(&mut self, trace: &Trace)
        requires
            old(self).wf(),
            trace.wf(),
        ensures
            final(self).wf(),
            final(self).dir == old(self).dir,
            final(self).dictionary_size == old(self).dictionary_size,
            final(self).dictionary == old(self).dictionary,
            forall|g: usize|
                #[trigger] count_of(final(self).counts@, g) == saturate(
                    count_of(old(self).counts@, g) + count_in(old(self).part(*trace), NodeTest::CallOf(g)),
                ),
            final(self).counts@ == counts_after(old(self).counts@, old(self).part(*trace)),
    {
        let n = trace.instrs.len();
        let (lo, hi) = if self.dir.is_forward() {
            (trace.target + 1, n)
        } else {
            (0, trace.target)
        };
        proof {
            assert(old(self).part(*trace) == trace.instrs@.subrange(lo as int, hi as int));
            assert(counts_after(old(self).counts@, trace.instrs@.subrange(lo as int, lo as int)) == old(self).counts@);
            assert forall|g: usize| #[trigger] count_of(self.counts@, g) == saturate(
                count_of(old(self).counts@, g) + count_in(trace.instrs@.subrange(lo as int, lo as int), NodeTest::CallOf(g)),
            ) by {
                lemma_count_bound(self.counts@, g);
                assert(trace.instrs@.subrange(lo as int, lo as int).len() == 0);
            }
        }
        let mut i: usize = lo;
        while i < hi
            invariant
                self.wf(),
                self.dir == old(self).dir,
                self.dictionary_size == old(self).dictionary_size,
                self.dictionary == old(self).dictionary,
                lo <= i <= hi <= trace.instrs@.len(),
                forall|g: usize|
                    #[trigger] count_of(self.counts@, g) == saturate(
                        count_of(old(self).counts@, g) + count_in(trace.instrs@.subrange(lo as int, i as int), NodeTest::CallOf(g)),
                    ),
                self.counts@ == counts_after(old(self).counts@, trace.instrs@.subrange(lo as int, i as int)),
            decreases hi - i,
        {
            let ghost c0 = self.counts@;
            proof {
                assert(trace.instrs@.subrange(lo as int, i + 1).drop_last() =~= trace.instrs@.subrange(lo as int, i as int));
            }
            if let crate::state::Semantics::Call { func, .. } = &trace.instrs[i].semantics {
                self.bump(*func);
                proof {
                    assert forall|g: usize| #[trigger] count_of(self.counts@, g) == saturate(
                        count_of(old(self).counts@, g) + count_in(trace.instrs@.subrange(lo as int, i + 1), NodeTest::CallOf(g)),
                    ) by {
                        lemma_count_bound(old(self).counts@, g);
                        lemma_count_bound(c0, g);
                    }
                }
            }
            i = i + 1;
        }
    }

    /// Keeps the `dictionary_size` most frequent callees.
    pub fn finalize(&mut self)
        requires
            old(self).wf(),
        ensures
            final(self).wf(),
            final(self).dir == old(self).dir,
            final(self).dictionary_size == old(self).dictionary_size,
            final(self).counts == old(self).counts,
            is_top(final(self).counts@, final(self).dictionary@, final(self).dictionary_size as nat),
            final(self).dictionary@ == top_dict(
                old(self).counts@,
                Seq::new(old(self).counts@.len(), |i: int| false),
                old(self).dictionary_size as nat,
            ),
    {
        let n = self.counts.len();
        let mut taken: Vec<bool> = Vec::new();
        let mut t: usize = 0;
        while t < n
            invariant
                n == self.counts@.len(),
                t <= n,
                taken@.len() == t,
                forall|j: int| 0 <= j < t ==> !taken@[j],
            decreases n - t,
        {
            taken.push(false);
            t = t + 1;
        }
        let mut dict: Vec<usize> = Vec::new();
        let ghost mut idx: Seq<int> = Seq::empty();
        let ghost none_taken = Seq::new(n as nat, |i: int| false);
        proof {
            assert(taken@ =~= none_taken);
        }
        while dict.len() < self.dictionary_size
            invariant
                dict@ + top_dict(self.counts@, taken@, (self.dictionary_size - dict@.len()) as nat) == top_dict(
                    self.counts@,
                    none_taken,
                    self.dictionary_size as nat,
                ),
                none_taken == Seq::new(old(self).counts@.len(), |i: int| false),
                self.wf(),
                *self == *old(self),
                n == self.counts@.len(),
                taken@.len() == n,
                idx.len() == dict@.len(),
                dict@.len() <= self.dictionary_size,
                forall|i: int| 0 <= i < idx.len() ==> 0 <= #[trigger] idx[i] < n && taken@[idx[i]]
                    && self.counts@[idx[i]].0 == dict@[i],
                forall|j: int| 0 <= j < n && #[trigger] taken@[j] ==> exists|i: int| 0 <= i < idx.len() && idx[i] == j,
                forall|i: int, k: int| 0 <= i < k < idx.len() ==> idx[i] != idx[k],
                forall|i: int, j: int|
                    #![trigger idx[i], taken@[j]]
                    0 <= i < idx.len() && 0 <= j < n && !taken@[j] ==> self.counts@[j].1 <= self.counts@[idx[i]].1,
                forall|i: int, k: int|
                    #![trigger idx[i], idx[k]]
                    0 <= i < k < idx.len() ==> self.counts@[idx[k]].1 <= self.counts@[idx[i]].1,
                forall|i: int, j: int|
                    #![trigger idx[i], taken@[j]]
                    0 <= i < idx.len() && 0 <= j < n && !taken@[j] && self.counts@[j].1 == self.counts@[idx[i]].1
                        ==> idx[i] < j,
                forall|i: int, k: int|
                    #![trigger idx[i], idx[k]]
                    0 <= i < k < idx.len() && self.counts@[idx[k]].1 == self.counts@[idx[i]].1 ==> idx[i] < idx[k],
            ensures
                dict@.len() < self.dictionary_size ==> forall|j: int| 0 <= j < n ==> #[trigger] taken@[j],
                dict@ == top_dict(self.counts@, none_taken, self.dictionary_size as nat),
            decreases self.dictionary_size - dict@.len(),
        {
            let mut best: Option<usize> = None;
            let mut j: usize = 0;
            while j < n
                invariant
                    n == self.counts@.len(),
                    taken@.len() == n,
                    j <= n,
                    best matches Some(b) ==> b < j && !taken@[b as int] && forall|k: int| 0 <= k < j && !taken@[k]
                        ==> self.counts@[k].1 < self.counts@[b as int].1 || (self.counts@[k].1 == self.counts@[b as int].1
                        && b <= k),
                    best.is_none() ==> forall|k: int| 0 <= k < j ==> taken@[k],
                decreases n - j,
            {
                if !taken[j] {
                    match best {
                        None => {
                            best = Some(j);
                        },
                        Some(b) => {
                            if self.counts[j].1 > self.counts[b].1 {
                                best = Some(j);
                            }
                        },
                    }
                }
                j = j + 1;
            }
            match best {
                None => {
                    proof {
                        let m = (self.dictionary_size - dict@.len()) as nat;
                        if exists|b2: int| is_best(self.counts@, taken@, b2) {
                            let b2 = choose|b2: int| is_best(self.counts@, taken@, b2);
                            assert(taken@[b2]);
                        }
                        assert(top_dict(self.counts@, taken@, m) == Seq::<usize>::empty());
                        assert(dict@ + Seq::<usize>::empty() =~= dict@);
                    }
                    break;
                },
                Some(b) => {
                    let ghost t0 = taken@;
                    let ghost d0 = dict@;
                    proof {
                        assert(is_best(self.counts@, t0, b as int));
                        let m = (self.dictionary_size - dict@.len()) as nat;
                        let c = choose|c: int| is_best(self.counts@, t0, c);
                        lemma_best_unique(self.counts@, t0, b as int, c);
                        assert(top_dict(self.counts@, t0, m) == seq![self.counts@[b as int].0] + top_dict(
                            self.counts@,
                            t0.update(b as int, true),
                            (m - 1) as nat,
                        ));
                    }
                    let ghost idx0 = idx;
                    taken.set(b, true);
                    dict.push(self.counts[b].0);
                    proof {
                        assert(taken@ == t0.update(b as int, true));
                        assert(dict@ =~= d0 + seq![self.counts@[b as int].0]);
                        let m = (self.dictionary_size - d0.len()) as nat;
                        assert(dict@ + top_dict(self.counts@, taken@, (m - 1) as nat) =~= d0 + (seq![self.counts@[b as int].0]
                            + top_dict(self.counts@, taken@, (m - 1) as nat)));
                        idx = idx.push(b as int);
                        assert forall|i: int| 0 <= i < idx0.len() implies idx[i] == idx0[i] by {}
                        assert forall|j: int| 0 <= j < n && #[trigger] taken@[j] implies exists|i: int| 0 <= i < idx.len() && idx[i] == j by {
                            if j == b {
                                assert(idx[idx.len() - 1] == j);
                            } else {
                                assert(t0[j]);
                                let i = choose|i: int| 0 <= i < idx0.len() && idx0[i] == j;
                                assert(idx[i] == j);
                            }
                        }
                        assert forall|i: int, k: int|
                            #![trigger idx[i], idx[k]]
                            0 <= i < k < idx.len() implies self.counts@[idx[k]].1 <= self.counts@[idx[i]].1 by {
                            if k == idx.len() - 1 {
                                assert(idx[i] == idx0[i]);
                                assert(!t0[b as int]);
                            } else {
                                assert(idx[i] == idx0[i] && idx[k] == idx0[k]);
                            }
                        }
                        assert forall|i: int, j: int|
                            #![trigger idx[i], taken@[j]]
                            0 <= i < idx.len() && 0 <= j < n && !taken@[j] && self.counts@[j].1 == self.counts@[idx[i]].1
                                implies idx[i] < j by {
                            if i < idx0.len() {
                                assert(idx[i] == idx0[i]);
                                assert(!t0[j]);
                            }
                        }
                        assert forall|i: int, k: int|
                            #![trigger idx[i], idx[k]]
                            0 <= i < k < idx.len() && self.counts@[idx[k]].1 == self.counts@[idx[i]].1 implies idx[i] < idx[k] by {
                            if k == idx.len() - 1 {
                                assert(idx[i] == idx0[i]);
                                assert(!t0[b as int]);
                            } else {
                                assert(idx[i] == idx0[i] && idx[k] == idx0[k]);
                            }
                        }
                        assert forall|i: int, k: int| 0 <= i < k < idx.len() implies idx[i] != idx[k] by {
                            if k == idx.len() - 1 {
                                assert(idx[i] == idx0[i]);
                                assert(t0[idx0[i]]);
                            } else {
                                assert(idx[i] == idx0[i] && idx[k] == idx0[k]);
                            }
                        }
                    }
                },
            }
        }
        proof {
            let counts = self.counts@;
            let d = dict@;
            assert forall|i: int| 0 <= i < d.len() implies #[trigger] has_key(counts, d[i]) by {
                assert(counts[idx[i]].0 == d[i]);
            }
            assert forall|i: int, k: int| 0 <= i < d.len() && 0 <= k < d.len() && i != k implies d[i] != d[k] by {
                assert(idx[i] != idx[k]);
            }
            assert forall|j: int| 0 <= j < counts.len() && #[trigger] taken@[j] implies d.contains(counts[j].0) by {
                let i = choose|i: int| 0 <= i < idx.len() && idx[i] == j;
                assert(d[i] == counts[j].0);
            }
            assert forall|i: int, j: int|
                #![trigger d[i], counts[j]]
                0 <= i < d.len() && 0 <= j < counts.len() && !d.contains(counts[j].0) implies counts[j].1
                    <= count_of(counts, d[i]) by {
                lemma_count_at(counts, idx[i]);
                if taken@[j] {
                    let i2 = choose|i2: int| 0 <= i2 < idx.len() && idx[i2] == j;
                    assert(d[i2] == counts[j].0);
                }
            }
            if d.len() < self.dictionary_size {
                assert forall|j: int| 0 <= j < counts.len() implies d.contains(#[trigger] counts[j].0) by {
                    assert(taken@[j]);
                }
            }
            assert forall|i: int, k: int|
                #![trigger d[i], d[k]]
                0 <= i < k < d.len() implies count_of(counts, d[k]) <= count_of(counts, d[i]) by {
                lemma_count_at(counts, idx[i]);
                lemma_count_at(counts, idx[k]);
            }
            assert forall|i: int, j: int|
                #![trigger d[i], counts[j]]
                0 <= i < d.len() && 0 <= j < counts.len() && !d.contains(counts[j].0) && counts[j].1 == count_of(
                    counts,
                    d[i],
                ) implies key_before(counts, d[i], j) by {
                lemma_count_at(counts, idx[i]);
                if taken@[j] {
                    let i2 = choose|i2: int| 0 <= i2 < idx.len() && idx[i2] == j;
                    assert(d[i2] == counts[j].0);
                }
                assert(counts[idx[i]].0 == d[i]);
            }
            assert forall|i: int, k: int|
                #![trigger d[i], d[k]]
                0 <= i < k < d.len() && count_of(counts, d[k]) == count_of(counts, d[i]) implies exists|p: int|
                    0 <= p < counts.len() && counts[p].0 == d[i] && key_before(counts, d[k], p) == false by {
                lemma_count_at(counts, idx[i]);
                lemma_count_at(counts, idx[k]);
                assert(counts[idx[i]].0 == d[i]);
                if key_before(counts, d[k], idx[i]) {
                    let q = choose|q: int| 0 <= q < idx[i] && counts[q].0 == d[k];
                    assert(counts[idx[k]].0 == d[k]);
                }
            }
            assert(is_top(counts, d, self.dictionary_size as nat));
        }
        self.dictionary = dict;
    }
}

/// One feature extractor, by kind.
pub enum FeatureExtractor {
    /// Whether the target returned into the trace, and whether its result is
    /// stored or passed on afterwards.
    ReturnValue,
    /// Whether the target's result is compared afterwards, and against zero.
    ReturnValueCheck,
    /// The kind of argument `i` of the target, and whether it is compared before.
    ArgumentPrecondition(usize),
    /// Whether argument `i` of the target is passed, compared or stored afterwards.
    ArgumentPostcondition(usize),
    Causality(CausalityFeatureExtractor),
    /// Branches taken before and after the target, and loops entered.
    ControlFlow,
}

/// Argument extractors exist for the first four arguments.
pub const NUM_ARGUMENT_EXTRACTORS: usize = 4;

pub open spec fn flag(b: bool) -> i64 {
    if b {
        1
    } else {
        0
    }
}

/// The feature record of one extractor on one trace of a slice whose target
/// calls `callee`.
pub open spec fn features_of(e: FeatureExtractor, callee: usize, tr: Trace) -> Seq<i64> {
    let pre = tr.before_target();
    let post = tr.after_target();
    let args = call_args(tr.instrs@[tr.target as int].semantics);
    match e {
        FeatureExtractor::ReturnValue => seq![
            flag(tr.instrs@[tr.target as int].result.is_some()),
            flag(count_in(post, NodeTest::StoreOfCall(callee)) > 0),
            flag(count_in(post, NodeTest::PassOfCall(callee)) > 0),
        ],
        FeatureExtractor::ReturnValueCheck => seq![
            flag(count_in(post, NodeTest::CompareOfCall(callee)) > 0),
            flag(count_in(post, NodeTest::ZeroCheckOfCall(callee)) > 0),
        ],
        FeatureExtractor::ArgumentPrecondition(i) => if i < args.len() {
            let a = args[i as int];
            seq![
                flag(*a is Int),
                flag(*a is Null),
                flag(*a is Location),
                flag(*a is Argument),
                flag(*a is Symbol),
                flag(*a is Call),
                flag(count_in(pre, NodeTest::CompareOf(a)) > 0),
            ]
        } else {
            Seq::empty()
        },
        FeatureExtractor::ArgumentPostcondition(i) => if i < args.len() {
            let a = args[i as int];
            seq![
                flag(count_in(post, NodeTest::PassOf(a)) > 0),
                flag(count_in(post, NodeTest::CompareOf(a)) > 0),
                flag(count_in(post, NodeTest::StoreOf(a)) > 0),
            ]
        } else {
            Seq::empty()
        },
        FeatureExtractor::Causality(c) => Seq::new(
            c.dictionary@.len(),
            |k: int| flag(count_in(c.part(tr), NodeTest::CallOf(c.dictionary@[k])) > 0),
        ),
        FeatureExtractor::ControlFlow => seq![
            count_in(pre, NodeTest::Then) as i64,
            count_in(pre, NodeTest::Else) as i64,
            count_in(post, NodeTest::Then) as i64,
            count_in(post, NodeTest::Else) as i64,
            (count_in(pre, NodeTest::LoopBegin) + count_in(post, NodeTest::LoopBegin)) as i64,
        ],
    }
}

/// The key of an extractor in a feature record.
pub open spec fn name_of(e: FeatureExtractor) -> Seq<char> {
    match e {
        FeatureExtractor::ReturnValue => "return_value"@,
        FeatureExtractor::ReturnValueCheck => "return_value_check"@,
        FeatureExtractor::ArgumentPrecondition(i) => if i == 0 {
            "argument_precondition.0"@
        } else if i == 1 {
            "argument_precondition.1"@
        } else if i == 2 {
            "argument_precondition.2"@
        } else {
            "argument_precondition.3"@
        },
        FeatureExtractor::ArgumentPostcondition(i) => if i == 0 {
            "argument_postcondition.0"@
        } else if i == 1 {
            "argument_postcondition.1"@
        } else if i == 2 {
            "argument_postcondition.2"@
        } else {
            "argument_postcondition.3"@
        },
        FeatureExtractor::Causality(c) => if c.dir == TraceIterDirection::Backward {
            "causality_pre"@
        } else {
            "causality_post"@
        },
        FeatureExtractor::ControlFlow => "control_flow"@,
    }
}

/// 1 if some node of `lo .. hi` passes the test, else 0.
fn presence(instrs: &Vec<crate::state::TraceNode>, lo: usize, hi: usize, t: &NodeTest) -> (r: i64)
    requires
        lo <= hi <= instrs@.len(),
    ensures
        r == flag(count_in(instrs@.subrange(lo as int, hi as int), *t) > 0),
{
    if count_nodes(instrs, lo, hi, t) > 0 {
        1
    } else {
        0
    }
}

/// What the first pass does to one extractor with one trace: a Causality
/// extractor counts the calls on its side of the target; the others stay.
pub open spec fn init_step(e0: FeatureExtractor, e1: FeatureExtractor, tr: Trace) -> bool {
    match e0 {
        FeatureExtractor::Causality(c0) => e1 matches FeatureExtractor::Causality(c1) && c1.dir == c0.dir
            && c1.dictionary_size == c0.dictionary_size && c1.dictionary == c0.dictionary
            && c1.counts@ == counts_after(c0.counts@, c0.part(tr)) && forall|g: usize|
            #[trigger] count_of(c1.counts@, g) == saturate(
                count_of(c0.counts@, g) + count_in(c0.part(tr), NodeTest::CallOf(g)),
            ),
        _ => e1 == e0,
    }
}

/// What finalizing does to one extractor: a Causality extractor keeps a
/// top-`dictionary_size` vocabulary of its counts; the others stay.
pub open spec fn finalize_step(e0: FeatureExtractor, e1: FeatureExtractor) -> bool {
    match e0 {
        FeatureExtractor::Causality(c0) => e1 matches FeatureExtractor::Causality(c1) && c1.dir == c0.dir
            && c1.dictionary_size == c0.dictionary_size && c1.counts == c0.counts && is_top(
            c1.counts@,
            c1.dictionary@,
            c1.dictionary_size as nat,
        ) && c1.dictionary@ == top_dict(c0.counts@, Seq::new(c0.counts@.len(), |i: int| false), c0.dictionary_size as nat),
        _ => e1 == e0,
    }
}

impl FeatureExtractor {
    pub open spec fn wf(&self) -> bool {
        match self {
            FeatureExtractor::ArgumentPrecondition(i) => *i < NUM_ARGUMENT_EXTRACTORS,
            FeatureExtractor::ArgumentPostcondition(i) => *i < NUM_ARGUMENT_EXTRACTORS,
            FeatureExtractor::Causality(c) => c.wf(),
            _ => true,
        }
    }

    pub fn name(&self) -> (r: String)
        requires
            self.wf(),
        ensures
            r@ == name_of(*self),
    {
        match self {
            FeatureExtractor::ReturnValue => "return_value".to_owned(),
            FeatureExtractor::ReturnValueCheck => "return_value_check".to_owned(),
            FeatureExtractor::ArgumentPrecondition(i) => if *i == 0 {
                "argument_precondition.0".to_owned()
            } else if *i == 1 {
                "argument_precondition.1".to_owned()
            } else if *i == 2 {
                "argument_precondition.2".to_owned()
            } else {
                "argument_precondition.3".to_owned()
            },
            FeatureExtractor::ArgumentPostcondition(i) => if *i == 0 {
                "argument_postcondition.0".to_owned()
            } else if *i == 1 {
                "argument_postcondition.1".to_owned()
            } else if *i == 2 {
                "argument_postcondition.2".to_owned()
            } else {
                "argument_postcondition.3".to_owned()
            },
            FeatureExtractor::Causality(c) => if c.dir.is_forward() {
                "causality_post".to_owned()
            } else {
                "causality_pre".to_owned()
            },
            FeatureExtractor::ControlFlow => "control_flow".to_owned(),
        }
    }

    /// Whether the extractor applies to a target with `num_params` parameters:
    /// argument extractors need their argument.
    pub fn filter(&self, num_params: usize) -> (r: bool)
        ensures
            r == match *self {
                FeatureExtractor::ArgumentPrecondition(i) => i < num_params,
                FeatureExtractor::ArgumentPostcondition(i) => i < num_params,
                _ => true,
            },
    {
        match self {
            FeatureExtractor::ArgumentPrecondition(i) => *i < num_params,
            FeatureExtractor::ArgumentPostcondition(i) => *i < num_params,
            _ => true,
        }
    }

    /// First pass: learns from one of the `num_traces` traces of a slice
    /// (only the Causality extractor learns).
    pub fn init(&mut self, slice: &Slice, num_traces: usize, trace: &Trace)
        requires
            old(self).wf(),
            trace.wf(),
        ensures
            final(self).wf(),
            name_of(*final(self)) == name_of(*old(self)),
            init_step(*old(self), *final(self), *trace),
    {
        match self {
            FeatureExtractor::Causality(c) => c.init(trace),
            _ => {},
        }
    }

    /// Freezes what the first pass learnt.
    pub fn finalize(&mut self)
        requires
            old(self).wf(),
        ensures
            final(self).wf(),
            name_of(*final(self)) == name_of(*old(self)),
            finalize_step(*old(self), *final(self)),
    {
        match self {
            FeatureExtractor::Causality(c) => c.finalize(),
            _ => {},
        }
    }

    /// Second pass: the feature record of one trace.
    pub fn extract(&self, slice: &Slice, trace: &Trace) -> (r: Vec<i64>)
        requires
            trace.wf(),
        ensures
            r@ == features_of(*self, slice.callee, *trace),
    {
        let n = trace.instrs.len();
        let t = trace.target;
        let ins = &trace.instrs;
        let f = slice.callee;
        proof {
            assert(trace.before_target() == ins@.subrange(0, t as int));
            assert(trace.after_target() == ins@.subrange(t + 1, n as int));
        }
        let r = match self {
            FeatureExtractor::ReturnValue => {
                let returned: i64 = if ins[t].result.is_some() { 1 } else { 0 };
                vec![
                    returned,
                    presence(ins, t + 1, n, &NodeTest::StoreOfCall(f)),
                    presence(ins, t + 1, n, &NodeTest::PassOfCall(f)),
                ]
            },
            FeatureExtractor::ReturnValueCheck => vec![
                presence(ins, t + 1, n, &NodeTest::CompareOfCall(f)),
                presence(ins, t + 1, n, &NodeTest::ZeroCheckOfCall(f)),
            ],
            FeatureExtractor::ArgumentPrecondition(i) => {
                let args = trace.target_args();
                if *i < args.len() {
                    let a = args[*i].clone();
                    let v: &Value = &*a;
                    vec![
                        if let Value::Int(_) = v { 1 } else { 0 },
                        if let Value::Null = v { 1 } else { 0 },
                        if let Value::Location(_) = v { 1 } else { 0 },
                        if let Value::Argument(_) = v { 1 } else { 0 },
                        if let Value::Symbol(_) = v { 1 } else { 0 },
                        if let Value::Call { .. } = v { 1 } else { 0 },
                        presence(ins, 0, t, &NodeTest::CompareOf(a.clone())),
                    ]
                } else {
                    Vec::new()
                }
            },
            FeatureExtractor::ArgumentPostcondition(i) => {
                let args = trace.target_args();
                if *i < args.len() {
                    let a = args[*i].clone();
                    vec![
                        presence(ins, t + 1, n, &NodeTest::PassOf(a.clone())),
                        presence(ins, t + 1, n, &NodeTest::CompareOf(a.clone())),
                        presence(ins, t + 1, n, &NodeTest::StoreOf(a)),
                    ]
                } else {
                    Vec::new()
                }
            },
            FeatureExtractor::Causality(c) => {
                let (lo, hi) = if c.dir.is_forward() { (t + 1, n) } else { (0, t) };
                let mut out: Vec<i64> = Vec::new();
                let mut k: usize = 0;
                while k < c.dictionary.len()
                    invariant
                        lo <= hi <= ins@.len(),
                        c.part(*trace) == ins@.subrange(lo as int, hi as int),
                        k <= c.dictionary@.len(),
                        out@ == Seq::new(k as nat, |j: int| flag(count_in(c.part(*trace), NodeTest::CallOf(c.dictionary@[j])) > 0)),
                    decreases c.dictionary@.len() - k,
                {
                    let p = presence(ins, lo, hi, &NodeTest::CallOf(c.dictionary[k]));
                    out.push(p);
                    proof {
                        assert(out@ =~= Seq::new((k + 1) as nat, |j: int| flag(count_in(c.part(*trace), NodeTest::CallOf(c.dictionary@[j])) > 0)));
                    }
                    k = k + 1;
                }
                out
            },
            FeatureExtractor::ControlFlow => {
                let lb = count_nodes(ins, 0, t, &NodeTest::LoopBegin) as u128 + count_nodes(ins, t + 1, n, &NodeTest::LoopBegin) as u128;
                vec![
                    count_nodes(ins, 0, t, &NodeTest::Then) as i64,
                    count_nodes(ins, 0, t, &NodeTest::Else) as i64,
                    count_nodes(ins, t + 1, n, &NodeTest::Then) as i64,
                    count_nodes(ins, t + 1, n, &NodeTest::Else) as i64,
                    lb as i64,
                ]
            },
        };
        proof {
            assert(r@ =~= features_of(*self, slice.callee, *trace));
        }
        r
    }
}

/// Two runs of both passes from the same extractor over the same traces
/// leave extractors with the same name that give every trace the same
/// record.
pub proof fn lemma_runs_agree(
    e0: FeatureExtractor,
    e1: FeatureExtractor,
    e2: FeatureExtractor,
    ts: Seq<Trace>,
    callee: usize,
    t: Trace,
)
    requires
        learnt(e0, e1, ts),
        learnt(e0, e2, ts),
    ensures
        name_of(e1) == name_of(e2),
        features_of(e1, callee, t) == features_of(e2, callee, t),
{
    if let FeatureExtractor::Causality(c0) = e0 {
        if let FeatureExtractor::Causality(c1) = e1 {
            if let FeatureExtractor::Causality(c2) = e2 {
                assert(c1.counts@ == c2.counts@);
                assert(c1.dictionary@ == c2.dictionary@);
                assert(c1.part(t) == c2.part(t));
            }
        }
    }
}

/// A record computed from the same extractor and the same trace is the same
/// record: extraction depends on nothing else.
pub proof fn lemma_extraction_deterministic(
    e: FeatureExtractor,
    callee: usize,
    t1: Trace,
    t2: Trace,
)
    requires
        t1.target == t2.target,
        t1.instrs@ == t2.instrs@,
    ensures
        features_of(e, callee, t1) == features_of(e, callee, t2),
{
    assert(t1.before_target() == t2.before_target());
    assert(t1.after_target() == t2.after_target());
}

/// The thirteen extractors in their fixed order.
pub open spec fn standard_layout(s: Seq<FeatureExtractor>) -> bool {
    &&& s.len() == 13
    &&& s[0] is ReturnValue
    &&& s[1] is ReturnValueCheck
    &&& s[2] == FeatureExtractor::ArgumentPrecondition(0)
    &&& s[3] == FeatureExtractor::ArgumentPrecondition(1)
    &&& s[4] == FeatureExtractor::ArgumentPrecondition(2)
    &&& s[5] == FeatureExtractor::ArgumentPrecondition(3)
    &&& s[6] == FeatureExtractor::ArgumentPostcondition(0)
    &&& s[7] == FeatureExtractor::ArgumentPostcondition(1)
    &&& s[8] == FeatureExtractor::ArgumentPostcondition(2)
    &&& s[9] == FeatureExtractor::ArgumentPostcondition(3)
    &&& s[10] is Causality
    &&& s[11] is Causality
    &&& s[12] is ControlFlow
}

/// Argument extractor `i` of a layout: preconditions start at index 2.
pub open spec fn pre_at(s: Seq<FeatureExtractor>, i: int) -> FeatureExtractor {
    s[2 + i]
}

/// Postconditions follow the `n` preconditions.
pub open spec fn post_at(s: Seq<FeatureExtractor>, n: int, i: int) -> FeatureExtractor {
    s[2 + n + i]
}

/// The extractors for a target with `n` (at most four) modelled arguments:
/// those of `standard_layout` that remain once the argument extractors
/// beyond `n` are left out.
pub open spec fn target_layout(s: Seq<FeatureExtractor>, n: int, size: usize) -> bool {
    &&& s.len() == 5 + 2 * n
    &&& s[0] is ReturnValue
    &&& s[1] is ReturnValueCheck
    &&& forall|i: int| 0 <= i < n ==> #[trigger] pre_at(s, i) == FeatureExtractor::ArgumentPrecondition(i as usize)
    &&& forall|i: int| 0 <= i < n ==> #[trigger] post_at(s, n, i) == FeatureExtractor::ArgumentPostcondition(i as usize)
    &&& s[2 + 2 * n] matches FeatureExtractor::Causality(c) && c.dir == TraceIterDirection::Backward
        && c.dictionary_size == size && c.counts@.len() == 0 && c.dictionary@.len() == 0
    &&& s[3 + 2 * n] matches FeatureExtractor::Causality(c) && c.dir == TraceIterDirection::Forward
        && c.dictionary_size == size && c.counts@.len() == 0 && c.dictionary@.len() == 0
    &&& s[4 + 2 * n] is ControlFlow
}

/// The extractors that apply to one target.
pub struct FeatureExtractors {
    pub extractors: Vec<FeatureExtractor>,
}

impl FeatureExtractors {
    pub open spec fn wf(&self) -> bool {
        forall|i: int| 0 <= i < self.extractors@.len() ==> (#[trigger] self.extractors@[i]).wf()
    }

    /// Every extractor: return value, return value check, pre- and
    /// postconditions of the first four arguments, causality before and
    /// after the target, and control flow.
    pub fn all(causality_dictionary_size: usize) -> (r: FeatureExtractors)
        ensures
            r.wf(),
            r.extractors@.len() == 13,
            standard_layout(r.extractors@),
            r.extractors@[10] matches FeatureExtractor::Causality(c) && c.dir == TraceIterDirection::Backward
                && c.dictionary_size == causality_dictionary_size && c.counts@.len() == 0,
            r.extractors@[11] matches FeatureExtractor::Causality(c) && c.dir == TraceIterDirection::Forward
                && c.dictionary_size == causality_dictionary_size && c.counts@.len() == 0,
            r.extractors@[12] is ControlFlow,
    {
        let extractors = vec![
            FeatureExtractor::ReturnValue,
            FeatureExtractor::ReturnValueCheck,
            FeatureExtractor::ArgumentPrecondition(0),
            FeatureExtractor::ArgumentPrecondition(1),
            FeatureExtractor::ArgumentPrecondition(2),
            FeatureExtractor::ArgumentPrecondition(3),
            FeatureExtractor::ArgumentPostcondition(0),
            FeatureExtractor::ArgumentPostcondition(1),
            FeatureExtractor::ArgumentPostcondition(2),
            FeatureExtractor::ArgumentPostcondition(3),
            FeatureExtractor::Causality(CausalityFeatureExtractor::pre(causality_dictionary_size)),
            FeatureExtractor::Causality(CausalityFeatureExtractor::post(causality_dictionary_size)),
            FeatureExtractor::ControlFlow,
        ];
        let r = FeatureExtractors { extractors };
        proof {
            assert forall|i: int| 0 <= i < r.extractors@.len() implies (#[trigger] r.extractors@[i]).wf() by {
            }
        }
        r
    }

    /// The extractors of `all` whose filter accepts a target with
    /// `num_params` parameters, in the same order: the return value ones,
    /// the pre- and postconditions of the first `min(num_params, 4)`
    /// arguments, causality before and after the target, and control flow.
    pub fn extractors_for_target(num_params: usize, causality_dictionary_size: usize) -> (r: FeatureExtractors)
        ensures
            r.wf(),
            target_layout(r.extractors@, if num_params < 4 { num_params as int } else { 4 }, causality_dictionary_size),
            r.extractors@.len() == 5 + 2 * (if num_params < 4 { num_params as int } else { 4 }),
    {
        let n: usize = if num_params < NUM_ARGUMENT_EXTRACTORS { num_params } else { NUM_ARGUMENT_EXTRACTORS };
        let mut v: Vec<FeatureExtractor> = Vec::new();
        v.push(FeatureExtractor::ReturnValue);
        v.push(FeatureExtractor::ReturnValueCheck);
        let mut i: usize = 0;
        while i < n
            invariant
                n <= 4,
                i <= n,
                v@.len() == 2 + i,
                v@[0] is ReturnValue,
                v@[1] is ReturnValueCheck,
                forall|j: int| 0 <= j < i ==> #[trigger] pre_at(v@, j) == FeatureExtractor::ArgumentPrecondition(j as usize),
            decreases n - i,
        {
            let ghost v0 = v@;
            v.push(FeatureExtractor::ArgumentPrecondition(i));
            proof {
                assert forall|j: int| 0 <= j < i + 1 implies #[trigger] pre_at(v@, j) == FeatureExtractor::ArgumentPrecondition(j as usize) by {
                    if j < i {
                        assert(pre_at(v0, j) == FeatureExtractor::ArgumentPrecondition(j as usize));
                    }
                }
            }
            i = i + 1;
        }
        let mut i: usize = 0;
        while i < n
            invariant
                n <= 4,
                i <= n,
                v@.len() == 2 + n + i,
                v@[0] is ReturnValue,
                v@[1] is ReturnValueCheck,
                forall|j: int| 0 <= j < n ==> #[trigger] pre_at(v@, j) == FeatureExtractor::ArgumentPrecondition(j as usize),
                forall|j: int| 0 <= j < i ==> #[trigger] post_at(v@, n as int, j) == FeatureExtractor::ArgumentPostcondition(j as usize),
            decreases n - i,
        {
            let ghost v0 = v@;
            v.push(FeatureExtractor::ArgumentPostcondition(i));
            proof {
                assert forall|j: int| 0 <= j < n implies #[trigger] pre_at(v@, j) == FeatureExtractor::ArgumentPrecondition(j as usize) by {
                    assert(pre_at(v0, j) == FeatureExtractor::ArgumentPrecondition(j as usize));
                }
                assert forall|j: int| 0 <= j < i + 1 implies #[trigger] post_at(v@, n as int, j) == FeatureExtractor::ArgumentPostcondition(j as usize) by {
                    if j < i {
                        assert(post_at(v0, n as int, j) == FeatureExtractor::ArgumentPostcondition(j as usize));
                    }
                }
            }
            i = i + 1;
        }
        let ghost v1 = v@;
        v.push(FeatureExtractor::Causality(CausalityFeatureExtractor::pre(causality_dictionary_size)));
        v.push(FeatureExtractor::Causality(CausalityFeatureExtractor::post(causality_dictionary_size)));
        v.push(FeatureExtractor::ControlFlow);
        let r = FeatureExtractors { extractors: v };
        proof {
            assert forall|j: int| 0 <= j < n implies #[trigger] pre_at(r.extractors@, j) == FeatureExtractor::ArgumentPrecondition(j as usize) by {
                assert(pre_at(v1, j) == FeatureExtractor::ArgumentPrecondition(j as usize));
            }
            assert forall|j: int| 0 <= j < n implies #[trigger] post_at(r.extractors@, n as int, j) == FeatureExtractor::ArgumentPostcondition(j as usize) by {
                assert(post_at(v1, n as int, j) == FeatureExtractor::ArgumentPostcondition(j as usize));
            }
            assert forall|j: int| 0 <= j < r.extractors@.len() implies (#[trigger] r.extractors@[j]).wf() by {
                if 2 <= j < 2 + n {
                    assert(pre_at(r.extractors@, j - 2) == r.extractors@[j]);
                } else if 2 + n <= j < 2 + 2 * n {
                    assert(post_at(r.extractors@, n as int, j - 2 - n) == r.extractors@[j]);
                }
            }
        }
        r
    }

    /// First pass over one of the `num_traces` traces of a slice.
    pub fn initialize(&mut self, slice: &Slice, num_traces: usize, trace: &Trace)
        requires
            old(self).wf(),
            trace.wf(),
        ensures
            final(self).wf(),
            final(self).extractors@.len() == old(self).extractors@.len(),
            forall|k: int|
                0 <= k < final(self).extractors@.len() ==> init_step(
                    old(self).extractors@[k],
                    #[trigger] final(self).extractors@[k],
                    *trace,
                ),
    {
        let mut i: usize = 0;
        while i < self.extractors.len()
            invariant
                self.wf(),
                trace.wf(),
                i <= self.extractors@.len(),
                self.extractors@.len() == old(self).extractors@.len(),
                forall|k: int| 0 <= k < i ==> init_step(old(self).extractors@[k], #[trigger] self.extractors@[k], *trace),
                forall|k: int| i <= k < self.extractors@.len() ==> #[trigger] self.extractors@[k] == old(self).extractors@[k],
            decreases self.extractors@.len() - i,
        {
            let ghost e0 = self.extractors@;
            self.extractors[i].init(slice, num_traces, trace);
            proof {
                assert forall|j: int| 0 <= j < self.extractors@.len() implies (#[trigger] self.extractors@[j]).wf() by {
                    if j != i {
                        assert(self.extractors@[j] == e0[j]);
                    }
                }
                assert forall|j: int| 0 <= j < self.extractors@.len() && j != i implies #[trigger] self.extractors@[j] == e0[j] by {}
            }
            i = i + 1;
        }
    }

    pub fn finalize(&mut self)
        requires
            old(self).wf(),
        ensures
            final(self).wf(),
            final(self).extractors@.len() == old(self).extractors@.len(),
            forall|k: int|
                0 <= k < final(self).extractors@.len() ==> finalize_step(
                    old(self).extractors@[k],
                    #[trigger] final(self).extractors@[k],
                ),
    {
        let mut i: usize = 0;
        while i < self.extractors.len()
            invariant
                self.wf(),
                i <= self.extractors@.len(),
                self.extractors@.len() == old(self).extractors@.len(),
                forall|k: int| 0 <= k < i ==> finalize_step(old(self).extractors@[k], #[trigger] self.extractors@[k]),
                forall|k: int| i <= k < self.extractors@.len() ==> #[trigger] self.extractors@[k] == old(self).extractors@[k],
            decreases self.extractors@.len() - i,
        {
            let ghost e0 = self.extractors@;
            self.extractors[i].finalize();
            proof {
                assert forall|j: int| 0 <= j < self.extractors@.len() implies (#[trigger] self.extractors@[j]).wf() by {
                    if j != i {
                        assert(self.extractors@[j] == e0[j]);
                    }
                }
                assert forall|j: int| 0 <= j < self.extractors@.len() && j != i implies #[trigger] self.extractors@[j] == e0[j] by {}
            }
            i = i + 1;
        }
    }

    /// Second pass: the record of one trace, keyed by extractor name, in the
    /// order of the extractors.
    pub fn extract_features(&self, slice: &Slice, trace: &Trace) -> (r: Vec<(String, Vec<i64>)>)
        requires
            self.wf(),
            trace.wf(),
        ensures
            r@.len() == self.extractors@.len(),
            forall|i: int|
                0 <= i < r@.len() ==> (#[trigger] r@[i]).0@ == name_of(self.extractors@[i])
                    && r@[i].1@ == features_of(self.extractors@[i], slice.callee, *trace),
    {
        let mut r: Vec<(String, Vec<i64>)> = Vec::new();
        let mut i: usize = 0;
        while i < self.extractors.len()
            invariant
                self.wf(),
                trace.wf(),
                i <= self.extractors@.len(),
                r@.len() == i,
                forall|k: int|
                    0 <= k < i ==> (#[trigger] r@[k]).0@ == name_of(self.extractors@[k])
                        && r@[k].1@ == features_of(self.extractors@[k], slice.callee, *trace),
            decreases self.extractors@.len() - i,
        {
            let e = &self.extractors[i];
            assert(self.extractors@[i as int].wf());
            r.push((e.name(), e.extract(slice, trace)));
            i = i + 1;
        }
        r
    }
}

/// The traces of all slices, one slice after the other.
pub open spec fn flatten(traces: Seq<Vec<Trace>>) -> Seq<Trace>
    decreases traces.len(),
{
    if traces.len() == 0 {
        Seq::empty()
    } else {
        flatten(traces.drop_last()) + traces.last()@
    }
}

/// How many calls of `g` the traces hold on side `dir` of their targets.
pub open spec fn side_calls(dir: TraceIterDirection, ts: Seq<Trace>, g: usize) -> nat
    decreases ts.len(),
{
    if ts.len() == 0 {
        0
    } else {
        side_calls(dir, ts.drop_last(), g) + count_in(
            side(dir, ts.last()),
            NodeTest::CallOf(g),
        )
    }
}

/// After the first pass over `ts` and finalizing: a Causality extractor has
/// counted every call on its side of the targets and keeps a top vocabulary
/// of those counts; the others stay.
pub open spec fn learnt(e0: FeatureExtractor, e1: FeatureExtractor, ts: Seq<Trace>) -> bool {
    match e0 {
        FeatureExtractor::Causality(c0) => e1 matches FeatureExtractor::Causality(c1) && c1.dir == c0.dir
            && c1.dictionary_size == c0.dictionary_size && (forall|g: usize|
            #[trigger] count_of(c1.counts@, g) == saturate(count_of(c0.counts@, g) + side_calls(c0.dir, ts, g)))
            && c1.counts@ == counts_after(c0.counts@, sides(c0.dir, ts))
            && is_top(c1.counts@, c1.dictionary@, c1.dictionary_size as nat)
            && c1.dictionary@ == top_dict(c1.counts@, Seq::new(c1.counts@.len(), |i: int| false), c1.dictionary_size as nat),
        _ => e1 == e0,
    }
}

/// Counts on one side after some traces (the first pass so far).
pub open spec fn counted(e0: FeatureExtractor, e1: FeatureExtractor, ts: Seq<Trace>) -> bool {
    match e0 {
        FeatureExtractor::Causality(c0) => e1 matches FeatureExtractor::Causality(c1) && c1.dir == c0.dir
            && c1.dictionary_size == c0.dictionary_size && c1.counts@ == counts_after(c0.counts@, sides(c0.dir, ts))
            && forall|g: usize|
            #[trigger] count_of(c1.counts@, g) == saturate(count_of(c0.counts@, g) + side_calls(c0.dir, ts, g)),
        _ => e1 == e0,
    }
}

/// The nodes on side `dir` of the targets of the traces, one trace after the other.
pub open spec fn sides(dir: TraceIterDirection, ts: Seq<Trace>) -> Seq<crate::state::TraceNode>
    decreases ts.len(),
{
    if ts.len() == 0 {
        Seq::empty()
    } else {
        sides(dir, ts.drop_last()) + side(dir, ts.last())
    }
}

proof fn lemma_counts_after_concat(s: Seq<(usize, u64)>, a: Seq<crate::state::TraceNode>, b: Seq<crate::state::TraceNode>)
    ensures
        counts_after(s, a + b) == counts_after(counts_after(s, a), b),
    decreases b.len(),
{
    if b.len() == 0 {
        assert(a + b =~= a);
    } else {
        lemma_counts_after_concat(s, a, b.drop_last());
        assert((a + b).drop_last() =~= a + b.drop_last());
        assert((a + b).last() == b.last());
    }
}

proof fn lemma_counted_step(e0: FeatureExtractor, e1: FeatureExtractor, e2: FeatureExtractor, ts: Seq<Trace>, tr: Trace)
    requires
        counted(e0, e1, ts),
        init_step(e1, e2, tr),
    ensures
        counted(e0, e2, ts.push(tr)),
{
    if let FeatureExtractor::Causality(c0) = e0 {
        if let FeatureExtractor::Causality(c1) = e1 {
            if let FeatureExtractor::Causality(c2) = e2 {
                assert(ts.push(tr).drop_last() =~= ts);
                lemma_counts_after_concat(c0.counts@, sides(c0.dir, ts), side(c0.dir, tr));
                assert forall|g: usize| #[trigger] count_of(c2.counts@, g) == saturate(
                    count_of(c0.counts@, g) + side_calls(c0.dir, ts.push(tr), g),
                ) by {
                    lemma_count_bound(c0.counts@, g);
                }
            }
        }
    }
}

/// Every trace of every slice targets a `Call` node.
pub open spec fn all_wf(traces: Seq<Vec<Trace>>) -> bool {
    forall|s: int, t: int| 0 <= s < traces.len() && 0 <= t < traces[s]@.len() ==> (#[trigger] traces[s]@[t]).wf()
}

impl FeatureExtractors {
    /// Both passes over the traces of the slices of one target: every trace
    /// goes through `initialize`, then the extractors are finalized, then
    /// each trace gets its record from the finalized extractors.
    /// `traces[s]` are the traces of `slices[s]`.
    pub fn extract_slices(&mut self, slices: &Vec<Slice>, traces: &Vec<Vec<Trace>>) -> (r: Vec<Vec<Vec<(String, Vec<i64>)>>>)
        requires
            old(self).wf(),
            slices@.len() == traces@.len(),
            all_wf(traces@),
        ensures
            final(self).wf(),
            r@.len() == traces@.len(),
            forall|s: int| 0 <= s < r@.len() ==> (#[trigger] r@[s])@.len() == traces@[s]@.len(),
            forall|s: int, t: int|
                0 <= s < r@.len() && 0 <= t < r@[s]@.len() ==> (#[trigger] r@[s]@[t])@.len()
                    == final(self).extractors@.len(),
            forall|s: int, t: int, k: int|
                0 <= s < r@.len() && 0 <= t < r@[s]@.len() && 0 <= k < r@[s]@[t]@.len() ==> {
                    &&& (#[trigger] r@[s]@[t]@[k]).0@ == name_of(final(self).extractors@[k])
                    &&& r@[s]@[t]@[k].1@ == features_of(final(self).extractors@[k], slices@[s].callee, traces@[s]@[t])
                },
            final(self).extractors@.len() == old(self).extractors@.len(),
            forall|k: int|
                0 <= k < final(self).extractors@.len() ==> learnt(
                    old(self).extractors@[k],
                    #[trigger] final(self).extractors@[k],
                    flatten(traces@),
                ),
    {
        let ghost e_old = self.extractors@;
        proof {
            assert(traces@.subrange(0, 0) =~= Seq::<Vec<Trace>>::empty());
            assert forall|k: int| 0 <= k < e_old.len() implies counted(e_old[k], #[trigger] self.extractors@[k], flatten(traces@.subrange(0, 0))) by {
                if let FeatureExtractor::Causality(c0) = e_old[k] {
                    assert forall|g: usize| #[trigger] count_of(c0.counts@, g) == saturate(
                        count_of(c0.counts@, g) + side_calls(c0.dir, flatten(traces@.subrange(0, 0)), g),
                    ) by {
                        lemma_count_bound(c0.counts@, g);
                    }
                }
            }
        }
        let mut s: usize = 0;
        while s < traces.len()
            invariant
                self.wf(),
                all_wf(traces@),
                slices@.len() == traces@.len(),
                s <= traces@.len(),
                self.extractors@.len() == e_old.len(),
                forall|k: int| 0 <= k < e_old.len() ==> counted(e_old[k], #[trigger] self.extractors@[k], flatten(traces@.subrange(0, s as int))),
            decreases traces@.len() - s,
        {
            let num_traces = traces[s].len();
            let mut t: usize = 0;
            let ghost done = flatten(traces@.subrange(0, s as int));
            proof {
                assert(traces@[s as int]@.subrange(0, 0) =~= Seq::<Trace>::empty());
                assert(done + traces@[s as int]@.subrange(0, 0) =~= done);
            }
            while t < num_traces
                invariant
                    self.wf(),
                    all_wf(traces@),
                    s < traces@.len(),
                    s < slices@.len(),
                    num_traces == traces@[s as int]@.len(),
                    t <= num_traces,
                    self.extractors@.len() == e_old.len(),
                    forall|k: int| 0 <= k < e_old.len() ==> counted(e_old[k], #[trigger] self.extractors@[k], done + traces@[s as int]@.subrange(0, t as int)),
                decreases num_traces - t,
            {
                assert(traces@[s as int]@[t as int].wf());
                let ghost e1 = self.extractors@;
                self.initialize(&slices[s], num_traces, &traces[s][t]);
                proof {
                    let tr = traces@[s as int]@[t as int];
                    assert((done + traces@[s as int]@.subrange(0, t as int)).push(tr) =~= done + traces@[s as int]@.subrange(0, t + 1));
                    assert forall|k: int| 0 <= k < e_old.len() implies counted(e_old[k], #[trigger] self.extractors@[k], done + traces@[s as int]@.subrange(0, t + 1)) by {
                        assert(init_step(e1[k], self.extractors@[k], tr));
                        assert(counted(e_old[k], e1[k], done + traces@[s as int]@.subrange(0, t as int)));
                        lemma_counted_step(e_old[k], e1[k], self.extractors@[k], done + traces@[s as int]@.subrange(0, t as int), tr);
                    }
                }
                t = t + 1;
            }
            proof {
                assert(traces@.subrange(0, s + 1).drop_last() =~= traces@.subrange(0, s as int));
                assert(traces@[s as int]@.subrange(0, num_traces as int) =~= traces@[s as int]@);
                assert(flatten(traces@.subrange(0, s + 1)) == done + traces@[s as int]@);
            }
            s = s + 1;
        }
        proof {
            assert(traces@.subrange(0, traces@.len() as int) =~= traces@);
        }
        let ghost e_mid = self.extractors@;
        self.finalize();
        proof {
            assert forall|k: int| 0 <= k < self.extractors@.len() implies learnt(e_old[k], #[trigger] self.extractors@[k], flatten(traces@)) by {
                assert(counted(e_old[k], e_mid[k], flatten(traces@)));
                assert(finalize_step(e_mid[k], self.extractors@[k]));
            }
        }
        let ghost e_final = self.extractors@;
        let mut r: Vec<Vec<Vec<(String, Vec<i64>)>>> = Vec::new();
        let mut s: usize = 0;
        while s < traces.len()
            invariant
                self.wf(),
                all_wf(traces@),
                slices@.len() == traces@.len(),
                s <= traces@.len(),
                r@.len() == s,
                forall|a: int| 0 <= a < s ==> (#[trigger] r@[a])@.len() == traces@[a]@.len(),
                forall|a: int, t: int|
                    0 <= a < s && 0 <= t < r@[a]@.len() ==> (#[trigger] r@[a]@[t])@.len() == self.extractors@.len(),
                forall|a: int, t: int, k: int|
                    0 <= a < s && 0 <= t < r@[a]@.len() && 0 <= k < r@[a]@[t]@.len() ==> {
                        &&& (#[trigger] r@[a]@[t]@[k]).0@ == name_of(self.extractors@[k])
                        &&& r@[a]@[t]@[k].1@ == features_of(self.extractors@[k], slices@[a].callee, traces@[a]@[t])
                    },
            decreases traces@.len() - s,
        {
            let mut records: Vec<Vec<(String, Vec<i64>)>> = Vec::new();
            let mut t: usize = 0;
            while t < traces[s].len()
                invariant
                    self.wf(),
                    all_wf(traces@),
                    slices@.len() == traces@.len(),
                    s < traces@.len(),
                    t <= traces@[s as int]@.len(),
                    records@.len() == t,
                    forall|u: int| 0 <= u < t ==> (#[trigger] records@[u])@.len() == self.extractors@.len(),
                    forall|u: int, k: int|
                        0 <= u < t && 0 <= k < records@[u]@.len() ==> {
                            &&& (#[trigger] records@[u]@[k]).0@ == name_of(self.extractors@[k])
                            &&& records@[u]@[k].1@ == features_of(self.extractors@[k], slices@[s as int].callee, traces@[s as int]@[u])
                        },
                decreases traces@[s as int]@.len() - t,
            {
                assert(traces@[s as int]@[t as int].wf());
                let rec = self.extract_features(&slices[s], &traces[s][t]);
                records.push(rec);
                t = t + 1;
            }
            r.push(records);
            s = s + 1;
        }
        r
    }
}

} // verus!
