//! The solver's rounds. A round solves every dirty component once, each
//! after the dirty components it calls into; what a component's analysis
//! finds may make others dirty for the next round, and the solver stops
//! after a round that leaves none dirty. Workers take jobs from the ready
//! queue while they are idle; a module's syntax is held by at most
//! `MODULE_CONCURRENCY` jobs at a time. The caller runs the analyses and
//! reports what each job found; the rounds decide what runs next.
use crate::flow::Summary;
use crate::function::{calls_indexed, EscCallGraph};
use crate::module_id::EscModuleId;
use crate::queue::{
    active_count, active_count_of, component_modules, components_below, home_module, in_ready, is_available,
    lemma_after_batch_within, module_queue, nothing_runnable, Ready, ReadyView,
};
use crate::schedule::{dirty_set, distinct_nodes, EscDependencies, SummaryStore};
use vstd::prelude::*;

verus! {

broadcast use vstd::seq_lib::group_seq_properties, vstd::set_lib::group_set_properties;

/// The first position that holds module `m`, if any.
pub open spec fn first_hold(active: Seq<(EscModuleId, usize)>, m: Seq<char>, k: int) -> bool {
    0 <= k < active.len() && active[k].0@ == m && forall|j: int| 0 <= j < k ==> (#[trigger] active[j]).0@ != m
}

proof fn lemma_count_at(active: Seq<(EscModuleId, usize)>, m: Seq<char>, k: int)
    requires
        first_hold(active, m, k),
    ensures
        active_count(active, m) == active[k].1,
    decreases k,
{
    if k > 0 {
        let rest = active.drop_first();
        assert(active[0].0@ != m);
        assert forall|j: int| 0 <= j < k - 1 implies (#[trigger] rest[j]).0@ != m by {
            assert(rest[j] == active[j + 1]);
        }
        lemma_count_at(rest, m, k - 1);
    }
}

proof fn lemma_count_absent(active: Seq<(EscModuleId, usize)>, m: Seq<char>)
    requires
        forall|j: int| 0 <= j < active.len() ==> (#[trigger] active[j]).0@ != m,
    ensures
        active_count(active, m) == 0,
    decreases active.len(),
{
    if active.len() > 0 {
        let rest = active.drop_first();
        assert forall|j: int| 0 <= j < rest.len() implies (#[trigger] rest[j]).0@ != m by {
            assert(rest[j] == active[j + 1]);
        }
        lemma_count_absent(rest, m);
    }
}

/// Setting the count at position `k`, which holds module `m`, changes the
/// count of `m` alone, and that only where `k` is its first position.
proof fn lemma_count_update(active: Seq<(EscModuleId, usize)>, k: int, e: (EscModuleId, usize), x: Seq<char>)
    requires
        0 <= k < active.len(),
        e.0@ == active[k].0@,
    ensures
        active_count(active.update(k, e), x) == (if first_hold(active, x, k) {
            e.1
        } else {
            active_count(active, x)
        }),
    decreases active.len(),
{
    let u = active.update(k, e);
    if k == 0 {
        assert(u[0].0@ == active[0].0@);
        assert(u.drop_first() =~= active.drop_first());
    } else {
        assert(u[0] == active[0]);
        assert(u.drop_first() =~= active.drop_first().update(k - 1, e));
        lemma_count_update(active.drop_first(), k - 1, e, x);
        let rest = active.drop_first();
        if active[0].0@ != x {
            if first_hold(active, x, k) {
                assert forall|j: int| 0 <= j < k - 1 implies (#[trigger] rest[j]).0@ != x by {
                    assert(rest[j] == active[j + 1]);
                }
                assert(first_hold(rest, x, k - 1));
            }
            if first_hold(rest, x, k - 1) {
                assert forall|j: int| 0 <= j < k implies (#[trigger] active[j]).0@ != x by {
                    if j > 0 {
                        assert(rest[j - 1] == active[j]);
                    }
                }
            }
        }
    }
}

/// Appending a new entry gives its module the entry's count where no entry
/// held that module before.
proof fn lemma_count_push(active: Seq<(EscModuleId, usize)>, e: (EscModuleId, usize), x: Seq<char>)
    requires
        forall|j: int| 0 <= j < active.len() ==> (#[trigger] active[j]).0@ != e.0@,
    ensures
        active_count(active.push(e), x) == (if x == e.0@ {
            e.1
        } else {
            active_count(active, x)
        }),
    decreases active.len(),
{
    let p = active.push(e);
    if active.len() == 0 {
        assert(p.drop_first() =~= Seq::<(EscModuleId, usize)>::empty());
    } else {
        assert(p.drop_first() =~= active.drop_first().push(e));
        assert forall|j: int| 0 <= j < active.drop_first().len() implies (#[trigger] active.drop_first()[j]).0@ != e.0@ by {
            assert(active.drop_first()[j] == active[j + 1]);
        }
        lemma_count_push(active.drop_first(), e, x);
        if x == e.0@ {
            assert(active[0].0@ != x);
        }
    }
}

/// Changes the count of module `m` by `up` (one more) or not `up` (one fewer).
fn adjust(active: &mut Vec<(EscModuleId, usize)>, m: &EscModuleId, up: bool)
    requires
        up ==> active_count(old(active)@, m@) < usize::MAX,
        !up ==> active_count(old(active)@, m@) > 0,
    ensures
        forall|x: Seq<char>| #[trigger] active_count(final(active)@, x) == (if x == m@ {
            if up {
                active_count(old(active)@, x) + 1
            } else {
                active_count(old(active)@, x) - 1
            }
        } else {
            active_count(old(active)@, x) as int
        }),
{
    let ghost start = active@;
    let mut k: usize = 0;
    while k < active.len()
        invariant
            active@ == start,
            start == old(active)@,
            up ==> active_count(start, m@) < usize::MAX,
            !up ==> active_count(start, m@) > 0,
            0 <= k <= active@.len(),
            forall|j: int| 0 <= j < k ==> (#[trigger] active@[j]).0@ != m@,
        decreases active@.len() - k,
    {
        if active[k].0.same(m) {
            proof {
                lemma_count_at(start, m@, k as int);
            }
            let n = active[k].1;
            let v = if up { n + 1 } else { n - 1 };
            let id = active[k].0.duplicate();
            active.set(k, (id, v));
            proof {
                assert forall|x: Seq<char>| #[trigger] active_count(active@, x) == (if x == m@ {
                    if up { active_count(start, x) + 1 } else { active_count(start, x) - 1 }
                } else {
                    active_count(start, x) as int
                }) by {
                    assert(active@ =~= start.update(k as int, (id, v)));
                    lemma_count_update(start, k as int, (id, v), x);
                    if first_hold(start, x, k as int) {
                        assert(x == m@);
                    }
                    if x == m@ {
                        assert(first_hold(start, x, k as int));
                    }
                }
            }
            return;
        }
        k = k + 1;
    }
    proof {
        lemma_count_absent(start, m@);
    }
    let e = (m.duplicate(), 1usize);
    active.push(e);
    proof {
        assert forall|x: Seq<char>| #[trigger] active_count(active@, x) == (if x == m@ {
            if up { active_count(start, x) + 1 } else { active_count(start, x) - 1 }
        } else {
            active_count(start, x) as int
        }) by {
            lemma_count_push(start, e, x);
        }
    }
}

/// The count of `x` after each module of `mods` changed once by `up`.
pub open spec fn adjusted(before: usize, mods: Seq<Seq<char>>, x: Seq<char>, up: bool) -> int {
    if mods.contains(x) {
        if up {
            before + 1
        } else {
            before - 1
        }
    } else {
        before as int
    }
}

/// Holds (`up`) or releases each module of component `c` once, however many
/// of its members the module has.
pub fn adjust_component(active: &mut Vec<(EscModuleId, usize)>, graph: &EscCallGraph, c: usize, up: bool)
    requires
        c < graph.sccs@.len(),
        forall|x: Seq<char>| #[trigger] component_modules(graph.sccs@, c as int).contains(x) ==> (if up {
            active_count(old(active)@, x) < usize::MAX
        } else {
            active_count(old(active)@, x) > 0
        }),
    ensures
        forall|x: Seq<char>| #[trigger] active_count(final(active)@, x) == adjusted(active_count(old(active)@, x), component_modules(graph.sccs@, c as int), x, up),
{
    let ghost mods = component_modules(graph.sccs@, c as int);
    let members = &graph.sccs[c];
    let mut j: usize = 0;
    while j < members.len()
        invariant
            c < graph.sccs@.len(),
            *members == graph.sccs@[c as int],
            mods == component_modules(graph.sccs@, c as int),
            0 <= j <= members@.len(),
            forall|x: Seq<char>| #[trigger] mods.contains(x) ==> (if up {
                active_count(old(active)@, x) < usize::MAX
            } else {
                active_count(old(active)@, x) > 0
            }),
            forall|x: Seq<char>| #[trigger] active_count(active@, x) == adjusted(active_count(old(active)@, x), mods.take(j as int), x, up),
        decreases members@.len() - j,
    {
        let m = members[j].module_id();
        assert(mods[j as int] == m@);
        let mut earlier = false;
        let mut i: usize = 0;
        while i < j
            invariant
                *members == graph.sccs@[c as int],
                mods == component_modules(graph.sccs@, c as int),
                0 <= i <= j < members@.len(),
                m@ == mods[j as int],
                earlier == exists|k: int| 0 <= k < i && #[trigger] mods[k] == m@,
            decreases j - i,
        {
            assert(mods[i as int] == members@[i as int]@.module_id);
            if members[i].module_id().same(m) {
                earlier = true;
            }
            i = i + 1;
        }
        proof {
            assert(mods.take(j + 1) =~= mods.take(j as int).push(m@));
            if earlier {
                let k = choose|k: int| 0 <= k < j && #[trigger] mods[k] == m@;
                assert(mods.take(j as int)[k] == m@);
            } else {
                assert(!mods.take(j as int).contains(m@));
            }
            assert(mods.contains(m@));
            assert(active_count(active@, m@) == adjusted(active_count(old(active)@, m@), mods.take(j as int), m@, up));
        }
        if !earlier {
            let ghost a0 = active@;
            adjust(active, m, up);
            proof {
                assert forall|x: Seq<char>| #[trigger] active_count(active@, x) == adjusted(active_count(old(active)@, x), mods.take(j + 1), x, up) by {
                    assert(active_count(a0, x) == adjusted(active_count(old(active)@, x), mods.take(j as int), x, up));
                }
            }
        } else {
            proof {
                assert forall|x: Seq<char>| #[trigger] active_count(active@, x) == adjusted(active_count(old(active)@, x), mods.take(j + 1), x, up) by {
                    assert(mods.take(j + 1).contains(x) == mods.take(j as int).contains(x));
                }
            }
        }
        j = j + 1;
    }
    assert(mods.take(j as int) =~= mods);
}

/// Whether every component of the graph has a member.
pub open spec fn nonempty_components(graph: &EscCallGraph) -> bool {
    forall|c: int| 0 <= c < graph.sccs@.len() ==> (#[trigger] graph.sccs@[c])@.len() > 0
}

/// Whether every module of component `c` is held at least once.
pub open spec fn all_held(sccs: Seq<Vec<crate::function::EscFnId>>, active: Seq<(EscModuleId, usize)>, c: int) -> bool {
    forall|x: Seq<char>| #[trigger] component_modules(sccs, c).contains(x) ==> active_count(active, x) > 0
}

/// Whether every module of component `c` is held at least once.
fn holds_all(active: &Vec<(EscModuleId, usize)>, graph: &EscCallGraph, c: usize) -> (r: bool)
    requires
        c < graph.sccs@.len(),
    ensures
        r == all_held(graph.sccs@, active@, c as int),
{
    let ghost mods = component_modules(graph.sccs@, c as int);
    let members = &graph.sccs[c];
    let mut j: usize = 0;
    while j < members.len()
        invariant
            c < graph.sccs@.len(),
            *members == graph.sccs@[c as int],
            mods == component_modules(graph.sccs@, c as int),
            0 <= j <= members@.len(),
            forall|k: int| 0 <= k < j ==> active_count(active@, #[trigger] mods[k]) > 0,
        decreases members@.len() - j,
    {
        assert(mods[j as int] == members@[j as int]@.module_id);
        if active_count_of(active, members[j].module_id()) == 0 {
            assert(mods.contains(mods[j as int]));
            return false;
        }
        j = j + 1;
    }
    true
}

/// Queues component `c` and keeps every queued component below `n`.
fn push_ready(ready: &mut Ready, c: usize, graph: &EscCallGraph, n: usize)
    requires
        old(ready).wf(),
        components_below(old(ready)@, n as int),
        c < n,
        n == graph.sccs@.len(),
        graph.sccs@[c as int]@.len() > 0,
    ensures
        final(ready).wf(),
        components_below(final(ready)@, n as int),
        forall|x: usize| #[trigger] in_ready(final(ready)@, x) <==> (in_ready(old(ready)@, x) || x == c),
{
    let ghost v0 = ready@;
    ready.push(c, graph);
    proof {
        let h = home_module(graph.sccs@, c as int);
        let v1 = ready@;
        let q = module_queue(v0.modules, h);
        assert(v1.modules[h] == q.push(c));
        assert forall|m: Seq<char>, j: int|
            #![trigger v1.modules[m][j]]
            v1.modules.contains_key(m) && 0 <= j < v1.modules[m].len() implies v1.modules[m][j] < n by {
            if m == h {
                if j < q.len() {
                    assert(v0.modules.contains_key(h));
                    assert(v1.modules[m][j] == v0.modules[h][j]);
                }
            } else {
                assert(v1.modules[m] == v0.modules[m]);
            }
        }
        assert forall|x: usize| #[trigger] in_ready(v1, x) <==> (in_ready(v0, x) || x == c) by {
            if in_ready(v1, x) {
                let m = choose|m: Seq<char>| #[trigger] v1.modules.contains_key(m) && v1.modules[m].contains(x);
                if m == h {
                    let j = choose|j: int| 0 <= j < v1.modules[m].len() && v1.modules[m][j] == x;
                    if j < q.len() {
                        assert(v0.modules.contains_key(h));
                        assert(v0.modules[h][j] == x);
                        assert(v0.modules[h].contains(x));
                    }
                } else {
                    assert(v0.modules.contains_key(m));
                }
            }
            if in_ready(v0, x) {
                let m = choose|m: Seq<char>| #[trigger] v0.modules.contains_key(m) && v0.modules[m].contains(x);
                assert(v1.modules.contains_key(m));
                let j = choose|j: int| 0 <= j < v0.modules[m].len() && v0.modules[m][j] == x;
                if m == h {
                    assert(q == v0.modules[h]);
                    assert(v1.modules[m][j] == x);
                } else {
                    assert(v1.modules[m] == v0.modules[m]);
                }
                assert(v1.modules[m].contains(x));
            }
            if x == c {
                assert(v1.modules.contains_key(h));
                assert(v1.modules[h][q.len() as int] == c);
                assert(v1.modules[h].contains(x));
            }
        }
    }
}

/// The solver's rounds over the components of a call graph.
#[derive(Debug)]
pub struct Rounds {
    count: usize,
    workers: usize,
    idle: usize,
    left: usize,
    deps: EscDependencies,
    dirty: Vec<bool>,
    next_dirty: Vec<bool>,
    remaining: Vec<usize>,
    finished: Vec<bool>,
    ready: Ready,
    active: Vec<(EscModuleId, usize)>,
    in_round: bool,
}

/// How many entries of `flags` are set.
pub open spec fn set_count(flags: Seq<bool>) -> nat
    decreases flags.len(),
{
    if flags.len() == 0 {
        0
    } else {
        set_count(flags.drop_last()) + if flags.last() { 1nat } else { 0nat }
    }
}

/// Whether a component is dirty and not yet completed.
pub open spec fn open_in(dirty: Seq<bool>, finished: Seq<bool>) -> spec_fn(usize) -> bool {
    |x: usize| (x as int) < dirty.len() && dirty[x as int] && !finished[x as int]
}

/// How many dirty dependencies of component `c` are not yet completed.
pub open spec fn waiting(deps: EscDependencies, c: int, dirty: Seq<bool>, finished: Seq<bool>) -> nat {
    deps.dependencies_of(c).filter(open_in(dirty, finished)).len()
}

/// The components that are dirty and not yet completed.
pub open spec fn open_flags(dirty: Seq<bool>, finished: Seq<bool>) -> Seq<bool> {
    Seq::new(dirty.len(), |i: int| dirty[i] && !finished[i])
}

impl Rounds {
    /// The number of components.
    pub closed spec fn count(&self) -> nat {
        self.count as nat
    }

    /// The number of workers.
    pub closed spec fn workers(&self) -> nat {
        self.workers as nat
    }

    /// How many workers wait for a job.
    pub closed spec fn idle(&self) -> nat {
        self.idle as nat
    }

    /// How many dirty components of the round are not yet completed.
    pub closed spec fn left(&self) -> nat {
        self.left as nat
    }

    /// The components to solve in this round.
    pub closed spec fn dirty(&self) -> Seq<bool> {
        self.dirty@
    }

    /// The components found to need another round.
    pub closed spec fn next_dirty(&self) -> Seq<bool> {
        self.next_dirty@
    }

    /// The dirty components completed in this round.
    pub closed spec fn finished(&self) -> Seq<bool> {
        self.finished@
    }

    /// For each component, how many of its dirty dependencies it waits for.
    pub closed spec fn remaining(&self) -> Seq<usize> {
        self.remaining@
    }

    /// The ready queue.
    pub closed spec fn ready(&self) -> ReadyView {
        self.ready@
    }

    /// How many running jobs hold each module, by first entry.
    pub closed spec fn active(&self) -> Seq<(EscModuleId, usize)> {
        self.active@
    }

    /// The dependencies between components.
    pub closed spec fn deps(&self) -> EscDependencies {
        self.deps
    }

    /// Whether a round has begun and not yet ended.
    pub closed spec fn in_round(&self) -> bool {
        self.in_round
    }

    pub closed spec fn wf(&self) -> bool {
        &&& self.deps.wf()
        &&& self.deps.shape().0 == self.count
        &&& self.dirty@.len() == self.count
        &&& self.next_dirty@.len() == self.count
        &&& self.remaining@.len() == self.count
        &&& self.finished@.len() == self.count
        &&& self.ready.wf()
        &&& components_below(self.ready@, self.count as int)
        &&& self.idle <= self.workers
        &&& self.left == set_count(open_flags(self.dirty@, self.finished@))
        &&& forall|c: int, d: int| 0 <= c < self.count && 0 <= d < self.count
            ==> (#[trigger] self.deps.dependents_of(c).contains(d as usize) <==> #[trigger] self.deps.dependencies_of(d).contains(c as usize))
        &&& self.in_round ==> forall|c: int| 0 <= c < self.count && self.dirty@[c] && !self.finished@[c]
            ==> #[trigger] self.remaining@[c] == waiting(self.deps, c, self.dirty@, self.finished@)
        &&& self.in_round ==> forall|x: usize| #[trigger] in_ready(self.ready@, x)
            ==> x < self.count && self.dirty@[x as int] && (self.finished@[x as int] || self.remaining@[x as int] == 0)
    }

    /// Within a round, a queued component that is not completed waits for
    /// no dirty dependency: each has completed.
    pub proof fn lemma_ready_after_dependencies(&self)
        requires
            self.wf(),
            self.in_round(),
        ensures
            forall|x: usize, d: usize| #[trigger] in_ready(self.ready(), x) && !self.finished()[x as int]
                && #[trigger] self.deps().dependencies_of(x as int).contains(d) && self.dirty()[d as int] ==> self.finished()[d as int],
    {
        assert forall|x: usize, d: usize| #[trigger] in_ready(self.ready(), x) && !self.finished()[x as int]
            && #[trigger] self.deps().dependencies_of(x as int).contains(d) && self.dirty()[d as int] implies self.finished()[d as int] by {
            self.deps.lemma_components();
            let f = self.deps.dependencies_of(x as int).filter(open_in(self.dirty@, self.finished@));
            self.deps.lemma_finite(x as int);
            if !self.finished@[d as int] {
                assert(f.contains(d));
                vstd::set_lib::lemma_set_empty_equivalency_len(f);
            }
        }
    }

    /// A round is done exactly when every dirty component is completed.
    pub proof fn lemma_round_done(&self)
        requires
            self.wf(),
        ensures
            (self.left() == 0) <==> forall|c: int| 0 <= c < self.count() && #[trigger] self.dirty()[c] ==> self.finished()[c],
    {
        let o = open_flags(self.dirty@, self.finished@);
        if self.left == 0 {
            assert forall|c: int| 0 <= c < self.count() && #[trigger] self.dirty()[c] implies self.finished()[c] by {
                if !self.finished@[c] {
                    assert(o[c]);
                    lemma_set_positive(o, c);
                }
            }
        } else {
            if forall|c: int| 0 <= c < self.count() && #[trigger] self.dirty()[c] ==> self.finished()[c] {
                assert forall|c: int| 0 <= c < o.len() implies !#[trigger] o[c] by {
                    if self.dirty()[c] {
                        assert(self.finished()[c]);
                    }
                }
                lemma_set_zero(o);
            }
        }
    }

    /// The rounds of `graph` with `workers` workers, at least one and at
    /// most one per component. Every component is dirty for the first round.
    pub fn new(graph: &EscCallGraph, workers: usize) -> (r: Rounds)
        requires
            calls_indexed(graph),
            graph.sccs@.len() > 0,
        ensures
            r.wf(),
            r.count() == graph.sccs@.len(),
            r.workers() == (if workers == 0 { 1 } else if workers > graph.sccs@.len() { graph.sccs@.len() as int } else { workers as int }),
            r.idle() == r.workers(),
            r.left() == graph.sccs@.len(),
            forall|c: int| 0 <= c < graph.sccs@.len() ==> #[trigger] r.dirty()[c],
            forall|c: int, d: usize| 0 <= c < graph.sccs@.len() ==> (#[trigger] r.deps().dependencies_of(c).contains(d) <==> crate::schedule::depends_on(graph, c, d as int)),
            r.deps().shape() == (graph.sccs@.len() as int, graph.component_of@.len() as int),
            r.active().len() == 0,
    {
        let count = graph.sccs.len();
        let w0 = if workers == 0 { 1 } else { workers };
        let w = if w0 > count { count } else { w0 };
        let deps = EscDependencies::new(graph);
        let mut dirty: Vec<bool> = Vec::new();
        let mut next_dirty: Vec<bool> = Vec::new();
        let mut remaining: Vec<usize> = Vec::new();
        let mut finished: Vec<bool> = Vec::new();
        let mut i: usize = 0;
        while i < count
            invariant
                0 <= i <= count,
                dirty@.len() == i,
                next_dirty@.len() == i,
                remaining@.len() == i,
                finished@.len() == i,
                forall|c: int| 0 <= c < i ==> #[trigger] dirty@[c] && !finished@[c],
            decreases count - i,
        {
            dirty.push(true);
            next_dirty.push(false);
            remaining.push(0);
            finished.push(false);
            i = i + 1;
        }
        let ready = Ready::new();
        proof {
            assert(ready@.modules.dom() =~= Set::<Seq<char>>::empty());
        }
        proof {
            let o = open_flags(dirty@, finished@);
            assert(o =~= dirty@);
            lemma_set_all(o);
        }
        proof {
            assert forall|c: int, d: int| 0 <= c < count && 0 <= d < count
                implies (#[trigger] deps.dependents_of(c).contains(d as usize) <==> #[trigger] deps.dependencies_of(d).contains(c as usize)) by {
                assert(deps.dependents_of(c).contains(d as usize) <==> crate::schedule::depends_on(graph, d, c));
                assert(deps.dependencies_of(d).contains(c as usize) <==> crate::schedule::depends_on(graph, d, c));
            }
        }
        Rounds { count, workers: w, idle: w, left: count, deps, dirty, next_dirty, remaining, finished, ready, active: Vec::new(), in_round: false }
    }
}

proof fn lemma_set_count(flags: Seq<bool>, i: int)
    requires
        0 <= i < flags.len(),
    ensures
        set_count(flags.take(i + 1)) == set_count(flags.take(i)) + if flags[i] { 1nat } else { 0nat },
        set_count(flags.take(i)) <= i,
    decreases i,
{
    assert(flags.take(i + 1).drop_last() =~= flags.take(i));
    if i > 0 {
        lemma_set_count(flags, i - 1);
    } else {
        assert(flags.take(0) =~= Seq::<bool>::empty());
    }
}

impl Rounds {
    /// Starts a round, unless no component is dirty: then the solver is done
    /// and nothing changes. Each dirty component counts its dirty
    /// dependencies, and those with none are queued in increasing order; no
    /// component is completed yet or marked for the next round.
    pub fn begin_round(&mut self, graph: &EscCallGraph) -> (more: bool)
        requires
            old(self).wf(),
            graph.sccs@.len() == old(self).count(),
            nonempty_components(graph),
        ensures
            final(self).wf(),
            more == exists|c: int| 0 <= c < old(self).count() && #[trigger] old(self).dirty()[c],
            !more ==> *final(self) == *old(self),
            more ==> {
                &&& final(self).in_round()
                &&& final(self).count() == old(self).count()
                &&& final(self).workers() == old(self).workers()
                &&& final(self).idle() == old(self).idle()
                &&& final(self).active() == old(self).active()
                &&& final(self).deps() == old(self).deps()
                &&& final(self).dirty() == old(self).dirty()
                &&& final(self).left() == set_count(old(self).dirty())
                &&& forall|c: int| 0 <= c < old(self).count() ==> !(#[trigger] final(self).next_dirty()[c]) && !final(self).finished()[c]
                &&& forall|c: int| 0 <= c < old(self).count() && old(self).dirty()[c] ==> #[trigger] final(self).remaining()[c] == old(self).deps().dependencies_of(c).filter(dirty_set(old(self).dirty())).len()
                &&& forall|c: int| 0 <= c < old(self).count() && !old(self).dirty()[c] ==> #[trigger] final(self).remaining()[c] == old(self).remaining()[c]
                &&& forall|x: usize| #[trigger] in_ready(final(self).ready(), x) <==> (x < old(self).count() && old(self).dirty()[x as int] && final(self).remaining()[x as int] == 0)
            },
    {
        let n = self.count;
        let mut left: usize = 0;
        let mut i: usize = 0;
        while i < n
            invariant
                self.wf(),
                n == self.count,
                0 <= i <= n,
                left == set_count(self.dirty@.take(i as int)),
                left <= i,
            decreases n - i,
        {
            proof {
                lemma_set_count(self.dirty@, i as int);
            }
            if self.dirty[i] {
                left = left + 1;
            }
            i = i + 1;
        }
        proof {
            assert(self.dirty@.take(n as int) =~= self.dirty@);
        }
        if left == 0 {
            proof {
                assert forall|c: int| 0 <= c < n implies !#[trigger] self.dirty@[c] by {
                    if self.dirty@[c] {
                        lemma_set_positive(self.dirty@, c);
                    }
                }
            }
            return false;
        }
        proof {
            if forall|c: int| 0 <= c < n ==> !#[trigger] self.dirty@[c] {
                lemma_set_zero(self.dirty@);
            }
        }
        let ghost witness = choose|c: int| 0 <= c < n && #[trigger] self.dirty@[c];
        self.in_round = false;
        let list = self.deps.start_round(&self.dirty, &mut self.remaining);
        let mut ready = Ready::new();
        proof {
            assert(ready@.modules.dom() =~= Set::<Seq<char>>::empty());
        }
        let mut k: usize = 0;
        while k < list.len()
            invariant
                self.wf(),
                left == set_count(old(self).dirty@),
                self.dirty@ == old(self).dirty@,
                n == self.count,
                n == graph.sccs@.len(),
                nonempty_components(graph),
                forall|c: usize| list@.contains(c) <==> (c < n && self.dirty@[c as int] && self.remaining@[c as int] == 0),
                0 <= k <= list@.len(),
                ready.wf(),
                components_below(ready@, n as int),
                forall|x: usize| #[trigger] in_ready(ready@, x) <==> list@.take(k as int).contains(x),
            decreases list@.len() - k,
        {
            let c = list[k];
            assert(list@.contains(c));
            push_ready(&mut ready, c, graph, n);
            proof {
                assert(list@.take(k + 1) =~= list@.take(k as int).push(c));
            }
            k = k + 1;
        }
        proof {
            assert(list@.take(k as int) =~= list@);
        }
        self.ready = ready;
        let mut j: usize = 0;
        while j < n
            invariant
                self.deps.wf(),
                self.deps.shape().0 == self.count,
                self.dirty@.len() == self.count,
                self.next_dirty@.len() == self.count,
                self.remaining@.len() == self.count,
                self.finished@.len() == self.count,
                self.ready.wf(),
                components_below(self.ready@, self.count as int),
                self.idle <= self.workers,
                left == set_count(old(self).dirty@),
                n == self.count,
                0 <= j <= n,
                forall|c: int| 0 <= c < j ==> !(#[trigger] self.next_dirty@[c]) && !self.finished@[c],
                self.dirty@ == old(self).dirty@,
                self.deps == old(self).deps,
                self.idle == old(self).idle,
                self.workers == old(self).workers,
                self.active@ == old(self).active@,
                self.ready@ == ready@,
                forall|x: usize| #[trigger] in_ready(self.ready@, x) <==> (x < n && self.dirty@[x as int] && self.remaining@[x as int] == 0),
                forall|c: int| 0 <= c < n && old(self).dirty@[c] ==> #[trigger] self.remaining@[c] == old(self).deps.dependencies_of(c).filter(dirty_set(old(self).dirty@)).len(),
                forall|c: int| 0 <= c < n && !old(self).dirty@[c] ==> #[trigger] self.remaining@[c] == old(self).remaining@[c],
            decreases n - j,
        {
            let ghost nd = self.next_dirty@;
            let ghost fi = self.finished@;
            self.next_dirty.set(j, false);
            self.finished.set(j, false);
            proof {
                assert forall|c: int| 0 <= c < j + 1 implies !(#[trigger] self.next_dirty@[c]) && !self.finished@[c] by {
                    if c < j {
                        assert(!nd[c] && !fi[c]);
                    }
                }
            }
            j = j + 1;
        }
        self.left = left;
        self.in_round = true;
        proof {
            assert forall|c: int| 0 <= c < n implies !#[trigger] self.finished@[c] by {
                assert(!self.next_dirty@[c]);
            }
            assert(open_flags(self.dirty@, self.finished@) =~= self.dirty@);
            assert(open_in(self.dirty@, self.finished@) =~= dirty_set(self.dirty@));
        }
        assert(old(self).dirty()[witness]);
        true
    }
}

impl Rounds {
    /// Gives an idle worker its next job: the component the ready queue
    /// gives first, preferring the module `preferred`, then as many further
    /// ready components of its module as a batch takes. The job's modules
    /// are held until it completes. `None` when no worker is idle, or when no
    /// ready component can run; the visiting order is then tidied.
    pub fn dispatch(&mut self, preferred: Option<&EscModuleId>, graph: &EscCallGraph) -> (r: Option<Vec<usize>>)
        requires
            old(self).wf(),
            graph.sccs@.len() == old(self).count(),
            nonempty_components(graph),
        ensures
            final(self).wf(),
            r is None <==> (old(self).idle() == 0 || nothing_runnable(old(self).ready(), graph.sccs@, old(self).active())),
            old(self).idle() == 0 ==> *final(self) == *old(self),
            final(self).in_round() == old(self).in_round(),
            final(self).count() == old(self).count(),
            final(self).workers() == old(self).workers(),
            final(self).left() == old(self).left(),
            final(self).deps() == old(self).deps(),
            final(self).dirty() == old(self).dirty(),
            final(self).next_dirty() == old(self).next_dirty(),
            final(self).remaining() == old(self).remaining(),
            final(self).finished() == old(self).finished(),
            r is None ==> final(self).idle() == old(self).idle() && final(self).active() == old(self).active()
                && final(self).ready().modules == old(self).ready().modules,
            r matches Some(jobs) ==> {
                &&& final(self).idle() == old(self).idle() - 1
                &&& 1 <= jobs@.len() <= crate::queue::BATCH_SIZE
                &&& in_ready(old(self).ready(), jobs@[0])
                &&& old(self).in_round() && !old(self).finished()[jobs@[0] as int] ==> forall|d: usize|
                    #[trigger] old(self).deps().dependencies_of(jobs@[0] as int).contains(d) && old(self).dirty()[d as int] ==> old(self).finished()[d as int]
                &&& is_available(graph.sccs@, old(self).active(), jobs@[0] as int)
                &&& forall|j: int| 0 <= j < jobs@.len() ==> #[trigger] jobs@[j] < old(self).count()
                &&& forall|x: Seq<char>| #[trigger] active_count(final(self).active(), x) == adjusted(active_count(old(self).active(), x), component_modules(graph.sccs@, jobs@[0] as int), x, true)
            },
    {
        if self.idle == 0 {
            return None;
        }
        match self.ready.pop(preferred, &self.active, graph) {
            None => {
                proof {
                    if self.in_round {
                        assert forall|x: usize| #[trigger] in_ready(self.ready@, x)
                            implies x < self.count && self.dirty@[x as int] && (self.finished@[x as int] || self.remaining@[x as int] == 0) by {
                            assert(in_ready(old(self).ready@, x));
                        }
                    }
                }
                None
            },
            Some(c) => {
                proof {
                    let m = choose|m: Seq<char>| #[trigger] old(self).ready@.modules.contains_key(m) && old(self).ready@.modules[m][0] == c;
                    assert(old(self).ready@.modules[m].len() > 0) by {
                        self.ready.lemma_ready_wf();
                        old(self).ready.lemma_ready_wf();
                    }
                    assert(old(self).ready@.modules[m].contains(c));
                    assert(in_ready(old(self).ready@, c));
                    if old(self).in_round && !old(self).finished@[c as int] {
                        old(self).lemma_ready_after_dependencies();
                        assert(in_ready(old(self).ready(), c));
                        assert forall|d: usize| #[trigger] old(self).deps().dependencies_of(c as int).contains(d) && old(self).dirty()[d as int]
                            implies old(self).finished()[d as int] by {
                            assert(in_ready(old(self).ready(), c) && !old(self).finished()[c as int]);
                        }
                    }
                    assert(c < self.count) by {
                        assert(old(self).ready@.modules[m][0] < self.count);
                    }
                    assert forall|x: Seq<char>| #[trigger] component_modules(graph.sccs@, c as int).contains(x) implies active_count(self.active@, x) < usize::MAX by {
                        let j = choose|j: int| 0 <= j < component_modules(graph.sccs@, c as int).len() && component_modules(graph.sccs@, c as int)[j] == x;
                    }
                }
                let ghost mid = self.ready@;
                let jobs = self.ready.batch(c, graph);
                proof {
                    let h = home_module(graph.sccs@, c as int);
                    let q = module_queue(mid.modules, h);
                    assert forall|j: int| 0 <= j < jobs@.len() implies #[trigger] jobs@[j] < self.count by {
                        if j > 0 {
                            assert(jobs@.drop_first()[j - 1] == jobs@[j]);
                            assert(q.take(jobs@.len() - 1)[j - 1] == q[j - 1]);
                            assert(mid.modules.contains_key(h));
                            assert(q[j - 1] == mid.modules[h][j - 1]);
                        }
                    }
                }
                proof {
                    let h = home_module(graph.sccs@, c as int);
                    lemma_after_batch_within(mid, self.ready@, h, jobs@.len() - 1);
                    if self.in_round {
                        assert forall|x: usize| #[trigger] in_ready(self.ready@, x)
                            implies x < self.count && self.dirty@[x as int] && (self.finished@[x as int] || self.remaining@[x as int] == 0) by {
                            assert(in_ready(mid, x));
                            assert(in_ready(old(self).ready@, x));
                        }
                    }
                }
                adjust_component(&mut self.active, graph, c, true);
                self.idle = self.idle - 1;
                Some(jobs)
            },
        }
    }

    /// How many jobs are running.
    pub fn in_flight(&self) -> (r: usize)
        requires
            self.wf(),
        ensures
            r == self.workers() - self.idle(),
    {
        self.workers - self.idle
    }

    /// Whether every dirty component of the round is completed.
    pub fn round_done(&self) -> (r: bool)
        requires
            self.wf(),
        ensures
            r == (self.left() == 0),
            r == forall|c: int| 0 <= c < self.count() && #[trigger] self.dirty()[c] ==> self.finished()[c],
    {
        proof {
            self.lemma_round_done();
        }
        self.left == 0
    }

    /// Marks component `c` for the next round: facts it consumed changed.
    pub fn mark(&mut self, c: usize)
        requires
            old(self).wf(),
            c < old(self).count(),
        ensures
            final(self).wf(),
            final(self).next_dirty() == old(self).next_dirty().update(c as int, true),
            final(self).in_round() == old(self).in_round(),
            final(self).count() == old(self).count(),
            final(self).workers() == old(self).workers(),
            final(self).idle() == old(self).idle(),
            final(self).left() == old(self).left(),
            final(self).deps() == old(self).deps(),
            final(self).dirty() == old(self).dirty(),
            final(self).remaining() == old(self).remaining(),
            final(self).finished() == old(self).finished(),
            final(self).ready() == old(self).ready(),
            final(self).active() == old(self).active(),
    {
        self.next_dirty.set(c, true);
    }
}

/// Whether a summary that one of `reads` saw has a newer version now.
pub open spec fn read_stale(versions: Seq<u64>, reads: Seq<(usize, u64)>) -> bool {
    exists|k: int| 0 <= k < reads.len() && versions[(#[trigger] reads[k]).0 as int] != reads[k].1
}

impl Rounds {
    /// Takes in what the analysis of `component` found, as
    /// `SummaryStore::absorb` does: the component becomes a reader of the
    /// nodes it read, and a stale read or a summary that changed marks
    /// components for the next round.
    pub fn record(&mut self, store: &mut SummaryStore, component: usize, reads: &Vec<(usize, u64)>, summaries: Vec<(usize, Summary)>)
        requires
            old(self).wf(),
            old(store).summaries().len() == old(self).deps().shape().1,
            forall|k: int| 0 <= k < reads@.len() ==> (#[trigger] reads@[k]).0 < old(self).deps().shape().1,
            forall|k: int| 0 <= k < summaries@.len() ==> (#[trigger] summaries@[k]).0 < old(self).deps().shape().1 && old(store).versions()[summaries@[k].0 as int] < u64::MAX,
            distinct_nodes(summaries@),
            component < old(self).count(),
        ensures
            final(self).wf(),
            final(self).in_round() == old(self).in_round(),
            final(self).count() == old(self).count(),
            final(self).workers() == old(self).workers(),
            final(self).idle() == old(self).idle(),
            final(self).left() == old(self).left(),
            final(self).dirty() == old(self).dirty(),
            final(self).remaining() == old(self).remaining(),
            final(self).finished() == old(self).finished(),
            final(self).ready() == old(self).ready(),
            final(self).active() == old(self).active(),
            final(self).deps().shape() == old(self).deps().shape(),
            forall|d: int| #[trigger] final(self).deps().dependencies_of(d) == old(self).deps().dependencies_of(d),
            forall|d: int| #[trigger] final(self).deps().dependents_of(d) == old(self).deps().dependents_of(d),
            forall|m: int| 0 <= m < old(self).deps().shape().1 ==> #[trigger] final(self).deps().readers_of(m) == (if exists|k: int| 0 <= k < reads@.len() && (#[trigger] reads@[k]).0 == m {
                old(self).deps().readers_of(m).insert(component)
            } else {
                old(self).deps().readers_of(m)
            }),
            final(store).summaries().len() == old(store).summaries().len(),
            forall|m: int| 0 <= m < old(store).summaries().len() ==> #[trigger] final(store).summaries()[m] == crate::schedule::merged_summary(old(store).summaries()[m], summaries@, m),
            forall|m: int| 0 <= m < old(store).summaries().len() ==> #[trigger] final(store).versions()[m] == crate::schedule::merged_version(old(store).summaries()[m], old(store).versions()[m], summaries@, m),
            final(self).next_dirty().len() == old(self).next_dirty().len(),
            forall|c: int| 0 <= c < old(self).next_dirty().len() ==> #[trigger] final(self).next_dirty()[c] == (old(self).next_dirty()[c]
                || (c == component && read_stale(old(store).versions(), reads@))
                || exists|k: int| 0 <= k < summaries@.len() && crate::schedule::changes(old(store).summaries()[(#[trigger] summaries@[k]).0 as int], summaries@[k].1@) && final(self).deps().readers_of(summaries@[k].0 as int).contains(c as usize)),
    {
        store.absorb(&mut self.deps, component, reads, summaries, &mut self.next_dirty);
    }

    /// Ends a job whose first component was `first`: its worker is idle
    /// again, and the job's modules are released where each is held.
    pub fn job_done(&mut self, first: usize, graph: &EscCallGraph)
        requires
            old(self).wf(),
            graph.sccs@.len() == old(self).count(),
            first < old(self).count(),
        ensures
            final(self).wf(),
            final(self).idle() == (if old(self).idle() < old(self).workers() { old(self).idle() + 1 } else { old(self).idle() }),
            all_held(graph.sccs@, old(self).active(), first as int) ==> forall|x: Seq<char>| #[trigger] active_count(final(self).active(), x)
                == adjusted(active_count(old(self).active(), x), component_modules(graph.sccs@, first as int), x, false),
            !all_held(graph.sccs@, old(self).active(), first as int) ==> final(self).active() == old(self).active(),
            final(self).in_round() == old(self).in_round(),
            final(self).count() == old(self).count(),
            final(self).workers() == old(self).workers(),
            final(self).left() == old(self).left(),
            final(self).deps() == old(self).deps(),
            final(self).dirty() == old(self).dirty(),
            final(self).next_dirty() == old(self).next_dirty(),
            final(self).remaining() == old(self).remaining(),
            final(self).finished() == old(self).finished(),
            final(self).ready() == old(self).ready(),
    {
        if self.idle < self.workers {
            self.idle = self.idle + 1;
        }
        if holds_all(&self.active, graph, first) {
            adjust_component(&mut self.active, graph, first, false);
        }
    }

    /// Completes component `c` of the round, if it is dirty, not completed
    /// yet, and every dirty component that depends on it still waits: each
    /// of those waits for one fewer, and the ones that wait for none are
    /// queued. Otherwise nothing changes.
    pub fn component_done(&mut self, c: usize, graph: &EscCallGraph)
        requires
            old(self).wf(),
            graph.sccs@.len() == old(self).count(),
            nonempty_components(graph),
            c < old(self).count(),
        ensures
            final(self).wf(),
            final(self).in_round() == old(self).in_round(),
            final(self).count() == old(self).count(),
            final(self).workers() == old(self).workers(),
            final(self).idle() == old(self).idle(),
            final(self).deps() == old(self).deps(),
            final(self).dirty() == old(self).dirty(),
            final(self).next_dirty() == old(self).next_dirty(),
            final(self).active() == old(self).active(),
            ({
                let ok = old(self).dirty()[c as int] && !old(self).finished()[c as int] && old(self).left() > 0
                    && forall|d: usize| #[trigger] old(self).deps().dependents_of(c as int).contains(d) && old(self).dirty()[d as int] ==> old(self).remaining()[d as int] > 0;
                &&& !ok ==> *final(self) == *old(self)
                &&& ok ==> {
                    &&& final(self).finished() == old(self).finished().update(c as int, true)
                    &&& final(self).left() == old(self).left() - 1
                    &&& forall|d: usize| (d as int) < old(self).count() ==> #[trigger] final(self).remaining()[d as int] == (if old(self).deps().dependents_of(c as int).contains(d) && old(self).dirty()[d as int] {
                        old(self).remaining()[d as int] - 1
                    } else {
                        old(self).remaining()[d as int] as int
                    })
                    &&& forall|x: usize| #[trigger] in_ready(final(self).ready(), x) <==> (in_ready(old(self).ready(), x)
                        || (old(self).deps().dependents_of(c as int).contains(x) && old(self).dirty()[x as int] && old(self).remaining()[x as int] == 1))
                }
            }),
    {
        if !self.dirty[c] || self.finished[c] || self.left == 0 {
            return;
        }
        if !self.deps.can_finish(c, &self.dirty, &self.remaining) {
            proof {
                let d = choose|d: usize| #[trigger] self.deps.dependents_of(c as int).contains(d) && self.dirty@[d as int] && !(self.remaining@[d as int] > 0);
                assert(old(self).deps().dependents_of(c as int).contains(d) && old(self).dirty()[d as int] && !(old(self).remaining()[d as int] > 0));
            }
            return;
        }
        proof {
            self.deps.lemma_components();
        }
        let ghost rem0 = self.remaining@;
        let ghost fin0 = self.finished@;
        let newly = self.deps.finish(c, &self.dirty, &mut self.remaining);
        let ghost open_before = open_flags(self.dirty@, self.finished@);
        self.finished.set(c, true);
        self.left = self.left - 1;
        let n = self.count;
        proof {
            assert(open_flags(self.dirty@, self.finished@) =~= open_before.update(c as int, false));
            lemma_set_count_clear(open_before, c as int);
            let p0 = open_in(self.dirty@, fin0);
            let p1 = open_in(self.dirty@, self.finished@);
            assert(p0(c as usize));
            assert forall|d: usize| newly@.contains(d) implies d < n && self.dirty@[d as int] && self.remaining@[d as int] == 0 by {
                assert(self.remaining@[d as int] == rem0[d as int] - 1);
            }
            if self.in_round {
                assert forall|c2: int| 0 <= c2 < n && self.dirty@[c2] && !self.finished@[c2]
                    implies #[trigger] self.remaining@[c2] == waiting(self.deps, c2, self.dirty@, self.finished@) by {
                    let d = c2 as usize;
                    let sd = self.deps.dependencies_of(c2);
                    self.deps.lemma_finite(c2);
                    assert(c2 != c);
                    assert(!fin0[c2]);
                    assert(rem0[c2] == waiting(self.deps, c2, self.dirty@, fin0));
                    assert(self.remaining@[d as int] == (if self.deps.dependents_of(c as int).contains(d) && self.dirty@[d as int] {
                        rem0[d as int] - 1
                    } else {
                        rem0[d as int] as int
                    }));
                    if self.deps.dependents_of(c as int).contains(d) {
                        assert(sd.contains(c as usize));
                        assert(sd.filter(p1) =~= sd.filter(p0).remove(c as usize));
                        assert(sd.filter(p0).contains(c as usize));
                    } else {
                        assert(!sd.contains(c as usize));
                        assert(sd.filter(p1) =~= sd.filter(p0));
                    }
                }
                assert forall|x: usize| #[trigger] in_ready(self.ready@, x)
                    implies x < n && self.dirty@[x as int] && (self.finished@[x as int] || self.remaining@[x as int] == 0) by {
                    if !self.finished@[x as int] {
                        assert(x != c);
                        assert(!fin0[x as int]);
                        assert(rem0[x as int] == 0);
                        assert(self.remaining@[x as int] == (if self.deps.dependents_of(c as int).contains(x) && self.dirty@[x as int] {
                            rem0[x as int] - 1
                        } else {
                            rem0[x as int] as int
                        }));
                        if self.deps.dependents_of(c as int).contains(x) && self.dirty@[x as int] {
                            let sx = self.deps.dependencies_of(x as int);
                            self.deps.lemma_finite(x as int);
                            assert(sx.contains(c as usize));
                            assert(sx.filter(p0).contains(c as usize));
                            assert(rem0[x as int] == waiting(self.deps, x as int, self.dirty@, fin0));
                            vstd::set_lib::lemma_set_empty_equivalency_len(sx.filter(p0));
                            assert(false);
                        }
                    }
                }
            }
        }
        let ghost start = self.ready@;
        let ghost rem = self.remaining@;
        let mut k: usize = 0;
        while k < newly.len()
            invariant
                self.wf(),
                n == self.count,
                n == graph.sccs@.len(),
                nonempty_components(graph),
                self.deps == old(self).deps,
                self.dirty@ == old(self).dirty@,
                forall|d: usize| newly@.contains(d) <==> (old(self).deps.dependents_of(c as int).contains(d) && old(self).dirty@[d as int] && old(self).remaining@[d as int] == 1),
                forall|d: usize| #[trigger] old(self).deps.dependents_of(c as int).contains(d) ==> d < n,
                0 <= k <= newly@.len(),
                forall|x: usize| #[trigger] in_ready(self.ready@, x) <==> (in_ready(start, x) || newly@.take(k as int).contains(x)),
                self.count == old(self).count,
                self.workers == old(self).workers,
                self.idle == old(self).idle,
                self.left == old(self).left - 1,
                self.next_dirty@ == old(self).next_dirty@,
                self.active@ == old(self).active@,
                self.finished@ == old(self).finished@.update(c as int, true),
                self.remaining@ == rem,
                start == old(self).ready@,
                self.in_round == old(self).in_round,
                forall|d: usize| newly@.contains(d) ==> d < n && self.dirty@[d as int] && self.remaining@[d as int] == 0,
            decreases newly@.len() - k,
        {
            let d = newly[k];
            assert(newly@.contains(d));
            push_ready(&mut self.ready, d, graph, n);
            proof {
                assert(newly@.take(k + 1) =~= newly@.take(k as int).push(d));
            }
            k = k + 1;
        }
        proof {
            assert(newly@.take(k as int) =~= newly@);
        }
    }

    /// Ends a round. A component marked for the next round stays dirty only
    /// where a summary it read has a newer version since (`observed[c]` holds
    /// its reads, as node and version) or its argument facts changed
    /// (`inputs_changed[c]`). No component of the new dirty set is completed.
    pub fn end_round(&mut self, store: &SummaryStore, observed: &Vec<Vec<(usize, u64)>>, inputs_changed: &Vec<bool>)
        requires
            old(self).wf(),
            observed@.len() == old(self).count(),
            inputs_changed@.len() == old(self).count(),
            forall|c: int, k: int| 0 <= c < observed@.len() && 0 <= k < observed@[c]@.len() ==> (#[trigger] observed@[c]@[k]).0 < store.versions().len(),
        ensures
            final(self).wf(),
            final(self).dirty().len() == old(self).count(),
            forall|c: int| 0 <= c < old(self).count() ==> #[trigger] final(self).dirty()[c] == (old(self).next_dirty()[c]
                && (read_stale(store.versions(), observed@[c]@) || inputs_changed@[c])),
            forall|c: int| 0 <= c < old(self).count() ==> !#[trigger] final(self).finished()[c],
            final(self).left() == set_count(final(self).dirty()),
            !final(self).in_round(),
            final(self).count() == old(self).count(),
            final(self).workers() == old(self).workers(),
            final(self).idle() == old(self).idle(),
            final(self).deps() == old(self).deps(),
            final(self).next_dirty() == old(self).next_dirty(),
            final(self).remaining() == old(self).remaining(),
            final(self).ready() == old(self).ready(),
            final(self).active() == old(self).active(),
    {
        let n = self.count;
        let mut next: Vec<bool> = Vec::new();
        let mut cleared: Vec<bool> = Vec::new();
        let mut left: usize = 0;
        let mut c: usize = 0;
        while c < n
            invariant
                self.wf(),
                n == self.count,
                observed@.len() == n,
                inputs_changed@.len() == n,
                forall|c: int, k: int| 0 <= c < observed@.len() && 0 <= k < observed@[c]@.len() ==> (#[trigger] observed@[c]@[k]).0 < store.versions().len(),
                0 <= c <= n,
                next@.len() == c,
                cleared@.len() == c,
                forall|x: int| 0 <= x < c ==> !#[trigger] cleared@[x],
                forall|x: int| 0 <= x < c ==> #[trigger] next@[x] == (self.next_dirty@[x]
                    && (read_stale(store.versions(), observed@[x]@) || inputs_changed@[x])),
                left == set_count(next@),
                left <= c,
            decreases n - c,
        {
            let keep = self.next_dirty[c] && (inputs_changed[c] || store.stale(&observed[c]));
            let ghost before = next@;
            next.push(keep);
            cleared.push(false);
            proof {
                assert(next@.drop_last() =~= before);
            }
            if keep {
                left = left + 1;
            }
            c = c + 1;
        }
        self.dirty = next;
        self.finished = cleared;
        self.left = left;
        self.in_round = false;
        proof {
            assert(open_flags(self.dirty@, self.finished@) =~= self.dirty@);
        }
    }
}

proof fn lemma_set_all(flags: Seq<bool>)
    requires
        forall|c: int| 0 <= c < flags.len() ==> #[trigger] flags[c],
    ensures
        set_count(flags) == flags.len(),
    decreases flags.len(),
{
    if flags.len() > 0 {
        lemma_set_all(flags.drop_last());
    }
}

/// Clearing a set entry lowers the count by one.
proof fn lemma_set_count_clear(flags: Seq<bool>, c: int)
    requires
        0 <= c < flags.len(),
        flags[c],
    ensures
        set_count(flags.update(c, false)) == set_count(flags) - 1,
    decreases flags.len(),
{
    let u = flags.update(c, false);
    if c == flags.len() - 1 {
        assert(u.drop_last() =~= flags.drop_last());
    } else {
        assert(u.drop_last() =~= flags.drop_last().update(c, false));
        lemma_set_count_clear(flags.drop_last(), c);
    }
}

proof fn lemma_set_positive(flags: Seq<bool>, c: int)
    requires
        0 <= c < flags.len(),
        flags[c],
    ensures
        set_count(flags) > 0,
    decreases flags.len(),
{
    if c < flags.len() - 1 {
        lemma_set_positive(flags.drop_last(), c);
    }
}

proof fn lemma_set_zero(flags: Seq<bool>)
    requires
        forall|c: int| 0 <= c < flags.len() ==> !#[trigger] flags[c],
    ensures
        set_count(flags) == 0,
    decreases flags.len(),
{
    if flags.len() > 0 {
        lemma_set_zero(flags.drop_last());
    }
}

} // verus!
