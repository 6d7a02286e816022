//! Scheduling decisions of the solver: which components depend on which,
//! when a component becomes ready within a round, and the versioned store
//! of function summaries that tells a round which components read a fact
//! that has since changed.
use crate::flow::{join_summary_view, Summary, SummaryView};
use crate::function::{calls_indexed, EscCallGraph};
use crate::sorted::{increasing, insert_index};
use vstd::prelude::*;

verus! {

broadcast use vstd::seq_lib::group_seq_properties, vstd::set_lib::group_set_properties;

/// The (caller component, target node) pairs of one call, or none for
/// module-level code.
pub open spec fn pairs_of_call(call: crate::function::EscCall, component_of: Seq<usize>) -> Seq<(usize, usize)> {
    match call.caller {
        None => Seq::empty(),
        Some(x) => call.targets@.map_values(|t: crate::function::EscFnId| (component_of[x@.node as int], t@.node)),
    }
}

/// The (caller component, target node) pairs of a sequence of calls, in order.
pub open spec fn call_pairs(calls: Seq<crate::function::EscCall>, component_of: Seq<usize>) -> Seq<(usize, usize)>
    decreases calls.len(),
{
    if calls.len() == 0 {
        Seq::empty()
    } else {
        call_pairs(calls.drop_last(), component_of) + pairs_of_call(calls.last(), component_of)
    }
}

/// Whether a call in component `c` reaches function node `n` of another component.
pub open spec fn reads_node(graph: &EscCallGraph, c: int, n: int) -> bool {
    call_pairs(graph.calls@, graph.component_of@).contains((c as usize, n as usize)) && 0 <= c && 0 <= n
        && graph.component_of@[n] != c
}

/// Whether component `c` calls into component `d`, another component.
pub open spec fn depends_on(graph: &EscCallGraph, c: int, d: int) -> bool {
    exists|p: (usize, usize)|
        #![trigger call_pairs(graph.calls@, graph.component_of@).contains(p)]
        call_pairs(graph.calls@, graph.component_of@).contains(p) && p.0 == c && graph.component_of@[p.1 as int] == d && d != c
}

/// Which components wait on which, and which components read each function.
#[derive(Debug)]
pub struct EscDependencies {
    dependencies: Vec<Vec<usize>>,
    dependents: Vec<Vec<usize>>,
    readers: Vec<Vec<usize>>,
}

impl EscDependencies {
    /// The components that component `c` calls into.
    pub closed spec fn dependencies_of(&self, c: int) -> Set<usize> {
        self.dependencies@[c]@.to_set()
    }

    /// The components that call into component `d`.
    pub closed spec fn dependents_of(&self, d: int) -> Set<usize> {
        self.dependents@[d]@.to_set()
    }

    /// The components that read the summary of function node `n`.
    pub closed spec fn readers_of(&self, n: int) -> Set<usize> {
        self.readers@[n]@.to_set()
    }

    /// How many components and function nodes the structure covers.
    pub closed spec fn shape(&self) -> (int, int) {
        (self.dependencies@.len() as int, self.readers@.len() as int)
    }

    pub closed spec fn wf(&self) -> bool {
        &&& self.dependents@.len() == self.dependencies@.len()
        &&& forall|c: int| 0 <= c < self.dependencies@.len() ==> increasing(#[trigger] self.dependencies@[c]@)
        &&& forall|c: int| 0 <= c < self.dependents@.len() ==> increasing(#[trigger] self.dependents@[c]@)
        &&& forall|c: int, j: int| 0 <= c < self.dependents@.len() && 0 <= j < self.dependents@[c]@.len() ==> #[trigger] self.dependents@[c]@[j] < self.dependents@.len()
        &&& forall|c: int, j: int| 0 <= c < self.dependencies@.len() && 0 <= j < self.dependencies@[c]@.len() ==> #[trigger] self.dependencies@[c]@[j] < self.dependencies@.len()
        &&& forall|n: int| 0 <= n < self.readers@.len() ==> increasing(#[trigger] self.readers@[n]@)
        &&& forall|n: int, j: int| 0 <= n < self.readers@.len() && 0 <= j < self.readers@[n]@.len() ==> #[trigger] self.readers@[n]@[j] < self.dependencies@.len()
    }

    /// The dependencies of the components of `graph`: component `c` depends
    /// on `d` when a call in `c` reaches a function of another component
    /// `d`; such a call makes `c` a reader of that function.
    pub fn new(graph: &EscCallGraph) -> (r: Self)
        requires
            calls_indexed(graph),
        ensures
            r.wf(),
            r.shape() == (graph.sccs@.len() as int, graph.component_of@.len() as int),
            forall|c: int, d: usize| 0 <= c < graph.sccs@.len() ==> (#[trigger] r.dependencies_of(c).contains(d) <==> depends_on(graph, c, d as int)),
            forall|c: usize, d: int| 0 <= d < graph.sccs@.len() ==> (#[trigger] r.dependents_of(d).contains(c) <==> depends_on(graph, c as int, d)),
            forall|n: int, c: usize| 0 <= n < graph.component_of@.len() ==> (#[trigger] r.readers_of(n).contains(c) <==> reads_node(graph, c as int, n)),
    {
        let count = graph.sccs.len();
        let nodes = graph.component_of.len();
        let mut dependencies: Vec<Vec<usize>> = Vec::new();
        let mut dependents: Vec<Vec<usize>> = Vec::new();
        let mut i: usize = 0;
        while i < count
            invariant
                0 <= i <= count,
                dependencies@.len() == i,
                dependents@.len() == i,
                forall|c: int| 0 <= c < i ==> (#[trigger] dependencies@[c])@.len() == 0,
                forall|c: int| 0 <= c < i ==> (#[trigger] dependents@[c])@.len() == 0,
            decreases count - i,
        {
            dependencies.push(Vec::new());
            dependents.push(Vec::new());
            i = i + 1;
        }
        let mut readers: Vec<Vec<usize>> = Vec::new();
        let mut i: usize = 0;
        while i < nodes
            invariant
                0 <= i <= nodes,
                readers@.len() == i,
                forall|c: int| 0 <= c < i ==> (#[trigger] readers@[c])@.len() == 0,
            decreases nodes - i,
        {
            readers.push(Vec::new());
            i = i + 1;
        }
        // The (caller component, target node) pairs, in call order.
        let mut pairs: Vec<(usize, usize)> = Vec::new();
        let mut k: usize = 0;
        while k < graph.calls.len()
            invariant
                calls_indexed(graph),
                0 <= k <= graph.calls@.len(),
                pairs@ == call_pairs(graph.calls@.take(k as int), graph.component_of@),
                dependencies@.len() == count,
                dependents@.len() == count,
                readers@.len() == nodes,
                forall|c: int| 0 <= c < count ==> (#[trigger] dependencies@[c])@.len() == 0,
                forall|c: int| 0 <= c < count ==> (#[trigger] dependents@[c])@.len() == 0,
                forall|c: int| 0 <= c < nodes ==> (#[trigger] readers@[c])@.len() == 0,
            decreases graph.calls@.len() - k,
        {
            let call = &graph.calls[k];
            proof {
                assert(graph.calls@.take(k + 1).drop_last() =~= graph.calls@.take(k as int));
                assert(graph.calls@.take(k + 1).last() == graph.calls@[k as int]);
            }
            match &call.caller {
                None => {
                    assert(pairs@ =~= call_pairs(graph.calls@.take(k + 1), graph.component_of@));
                },
                Some(caller) => {
                    let from = graph.component_of[caller.node()];
                    let ghost base = pairs@;
                    let mut t: usize = 0;
                    while t < call.targets.len()
                        invariant
                            calls_indexed(graph),
                            0 <= k < graph.calls@.len(),
                            *call == graph.calls@[k as int],
                            call.caller == Some(*caller),
                            from == graph.component_of@[caller@.node as int],
                            0 <= t <= call.targets@.len(),
                            pairs@ == base + pairs_of_call(*call, graph.component_of@).take(t as int),
                        decreases call.targets@.len() - t,
                    {
                        proof {
                            assert(graph.calls@[k as int].targets@[t as int] == call.targets@[t as int]);
                        }
                        let ghost before = pairs@;
                        pairs.push((from, call.targets[t].node()));
                        proof {
                            assert(pairs_of_call(*call, graph.component_of@).take(t + 1) =~= pairs_of_call(*call, graph.component_of@).take(t as int).push((from, call.targets@[t as int]@.node)));
                            assert(pairs@ =~= base + pairs_of_call(*call, graph.component_of@).take(t + 1));
                        }
                        t = t + 1;
                    }
                    proof {
                        assert(pairs_of_call(*call, graph.component_of@).take(call.targets@.len() as int) =~= pairs_of_call(*call, graph.component_of@));
                    }
                },
            }
            k = k + 1;
        }
        proof {
            assert(graph.calls@.take(graph.calls@.len() as int) =~= graph.calls@);
            lemma_pairs_bounded(graph);
        }
        let ghost all = pairs@;
        let mut i: usize = 0;
        while i < pairs.len()
            invariant
                calls_indexed(graph),
                pairs@ == all,
                all == call_pairs(graph.calls@, graph.component_of@),
                forall|j: int| 0 <= j < all.len() ==> (#[trigger] all[j]).0 < count && all[j].1 < nodes,
                0 <= i <= all.len(),
                count == graph.sccs@.len(),
                nodes == graph.component_of@.len(),
                dependencies@.len() == count,
                dependents@.len() == count,
                readers@.len() == nodes,
                forall|c: int| 0 <= c < count ==> increasing(#[trigger] dependencies@[c]@),
                forall|c: int| 0 <= c < count ==> increasing(#[trigger] dependents@[c]@),
                forall|n: int| 0 <= n < nodes ==> increasing(#[trigger] readers@[n]@),
                forall|c: int, d: usize| 0 <= c < count ==> (#[trigger] dependencies@[c]@.to_set().contains(d) <==> exists|j: int| #![trigger all[j]] 0 <= j < i && all[j].0 == c && graph.component_of@[all[j].1 as int] == d && d != c),
                forall|c: usize, d: int| 0 <= d < count ==> (#[trigger] dependents@[d]@.to_set().contains(c) <==> exists|j: int| #![trigger all[j]] 0 <= j < i && all[j].0 == c && graph.component_of@[all[j].1 as int] == d && d != c),
                forall|n: int, c: usize| 0 <= n < nodes ==> (#[trigger] readers@[n]@.to_set().contains(c) <==> exists|j: int| #![trigger all[j]] 0 <= j < i && all[j].0 == c && all[j].1 == n && graph.component_of@[n] != c),
                forall|c: int, j: int| 0 <= c < count && 0 <= j < dependencies@[c]@.len() ==> #[trigger] dependencies@[c]@[j] < count,
                forall|c: int, j: int| 0 <= c < count && 0 <= j < dependents@[c]@.len() ==> #[trigger] dependents@[c]@[j] < count,
            decreases all.len() - i,
        {
            let (from, node) = pairs[i];
            let to = graph.component_of[node];
            if from != to {
                let ghost d0 = dependencies@;
                let ghost e0 = dependents@;
                let ghost r0 = readers@;
                insert_index(&mut dependencies[from], to);
                insert_index(&mut dependents[to], from);
                insert_index(&mut readers[node], from);
                proof {
                    assert forall|c: int, j: int| 0 <= c < count && 0 <= j < dependencies@[c]@.len() implies #[trigger] dependencies@[c]@[j] < count by {
                        if c != from {
                            assert(dependencies@[c] == d0[c]);
                        } else {
                            assert(dependencies@[c]@.to_set().contains(dependencies@[c]@[j]));
                            if dependencies@[c]@[j] != to {
                                assert(d0[c]@.to_set().contains(dependencies@[c]@[j]));
                                let jj = choose|jj: int| 0 <= jj < d0[c]@.len() && d0[c]@[jj] == dependencies@[c]@[j];
                            }
                        }
                    }
                    assert forall|c: int, j: int| 0 <= c < count && 0 <= j < dependents@[c]@.len() implies #[trigger] dependents@[c]@[j] < count by {
                        if c != to {
                            assert(dependents@[c] == e0[c]);
                        } else {
                            assert(dependents@[c]@.to_set().contains(dependents@[c]@[j]));
                            if dependents@[c]@[j] != from {
                                assert(e0[c]@.to_set().contains(dependents@[c]@[j]));
                                let jj = choose|jj: int| 0 <= jj < e0[c]@.len() && e0[c]@[jj] == dependents@[c]@[j];
                            }
                        }
                    }
                    assert forall|c: int, d: usize| 0 <= c < count implies (#[trigger] dependencies@[c]@.to_set().contains(d) <==> exists|j: int| #![trigger all[j]] 0 <= j < i + 1 && all[j].0 == c && graph.component_of@[all[j].1 as int] == d && d != c) by {
                        if c != from {
                            assert(dependencies@[c] == d0[c]);
                        }
                        if exists|j: int| #![trigger all[j]] 0 <= j < i + 1 && all[j].0 == c && graph.component_of@[all[j].1 as int] == d && d != c {
                            let j = choose|j: int| #![trigger all[j]] 0 <= j < i + 1 && all[j].0 == c && graph.component_of@[all[j].1 as int] == d && d != c;
                            if j == i {
                            }
                        }
                        if c == from && d == to {
                            assert(all[i as int].0 == c);
                        }
                    }
                    assert forall|c: usize, d: int| 0 <= d < count implies (#[trigger] dependents@[d]@.to_set().contains(c) <==> exists|j: int| #![trigger all[j]] 0 <= j < i + 1 && all[j].0 == c && graph.component_of@[all[j].1 as int] == d && d != c) by {
                        if d != to {
                            assert(dependents@[d] == e0[d]);
                        }
                        if d == to && c == from {
                            assert(all[i as int].0 == c);
                        }
                    }
                    assert forall|n: int, c: usize| 0 <= n < nodes implies (#[trigger] readers@[n]@.to_set().contains(c) <==> exists|j: int| #![trigger all[j]] 0 <= j < i + 1 && all[j].0 == c && all[j].1 == n && graph.component_of@[n] != c) by {
                        if n != node {
                            assert(readers@[n] == r0[n]);
                        }
                        if n == node && c == from {
                            assert(all[i as int].0 == c);
                        }
                    }
                }
            }
            i = i + 1;
        }
        proof {
            assert forall|c: int, d: usize| 0 <= c < count implies (#[trigger] dependencies@[c]@.to_set().contains(d) <==> depends_on(graph, c, d as int)) by {
                if dependencies@[c]@.to_set().contains(d) {
                    let j = choose|j: int| #![trigger all[j]] 0 <= j < all.len() && all[j].0 == c && graph.component_of@[all[j].1 as int] == d && d != c;
                    assert(all.contains(all[j]));
                }
                if depends_on(graph, c, d as int) {
                    let p = choose|p: (usize, usize)| #![trigger all.contains(p)] all.contains(p) && p.0 == c && graph.component_of@[p.1 as int] == d && d != c;
                    let j = choose|j: int| 0 <= j < all.len() && all[j] == p;
                }
            }
            assert forall|c: usize, d: int| 0 <= d < count implies (#[trigger] dependents@[d]@.to_set().contains(c) <==> depends_on(graph, c as int, d)) by {
                if dependents@[d]@.to_set().contains(c) {
                    let j = choose|j: int| #![trigger all[j]] 0 <= j < all.len() && all[j].0 == c && graph.component_of@[all[j].1 as int] == d && d != c;
                    assert(all.contains(all[j]));
                }
                if depends_on(graph, c as int, d) {
                    let p = choose|p: (usize, usize)| #![trigger all.contains(p)] all.contains(p) && p.0 == c && graph.component_of@[p.1 as int] == d && d != c;
                    let j = choose|j: int| 0 <= j < all.len() && all[j] == p;
                }
            }
            assert forall|n: int, c: usize| 0 <= n < nodes implies (#[trigger] readers@[n]@.to_set().contains(c) <==> reads_node(graph, c as int, n)) by {
                if readers@[n]@.to_set().contains(c) {
                    let j = choose|j: int| #![trigger all[j]] 0 <= j < all.len() && all[j].0 == c && all[j].1 == n && graph.component_of@[n] != c;
                    assert(all.contains(all[j]));
                    assert(all[j] == (c, n as usize));
                }
                if reads_node(graph, c as int, n) {
                    let j = choose|j: int| 0 <= j < all.len() && all[j] == (c, n as usize);
                }
            }
        }
        proof {
            assert forall|n: int, j: int| 0 <= n < nodes && 0 <= j < readers@[n]@.len() implies #[trigger] readers@[n]@[j] < count by {
                let c = readers@[n]@[j];
                assert(readers@[n]@.to_set().contains(c));
                let jj = choose|jj: int| #![trigger all[jj]] 0 <= jj < all.len() && all[jj].0 == c && all[jj].1 == n && graph.component_of@[n] != c;
            }
        }
        EscDependencies { dependencies, dependents, readers }
    }
}

proof fn lemma_pairs_bounded(graph: &EscCallGraph)
    requires
        calls_indexed(graph),
    ensures
        forall|j: int| 0 <= j < call_pairs(graph.calls@, graph.component_of@).len() ==> (#[trigger] call_pairs(graph.calls@, graph.component_of@)[j]).0 < graph.sccs@.len() && call_pairs(graph.calls@, graph.component_of@)[j].1 < graph.component_of@.len(),
{
    lemma_pairs_bounded_prefix(graph, graph.calls@.len() as int);
    assert(graph.calls@.take(graph.calls@.len() as int) =~= graph.calls@);
}

proof fn lemma_pairs_bounded_prefix(graph: &EscCallGraph, k: int)
    requires
        calls_indexed(graph),
        0 <= k <= graph.calls@.len(),
    ensures
        forall|j: int| 0 <= j < call_pairs(graph.calls@.take(k), graph.component_of@).len() ==> (#[trigger] call_pairs(graph.calls@.take(k), graph.component_of@)[j]).0 < graph.sccs@.len() && call_pairs(graph.calls@.take(k), graph.component_of@)[j].1 < graph.component_of@.len(),
    decreases k,
{
    if k > 0 {
        lemma_pairs_bounded_prefix(graph, k - 1);
        let s = graph.calls@.take(k);
        assert(s.drop_last() =~= graph.calls@.take(k - 1));
        let last = pairs_of_call(s.last(), graph.component_of@);
        let prev = call_pairs(graph.calls@.take(k - 1), graph.component_of@);
        assert forall|j: int| 0 <= j < call_pairs(s, graph.component_of@).len() implies (#[trigger] call_pairs(s, graph.component_of@)[j]).0 < graph.sccs@.len() && call_pairs(s, graph.component_of@)[j].1 < graph.component_of@.len() by {
            if j >= prev.len() {
                let t = j - prev.len();
                assert(s.last() == graph.calls@[k - 1]);
                assert(graph.calls@[k - 1].targets@[t]@.node < graph.component_of@.len());
            }
        }
    }
}

/// Whether a component is marked dirty.
pub open spec fn dirty_set(dirty: Seq<bool>) -> spec_fn(usize) -> bool {
    |d: usize| (d as int) < dirty.len() && dirty[d as int]
}

proof fn lemma_filter_len(s: Seq<usize>, p: spec_fn(usize) -> bool)
    requires
        increasing(s),
    ensures
        s.filter(p).len() == s.to_set().filter(p).len(),
        s.to_set().finite(),
    decreases s.len(),
{
    reveal(Seq::filter);
    if s.len() == 0 {
        assert(s.to_set().filter(p) =~= Set::<usize>::empty());
    } else {
        let t = s.drop_last();
        assert(increasing(t));
        lemma_filter_len(t, p);
        assert(s.to_set() =~= t.to_set().insert(s.last()));
        assert(!t.to_set().contains(s.last())) by {
            if t.contains(s.last()) {
                let j = choose|j: int| 0 <= j < t.len() && t[j] == s.last();
                assert(s[j] < s[s.len() - 1]);
            }
        }
        if p(s.last()) {
            assert(s.to_set().filter(p) =~= t.to_set().filter(p).insert(s.last()));
        } else {
            assert(s.to_set().filter(p) =~= t.to_set().filter(p));
        }
    }
}

impl EscDependencies {
    /// Starts a round: for each dirty component, counts its dependencies that
    /// are dirty too. The dirty components with none are ready, in increasing
    /// order. Counts of other components are left as they were.
    pub fn start_round(&self, dirty: &Vec<bool>, remaining: &mut Vec<usize>) -> (ready: Vec<usize>)
        requires
            self.wf(),
            dirty@.len() == self.shape().0,
            old(remaining)@.len() == self.shape().0,
        ensures
            final(remaining)@.len() == self.shape().0,
            forall|c: int| 0 <= c < dirty@.len() && dirty@[c] ==> #[trigger] final(remaining)@[c] == self.dependencies_of(c).filter(dirty_set(dirty@)).len(),
            forall|c: int| 0 <= c < dirty@.len() && !dirty@[c] ==> #[trigger] final(remaining)@[c] == old(remaining)@[c],
            increasing(ready@),
            forall|c: usize| ready@.contains(c) <==> (c < dirty@.len() && dirty@[c as int] && final(remaining)@[c as int] == 0),
    {
        let n = dirty.len();
        let mut ready: Vec<usize> = Vec::new();
        let ghost start = remaining@;
        let mut c: usize = 0;
        while c < n
            invariant
                self.wf(),
                n == dirty@.len(),
                n == self.shape().0,
                remaining@.len() == n,
                0 <= c <= n,
                forall|x: int| 0 <= x < c && dirty@[x] ==> #[trigger] remaining@[x] == self.dependencies_of(x).filter(dirty_set(dirty@)).len(),
                forall|x: int| 0 <= x < n && !(x < c && dirty@[x]) ==> #[trigger] remaining@[x] == start[x],
                increasing(ready@),
                forall|j: int| 0 <= j < ready@.len() ==> #[trigger] ready@[j] < c,
                forall|x: usize| ready@.contains(x) <==> (x < c && dirty@[x as int] && remaining@[x as int] == 0),
            decreases n - c,
        {
            if dirty[c] {
                let deps = &self.dependencies[c];
                let mut count: usize = 0;
                let mut j: usize = 0;
                while j < deps.len()
                    invariant
                        self.wf(),
                        *deps == self.dependencies@[c as int],
                        c < n,
                        n == dirty@.len(),
                        n == self.shape().0,
                        0 <= j <= deps@.len(),
                        count == deps@.take(j as int).filter(dirty_set(dirty@)).len(),
                        count <= j,
                    decreases deps@.len() - j,
                {
                    let d = deps[j];
                    proof {
                        reveal(Seq::filter);
                        assert(deps@.take(j + 1).drop_last() =~= deps@.take(j as int));
                        assert(d < n);
                    }
                    if dirty[d] {
                        count = count + 1;
                    }
                    j = j + 1;
                }
                proof {
                    assert(deps@.take(deps@.len() as int) =~= deps@);
                    lemma_filter_len(deps@, dirty_set(dirty@));
                }
                let ghost r0 = ready@;
                remaining.set(c, count);
                if count == 0 {
                    ready.push(c);
                    proof {
                        assert forall|x: usize| ready@.contains(x) <==> (x < c + 1 && dirty@[x as int] && remaining@[x as int] == 0) by {
                            if ready@.contains(x) && x != c {
                                let j = choose|j: int| 0 <= j < ready@.len() && ready@[j] == x;
                                assert(r0[j] == x);
                            }
                            if x < c && dirty@[x as int] && remaining@[x as int] == 0 {
                                assert(r0.contains(x));
                                let j = choose|j: int| 0 <= j < r0.len() && r0[j] == x;
                                assert(ready@[j] == x);
                            }
                            if x == c {
                                assert(ready@[r0.len() as int] == x);
                            }
                        }
                    }
                }
            }
            c = c + 1;
        }
        ready
    }

    /// The dependencies of a component are finitely many.
    pub proof fn lemma_finite(&self, c: int)
        ensures
            self.dependencies_of(c).finite(),
    {
        vstd::seq_lib::seq_to_set_is_finite(self.dependencies@[c]@);
    }

    /// Dependencies and dependents are components.
    pub proof fn lemma_components(&self)
        requires
            self.wf(),
        ensures
            forall|c: int, d: usize| 0 <= c < self.shape().0 && #[trigger] self.dependents_of(c).contains(d) ==> d < self.shape().0,
            forall|c: int, d: usize| 0 <= c < self.shape().0 && #[trigger] self.dependencies_of(c).contains(d) ==> d < self.shape().0,
    {
        assert forall|c: int, d: usize| 0 <= c < self.shape().0 && #[trigger] self.dependents_of(c).contains(d) implies d < self.shape().0 by {
            let j = choose|j: int| 0 <= j < self.dependents@[c]@.len() && self.dependents@[c]@[j] == d;
        }
        assert forall|c: int, d: usize| 0 <= c < self.shape().0 && #[trigger] self.dependencies_of(c).contains(d) implies d < self.shape().0 by {
            let j = choose|j: int| 0 <= j < self.dependencies@[c]@.len() && self.dependencies@[c]@[j] == d;
        }
    }

    /// Whether every dirty component that depends on `c` still waits for
    /// at least one component, so that `finish` may count `c` off.
    pub fn can_finish(&self, c: usize, dirty: &Vec<bool>, remaining: &Vec<usize>) -> (r: bool)
        requires
            self.wf(),
            c < self.shape().0,
            dirty@.len() == self.shape().0,
            remaining@.len() == self.shape().0,
        ensures
            r == forall|d: usize| #[trigger] self.dependents_of(c as int).contains(d) && dirty@[d as int] ==> remaining@[d as int] > 0,
    {
        let users = &self.dependents[c];
        let mut j: usize = 0;
        while j < users.len()
            invariant
                self.wf(),
                *users == self.dependents@[c as int],
                c < self.shape().0,
                dirty@.len() == self.shape().0,
                remaining@.len() == self.shape().0,
                0 <= j <= users@.len(),
                forall|k: int| 0 <= k < j && dirty@[users@[k] as int] ==> remaining@[#[trigger] users@[k] as int] > 0,
            decreases users@.len() - j,
        {
            let d = users[j];
            assert(d < self.shape().0);
            if dirty[d] && remaining[d] == 0 {
                assert(self.dependents_of(c as int).contains(d));
                return false;
            }
            j = j + 1;
        }
        proof {
            assert forall|d: usize| #[trigger] self.dependents_of(c as int).contains(d) && dirty@[d as int] implies remaining@[d as int] > 0 by {
                let k = choose|k: int| 0 <= k < users@.len() && users@[k] == d;
            }
        }
        true
    }

    /// Ends the work on component `c` within a round: each dirty component
    /// that depends on it waits for one fewer. Returns those that now wait
    /// for none, in increasing order.
    pub fn finish(&self, c: usize, dirty: &Vec<bool>, remaining: &mut Vec<usize>) -> (ready: Vec<usize>)
        requires
            self.wf(),
            c < self.shape().0,
            dirty@.len() == self.shape().0,
            old(remaining)@.len() == self.shape().0,
            forall|d: usize| #[trigger] self.dependents_of(c as int).contains(d) && dirty@[d as int] ==> old(remaining)@[d as int] > 0,
        ensures
            final(remaining)@.len() == self.shape().0,
            forall|d: usize| (d as int) < dirty@.len() ==> #[trigger] final(remaining)@[d as int] == (if self.dependents_of(c as int).contains(d) && dirty@[d as int] {
                old(remaining)@[d as int] - 1
            } else {
                old(remaining)@[d as int] as int
            }),
            increasing(ready@),
            forall|d: usize| ready@.contains(d) <==> (self.dependents_of(c as int).contains(d) && dirty@[d as int] && old(remaining)@[d as int] == 1),
    {
        let ghost start = remaining@;
        let users = &self.dependents[c];
        let mut ready: Vec<usize> = Vec::new();
        let mut j: usize = 0;
        while j < users.len()
            invariant
                self.wf(),
                *users == self.dependents@[c as int],
                c < self.shape().0,
                dirty@.len() == self.shape().0,
                remaining@.len() == self.shape().0,
                start.len() == self.shape().0,
                0 <= j <= users@.len(),
                forall|d: usize| #[trigger] self.dependents_of(c as int).contains(d) && dirty@[d as int] ==> start[d as int] > 0,
                forall|d: usize| (d as int) < dirty@.len() ==> #[trigger] remaining@[d as int] == (if users@.take(j as int).contains(d) && dirty@[d as int] {
                    start[d as int] - 1
                } else {
                    start[d as int] as int
                }),
                increasing(ready@),
                forall|k: int| 0 <= k < ready@.len() ==> exists|jj: int| 0 <= jj < j && users@[jj] == #[trigger] ready@[k],
                forall|d: usize| #[trigger] ready@.contains(d) <==> (users@.take(j as int).contains(d) && dirty@[d as int] && start[d as int] == 1),
            decreases users@.len() - j,
        {
            let d = users[j];
            proof {
                assert(users@.take(j + 1) =~= users@.take(j as int).push(d));
                assert(!users@.take(j as int).contains(d)) by {
                    if users@.take(j as int).contains(d) {
                        let k = choose|k: int| 0 <= k < j && users@.take(j as int)[k] == d;
                        assert(users@[k] < users@[j as int]);
                    }
                }
                assert(self.dependents_of(c as int).contains(d));
                assert(d < dirty@.len());
            }
            let ghost r0 = ready@;
            let ghost m0 = remaining@;
            let ghost pushed = dirty@[d as int] && start[d as int] == 1;
            if dirty[d] {
                assert(m0[d as int] == start[d as int]);
                let left = remaining[d] - 1;
                remaining.set(d, left);
                if left == 0 {
                    proof {
                        assert forall|k: int| 0 <= k < r0.len() implies r0[k] < d by {
                            let jj = choose|jj: int| 0 <= jj < j && users@[jj] == r0[k];
                        }
                    }
                    ready.push(d);
                }
            }
            assert(ready@ == (if pushed { r0.push(d) } else { r0 }));
            proof {
                assert forall|x: usize| (x as int) < dirty@.len() implies #[trigger] remaining@[x as int] == (if users@.take(j + 1).contains(x) && dirty@[x as int] {
                    start[x as int] - 1
                } else {
                    start[x as int] as int
                }) by {
                    assert(users@.take(j + 1).contains(x) <==> (users@.take(j as int).contains(x) || x == d));
                    assert(m0[x as int] == (if users@.take(j as int).contains(x) && dirty@[x as int] {
                        start[x as int] - 1
                    } else {
                        start[x as int] as int
                    }));
                }
                let before = users@.take(j as int);
                let after = users@.take(j + 1);
                assert forall|x: usize| #[trigger] ready@.contains(x) implies (after.contains(x) && dirty@[x as int] && start[x as int] == 1) by {
                    let k = choose|k: int| 0 <= k < ready@.len() && ready@[k] == x;
                    if x == d {
                        if !pushed {
                            assert(r0[k] == d);
                            let jj = choose|jj: int| 0 <= jj < j && users@[jj] == r0[k];
                            assert(users@[jj] < users@[j as int]);
                        }
                        assert(after[j as int] == x);
                    } else {
                        assert(k < r0.len());
                        assert(r0[k] == x);
                        assert(r0.contains(x));
                        assert(before.contains(x) && dirty@[x as int] && start[x as int] == 1);
                        let i = choose|i: int| 0 <= i < before.len() && before[i] == x;
                        assert(after[i] == x);
                    }
                }
                assert forall|x: usize| after.contains(x) && dirty@[x as int] && start[x as int] == 1 implies #[trigger] ready@.contains(x) by {
                    if x == d {
                        assert(ready@[r0.len() as int] == x);
                    } else {
                        let i = choose|i: int| 0 <= i < after.len() && after[i] == x;
                        assert(i < j);
                        assert(before[i] == x);
                        assert(before.contains(x));
                        assert(r0.contains(x));
                        let k = choose|k: int| 0 <= k < r0.len() && r0[k] == x;
                        assert(ready@[k] == x);
                    }
                }
                assert forall|k: int| 0 <= k < ready@.len() implies exists|jj: int| 0 <= jj < j + 1 && users@[jj] == #[trigger] ready@[k] by {
                    if k < r0.len() {
                        assert(ready@[k] == r0[k]);
                        let jj = choose|jj: int| 0 <= jj < j && users@[jj] == r0[k];
                    } else {
                        assert(users@[j as int] == ready@[k]);
                    }
                }
            }
            j = j + 1;
        }
        proof {
            assert(users@.take(users@.len() as int) =~= users@);
        }
        ready
    }
}

impl EscDependencies {
    /// Records that component `c` read the summary of function node `n`.
    pub fn add_reader(&mut self, n: usize, c: usize)
        requires
            old(self).wf(),
            n < old(self).shape().1,
            c < old(self).shape().0,
        ensures
            final(self).wf(),
            final(self).shape() == old(self).shape(),
            forall|d: int| #[trigger] final(self).dependencies_of(d) == old(self).dependencies_of(d),
            forall|d: int| #[trigger] final(self).dependents_of(d) == old(self).dependents_of(d),
            forall|m: int| 0 <= m < old(self).shape().1 ==> #[trigger] final(self).readers_of(m) == (if m == n {
                old(self).readers_of(m).insert(c)
            } else {
                old(self).readers_of(m)
            }),
    {
        let ghost r0 = self.readers@;
        insert_index(&mut self.readers[n], c);
        proof {
            assert forall|m: int| 0 <= m < self.readers@.len() implies increasing(#[trigger] self.readers@[m]@) by {
                if m != n {
                    assert(self.readers@[m] == r0[m]);
                }
            }
            assert forall|m: int| 0 <= m < r0.len() && m != n implies #[trigger] self.readers@[m] == r0[m] by {}
            assert forall|m: int, j: int| 0 <= m < self.readers@.len() && 0 <= j < self.readers@[m]@.len() implies #[trigger] self.readers@[m]@[j] < self.dependencies@.len() by {
                if m != n {
                    assert(self.readers@[m] == r0[m]);
                } else {
                    let x = self.readers@[m]@[j];
                    assert(self.readers@[m]@.to_set().contains(x));
                    if x != c {
                        assert(r0[m]@.to_set().contains(x));
                        let jj = choose|jj: int| 0 <= jj < r0[m]@.len() && r0[m]@[jj] == x;
                    }
                }
            }
        }
    }

    /// The components that read function node `n`, in increasing order.
    pub fn readers(&self, n: usize) -> (r: &Vec<usize>)
        requires
            self.wf(),
            n < self.shape().1,
        ensures
            r@.to_set() == self.readers_of(n as int),
            increasing(r@),
            forall|j: int| 0 <= j < r@.len() ==> (#[trigger] r@[j]) < self.shape().0,
    {
        &self.readers[n]
    }
}

/// The summaries of the functions of a project, each with the number of
/// times a merge has changed it.
#[derive(Debug)]
pub struct SummaryStore {
    entries: Vec<(Summary, u64)>,
}

impl SummaryStore {
    /// The summary of each function node.
    pub closed spec fn summaries(&self) -> Seq<SummaryView> {
        self.entries@.map_values(|e: (Summary, u64)| e.0@)
    }

    /// The version of each function node's summary.
    pub closed spec fn versions(&self) -> Seq<u64> {
        self.entries@.map_values(|e: (Summary, u64)| e.1)
    }

    /// A store of `count` summaries of functions that neither throw nor
    /// complete, each at version 0.
    pub fn new(count: usize) -> (r: Self)
        ensures
            r.summaries().len() == count,
            r.versions().len() == count,
            forall|n: int| 0 <= n < count ==> #[trigger] r.summaries()[n] == (SummaryView { errors: Set::empty(), returned: crate::value::bottom_view(), completes: false }),
            forall|n: int| 0 <= n < count ==> #[trigger] r.versions()[n] == 0,
    {
        let mut entries: Vec<(Summary, u64)> = Vec::new();
        let mut i: usize = 0;
        while i < count
            invariant
                0 <= i <= count,
                entries@.len() == i,
                forall|n: int| 0 <= n < i ==> (#[trigger] entries@[n]).0@ == (SummaryView { errors: Set::empty(), returned: crate::value::bottom_view(), completes: false }) && entries@[n].1 == 0,
            decreases count - i,
        {
            entries.push((Summary::new(), 0));
            i = i + 1;
        }
        SummaryStore { entries }
    }

    /// The version of function node `n`'s summary.
    pub fn version(&self, n: usize) -> (r: u64)
        requires
            n < self.versions().len(),
        ensures
            r == self.versions()[n as int],
    {
        self.entries[n].1
    }

    /// A copy of function node `n`'s summary.
    pub fn summary(&self, n: usize) -> (r: Summary)
        requires
            n < self.summaries().len(),
        ensures
            r@ == self.summaries()[n as int],
    {
        self.entries[n].0.duplicate()
    }

    /// Whether one of `reads`, each a function node and the version of its
    /// summary that was read, no longer matches the store.
    pub fn stale(&self, reads: &Vec<(usize, u64)>) -> (r: bool)
        requires
            forall|k: int| 0 <= k < reads@.len() ==> (#[trigger] reads@[k]).0 < self.versions().len(),
        ensures
            r == exists|k: int| 0 <= k < reads@.len() && self.versions()[(#[trigger] reads@[k]).0 as int] != reads@[k].1,
    {
        let mut k: usize = 0;
        while k < reads.len()
            invariant
                0 <= k <= reads@.len(),
                forall|k: int| 0 <= k < reads@.len() ==> (#[trigger] reads@[k]).0 < self.versions().len(),
                forall|m: int| 0 <= m < k ==> self.versions()[(#[trigger] reads@[m]).0 as int] == reads@[m].1,
            decreases reads@.len() - k,
        {
            let (n, v) = reads[k];
            if self.entries[n].1 != v {
                assert(self.versions()[reads@[k as int].0 as int] != reads@[k as int].1);
                return true;
            }
            k = k + 1;
        }
        false
    }

    /// Widens function node `n`'s summary by `summary`. Returns whether it
    /// changed; if so its version grows by one.
    pub fn merge(&mut self, n: usize, summary: Summary) -> (changed: bool)
        requires
            n < old(self).summaries().len(),
            old(self).versions()[n as int] < u64::MAX,
        ensures
            changed == (join_summary_view(old(self).summaries()[n as int], summary@) != old(self).summaries()[n as int]),
            final(self).summaries() == old(self).summaries().update(n as int, join_summary_view(old(self).summaries()[n as int], summary@)),
            final(self).versions() == old(self).versions().update(n as int, if changed {
                (old(self).versions()[n as int] + 1) as u64
            } else {
                old(self).versions()[n as int]
            }),
    {
        let previous = self.entries[n].0.duplicate();
        let mut current = self.entries[n].0.duplicate();
        let version = self.entries[n].1;
        current.join(summary);
        let changed = !current.same(&previous);
        let next = if changed {
            version + 1
        } else {
            version
        };
        let ghost e0 = self.entries@;
        self.entries.set(n, (current, next));
        proof {
            assert(self.summaries() =~= old(self).summaries().update(n as int, join_summary_view(old(self).summaries()[n as int], summary@)));
            assert(self.versions() =~= old(self).versions().update(n as int, next));
        }
        changed
    }

    /// Merges each listed summary into its node, and marks in `next_dirty`
    /// the readers of each node whose summary changed.
    fn merge_listed(&mut self, deps: &EscDependencies, summaries: &Vec<(usize, Summary)>, next_dirty: &mut Vec<bool>)
        requires
            deps.wf(),
            old(self).summaries().len() == deps.shape().1,
            old(next_dirty)@.len() == deps.shape().0,
            forall|k: int| 0 <= k < summaries@.len() ==> (#[trigger] summaries@[k]).0 < deps.shape().1 && old(self).versions()[summaries@[k].0 as int] < u64::MAX,
            distinct_nodes(summaries@),
        ensures
            final(self).summaries().len() == old(self).summaries().len(),
            final(self).versions().len() == old(self).versions().len(),
            forall|m: int| 0 <= m < old(self).summaries().len() ==> #[trigger] final(self).summaries()[m] == merged_summary(old(self).summaries()[m], summaries@, m),
            forall|m: int| 0 <= m < old(self).summaries().len() ==> #[trigger] final(self).versions()[m] == merged_version(old(self).summaries()[m], old(self).versions()[m], summaries@, m),
            final(next_dirty)@.len() == old(next_dirty)@.len(),
            forall|c: int| 0 <= c < old(next_dirty)@.len() ==> #[trigger] final(next_dirty)@[c] == (old(next_dirty)@[c]
                || exists|j: int| 0 <= j < summaries@.len() && changes(old(self).summaries()[(#[trigger] summaries@[j]).0 as int], summaries@[j].1@) && deps.readers_of(summaries@[j].0 as int).contains(c as usize)),
    {
        let ghost s0 = self.summaries();
        let ghost v0 = self.versions();
        let ghost n1 = next_dirty@;
        let mut k: usize = 0;
        while k < summaries.len()
            invariant
                deps.wf(),
                0 <= k <= summaries@.len(),
                s0.len() == deps.shape().1,
                v0.len() == s0.len(),
                self.summaries().len() == s0.len(),
                self.versions().len() == s0.len(),
                next_dirty@.len() == n1.len(),
                n1.len() == deps.shape().0,
                forall|k: int| 0 <= k < summaries@.len() ==> (#[trigger] summaries@[k]).0 < deps.shape().1 && v0[summaries@[k].0 as int] < u64::MAX,
                distinct_nodes(summaries@),
                forall|m: int| 0 <= m < s0.len() ==> #[trigger] self.summaries()[m] == merged_summary(s0[m], summaries@.take(k as int), m),
                forall|m: int| 0 <= m < s0.len() ==> #[trigger] self.versions()[m] == merged_version(s0[m], v0[m], summaries@.take(k as int), m),
                forall|c: int| 0 <= c < n1.len() ==> #[trigger] next_dirty@[c] == (n1[c]
                    || exists|j: int| 0 <= j < k && changes(s0[(#[trigger] summaries@[j]).0 as int], summaries@[j].1@) && deps.readers_of(summaries@[j].0 as int).contains(c as usize)),
            decreases summaries@.len() - k,
        {
            let n = summaries[k].0;
            let s = summaries[k].1.duplicate();
            proof {
                lemma_merged_step(s0, v0, summaries@, k as int);
            }
            let changed = self.merge(n, s);
            proof {
                assert(self.summaries() =~= Seq::new(s0.len(), |m: int| merged_summary(s0[m], summaries@.take(k + 1), m)));
            }
            let ghost m0 = next_dirty@;
            if changed {
                mark_all(deps.readers(n), next_dirty);
            }
            proof {
                assert forall|c: int| 0 <= c < n1.len() implies #[trigger] next_dirty@[c] == (n1[c]
                    || exists|j: int| 0 <= j < k + 1 && changes(s0[(#[trigger] summaries@[j]).0 as int], summaries@[j].1@) && deps.readers_of(summaries@[j].0 as int).contains(c as usize)) by {
                    if exists|j: int| 0 <= j < k + 1 && changes(s0[(#[trigger] summaries@[j]).0 as int], summaries@[j].1@) && deps.readers_of(summaries@[j].0 as int).contains(c as usize) {
                        let j = choose|j: int| 0 <= j < k + 1 && changes(s0[(#[trigger] summaries@[j]).0 as int], summaries@[j].1@) && deps.readers_of(summaries@[j].0 as int).contains(c as usize);
                        if j == k {
                            assert(changed);
                            assert(deps.readers_of(n as int).contains(c as usize));
                        }
                    }
                    if changed && deps.readers_of(n as int).contains(c as usize) {
                        assert(changes(s0[summaries@[k as int].0 as int], summaries@[k as int].1@));
                    }
                }
            }
            k = k + 1;
        }
        proof {
            assert(summaries@.take(summaries@.len() as int) =~= summaries@);
        }
    }

    /// Takes in what the analysis of `component` within a round produced:
    /// it read the summaries of the nodes in `reads` at the versions given
    /// there, and it found `summaries` for the nodes listed there. The
    /// component becomes a reader of each node it read. It is marked in
    /// `next_dirty` if one of its reads is stale; each summary is merged,
    /// and the readers of each one that changed are marked.
    pub fn absorb(
        &mut self,
        deps: &mut EscDependencies,
        component: usize,
        reads: &Vec<(usize, u64)>,
        summaries: Vec<(usize, Summary)>,
        next_dirty: &mut Vec<bool>,
    )
        requires
            old(deps).wf(),
            old(self).summaries().len() == old(deps).shape().1,
            old(next_dirty)@.len() == old(deps).shape().0,
            forall|k: int| 0 <= k < reads@.len() ==> (#[trigger] reads@[k]).0 < old(deps).shape().1,
            forall|k: int| 0 <= k < summaries@.len() ==> (#[trigger] summaries@[k]).0 < old(deps).shape().1 && old(self).versions()[summaries@[k].0 as int] < u64::MAX,
            distinct_nodes(summaries@),
            component < old(deps).shape().0,
        ensures
            final(deps).wf(),
            final(deps).shape() == old(deps).shape(),
            forall|d: int| #[trigger] final(deps).dependencies_of(d) == old(deps).dependencies_of(d),
            forall|d: int| #[trigger] final(deps).dependents_of(d) == old(deps).dependents_of(d),
            forall|m: int| 0 <= m < old(deps).shape().1 ==> #[trigger] final(deps).readers_of(m) == (if exists|k: int| 0 <= k < reads@.len() && (#[trigger] reads@[k]).0 == m {
                old(deps).readers_of(m).insert(component)
            } else {
                old(deps).readers_of(m)
            }),
            final(self).summaries().len() == old(self).summaries().len(),
            forall|m: int| 0 <= m < old(self).summaries().len() ==> #[trigger] final(self).summaries()[m] == merged_summary(old(self).summaries()[m], summaries@, m),
            forall|m: int| 0 <= m < old(self).summaries().len() ==> #[trigger] final(self).versions()[m] == merged_version(old(self).summaries()[m], old(self).versions()[m], summaries@, m),
            final(next_dirty)@.len() == old(next_dirty)@.len(),
            forall|c: int| 0 <= c < old(next_dirty)@.len() ==> #[trigger] final(next_dirty)@[c] == (old(next_dirty)@[c]
                || (c == component && exists|k: int| 0 <= k < reads@.len() && old(self).versions()[(#[trigger] reads@[k]).0 as int] != reads@[k].1)
                || exists|k: int| 0 <= k < summaries@.len() && changes(old(self).summaries()[(#[trigger] summaries@[k]).0 as int], summaries@[k].1@) && final(deps).readers_of(summaries@[k].0 as int).contains(c as usize)),
    {
        deps.record_reads(component, reads);
        if self.stale(reads) {
            next_dirty.set(component, true);
        }
        self.merge_listed(deps, &summaries, next_dirty);
    }
}

impl EscDependencies {
    /// Makes `component` a reader of each node in `reads`.
    fn record_reads(&mut self, component: usize, reads: &Vec<(usize, u64)>)
        requires
            old(self).wf(),
            component < old(self).shape().0,
            forall|k: int| 0 <= k < reads@.len() ==> (#[trigger] reads@[k]).0 < old(self).shape().1,
        ensures
            final(self).wf(),
            final(self).shape() == old(self).shape(),
            forall|d: int| #[trigger] final(self).dependencies_of(d) == old(self).dependencies_of(d),
            forall|d: int| #[trigger] final(self).dependents_of(d) == old(self).dependents_of(d),
            forall|m: int| 0 <= m < old(self).shape().1 ==> #[trigger] final(self).readers_of(m) == (if exists|k: int| 0 <= k < reads@.len() && (#[trigger] reads@[k]).0 == m {
                old(self).readers_of(m).insert(component)
            } else {
                old(self).readers_of(m)
            }),
    {
        let mut k: usize = 0;
        while k < reads.len()
            invariant
                self.wf(),
                self.shape() == old(self).shape(),
                component < old(self).shape().0,
                forall|d: int| #[trigger] self.dependencies_of(d) == old(self).dependencies_of(d),
                forall|d: int| #[trigger] self.dependents_of(d) == old(self).dependents_of(d),
                forall|k: int| 0 <= k < reads@.len() ==> (#[trigger] reads@[k]).0 < old(self).shape().1,
                0 <= k <= reads@.len(),
                forall|m: int| 0 <= m < old(self).shape().1 ==> #[trigger] self.readers_of(m) == (if exists|j: int| 0 <= j < k && (#[trigger] reads@[j]).0 == m {
                    old(self).readers_of(m).insert(component)
                } else {
                    old(self).readers_of(m)
                }),
            decreases reads@.len() - k,
        {
            let n = reads[k].0;
            let ghost r1 = *self;
            self.add_reader(n, component);
            proof {
                assert forall|m: int| 0 <= m < old(self).shape().1 implies #[trigger] self.readers_of(m) == (if exists|j: int| 0 <= j < k + 1 && (#[trigger] reads@[j]).0 == m {
                    old(self).readers_of(m).insert(component)
                } else {
                    old(self).readers_of(m)
                }) by {
                    assert(r1.readers_of(m) == (if exists|j: int| 0 <= j < k && (#[trigger] reads@[j]).0 == m {
                        old(self).readers_of(m).insert(component)
                    } else {
                        old(self).readers_of(m)
                    }));
                    if m == n {
                        assert(reads@[k as int].0 == m);
                        assert(self.readers_of(m) =~= old(self).readers_of(m).insert(component));
                    } else if exists|j: int| 0 <= j < k + 1 && (#[trigger] reads@[j]).0 == m {
                        let j = choose|j: int| 0 <= j < k + 1 && (#[trigger] reads@[j]).0 == m;
                        assert(j < k);
                    }
                }
            }
            k = k + 1;
        }
    }
}

/// Marks each component listed in `rs`.
fn mark_all(rs: &Vec<usize>, marks: &mut Vec<bool>)
    requires
        forall|j: int| 0 <= j < rs@.len() ==> (#[trigger] rs@[j]) < old(marks)@.len(),
    ensures
        final(marks)@.len() == old(marks)@.len(),
        forall|c: int| 0 <= c < old(marks)@.len() ==> #[trigger] final(marks)@[c] == (old(marks)@[c] || rs@.contains(c as usize)),
{
    let ghost m0 = marks@;
    let n = marks.len();
    let mut i: usize = 0;
    while i < rs.len()
        invariant
            n == m0.len(),
            0 <= i <= rs@.len(),
            forall|j: int| 0 <= j < rs@.len() ==> (#[trigger] rs@[j]) < m0.len(),
            marks@.len() == m0.len(),
            forall|c: int| 0 <= c < m0.len() ==> #[trigger] marks@[c] == (m0[c] || rs@.take(i as int).contains(c as usize)),
        decreases rs@.len() - i,
    {
        let r = rs[i];
        let ghost before = marks@;
        marks.set(r, true);
        proof {
            let t = rs@.take(i + 1);
            assert(t =~= rs@.take(i as int).push(r));
            assert forall|c: int| 0 <= c < m0.len() implies #[trigger] marks@[c] == (m0[c] || t.contains(c as usize)) by {
                let p = rs@.take(i as int);
                let cu = c as usize;
                assert(cu as int == c);
                if cu == r {
                    assert(t[i as int] == cu);
                    assert(t.contains(cu));
                } else {
                    assert(marks@[c] == before[c]);
                    if t.contains(cu) {
                        let x = choose|x: int| 0 <= x < t.len() && t[x] == cu;
                        assert(x != i);
                        assert(p[x] == cu);
                        assert(p.contains(cu));
                    }
                    if p.contains(cu) {
                        let x = choose|x: int| 0 <= x < p.len() && p[x] == cu;
                        assert(t[x] == cu);
                        assert(t.contains(cu));
                    }
                }
            }
        }
        i = i + 1;
    }
    proof {
        assert(rs@.take(rs@.len() as int) =~= rs@);
    }
}

/// Whether no two entries name the same node.
pub open spec fn distinct_nodes(s: Seq<(usize, Summary)>) -> bool {
    forall|k: int, l: int| 0 <= k < l < s.len() ==> (#[trigger] s[k]).0 != (#[trigger] s[l]).0
}

/// Whether an entry names node `m`.
pub open spec fn listed(s: Seq<(usize, Summary)>, m: int) -> bool {
    exists|k: int| 0 <= k < s.len() && (#[trigger] s[k]).0 == m
}

/// Whether merging `s` into `current` changes it.
pub open spec fn changes(current: SummaryView, s: SummaryView) -> bool {
    join_summary_view(current, s) != current
}

/// Node `m`'s summary after merging the one listed for it, if any.
pub open spec fn merged_summary(current: SummaryView, summaries: Seq<(usize, Summary)>, m: int) -> SummaryView {
    if listed(summaries, m) {
        let k = choose|k: int| 0 <= k < summaries.len() && (#[trigger] summaries[k]).0 == m;
        join_summary_view(current, summaries[k].1@)
    } else {
        current
    }
}

/// Node `m`'s version after merging the summary listed for it, if any.
pub open spec fn merged_version(current: SummaryView, version: u64, summaries: Seq<(usize, Summary)>, m: int) -> u64 {
    if listed(summaries, m) {
        let k = choose|k: int| 0 <= k < summaries.len() && (#[trigger] summaries[k]).0 == m;
        if changes(current, summaries[k].1@) {
            (version + 1) as u64
        } else {
            version
        }
    } else {
        version
    }
}

proof fn lemma_listed_at(s: Seq<(usize, Summary)>, m: int, j: int)
    requires
        distinct_nodes(s),
        0 <= j < s.len(),
        s[j].0 == m,
    ensures
        listed(s, m),
        (choose|k: int| 0 <= k < s.len() && (#[trigger] s[k]).0 == m) == j,
{
    let k = choose|k: int| 0 <= k < s.len() && (#[trigger] s[k]).0 == m;
    if k != j {
        if k < j {
            assert(s[k].0 != s[j].0);
        } else {
            assert(s[j].0 != s[k].0);
        }
    }
}

/// One more listed summary changes only the view of its own node.
proof fn lemma_merged_step(s0: Seq<SummaryView>, v0: Seq<u64>, summaries: Seq<(usize, Summary)>, k: int)
    requires
        distinct_nodes(summaries),
        0 <= k < summaries.len(),
    ensures
        ({
            let pre = summaries.take(k);
            let post = summaries.take(k + 1);
            let n = summaries[k].0 as int;
            &&& !listed(pre, n)
            &&& merged_summary(s0[n], post, n) == join_summary_view(s0[n], summaries[k].1@)
            &&& merged_version(s0[n], v0[n], post, n) == (if changes(s0[n], summaries[k].1@) {
                (v0[n] + 1) as u64
            } else {
                v0[n]
            })
            &&& forall|m: int| m != n ==> #[trigger] merged_summary(s0[m], post, m) == merged_summary(s0[m], pre, m)
            &&& forall|m: int| m != n ==> #[trigger] merged_version(s0[m], v0[m], post, m) == merged_version(s0[m], v0[m], pre, m)
        }),
{
    let pre = summaries.take(k);
    let post = summaries.take(k + 1);
    let n = summaries[k].0 as int;
    assert(distinct_nodes(pre));
    assert(distinct_nodes(post));
    if listed(pre, n) {
        let j = choose|j: int| 0 <= j < pre.len() && (#[trigger] pre[j]).0 == n;
        assert(summaries[j].0 != summaries[k].0);
    }
    assert(post[k].0 == n);
    lemma_listed_at(post, n, k);
    assert forall|m: int| m != n implies #[trigger] merged_summary(s0[m], post, m) == merged_summary(s0[m], pre, m) && merged_version(s0[m], v0[m], post, m) == merged_version(s0[m], v0[m], pre, m) by {
        if listed(post, m) {
            let j = choose|j: int| 0 <= j < post.len() && (#[trigger] post[j]).0 == m;
            assert(j != k);
            assert(pre[j] == post[j]);
            lemma_listed_at(post, m, j);
            lemma_listed_at(pre, m, j);
        } else if listed(pre, m) {
            let j = choose|j: int| 0 <= j < pre.len() && (#[trigger] pre[j]).0 == m;
            assert(post[j] == pre[j]);
        }
    }
}

/// Merging a summary that has been merged before changes nothing, so that
/// versions stop growing once no analysis finds anything new.
pub proof fn law_merge_again_changes_nothing(current: SummaryView, s: SummaryView)
    ensures
        !changes(join_summary_view(current, s), s),
{
    crate::value::law_join_associative(current.returned, s.returned, s.returned);
    crate::value::law_join_idempotent(s.returned);
    assert(join_summary_view(join_summary_view(current, s), s) =~= join_summary_view(current, s));
}

/// The summaries that one analysis of a component sees: those of its own
/// functions, as far as the component's fixed point has got, and those of
/// other functions from the shared store, each read recorded with the
/// oldest version seen, so that a later change marks the component stale.
#[derive(Debug)]
pub struct LocalSummaries {
    local: Vec<(usize, Summary)>,
    reads: Vec<(usize, u64)>,
    local_read: bool,
}

/// The value listed for key `n`, if any.
pub open spec fn listed_value<V>(s: Seq<(usize, V)>, n: usize) -> Option<V> {
    if exists|k: int| 0 <= k < s.len() && (#[trigger] s[k]).0 == n {
        Some(s[choose|k: int| 0 <= k < s.len() && (#[trigger] s[k]).0 == n].1)
    } else {
        None
    }
}

/// Whether no two entries share a key.
pub open spec fn distinct_keys<V>(s: Seq<(usize, V)>) -> bool {
    forall|k: int, l: int| 0 <= k < l < s.len() ==> (#[trigger] s[k]).0 != (#[trigger] s[l]).0
}

proof fn lemma_listed_value<V>(s: Seq<(usize, V)>, n: usize, j: int)
    requires
        distinct_keys(s),
        0 <= j < s.len(),
        s[j].0 == n,
    ensures
        listed_value(s, n) == Some(s[j].1),
{
    let k = choose|k: int| 0 <= k < s.len() && (#[trigger] s[k]).0 == n;
    if k != j {
        if k < j {
            assert(s[k].0 != s[j].0);
        } else {
            assert(s[j].0 != s[k].0);
        }
    }
}

impl LocalSummaries {
    /// The summaries of the component's own functions.
    pub closed spec fn local_view(&self) -> Map<usize, SummaryView> {
        Map::new(|n: usize| listed_value(self.local@, n) is Some, |n: usize| listed_value(self.local@, n)->0@)
    }

    /// The oldest version read of each other function.
    pub closed spec fn reads_view(&self) -> Map<usize, u64> {
        Map::new(|n: usize| listed_value(self.reads@, n) is Some, |n: usize| listed_value(self.reads@, n)->0)
    }

    /// Whether a summary of the component's own functions has been read.
    pub closed spec fn local_read_view(&self) -> bool {
        self.local_read
    }

    /// Each function is listed once, among the component's own and among
    /// the reads.
    pub closed spec fn wf(&self) -> bool {
        distinct_keys(self.local@) && distinct_keys(self.reads@)
    }

    /// The view for the component's functions `nodes`, with the summaries
    /// `summaries` that the fixed point has reached so far.
    pub fn new(nodes: &Vec<usize>, summaries: Vec<Summary>) -> (r: Self)
        requires
            nodes@.len() == summaries@.len(),
            nodes@.no_duplicates(),
        ensures
            r.local_view().dom() == nodes@.to_set(),
            forall|k: int| 0 <= k < nodes@.len() ==> #[trigger] r.local_view()[nodes@[k]] == summaries@[k]@,
            r.reads_view() == Map::<usize, u64>::empty(),
            !r.local_read_view(),
            r.wf(),
    {
        let mut local: Vec<(usize, Summary)> = Vec::new();
        let mut k: usize = 0;
        while k < nodes.len()
            invariant
                nodes@.len() == summaries@.len(),
                nodes@.no_duplicates(),
                0 <= k <= nodes@.len(),
                local@.len() == k,
                forall|j: int| 0 <= j < k ==> (#[trigger] local@[j]).0 == nodes@[j] && local@[j].1@ == summaries@[j]@,
            decreases nodes@.len() - k,
        {
            local.push((nodes[k], summaries[k].duplicate()));
            k = k + 1;
        }
        let r = LocalSummaries { local, reads: Vec::new(), local_read: false };
        proof {
            assert(distinct_keys(r.local@)) by {
                assert forall|a: int, b: int| 0 <= a < b < r.local@.len() implies (#[trigger] r.local@[a]).0 != (#[trigger] r.local@[b]).0 by {
                    assert(nodes@[a] != nodes@[b]);
                }
            }
            assert forall|n: usize| r.local_view().dom().contains(n) <==> nodes@.to_set().contains(n) by {
                if nodes@.to_set().contains(n) {
                    let j = choose|j: int| 0 <= j < nodes@.len() && nodes@[j] == n;
                    assert(r.local@[j].0 == n);
                }
            }
            assert(r.local_view().dom() =~= nodes@.to_set());
            assert forall|k: int| 0 <= k < nodes@.len() implies #[trigger] r.local_view()[nodes@[k]] == summaries@[k]@ by {
                lemma_listed_value(r.local@, nodes@[k], k);
            }
            assert(r.reads_view() =~= Map::<usize, u64>::empty());
        }
        r
    }

    /// The summary of function node `n`: the component's own, if it is one
    /// of its functions, else the shared one, whose version is then
    /// recorded as read unless an older one was.
    pub fn get(&mut self, store: &SummaryStore, n: usize) -> (r: Summary)
        requires
            old(self).wf(),
            n < store.summaries().len(),
        ensures
            final(self).wf(),
            old(self).local_view().contains_key(n) ==> {
                &&& r@ == old(self).local_view()[n]
                &&& final(self).local_read_view()
                &&& final(self).reads_view() == old(self).reads_view()
            },
            !old(self).local_view().contains_key(n) ==> {
                &&& r@ == store.summaries()[n as int]
                &&& final(self).local_read_view() == old(self).local_read_view()
                &&& final(self).reads_view() == old(self).reads_view().insert(n, if old(self).reads_view().contains_key(n) && old(self).reads_view()[n] < store.versions()[n as int] {
                    old(self).reads_view()[n]
                } else {
                    store.versions()[n as int]
                })
            },
            final(self).local_view() == old(self).local_view(),
    {
        let mut k: usize = 0;
        while k < self.local.len()
            invariant
                *self == *old(self),
                self.wf(),
                0 <= k <= self.local@.len(),
                forall|j: int| 0 <= j < k ==> (#[trigger] self.local@[j]).0 != n,
            decreases self.local@.len() - k,
        {
            if self.local[k].0 == n {
                proof {
                    lemma_listed_value(self.local@, n, k as int);
                }
                self.local_read = true;
                let r = self.local[k].1.duplicate();
                assert(self.local_view() =~= old(self).local_view());
                return r;
            }
            k = k + 1;
        }
        assert(!old(self).local_view().contains_key(n));
        assert(listed_value(old(self).local@, n) is None);
        let version = store.version(n);
        let summary = store.summary(n);
        let ghost old_reads = self.reads@;
        let mut j: usize = 0;
        while j < self.reads.len()
            invariant
                0 <= j <= self.reads@.len(),
                self.reads@ == old_reads,
                old_reads == old(self).reads@,
                self.local@ == old(self).local@,
                self.local_read == old(self).local_read,
                distinct_keys(old_reads),
                distinct_keys(self.local@),
                version == store.versions()[n as int],
                summary@ == store.summaries()[n as int],
                listed_value(old(self).local@, n) is None,
                forall|i: int| 0 <= i < j ==> (#[trigger] self.reads@[i]).0 != n,
            decreases self.reads@.len() - j,
        {
            if self.reads[j].0 == n {
                proof {
                    lemma_listed_value(self.reads@, n, j as int);
                }
                let first = self.reads[j].1;
                if version < first {
                    self.reads.set(j, (n, version));
                    proof {
                        let r = self.reads@;
                        assert(distinct_keys(r)) by {
                            assert forall|a: int, b: int| 0 <= a < b < r.len() implies (#[trigger] r[a]).0 != (#[trigger] r[b]).0 by {
                                assert(old_reads[a].0 != old_reads[b].0);
                            }
                        }
                        assert forall|m: usize| #[trigger] listed_value(r, m) == (if m == n { Some(version) } else { listed_value(old_reads, m) }) by {
                            if m == n {
                                lemma_listed_value(r, n, j as int);
                            } else {
                                if listed_value(old_reads, m) is Some {
                                    let i = choose|i: int| 0 <= i < old_reads.len() && (#[trigger] old_reads[i]).0 == m;
                                    lemma_listed_value(old_reads, m, i);
                                    lemma_listed_value(r, m, i);
                                }
                                if listed_value(r, m) is Some {
                                    let i = choose|i: int| 0 <= i < r.len() && (#[trigger] r[i]).0 == m;
                                    assert(old_reads[i].0 == m);
                                }
                            }
                        }
                        assert(self.reads_view() =~= old(self).reads_view().insert(n, version));
                    }
                } else {
                    assert(self.reads_view() =~= old(self).reads_view().insert(n, first));
                }
                return summary;
            }
            j = j + 1;
        }
        self.reads.push((n, version));
        proof {
            let r = self.reads@;
            assert(distinct_keys(r)) by {
                assert forall|a: int, b: int| 0 <= a < b < r.len() implies (#[trigger] r[a]).0 != (#[trigger] r[b]).0 by {
                    if b < old_reads.len() {
                        assert(old_reads[a].0 != old_reads[b].0);
                    } else {
                        assert(old_reads[a].0 != n);
                    }
                }
            }
            assert(listed_value(old_reads, n) is None);
            assert forall|m: usize| #[trigger] listed_value(r, m) == (if m == n { Some(version) } else { listed_value(old_reads, m) }) by {
                if m == n {
                    lemma_listed_value(r, n, old_reads.len() as int);
                } else {
                    if listed_value(old_reads, m) is Some {
                        let i = choose|i: int| 0 <= i < old_reads.len() && (#[trigger] old_reads[i]).0 == m;
                        lemma_listed_value(old_reads, m, i);
                        assert(r[i] == old_reads[i]);
                        lemma_listed_value(r, m, i);
                    }
                    if listed_value(r, m) is Some {
                        let i = choose|i: int| 0 <= i < r.len() && (#[trigger] r[i]).0 == m;
                        assert(i < old_reads.len());
                        assert(old_reads[i].0 == m);
                    }
                }
            }
            assert(self.reads_view() =~= old(self).reads_view().insert(n, version));
        }
        summary
    }

    /// The reads recorded so far: each other function read, once, with the
    /// oldest version seen.
    pub fn reads(&self) -> (r: &Vec<(usize, u64)>)
        requires
            self.wf(),
        ensures
            forall|k: int, l: int| 0 <= k < l < r@.len() ==> (#[trigger] r@[k]).0 != (#[trigger] r@[l]).0,
            forall|k: int| 0 <= k < r@.len() ==> #[trigger] self.reads_view().contains_key(r@[k].0) && self.reads_view()[r@[k].0] == r@[k].1,
            forall|n: usize| #[trigger] self.reads_view().contains_key(n) ==> exists|k: int| 0 <= k < r@.len() && (#[trigger] r@[k]).0 == n,
    {
        proof {
            assert forall|k: int| 0 <= k < self.reads@.len() implies #[trigger] self.reads_view().contains_key(self.reads@[k].0) && self.reads_view()[self.reads@[k].0] == self.reads@[k].1 by {
                lemma_listed_value(self.reads@, self.reads@[k].0, k);
            }
        }
        &self.reads
    }

    /// Whether a summary of the component's own functions has been read.
    pub fn local_read(&self) -> (r: bool)
        ensures
            r == self.local_read_view(),
    {
        self.local_read
    }
}

} // verus!
