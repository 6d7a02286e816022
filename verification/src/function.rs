//! Functions of a project and the graph of calls between them.
use crate::module_id::EscModuleId;
use crate::set::Types;
use crate::sorted::{increasing, insert_index};
use crate::subtype::EscSuperTypes;
use vstd::prelude::*;

verus! {

broadcast use vstd::seq_lib::group_seq_properties;

/// A function's identity within one build of a project's call graph: its
/// module and its node in the graph. Nodes must be renumbered whenever the
/// graph is rebuilt.
#[derive(Debug, Hash)]
pub struct EscFnId {
    module_id: EscModuleId,
    node: usize,
}

/// The mathematical value of a function identity.
pub struct FnIdView {
    pub module_id: Seq<char>,
    pub node: usize,
}

impl View for EscFnId {
    type V = FnIdView;

    closed spec fn view(&self) -> FnIdView {
        FnIdView { module_id: self.module_id@, node: self.node }
    }
}

impl EscFnId {
    pub fn new(module_id: EscModuleId, node: usize) -> (r: Self)
        ensures
            r@ == (FnIdView { module_id: module_id@, node }),
    {
        EscFnId { module_id, node }
    }

    pub fn module_id(&self) -> (r: &EscModuleId)
        ensures
            r@ == self@.module_id,
    {
        &self.module_id
    }

    pub fn node(&self) -> (r: usize)
        ensures
            r == self@.node,
    {
        self.node
    }

    /// A copy with the same view.
    pub fn duplicate(&self) -> (r: Self)
        ensures
            r@ == self@,
    {
        EscFnId { module_id: self.module_id.duplicate(), node: self.node }
    }

    /// Whether two identities are the same.
    pub fn same(&self, other: &Self) -> (r: bool)
        ensures
            r == (self@ == other@),
    {
        self.node == other.node && self.module_id.same(&other.module_id)
    }
}

impl Clone for EscFnId {
    fn clone(&self) -> (r: Self)
        ensures
            r@ == self@,
    {
        self.duplicate()
    }
}

impl PartialEq for EscFnId {
    fn eq(&self, other: &Self) -> (r: bool) {
        self.same(other)
    }
}

impl vstd::std_specs::cmp::PartialEqSpecImpl for EscFnId {
    open spec fn obeys_eq_spec() -> bool {
        true
    }

    open spec fn eq_spec(&self, other: &Self) -> bool {
        self@ == other@
    }
}

impl Eq for EscFnId {

}

/// Where a call happens: a call or `new` expression of a module, by its node.
#[derive(Debug)]
pub struct EscCallSite {
    pub module_id: EscModuleId,
    pub node_id: u32,
}

/// A call and the functions it may reach.
#[derive(Debug)]
pub struct EscCall {
    /// None for module-level execution.
    pub caller: Option<EscFnId>,
    pub site: EscCallSite,
    pub targets: Vec<EscFnId>,
    /// Additional targets may exist. This call must not be treated as error-free.
    pub unresolved: bool,
    /// The declared types that a `new` of this call constructs.
    pub constructed_types: Types,
    /// The standard globals this call may reach, by path.
    pub global_calls: Vec<String>,
}

/// The call graph of a project, as far as the analysis needs it here.
#[derive(Debug)]
pub struct EscCallGraph {
    /// Strongly connected components in reverse topological order: callee
    /// components precede callers. Members remain separate functions.
    pub sccs: Vec<Vec<EscFnId>>,
    /// Every call site, with its resolved targets.
    pub calls: Vec<EscCall>,
    /// The component of each function, by its node.
    pub component_of: Vec<usize>,
    /// The direct supertypes of declared classes.
    pub super_types: EscSuperTypes,
    /// Standard globals that the project assigns to.
    pub modified_globals: Vec<String>,
}

impl EscCallGraph {
    /// A graph without functions.
    pub fn new() -> (r: Self)
        ensures
            r.sccs@.len() == 0,
            r.calls@.len() == 0,
            r.super_types@ == Map::<crate::error::ErrorTypeView, Set<crate::error::ErrorTypeView>>::empty(),
            r.modified_globals@.len() == 0,
    {
        EscCallGraph { sccs: Vec::new(), calls: Vec::new(), component_of: Vec::new(), super_types: EscSuperTypes::new(), modified_globals: Vec::new() }
    }
}

impl Default for EscCallGraph {
    fn default() -> (r: Self)
        ensures
            r.sccs@.len() == 0,
            r.modified_globals@.len() == 0,
    {
        EscCallGraph::new()
    }
}

/// Whether the calls of `graph` are all indexed: every caller and target has
/// a component.
pub open spec fn calls_indexed(graph: &EscCallGraph) -> bool {
    &&& forall|c: int| 0 <= c < graph.component_of@.len() ==> #[trigger] graph.component_of@[c] < graph.sccs@.len()
    &&& forall|k: int, t: int|
        #![trigger graph.calls@[k].targets@[t]]
        0 <= k < graph.calls@.len() && 0 <= t < graph.calls@[k].targets@.len() ==> graph.calls@[k].targets@[t]@.node < graph.component_of@.len()
    &&& forall|k: int|
        0 <= k < graph.calls@.len() && (#[trigger] graph.calls@[k]).caller is Some ==> graph.calls@[k].caller->0@.node < graph.component_of@.len()
}

/// The node lists of a sequence of components.
pub open spec fn lists(raw: Seq<Vec<usize>>) -> Seq<Seq<usize>> {
    raw.map_values(|c: Vec<usize>| c@)
}

/// The nodes of a sequence of functions.
pub open spec fn nodes_of(s: Seq<EscFnId>) -> Seq<usize> {
    s.map_values(|f: EscFnId| f@.node)
}

/// Whether some list names node `x`.
pub open spec fn names_node(raw: Seq<Seq<usize>>, x: usize) -> bool {
    exists|i: int, j: int| 0 <= i < raw.len() && 0 <= j < raw[i].len() && #[trigger] raw[i][j] == x
}

/// Whether the lists name each node of `0..nodes` exactly once, and nothing else.
pub open spec fn covers_once(raw: Seq<Seq<usize>>, nodes: nat) -> bool {
    &&& forall|i: int, j: int| 0 <= i < raw.len() && 0 <= j < raw[i].len() ==> (#[trigger] raw[i][j]) < nodes
    &&& forall|x: usize| x < nodes ==> #[trigger] names_node(raw, x)
    &&& forall|i: int, j: int, k: int, l: int|
        0 <= i < raw.len() && 0 <= j < raw[i].len() && 0 <= k < raw.len() && 0 <= l < raw[k].len() && #[trigger] raw[i][j] == #[trigger] raw[k][l] ==> i == k && j == l
}

/// The strongly connected components that petgraph's Tarjan implementation
/// finds in the directed graph with nodes `0..nodes` and the given edges,
/// each as the list of its node indices.
pub uninterp spec fn tarjan_components(nodes: nat, edges: Seq<(usize, usize)>) -> Seq<Seq<usize>>;

/// Whether `p` is a walk along the edges: at least one node, and an edge
/// from each node to the next.
pub open spec fn is_walk(edges: Seq<(usize, usize)>, p: Seq<usize>) -> bool {
    p.len() >= 1 && forall|k: int| #![trigger p[k]] 0 <= k < p.len() - 1 ==> edges.contains((p[k], p[k + 1]))
}

/// Whether a walk along the edges leads from `a` to `b`.
pub open spec fn reaches(edges: Seq<(usize, usize)>, a: usize, b: usize) -> bool {
    exists|p: Seq<usize>| #[trigger] is_walk(edges, p) && p[0] == a && p.last() == b
}

/// Whether the members of each list reach one another along the edges.
pub open spec fn strongly_connected_lists(raw: Seq<Seq<usize>>, edges: Seq<(usize, usize)>) -> bool {
    forall|i: int, a: int, b: int|
        0 <= i < raw.len() && 0 <= a < raw[i].len() && 0 <= b < raw[i].len() ==> reaches(edges, #[trigger] raw[i][a], #[trigger] raw[i][b])
}

/// Whether the lists come in reverse topological order: the target of each
/// edge is in the list of its source or in an earlier one.
pub open spec fn targets_first(raw: Seq<Seq<usize>>, edges: Seq<(usize, usize)>) -> bool {
    forall|e: int, i: int, a: int, j: int, b: int|
        #![trigger edges[e], raw[i][a], raw[j][b]]
        0 <= e < edges.len() && 0 <= i < raw.len() && 0 <= a < raw[i].len() && 0 <= j < raw.len() && 0 <= b < raw[j].len()
            && raw[i][a] == edges[e].0 && raw[j][b] == edges[e].1 ==> j <= i
}

/// Calls `petgraph::algo::tarjan_scc` on the directed graph with nodes
/// `0..node_count` and `edges`. The contract claims what petgraph documents
/// of the result, read as node indices: it is `tarjan_components` of these
/// arguments; each list is a strongly connected component, so that no list
/// is empty, the lists name each node exactly once and the members of a list
/// reach one another;
/// and the lists come in reverse topological order. The order of the nodes
/// within a list, which petgraph leaves arbitrary, is left unsaid.
#[verifier::external_body]
fn strongly_connected(node_count: usize, edges: &Vec<(usize, usize)>) -> (r: Vec<Vec<usize>>)
    requires
        forall|k: int| 0 <= k < edges@.len() ==> (#[trigger] edges@[k]).0 < node_count && edges@[k].1 < node_count,
    ensures
        lists(r@) == tarjan_components(node_count as nat, edges@),
        covers_once(lists(r@), node_count as nat),
        forall|i: int| 0 <= i < r@.len() ==> (#[trigger] r@[i])@.len() > 0,
        strongly_connected_lists(lists(r@), edges@),
        targets_first(lists(r@), edges@),
{
    let mut graph = petgraph::Graph::<(), (), petgraph::Directed, usize>::with_capacity(node_count, edges.len());
    for _ in 0..node_count {
        graph.add_node(());
    }
    graph.extend_with_edges(edges.iter().copied());
    petgraph::algo::tarjan_scc(&graph).into_iter().map(|c| c.into_iter().map(|n| n.index()).collect()).collect()
}

/// Whether position `(a, b)` of the lists comes before position `(i, j)`.
pub open spec fn done_before(raw: Seq<Seq<usize>>, i: int, j: int, a: int, b: int) -> bool {
    0 <= a < raw.len() && 0 <= b < raw[a].len() && (a < i || (a == i && b < j))
}

/// Sorts the members of each component and records the component of each
/// node. `None` when the lists do not name each node of `0..node_count`
/// exactly once.
pub fn components_of(node_count: usize, raw: &Vec<Vec<usize>>) -> (r: Option<(Vec<Vec<usize>>, Vec<usize>)>)
    ensures
        r is Some <==> covers_once(lists(raw@), node_count as nat),
        r matches Some((sorted, comp)) ==> {
            &&& sorted@.len() == raw@.len()
            &&& forall|i: int| 0 <= i < raw@.len() ==> increasing(#[trigger] sorted@[i]@) && sorted@[i]@.to_set() == raw@[i]@.to_set()
            &&& comp@.len() == node_count
            &&& forall|x: int| 0 <= x < node_count ==> (#[trigger] comp@[x]) < raw@.len() && raw@[comp@[x] as int]@.contains(x as usize)
        },
{
    let ghost lv = lists(raw@);
    let n = node_count;
    let mut seen: Vec<bool> = Vec::new();
    let mut comp: Vec<usize> = Vec::new();
    let mut x: usize = 0;
    while x < n
        invariant
            0 <= x <= n,
            seen@.len() == x,
            comp@.len() == x,
            forall|y: int| 0 <= y < x ==> !(#[trigger] seen@[y]),
        decreases n - x,
    {
        seen.push(false);
        comp.push(0);
        x = x + 1;
    }
    let mut sorted: Vec<Vec<usize>> = Vec::new();
    let mut i: usize = 0;
    while i < raw.len()
        invariant
            lv == lists(raw@),
            n == node_count,
            0 <= i <= raw@.len(),
            seen@.len() == n,
            comp@.len() == n,
            sorted@.len() == i,
            forall|a: int, b: int| #[trigger] done_before(lv, i as int, 0, a, b) ==> lv[a][b] < n,
            forall|a: int, b: int, c: int, d: int|
                #[trigger] done_before(lv, i as int, 0, a, b) && #[trigger] done_before(lv, i as int, 0, c, d) && lv[a][b] == lv[c][d] ==> a == c && b == d,
            forall|y: int| 0 <= y < n ==> (#[trigger] seen@[y] <==> exists|a: int, b: int| #[trigger] done_before(lv, i as int, 0, a, b) && lv[a][b] == y),
            forall|y: int| 0 <= y < n && #[trigger] seen@[y] ==> comp@[y] < lv.len() && lv[comp@[y] as int].contains(y as usize),
            forall|a: int| 0 <= a < i ==> increasing(#[trigger] sorted@[a]@) && sorted@[a]@.to_set() == lv[a].to_set(),
        decreases raw@.len() - i,
    {
        let members = &raw[i];
        let mut s: Vec<usize> = Vec::new();
        let mut j: usize = 0;
        assert(s@.to_set() =~= lv[i as int].take(0).to_set());
        assert forall|a: int, b: int|
            #![trigger done_before(lv, i as int, 0, a, b)]
            #![trigger done_before(lv, i as int, j as int, a, b)]
            done_before(lv, i as int, 0, a, b) <==> done_before(lv, i as int, j as int, a, b) by {}
        while j < members.len()
            invariant
                lv == lists(raw@),
                n == node_count,
                0 <= i < raw@.len(),
                *members == raw@[i as int],
                0 <= j <= members@.len(),
                seen@.len() == n,
                comp@.len() == n,
                sorted@.len() == i,
                forall|a: int, b: int| #[trigger] done_before(lv, i as int, j as int, a, b) ==> lv[a][b] < n,
                forall|a: int, b: int, c: int, d: int|
                    #[trigger] done_before(lv, i as int, j as int, a, b) && #[trigger] done_before(lv, i as int, j as int, c, d) && lv[a][b] == lv[c][d] ==> a == c && b == d,
                forall|y: int| 0 <= y < n ==> (#[trigger] seen@[y] <==> exists|a: int, b: int| #[trigger] done_before(lv, i as int, j as int, a, b) && lv[a][b] == y),
                forall|y: int| 0 <= y < n && #[trigger] seen@[y] ==> comp@[y] < lv.len() && lv[comp@[y] as int].contains(y as usize),
                forall|a: int| 0 <= a < i ==> increasing(#[trigger] sorted@[a]@) && sorted@[a]@.to_set() == lv[a].to_set(),
                increasing(s@),
                s@.to_set() == lv[i as int].take(j as int).to_set(),
            decreases members@.len() - j,
        {
            let y = members[j];
            assert(lv[i as int] == members@);
            assert(lv[i as int][j as int] == y);
            if y >= n {
                assert(!covers_once(lv, n as nat));
                return None;
            }
            if seen[y] {
                proof {
                    let (a, b) = choose|a: int, b: int| #[trigger] done_before(lv, i as int, j as int, a, b) && lv[a][b] == y;
                    assert(lv[a][b] == lv[i as int][j as int]);
                    assert(a != i || b != j);
                    assert(0 <= i < lv.len() && 0 <= j < lv[i as int].len());
                    assert(!covers_once(lv, n as nat));
                }
                return None;
            }
            let ghost seen0 = seen@;
            let ghost comp0 = comp@;
            seen.set(y, true);
            comp.set(y, i);
            insert_index(&mut s, y);
            proof {
                assert(lv[i as int].take(j + 1) =~= lv[i as int].take(j as int).push(y));
                assert forall|a: int, b: int|
                    #![trigger done_before(lv, i as int, j + 1, a, b)]
                    #![trigger done_before(lv, i as int, j as int, a, b)]
                    done_before(lv, i as int, j + 1, a, b) <==> (done_before(lv, i as int, j as int, a, b) || (a == i && b == j)) by {}
                assert forall|z: int| 0 <= z < n implies (#[trigger] seen@[z] <==> exists|a: int, b: int| #[trigger] done_before(lv, i as int, j + 1, a, b) && lv[a][b] == z) by {
                    if z == y {
                        assert(done_before(lv, i as int, j + 1, i as int, j as int));
                    } else {
                        assert(seen@[z] == seen0[z]);
                        if seen0[z] {
                            let (a, b) = choose|a: int, b: int| #[trigger] done_before(lv, i as int, j as int, a, b) && lv[a][b] == z;
                            assert(done_before(lv, i as int, j + 1, a, b));
                        }
                    }
                }
                assert forall|z: int| 0 <= z < n && #[trigger] seen@[z] implies comp@[z] < lv.len() && lv[comp@[z] as int].contains(z as usize) by {
                    if z == y {
                        assert(lv[i as int][j as int] == y);
                    } else {
                        assert(seen0[z]);
                        assert(comp@[z] == comp0[z]);
                    }
                }
                assert forall|a: int, b: int, c: int, d: int|
                    #[trigger] done_before(lv, i as int, j + 1, a, b) && #[trigger] done_before(lv, i as int, j + 1, c, d) && lv[a][b] == lv[c][d] implies a == c && b == d by {
                    if (a == i && b == j) && !(c == i && d == j) {
                        assert(done_before(lv, i as int, j as int, c, d));
                        assert(seen0[y as int]);
                    }
                    if (c == i && d == j) && !(a == i && b == j) {
                        assert(done_before(lv, i as int, j as int, a, b));
                        assert(seen0[y as int]);
                    }
                }
            }
            j = j + 1;
        }
        proof {
            assert(lv[i as int].take(j as int) =~= lv[i as int]);
            assert(lv[i as int] == raw@[i as int]@);
            assert forall|a: int, b: int|
                #![trigger done_before(lv, i as int, j as int, a, b)]
                #![trigger done_before(lv, i + 1, 0, a, b)]
                done_before(lv, i as int, j as int, a, b) <==> done_before(lv, i + 1, 0, a, b) by {}
        }
        sorted.push(s);
        i = i + 1;
    }
    let mut y: usize = 0;
    while y < n
        invariant
            lv == lists(raw@),
            n == node_count,
            i == raw@.len(),
            seen@.len() == n,
            comp@.len() == n,
            sorted@.len() == i,
            0 <= y <= n,
            forall|z: int| 0 <= z < y ==> #[trigger] seen@[z],
            forall|z: int| 0 <= z < n ==> (#[trigger] seen@[z] <==> exists|a: int, b: int| #[trigger] done_before(lv, i as int, 0, a, b) && lv[a][b] == z),
            forall|z: int| 0 <= z < n && #[trigger] seen@[z] ==> comp@[z] < lv.len() && lv[comp@[z] as int].contains(z as usize),
        decreases n - y,
    {
        if !seen[y] {
            proof {
                assert forall|a: int, b: int| 0 <= a < lv.len() && 0 <= b < lv[a].len() implies lv[a][b] != y by {
                    assert(done_before(lv, i as int, 0, a, b));
                }
                assert(!names_node(lv, y));
            }
            return None;
        }
        y = y + 1;
    }
    proof {
        assert forall|a: int, b: int| 0 <= a < lv.len() && 0 <= b < lv[a].len() implies (#[trigger] lv[a][b]) < n by {
            assert(done_before(lv, i as int, 0, a, b));
        }
        assert forall|a: int, b: int, c: int, d: int|
            0 <= a < lv.len() && 0 <= b < lv[a].len() && 0 <= c < lv.len() && 0 <= d < lv[c].len() && #[trigger] lv[a][b] == #[trigger] lv[c][d] implies a == c && b == d by {
            assert(done_before(lv, i as int, 0, a, b));
            assert(done_before(lv, i as int, 0, c, d));
        }
        assert forall|z: usize| z < n implies #[trigger] names_node(lv, z) by {
            assert(seen@[z as int]);
        }
        assert forall|a: int| 0 <= a < raw@.len() implies #[trigger] lv[a] == raw@[a]@ by {}
        assert forall|z: int| 0 <= z < n implies (#[trigger] comp@[z]) < raw@.len() && raw@[comp@[z] as int]@.contains(z as usize) by {
            assert(seen@[z]);
            assert(lv[comp@[z] as int] == raw@[comp@[z] as int]@);
        }
    }
    Some((sorted, comp))
}

/// The edges of one call: from the caller's node to each target's node, in
/// order; none for module-level code.
pub open spec fn edges_of_call(call: EscCall) -> Seq<(usize, usize)> {
    match call.caller {
        None => Seq::empty(),
        Some(x) => call.targets@.map_values(|t: EscFnId| (x@.node, t@.node)),
    }
}

/// The edges of a sequence of calls, in order.
pub open spec fn call_edges(calls: Seq<EscCall>) -> Seq<(usize, usize)>
    decreases calls.len(),
{
    if calls.len() == 0 {
        Seq::empty()
    } else {
        call_edges(calls.drop_last()) + edges_of_call(calls.last())
    }
}

/// Whether every caller and target of the calls is one of `count` nodes.
pub open spec fn calls_within(calls: Seq<EscCall>, count: nat) -> bool {
    &&& forall|k: int, t: int|
        #![trigger calls[k].targets@[t]]
        0 <= k < calls.len() && 0 <= t < calls[k].targets@.len() ==> calls[k].targets@[t]@.node < count
    &&& forall|k: int| 0 <= k < calls.len() && (#[trigger] calls[k]).caller is Some ==> calls[k].caller->0@.node < count
}

proof fn lemma_call_edges_within(calls: Seq<EscCall>, count: nat)
    requires
        calls_within(calls, count),
    ensures
        forall|e: int| 0 <= e < call_edges(calls).len() ==> (#[trigger] call_edges(calls)[e]).0 < count && call_edges(calls)[e].1 < count,
    decreases calls.len(),
{
    if calls.len() > 0 {
        let init = calls.drop_last();
        assert(calls_within(init, count)) by {
            assert forall|k: int, t: int| 0 <= k < init.len() && 0 <= t < init[k].targets@.len() implies #[trigger] init[k].targets@[t]@.node < count by {
                assert(init[k] == calls[k]);
            }
            assert forall|k: int| 0 <= k < init.len() && (#[trigger] init[k]).caller is Some implies init[k].caller->0@.node < count by {
                assert(init[k] == calls[k]);
            }
        }
        lemma_call_edges_within(init, count);
        let last = calls.last();
        assert(last == calls[calls.len() - 1]);
        assert forall|e: int| 0 <= e < call_edges(calls).len() implies (#[trigger] call_edges(calls)[e]).0 < count && call_edges(calls)[e].1 < count by {
            let before = call_edges(init);
            if e >= before.len() {
                let t = e - before.len();
                assert(last.targets@[t]@.node < count);
            }
        }
    }
}

/// Each call made in a function gives an edge from it to each target.
proof fn lemma_call_edge(calls: Seq<EscCall>, k: int, u: int)
    requires
        0 <= k < calls.len(),
        0 <= u < calls[k].targets@.len(),
        calls[k].caller is Some,
    ensures
        call_edges(calls).contains((calls[k].caller->0@.node, calls[k].targets@[u]@.node)),
    decreases calls.len(),
{
    let init = calls.drop_last();
    let before = call_edges(init);
    let all = call_edges(calls);
    if k == calls.len() - 1 {
        let es = edges_of_call(calls.last());
        assert(calls.last() == calls[k]);
        assert(es[u] == (calls[k].caller->0@.node, calls[k].targets@[u]@.node));
        assert(all[before.len() + u] == es[u]);
    } else {
        assert(init[k] == calls[k]);
        lemma_call_edge(init, k, u);
        let e = choose|e: int| 0 <= e < before.len() && before[e] == (calls[k].caller->0@.node, calls[k].targets@[u]@.node);
        assert(all[e] == before[e]);
    }
}

impl EscCallGraph {
    /// Builds the graph of `functions`, indexed by node, from the resolved
    /// calls: each call made in a function is an edge from it to each of
    /// the call's targets, and the strongly connected components of these
    /// edges, with their members in node order, are the graph's components,
    /// a callee's component never after its caller's.
    pub fn assemble(functions: Vec<EscFnId>, calls: Vec<EscCall>, super_types: EscSuperTypes, modified_globals: Vec<String>) -> (r: Option<EscCallGraph>)
        requires
            forall|i: int| 0 <= i < functions@.len() ==> (#[trigger] functions@[i])@.node == i,
            calls_within(calls@, functions@.len()),
        ensures
            r is Some,
            r matches Some(g) ==> {
                let t = tarjan_components(functions@.len(), call_edges(calls@));
                &&& g.calls@ == calls@
                &&& g.super_types == super_types
                &&& g.modified_globals@ == modified_globals@
                &&& g.sccs@.len() == t.len()
                &&& forall|i: int| 0 <= i < t.len() ==> (#[trigger] g.sccs@[i])@.len() > 0
                &&& forall|i: int| 0 <= i < t.len() ==> increasing(nodes_of(#[trigger] g.sccs@[i]@)) && nodes_of(g.sccs@[i]@).to_set() == t[i].to_set()
                &&& forall|i: int, j: int| 0 <= i < t.len() && 0 <= j < g.sccs@[i]@.len() ==> (#[trigger] g.sccs@[i]@[j])@ == functions@[g.sccs@[i]@[j]@.node as int]@
                &&& g.component_of@.len() == functions@.len()
                &&& forall|x: int| 0 <= x < functions@.len() ==> (#[trigger] g.component_of@[x]) < t.len() && t[g.component_of@[x] as int].contains(x as usize)
                &&& forall|i: int, x: int|
                    #![trigger g.sccs@[i], g.component_of@[x]]
                    0 <= i < t.len() && 0 <= x < functions@.len()
                        ==> (nodes_of(g.sccs@[i]@).contains(x as usize) <==> g.component_of@[x] == i)
                &&& calls_indexed(&g)
                &&& forall|i: int, a: int, b: int|
                    0 <= i < g.sccs@.len() && 0 <= a < g.sccs@[i]@.len() && 0 <= b < g.sccs@[i]@.len()
                        ==> reaches(call_edges(calls@), (#[trigger] g.sccs@[i]@[a])@.node, (#[trigger] g.sccs@[i]@[b])@.node)
                &&& forall|k: int, u: int|
                    #![trigger calls@[k].targets@[u]]
                    0 <= k < calls@.len() && 0 <= u < calls@[k].targets@.len() && calls@[k].caller is Some
                        ==> g.component_of@[calls@[k].targets@[u]@.node as int] <= g.component_of@[calls@[k].caller->0@.node as int]
            },
    {
        let n = functions.len();
        let mut edges: Vec<(usize, usize)> = Vec::new();
        let mut k: usize = 0;
        while k < calls.len()
            invariant
                0 <= k <= calls@.len(),
                edges@ == call_edges(calls@.take(k as int)),
            decreases calls@.len() - k,
        {
            let call = &calls[k];
            proof {
                assert(calls@.take(k + 1).drop_last() =~= calls@.take(k as int));
                assert(calls@.take(k + 1).last() == calls@[k as int]);
            }
            match &call.caller {
                None => {
                    assert(edges@ =~= call_edges(calls@.take(k + 1)));
                },
                Some(caller) => {
                    let from = caller.node();
                    let ghost base = edges@;
                    let mut t: usize = 0;
                    while t < call.targets.len()
                        invariant
                            0 <= k < calls@.len(),
                            *call == calls@[k as int],
                            call.caller == Some(*caller),
                            from == caller@.node,
                            0 <= t <= call.targets@.len(),
                            edges@ == base + edges_of_call(*call).take(t as int),
                        decreases call.targets@.len() - t,
                    {
                        edges.push((from, call.targets[t].node()));
                        proof {
                            assert(edges_of_call(*call).take(t + 1) =~= edges_of_call(*call).take(t as int).push((from, call.targets@[t as int]@.node)));
                        }
                        t = t + 1;
                    }
                    proof {
                        assert(edges_of_call(*call).take(call.targets@.len() as int) =~= edges_of_call(*call));
                    }
                },
            }
            k = k + 1;
        }
        proof {
            assert(calls@.take(calls@.len() as int) =~= calls@);
            lemma_call_edges_within(calls@, n as nat);
        }
        let raw = strongly_connected(n, &edges);
        match components_of(n, &raw) {
            None => None,
            Some((sorted, comp)) => {
                let ghost t = tarjan_components(n as nat, call_edges(calls@));
                assert(lists(raw@) == t);
                let mut sccs: Vec<Vec<EscFnId>> = Vec::new();
                let mut i: usize = 0;
                while i < sorted.len()
                    invariant
                        lists(raw@) == t,
                        sorted@.len() == raw@.len(),
                        forall|a: int| 0 <= a < raw@.len() ==> increasing(#[trigger] sorted@[a]@) && sorted@[a]@.to_set() == raw@[a]@.to_set(),
                        forall|x: int| 0 <= x < n ==> (#[trigger] comp@[x]) < raw@.len() && raw@[comp@[x] as int]@.contains(x as usize),
                        covers_once(t, n as nat),
                        n == functions@.len(),
                        forall|a: int| 0 <= a < functions@.len() ==> (#[trigger] functions@[a])@.node == a,
                        0 <= i <= sorted@.len(),
                        sccs@.len() == i,
                        forall|a: int| 0 <= a < i ==> nodes_of(#[trigger] sccs@[a]@) == sorted@[a]@,
                        forall|a: int, b: int| 0 <= a < i && 0 <= b < sccs@[a]@.len() ==> (#[trigger] sccs@[a]@[b])@ == functions@[sccs@[a]@[b]@.node as int]@,
                    decreases sorted@.len() - i,
                {
                    let members = &sorted[i];
                    let mut ids: Vec<EscFnId> = Vec::new();
                    let mut j: usize = 0;
                    while j < members.len()
                        invariant
                            lists(raw@) == t,
                            sorted@.len() == raw@.len(),
                            forall|a: int| 0 <= a < raw@.len() ==> increasing(#[trigger] sorted@[a]@) && sorted@[a]@.to_set() == raw@[a]@.to_set(),
                            covers_once(t, n as nat),
                            n == functions@.len(),
                            forall|a: int| 0 <= a < functions@.len() ==> (#[trigger] functions@[a])@.node == a,
                            0 <= i < sorted@.len(),
                            *members == sorted@[i as int],
                            0 <= j <= members@.len(),
                            nodes_of(ids@) == members@.take(j as int),
                            forall|b: int| 0 <= b < ids@.len() ==> (#[trigger] ids@[b])@ == functions@[ids@[b]@.node as int]@,
                        decreases members@.len() - j,
                    {
                        let x = members[j];
                        proof {
                            assert(sorted@[i as int]@.to_set().contains(x));
                            assert(raw@[i as int]@.to_set().contains(x));
                            let b = choose|b: int| 0 <= b < raw@[i as int]@.len() && raw@[i as int]@[b] == x;
                            assert(t[i as int] == raw@[i as int]@);
                            assert(t[i as int][b] < n);
                        }
                        let id = functions[x].duplicate();
                        assert(id@.node == x);
                        let ghost before = ids@;
                        ids.push(id);
                        proof {
                            assert(members@.take(j + 1) =~= members@.take(j as int).push(x));
                            assert(nodes_of(ids@) =~= nodes_of(before).push(x));
                        }
                        j = j + 1;
                    }
                    proof {
                        assert(members@.take(j as int) =~= members@);
                    }
                    sccs.push(ids);
                    i = i + 1;
                }
                let g = EscCallGraph { sccs, calls, component_of: comp, super_types, modified_globals };
                proof {
                    assert forall|a: int| 0 <= a < t.len() implies increasing(nodes_of(#[trigger] g.sccs@[a]@)) && nodes_of(g.sccs@[a]@).to_set() == t[a].to_set() by {
                        assert(t[a] == raw@[a]@);
                    }
                    assert forall|x: int| 0 <= x < n implies (#[trigger] g.component_of@[x]) < t.len() && t[g.component_of@[x] as int].contains(x as usize) by {
                        assert(t[comp@[x] as int] == raw@[comp@[x] as int]@);
                    }
                    assert forall|i: int, x: int|
                        #![trigger g.sccs@[i], g.component_of@[x]]
                        0 <= i < t.len() && 0 <= x < n
                            implies (nodes_of(g.sccs@[i]@).contains(x as usize) <==> g.component_of@[x] == i) by {
                        let c = comp@[x] as int;
                        let m = nodes_of(g.sccs@[i]@);
                        assert(t[c] == raw@[c]@);
                        assert(t[i] == raw@[i]@);
                        assert(t[c].contains(x as usize));
                        let j2 = choose|j2: int| 0 <= j2 < t[c].len() && t[c][j2] == x as usize;
                        if m.contains(x as usize) {
                            assert(m.to_set().contains(x as usize));
                            assert(t[i].to_set().contains(x as usize));
                            let j1 = choose|j1: int| 0 <= j1 < t[i].len() && t[i][j1] == x as usize;
                            assert(t[i][j1] == t[c][j2]);
                        }
                        if c == i {
                            assert(t[i].to_set().contains(x as usize));
                            assert(m.to_set().contains(x as usize));
                        }
                    }
                    assert forall|i: int| 0 <= i < t.len() implies (#[trigger] g.sccs@[i])@.len() > 0 by {
                        assert(t[i] == raw@[i]@);
                        assert(t[i].to_set().contains(t[i][0]));
                        assert(nodes_of(g.sccs@[i]@).to_set().contains(t[i][0]));
                    }
                    let es = call_edges(calls@);
                    assert forall|i: int, a: int, b: int|
                        0 <= i < g.sccs@.len() && 0 <= a < g.sccs@[i]@.len() && 0 <= b < g.sccs@[i]@.len()
                            implies reaches(es, (#[trigger] g.sccs@[i]@[a])@.node, (#[trigger] g.sccs@[i]@[b])@.node) by {
                        let m = nodes_of(g.sccs@[i]@);
                        assert(m[a] == g.sccs@[i]@[a]@.node);
                        assert(m[b] == g.sccs@[i]@[b]@.node);
                        assert(m.to_set().contains(m[a]));
                        assert(m.to_set().contains(m[b]));
                        assert(t[i].to_set().contains(m[a]));
                        assert(t[i].to_set().contains(m[b]));
                        let a2 = choose|a2: int| 0 <= a2 < t[i].len() && t[i][a2] == m[a];
                        let b2 = choose|b2: int| 0 <= b2 < t[i].len() && t[i][b2] == m[b];
                        assert(reaches(es, t[i][a2], t[i][b2]));
                    }
                    assert forall|k: int, u: int|
                        #![trigger calls@[k].targets@[u]]
                        0 <= k < calls@.len() && 0 <= u < calls@[k].targets@.len() && calls@[k].caller is Some
                            implies g.component_of@[calls@[k].targets@[u]@.node as int] <= g.component_of@[calls@[k].caller->0@.node as int] by {
                        let cn = calls@[k].caller->0@.node;
                        let tn = calls@[k].targets@[u]@.node;
                        lemma_call_edge(calls@, k, u);
                        let e = choose|e: int| 0 <= e < es.len() && es[e] == (cn, tn);
                        let i = comp@[cn as int] as int;
                        let j = comp@[tn as int] as int;
                        assert(g.component_of@[cn as int] == i);
                        assert(t[i].contains(cn));
                        assert(t[j].contains(tn));
                        let a = choose|a: int| 0 <= a < t[i].len() && t[i][a] == cn;
                        let b = choose|b: int| 0 <= b < t[j].len() && t[j][b] == tn;
                        assert(es[e].0 == t[i][a] && es[e].1 == t[j][b]);
                    }
                }
                Some(g)
            },
        }
    }
}

/// Whether a call of the sequence is made in function node `n` and may
/// reach `n` itself.
pub open spec fn calls_itself(calls: Seq<EscCall>, n: usize) -> bool {
    exists|k: int, t: int|
        0 <= k < calls.len() && 0 <= t < calls[k].targets@.len() && (#[trigger] calls[k]).caller is Some
            && calls[k].caller->0@.node == n && (#[trigger] calls[k].targets@[t])@.node == n
}

impl EscCallGraph {
    /// Whether component `c` is recursive: it has more than one member, or
    /// its one member may call itself. Only the summaries of a recursive
    /// component need a fixed point.
    pub fn is_recursive(&self, c: usize) -> (r: bool)
        requires
            c < self.sccs@.len(),
            self.sccs@[c as int]@.len() > 0,
        ensures
            r == (self.sccs@[c as int]@.len() > 1 || calls_itself(self.calls@, self.sccs@[c as int]@[0]@.node)),
    {
        let members = &self.sccs[c];
        if members.len() > 1 {
            return true;
        }
        let n = members[0].node();
        let mut k: usize = 0;
        while k < self.calls.len()
            invariant
                c < self.sccs@.len(),
                self.sccs@[c as int]@.len() == 1,
                n == self.sccs@[c as int]@[0]@.node,
                0 <= k <= self.calls@.len(),
                forall|i: int, t: int|
                    0 <= i < k && 0 <= t < self.calls@[i].targets@.len() ==> !((#[trigger] self.calls@[i]).caller is Some
                        && self.calls@[i].caller->0@.node == n && (#[trigger] self.calls@[i].targets@[t])@.node == n),
            decreases self.calls@.len() - k,
        {
            let call = &self.calls[k];
            match &call.caller {
                Some(caller) => {
                    if caller.node() == n {
                        let mut t: usize = 0;
                        while t < call.targets.len()
                            invariant
                                c < self.sccs@.len(),
                                self.sccs@[c as int]@.len() == 1,
                                n == self.sccs@[c as int]@[0]@.node,
                                0 <= k < self.calls@.len(),
                                *call == self.calls@[k as int],
                                call.caller is Some,
                                call.caller->0@.node == n,
                                0 <= t <= call.targets@.len(),
                                forall|u: int| 0 <= u < t ==> (#[trigger] call.targets@[u])@.node != n,
                            decreases call.targets@.len() - t,
                        {
                            if call.targets[t].node() == n {
                                assert(self.calls@[k as int].targets@[t as int]@.node == n);
                                return true;
                            }
                            t = t + 1;
                        }
                    }
                },
                None => {},
            }
            k = k + 1;
        }
        false
    }
}

} // verus!
