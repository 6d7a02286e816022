//! Editor bookkeeping: which modules an edit affects, and what is reported
//! for each call. Import edges are followed both ways, because argument
//! inference carries facts from callers into callees.
use crate::names::{name_views, sorted_names, strictly_sorted};
use crate::keyed::{keyed_map, lemma_keyed_dom, lemma_keyed_index, lemma_keyed_push, lemma_keyed_remove, lemma_keyed_update, unique_keys};
use crate::lines::{position_view, utf8_len, EscRange, LineIndex};
use crate::report::{EscCallReport, EscCheckDiagnostic};
use crate::text::{chars_of, push_text, str_eq, string_of};
use vstd::prelude::*;

verus! {

broadcast use vstd::seq_lib::group_seq_properties, vstd::set_lib::group_set_properties;

/// Whether a set of modules is closed under the import edges, in both directions.
pub open spec fn closed_under(edges: Seq<(usize, usize)>, s: Set<int>) -> bool {
    forall|e: int| 0 <= e < edges.len() ==> (s.contains(edges[e].0 as int) <==> s.contains(#[trigger] edges[e].1 as int))
}

/// The modules a vector of flags marks.
pub open spec fn marked(flags: Seq<bool>) -> Set<int> {
    Set::new(|i: int| 0 <= i < flags.len() && flags[i])
}

/// Whether module `d` is joined to `x` by an edge.
pub open spec fn adjacent(edges: Seq<(usize, usize)>, x: int, d: int) -> bool {
    exists|e: int| 0 <= e < edges.len() && ((edges[e].0 == x && edges[e].1 == d) || (edges[e].1 == x && #[trigger] edges[e].0 == d))
}

/// The modules of `count` that need checking again after an edit changed the
/// modules `changed`: the smallest set that holds the changed modules and is
/// closed under the import edges.
pub fn affected_modules(count: usize, edges: &Vec<(usize, usize)>, changed: &Vec<usize>) -> (r: Vec<bool>)
    requires
        forall|e: int| 0 <= e < edges@.len() ==> (#[trigger] edges@[e]).0 < count && edges@[e].1 < count,
        forall|c: int| 0 <= c < changed@.len() ==> #[trigger] changed@[c] < count,
    ensures
        r@.len() == count,
        forall|c: int| 0 <= c < changed@.len() ==> r@[#[trigger] changed@[c] as int],
        closed_under(edges@, marked(r@)),
        forall|t: Set<int>|
            closed_under(edges@, t) && (forall|c: int| 0 <= c < changed@.len() ==> t.contains(#[trigger] changed@[c] as int))
                ==> marked(r@).subset_of(t),
{
    // Adjacency lists in both directions.
    let mut adj: Vec<Vec<usize>> = Vec::new();
    let mut i: usize = 0;
    while i < count
        invariant
            0 <= i <= count,
            adj@.len() == i,
            forall|x: int| 0 <= x < i ==> (#[trigger] adj@[x])@.len() == 0,
        decreases count - i,
    {
        adj.push(Vec::new());
        i = i + 1;
    }
    let mut e: usize = 0;
    while e < edges.len()
        invariant
            0 <= e <= edges@.len(),
            adj@.len() == count,
            forall|k: int| 0 <= k < edges@.len() ==> (#[trigger] edges@[k]).0 < count && edges@[k].1 < count,
            forall|x: int, j: int| 0 <= x < count && 0 <= j < adj@[x]@.len() ==> #[trigger] adj@[x]@[j] < count && adjacent(edges@, x, adj@[x]@[j] as int),
            forall|k: int| 0 <= k < e ==> adj@[(#[trigger] edges@[k]).0 as int]@.contains(edges@[k].1) && adj@[edges@[k].1 as int]@.contains(edges@[k].0),
        decreases edges@.len() - e,
    {
        let (a, b) = edges[e];
        let ghost before = adj@;
        adj[a].push(b);
        adj[b].push(a);
        proof {
            assert forall|x: int, j: int| 0 <= x < count && 0 <= j < adj@[x]@.len() implies #[trigger] adj@[x]@[j] < count && adjacent(edges@, x, adj@[x]@[j] as int) by {
                if j < before[x]@.len() && !(x == a && j >= before[x]@.len()) {
                    if x == a as int && x == b as int {
                        if j < before[x]@.len() {
                            assert(adj@[x]@[j] == before[x]@[j]);
                        }
                    } else if x == a as int || x == b as int {
                        assert(adj@[x]@[j] == before[x]@[j]);
                    } else {
                        assert(adj@[x] == before[x]);
                    }
                } else {
                    assert(edges@[e as int] == (a, b));
                }
            }
            assert forall|k: int| 0 <= k < e + 1 implies adj@[(#[trigger] edges@[k]).0 as int]@.contains(edges@[k].1) && adj@[edges@[k].1 as int]@.contains(edges@[k].0) by {
                if k < e {
                    let x = edges@[k].0 as int;
                    let y = edges@[k].1 as int;
                    let jx = choose|j: int| 0 <= j < before[x]@.len() && before[x]@[j] == edges@[k].1;
                    let jy = choose|j: int| 0 <= j < before[y]@.len() && before[y]@[j] == edges@[k].0;
                    assert(adj@[x]@[jx] == edges@[k].1);
                    assert(adj@[y]@[jy] == edges@[k].0);
                } else {
                    assert(adj@[a as int]@.contains(b));
                    assert(adj@[b as int]@[adj@[b as int]@.len() - 1] == a);
                }
            }
        }
        e = e + 1;
    }
    // Marking by depth-first search from the changed modules.
    let mut mark: Vec<bool> = Vec::new();
    let mut i: usize = 0;
    while i < count
        invariant
            0 <= i <= count,
            mark@.len() == i,
            forall|x: int| 0 <= x < i ==> !mark@[x],
        decreases count - i,
    {
        mark.push(false);
        i = i + 1;
    }
    let ghost universe = Set::new(|x: int| 0 <= x < count);
    proof {
        vstd::set_lib::lemma_int_range(0, count as int);
        assert(universe =~= vstd::set_lib::set_int_range(0, count as int));
        assert(marked(mark@) =~= Set::<int>::empty());
    }
    let mut marked_count: usize = 0;
    let mut stack: Vec<usize> = Vec::new();
    let mut c: usize = 0;
    while c < changed.len()
        invariant
            0 <= c <= changed@.len(),
            mark@.len() == count,
            forall|k: int| 0 <= k < changed@.len() ==> #[trigger] changed@[k] < count,
            forall|k: int| 0 <= k < c ==> mark@[#[trigger] changed@[k] as int],
            forall|x: int| 0 <= x < count && mark@[x] ==> exists|k: int| 0 <= k < c && #[trigger] changed@[k] == x,
            forall|j: int| 0 <= j < stack@.len() ==> #[trigger] stack@[j] < count && mark@[stack@[j] as int],
            forall|x: int| 0 <= x < count && mark@[x] ==> stack@.contains(x as usize),
            marked_count == marked(mark@).len(),
            marked(mark@).finite(),
            marked(mark@).subset_of(universe),
            universe.len() == count,
            universe.finite(),
            universe == Set::new(|y: int| 0 <= y < count),
        decreases changed@.len() - c,
    {
        let x = changed[c];
        if !mark[x] {
            let ghost m0 = marked(mark@);
            mark.set(x, true);
            stack.push(x);
            proof {
                assert(marked(mark@) =~= m0.insert(x as int));
                assert(universe.contains(x as int));
                assert(marked(mark@).subset_of(universe));
                vstd::set_lib::lemma_len_subset(marked(mark@), universe);
            }
            marked_count = marked_count + 1;
        }
        c = c + 1;
    }
    proof {
        vstd::set_lib::lemma_len_subset(marked(mark@), universe);
    }
    while stack.len() > 0
        invariant
            forall|k: int| 0 <= k < changed@.len() ==> #[trigger] changed@[k] < count,
            mark@.len() == count,
            adj@.len() == count,
            forall|k: int| 0 <= k < edges@.len() ==> (#[trigger] edges@[k]).0 < count && edges@[k].1 < count,
            forall|x: int, j: int| 0 <= x < count && 0 <= j < adj@[x]@.len() ==> #[trigger] adj@[x]@[j] < count && adjacent(edges@, x, adj@[x]@[j] as int),
            forall|k: int| 0 <= k < edges@.len() ==> adj@[(#[trigger] edges@[k]).0 as int]@.contains(edges@[k].1) && adj@[edges@[k].1 as int]@.contains(edges@[k].0),
            forall|k: int| 0 <= k < changed@.len() ==> mark@[#[trigger] changed@[k] as int],
            forall|j: int| 0 <= j < stack@.len() ==> #[trigger] stack@[j] < count && mark@[stack@[j] as int],
            forall|x: int, j: int| 0 <= x < count && mark@[x] && !stack@.contains(x as usize) && 0 <= j < adj@[x]@.len() ==> mark@[#[trigger] adj@[x]@[j] as int],
            forall|t: Set<int>|
                closed_under(edges@, t) && (forall|k: int| 0 <= k < changed@.len() ==> t.contains(#[trigger] changed@[k] as int))
                    ==> marked(mark@).subset_of(t),
            marked_count == marked(mark@).len(),
            marked(mark@).finite(),
            marked(mark@).subset_of(universe),
            universe.len() == count,
            universe.finite(),
            universe == Set::new(|y: int| 0 <= y < count),
            marked_count <= count,
        decreases 2 * (count - marked_count) + stack@.len(),
    {
        let x = stack.pop().unwrap();
        let ghost s1 = stack@;
        let ghost mc0 = marked_count;
        let neighbours = &adj[x];
        let mut j: usize = 0;
        while j < neighbours.len()
            invariant
                *neighbours == adj@[x as int],
                x < count,
                mark@[x as int],
                mark@.len() == count,
                adj@.len() == count,
                0 <= j <= neighbours@.len(),
                forall|k: int| 0 <= k < changed@.len() ==> #[trigger] changed@[k] < count,
                forall|k: int| 0 <= k < edges@.len() ==> (#[trigger] edges@[k]).0 < count && edges@[k].1 < count,
                forall|y: int, jj: int| 0 <= y < count && 0 <= jj < adj@[y]@.len() ==> #[trigger] adj@[y]@[jj] < count && adjacent(edges@, y, adj@[y]@[jj] as int),
                forall|k: int| 0 <= k < changed@.len() ==> mark@[#[trigger] changed@[k] as int],
                forall|jj: int| 0 <= jj < stack@.len() ==> #[trigger] stack@[jj] < count && mark@[stack@[jj] as int],
                forall|jj: int| 0 <= jj < j ==> mark@[#[trigger] neighbours@[jj] as int],
                forall|y: int, jj: int| 0 <= y < count && y != x && mark@[y] && !stack@.contains(y as usize) && 0 <= jj < adj@[y]@.len() ==> mark@[#[trigger] adj@[y]@[jj] as int],
                forall|t: Set<int>|
                    closed_under(edges@, t) && (forall|k: int| 0 <= k < changed@.len() ==> t.contains(#[trigger] changed@[k] as int))
                        ==> marked(mark@).subset_of(t),
                marked_count == marked(mark@).len(),
                marked(mark@).finite(),
                marked(mark@).subset_of(universe),
                universe.len() == count,
                universe.finite(),
                universe == Set::new(|y: int| 0 <= y < count),
                marked_count <= count,
                2 * (count - marked_count) + stack@.len() <= 2 * (count - mc0) + s1.len(),
                mc0 <= marked_count,
            decreases neighbours@.len() - j,
        {
            let d = neighbours[j];
            if !mark[d] {
                let ghost m0 = marked(mark@);
                let ghost mk0 = mark@;
                mark.set(d, true);
                stack.push(d);
                proof {
                    assert(marked(mark@) =~= m0.insert(d as int));
                    assert(universe.contains(d as int));
                    assert(marked(mark@).subset_of(universe));
                    vstd::set_lib::lemma_len_subset(marked(mark@), universe);
                    assert forall|t: Set<int>|
                        closed_under(edges@, t) && (forall|k: int| 0 <= k < changed@.len() ==> t.contains(#[trigger] changed@[k] as int))
                            implies marked(mark@).subset_of(t) by {
                        assert(m0.subset_of(t));
                        assert(m0.contains(x as int));
                        let e = choose|e: int| 0 <= e < edges@.len() && ((edges@[e].0 == x && edges@[e].1 == d) || (edges@[e].1 == x && #[trigger] edges@[e].0 == d));
                        assert(t.contains(edges@[e].0 as int) <==> t.contains(edges@[e].1 as int));
                    }
                }
                marked_count = marked_count + 1;
            }
            j = j + 1;
        }
    }
    proof {
        assert forall|e: int| 0 <= e < edges@.len() implies (marked(mark@).contains(edges@[e].0 as int) <==> marked(mark@).contains(#[trigger] edges@[e].1 as int)) by {
            let a = edges@[e].0 as int;
            let b = edges@[e].1 as int;
            if marked(mark@).contains(a) {
                let j = choose|j: int| 0 <= j < adj@[a]@.len() && adj@[a]@[j] == edges@[e].1;
                assert(mark@[adj@[a]@[j] as int]);
            }
            if marked(mark@).contains(b) {
                let j = choose|j: int| 0 <= j < adj@[b]@.len() && adj@[b]@[j] == edges@[e].0;
                assert(mark@[adj@[b]@[j] as int]);
            }
        }
    }
    mark
}

/// A method called on a promise, by its property name.
#[derive(Debug, Clone, Copy)]
pub enum EscPromiseMethod {
    Catch,
    Then,
    Finally,
    /// Another name, or a computed one.
    Other,
}

/// One ancestor of a node, as far as the decisions about promises read it.
#[derive(Debug, Clone, Copy)]
pub enum EscAncestor {
    /// A function or arrow function: its body runs at another time.
    Function,
    Await,
    /// A call. When its callee is a member expression whose object
    /// contains the node: the method, and whether the first and the second
    /// argument are handlers that surely run.
    Call(Option<(EscPromiseMethod, bool, bool)>),
    /// A `try` statement with a `catch` whose block contains the node.
    CaughtTry,
    /// An `if`, a conditional expression, a loop or a `switch`.
    Branch,
    /// Anything else.
    Other,
}

/// Whether a call on the promise handles its rejection: `.catch` with a
/// handler, or `.then` with a handler as its second argument (`.finally`
/// does not).
pub open spec fn handles_rejection(m: EscPromiseMethod, first: bool, second: bool) -> bool {
    (m == EscPromiseMethod::Catch && first) || (m == EscPromiseMethod::Then && second)
}

/// The walk from the `k`th ancestor of a call outwards, up to the enclosing
/// function: whether it sits in the block of a `try` with a `catch`,
/// whether its promise (directly or through `.then`, `.catch` and
/// `.finally` chained on it) is awaited, and whether a rejection handler is
/// chained on it; `path` says whether the value at this point is still
/// that promise.
pub open spec fn context_from(anc: Seq<EscAncestor>, k: int, caught: bool, awaited: bool, handled: bool, path: bool) -> (bool, bool, bool)
    decreases anc.len() - k,
{
    if k < 0 || k >= anc.len() {
        (caught, awaited, handled)
    } else {
        match anc[k] {
            EscAncestor::Function => (caught, awaited, handled),
            EscAncestor::Await => context_from(anc, k + 1, caught, awaited || path, handled, false),
            EscAncestor::Call(c) => match c {
                Some((m, first, second)) => if path {
                    context_from(anc, k + 1, caught, awaited, handled || handles_rejection(m, first, second), m != EscPromiseMethod::Other)
                } else {
                    context_from(anc, k + 1, caught, awaited, handled, false)
                },
                None => context_from(anc, k + 1, caught, awaited, handled, false),
            },
            EscAncestor::CaughtTry => context_from(anc, k + 1, true, awaited, handled, path),
            _ => context_from(anc, k + 1, caught, awaited, handled, path),
        }
    }
}

/// Where a call stands, from its ancestors innermost first: whether it is
/// caught, whether its promise is awaited, and whether a rejection handler
/// is chained on it.
pub open spec fn call_context_view(anc: Seq<EscAncestor>) -> (bool, bool, bool) {
    context_from(anc, 0, false, false, false, true)
}

/// Once a rejection handler is found, the walk keeps it.
proof fn lemma_context_keeps_handled(anc: Seq<EscAncestor>, k: int, caught: bool, awaited: bool, path: bool)
    ensures
        context_from(anc, k, caught, awaited, true, path).2,
    decreases anc.len() - k,
{
    if 0 <= k < anc.len() {
        lemma_context_keeps_handled(anc, k + 1, caught, awaited || path, false);
        lemma_context_keeps_handled(anc, k + 1, caught, awaited, path);
        lemma_context_keeps_handled(anc, k + 1, caught, awaited, false);
        lemma_context_keeps_handled(anc, k + 1, true, awaited, path);
        match anc[k] {
            EscAncestor::Call(Some((m, _, _))) => {
                lemma_context_keeps_handled(anc, k + 1, caught, awaited, m != EscPromiseMethod::Other);
            },
            _ => {},
        }
    }
}

/// Once the promise is awaited, the walk keeps that.
proof fn lemma_context_keeps_awaited(anc: Seq<EscAncestor>, k: int, caught: bool, handled: bool, path: bool)
    ensures
        context_from(anc, k, caught, true, handled, path).1,
    decreases anc.len() - k,
{
    if 0 <= k < anc.len() {
        lemma_context_keeps_awaited(anc, k + 1, caught, handled, false);
        lemma_context_keeps_awaited(anc, k + 1, caught, handled, path);
        lemma_context_keeps_awaited(anc, k + 1, true, handled, path);
        match anc[k] {
            EscAncestor::Call(Some((m, f, s))) => {
                lemma_context_keeps_awaited(anc, k + 1, caught, handled || handles_rejection(m, f, s), m != EscPromiseMethod::Other);
            },
            _ => {},
        }
    }
}

/// Once the call is inside a `try` with a `catch`, the walk keeps that.
proof fn lemma_context_keeps_caught(anc: Seq<EscAncestor>, k: int, awaited: bool, handled: bool, path: bool)
    ensures
        context_from(anc, k, true, awaited, handled, path).0,
    decreases anc.len() - k,
{
    if 0 <= k < anc.len() {
        lemma_context_keeps_caught(anc, k + 1, awaited || path, handled, false);
        lemma_context_keeps_caught(anc, k + 1, awaited, handled, false);
        lemma_context_keeps_caught(anc, k + 1, awaited, handled, path);
        match anc[k] {
            EscAncestor::Call(Some((m, f, s))) => {
                lemma_context_keeps_caught(anc, k + 1, awaited, handled || handles_rejection(m, f, s), m != EscPromiseMethod::Other);
            },
            _ => {},
        }
    }
}

/// Whether an ancestor chains a rejection handler: `.catch` with a handler
/// as its first argument, or `.then` with one as its second.
pub open spec fn chains_handler(x: EscAncestor) -> bool {
    x == EscAncestor::Call(Some((EscPromiseMethod::Catch, true, false)))
        || x == EscAncestor::Call(Some((EscPromiseMethod::Catch, true, true)))
        || x == EscAncestor::Call(Some((EscPromiseMethod::Then, false, true)))
        || x == EscAncestor::Call(Some((EscPromiseMethod::Then, true, true)))
}

/// Whether an ancestor calls `.then`, `.catch` or `.finally` on the node.
pub open spec fn continues_chain(x: EscAncestor) -> bool {
    exists|m: EscPromiseMethod, f: bool, s: bool|
        x == EscAncestor::Call(Some((m, f, s))) && (m == EscPromiseMethod::Then || m == EscPromiseMethod::Catch || m == EscPromiseMethod::Finally)
}

proof fn lemma_chain_from(anc: Seq<EscAncestor>, k: int, j: int, caught: bool, awaited: bool, handled: bool)
    requires
        0 <= k <= j < anc.len(),
        forall|i: int| k <= i < j ==> continues_chain(#[trigger] anc[i]),
        chains_handler(anc[j]),
    ensures
        context_from(anc, k, caught, awaited, handled, true).2,
    decreases j - k,
{
    if k < j {
        assert(continues_chain(anc[k]));
        let (m, f, s) = choose|m: EscPromiseMethod, f: bool, s: bool|
            anc[k] == EscAncestor::Call(Some((m, f, s))) && (m == EscPromiseMethod::Then || m == EscPromiseMethod::Catch || m == EscPromiseMethod::Finally);
        lemma_chain_from(anc, k + 1, j, caught, awaited, handled || handles_rejection(m, f, s));
    } else {
        lemma_context_keeps_handled(anc, k + 1, caught, awaited, true);
    }
}

/// Chaining keeps the promise: a rejection handler chained after any number
/// of `.then`, `.catch` and `.finally` calls on a call's promise handles
/// its rejection.
pub proof fn law_chained_handler_handles(anc: Seq<EscAncestor>, j: int)
    requires
        0 <= j < anc.len(),
        forall|i: int| 0 <= i < j ==> continues_chain(#[trigger] anc[i]),
        chains_handler(anc[j]),
    ensures
        call_context_view(anc).2,
{
    lemma_chain_from(anc, 0, j, false, false, false);
}

/// Only a chained handler handles a rejection: without an ancestor that
/// calls `.catch` with a handler or `.then` with a second-argument handler,
/// nothing counts as one (`.finally` alone does not).
pub proof fn law_only_handlers_handle(anc: Seq<EscAncestor>)
    requires
        forall|i: int| 0 <= i < anc.len() ==> !chains_handler(#[trigger] anc[i]),
    ensures
        !call_context_view(anc).2,
{
    lemma_no_handler_from(anc, 0, false, false, true);
}

proof fn lemma_no_handler_from(anc: Seq<EscAncestor>, k: int, caught: bool, awaited: bool, path: bool)
    requires
        0 <= k,
        forall|i: int| 0 <= i < anc.len() ==> !chains_handler(#[trigger] anc[i]),
    ensures
        !context_from(anc, k, caught, awaited, false, path).2,
    decreases anc.len() - k,
{
    if k < anc.len() {
        assert(!chains_handler(anc[k]));
        lemma_no_handler_from(anc, k + 1, caught, awaited || path, false);
        lemma_no_handler_from(anc, k + 1, caught, awaited, path);
        lemma_no_handler_from(anc, k + 1, caught, awaited, false);
        lemma_no_handler_from(anc, k + 1, true, awaited, path);
        match anc[k] {
            EscAncestor::Call(Some((m, f, s))) => {
                assert(!handles_rejection(m, f, s) || !path) by {
                    if handles_rejection(m, f, s) {
                        assert(chains_handler(anc[k]));
                    }
                }
                lemma_no_handler_from(anc, k + 1, caught, awaited, m != EscPromiseMethod::Other);
            },
            _ => {},
        }
    }
}

/// An `await` directly around a call awaits its promise, and a `try` with a
/// `catch` reached before any enclosing function catches it; an enclosing
/// function ends the walk, so nothing outside it counts.
pub proof fn law_await_try_function(anc: Seq<EscAncestor>, j: int)
    ensures
        anc.len() > 0 && anc[0] == EscAncestor::Await ==> call_context_view(anc).1,
        0 <= j < anc.len() && anc[j] == EscAncestor::CaughtTry
            && (forall|i: int| 0 <= i < j ==> #[trigger] anc[i] != EscAncestor::Function) ==> call_context_view(anc).0,
        anc.len() > 0 && anc[0] == EscAncestor::Function ==> call_context_view(anc) == (false, false, false),
{
    if anc.len() > 0 && anc[0] == EscAncestor::Await {
        lemma_context_keeps_awaited(anc, 1, false, false, false);
    }
    if 0 <= j < anc.len() && anc[j] == EscAncestor::CaughtTry && (forall|i: int| 0 <= i < j ==> #[trigger] anc[i] != EscAncestor::Function) {
        lemma_try_from(anc, 0, j, false, false, false, true);
    }
}

proof fn lemma_try_from(anc: Seq<EscAncestor>, k: int, j: int, caught: bool, awaited: bool, handled: bool, path: bool)
    requires
        0 <= k <= j < anc.len(),
        anc[j] == EscAncestor::CaughtTry,
        forall|i: int| 0 <= i < j ==> #[trigger] anc[i] != EscAncestor::Function,
    ensures
        context_from(anc, k, caught, awaited, handled, path).0,
    decreases j - k,
{
    if k < j {
        assert(anc[k] != EscAncestor::Function);
        match anc[k] {
            EscAncestor::Function => {},
            EscAncestor::Await => {
                lemma_try_from(anc, k + 1, j, caught, awaited || path, handled, false);
            },
            EscAncestor::Call(c) => match c {
                Some((m, f, s)) => {
                    if path {
                        lemma_try_from(anc, k + 1, j, caught, awaited, handled || handles_rejection(m, f, s), m != EscPromiseMethod::Other);
                    } else {
                        lemma_try_from(anc, k + 1, j, caught, awaited, handled, false);
                    }
                },
                None => {
                    lemma_try_from(anc, k + 1, j, caught, awaited, handled, false);
                },
            },
            EscAncestor::CaughtTry => {
                lemma_try_from(anc, k + 1, j, true, awaited, handled, path);
            },
            _ => {
                lemma_try_from(anc, k + 1, j, caught, awaited, handled, path);
            },
        }
    } else {
        lemma_context_keeps_caught(anc, k + 1, awaited, handled, path);
    }
}

proof fn lemma_off_path(anc: Seq<EscAncestor>, k: int, caught: bool)
    ensures
        !context_from(anc, k, caught, false, false, false).1,
        !context_from(anc, k, caught, false, false, false).2,
    decreases anc.len() - k,
{
    if 0 <= k < anc.len() {
        lemma_off_path(anc, k + 1, caught);
        lemma_off_path(anc, k + 1, true);
    }
}

/// A promise passed on (as an argument, or to a method other than `.then`,
/// `.catch` and `.finally`) is neither awaited nor handled by what encloses
/// the call.
pub proof fn law_passed_on_promise(anc: Seq<EscAncestor>)
    requires
        anc.len() > 0,
        anc[0] == EscAncestor::Call(None) || exists|f: bool, s: bool| anc[0] == EscAncestor::Call(Some((EscPromiseMethod::Other, f, s))),
    ensures
        !call_context_view(anc).1,
        !call_context_view(anc).2,
{
    lemma_off_path(anc, 1, false);
}

/// Whether ancestors hold no function and no branch.
pub open spec fn straight(anc: Seq<EscAncestor>) -> bool {
    forall|k: int| 0 <= k < anc.len() ==> #[trigger] anc[k] != EscAncestor::Function && anc[k] != EscAncestor::Branch
}

/// A promise kept in a local is handled only when the call is the whole
/// initializer of a declarator that binds a symbol never assigned again,
/// the symbol is used, and every use comes after the call outside any
/// function or branch; such uses handle it when each chains a rejection
/// handler on the local, or awaits it directly inside a `try` with a
/// `catch`.
pub proof fn law_bound_promise(decl: Option<EscPromiseDeclarator>, uses: Seq<EscPromiseUse>)
    ensures
        bound_promise_view(decl, uses) ==> decl is Some && decl->0.initializes && decl->0.bound && !decl->0.mutated && uses.len() > 0
            && forall|i: int| 0 <= i < uses.len() ==> (#[trigger] uses[i]).after && straight(uses[i].ancestors@),
        (decl matches Some(d) && d.initializes && d.bound && !d.mutated) && uses.len() > 0
            && (forall|i: int| 0 <= i < uses.len() ==> (#[trigger] uses[i]).after && straight(uses[i].ancestors@)
                && uses[i].ancestors@.len() > 0 && (chains_handler(uses[i].ancestors@[0])
                    || (uses[i].ancestors@.len() > 1 && uses[i].ancestors@[0] == EscAncestor::Await && uses[i].ancestors@[1] == EscAncestor::CaughtTry)))
            ==> bound_promise_view(decl, uses),
{
    if bound_promise_view(decl, uses) {
        assert forall|i: int| 0 <= i < uses.len() implies (#[trigger] uses[i]).after && straight(uses[i].ancestors@) by {
            assert(use_handled(uses[i]));
        }
    }
    if (decl matches Some(d) && d.initializes && d.bound && !d.mutated) && uses.len() > 0
        && (forall|i: int| 0 <= i < uses.len() ==> (#[trigger] uses[i]).after && straight(uses[i].ancestors@)
            && uses[i].ancestors@.len() > 0 && (chains_handler(uses[i].ancestors@[0])
                || (uses[i].ancestors@.len() > 1 && uses[i].ancestors@[0] == EscAncestor::Await && uses[i].ancestors@[1] == EscAncestor::CaughtTry))) {
        assert forall|i: int| 0 <= i < uses.len() implies use_handled(#[trigger] uses[i]) by {
            let a = uses[i].ancestors@;
            assert(straight(a));
            if chains_handler(a[0]) {
                assert(use_walk(a, 0, false));
            } else {
                assert(use_walk(a, 1, true));
                assert(use_walk(a, 0, false));
            }
        }
    }
}

/// Decides, from the ancestors of a call innermost first, whether the call
/// is caught, whether its promise is awaited, and whether a rejection
/// handler is chained on its promise.
pub fn call_context(ancestors: &Vec<EscAncestor>) -> (r: (bool, bool, bool))
    ensures
        r == call_context_view(ancestors@),
{
    let mut caught = false;
    let mut awaited = false;
    let mut handled = false;
    let mut path = true;
    let mut k: usize = 0;
    while k < ancestors.len()
        invariant
            0 <= k <= ancestors@.len(),
            call_context_view(ancestors@) == context_from(ancestors@, k as int, caught, awaited, handled, path),
        decreases ancestors@.len() - k,
    {
        match ancestors[k] {
            EscAncestor::Function => {
                return (caught, awaited, handled);
            },
            EscAncestor::Await => {
                awaited = awaited || path;
                path = false;
            },
            EscAncestor::Call(c) => match c {
                Some((m, first, second)) => {
                    if path {
                        let h = (matches!(m, EscPromiseMethod::Catch) && first) || (matches!(m, EscPromiseMethod::Then) && second);
                        handled = handled || h;
                        path = !matches!(m, EscPromiseMethod::Other);
                    }
                },
                None => {
                    path = false;
                },
            },
            EscAncestor::CaughtTry => {
                caught = true;
            },
            _ => {},
        }
        k = k + 1;
    }
    (caught, awaited, handled)
}

/// The declarator whose initializer is a call, when the call's parent is
/// a variable declarator.
#[derive(Debug, Clone, Copy)]
pub struct EscPromiseDeclarator {
    /// Whether the call is the declarator's whole initializer.
    pub initializes: bool,
    /// Whether the declarator binds an identifier with a symbol.
    pub bound: bool,
    /// Whether the symbol is assigned again anywhere.
    pub mutated: bool,
}

/// A reference to a local that holds a promise.
#[derive(Debug)]
pub struct EscPromiseUse {
    /// Whether the reference starts after the call ends.
    pub after: bool,
    /// Its ancestors, innermost first.
    pub ancestors: Vec<EscAncestor>,
}

/// The walk from the `k`th ancestor of a reference outwards: whether it
/// reaches a `.catch` or `.then` handler on the reference, or, once the
/// reference is awaited, a `try` with a `catch`, before anything else uses
/// it.
pub open spec fn use_walk(anc: Seq<EscAncestor>, k: int, awaited: bool) -> bool
    decreases anc.len() - k,
{
    if k < 0 || k >= anc.len() {
        false
    } else {
        match anc[k] {
            EscAncestor::Function => false,
            EscAncestor::Await => use_walk(anc, k + 1, true),
            EscAncestor::Call(c) => if awaited {
                use_walk(anc, k + 1, awaited)
            } else {
                match c {
                    Some((m, first, second)) => handles_rejection(m, first, second),
                    None => false,
                }
            },
            EscAncestor::CaughtTry => awaited || use_walk(anc, k + 1, awaited),
            _ => use_walk(anc, k + 1, awaited),
        }
    }
}

/// Whether one reference handles the promise: it comes after the call, no
/// function or branch encloses it, and its walk finds a handler.
pub open spec fn use_handled(u: EscPromiseUse) -> bool {
    &&& u.after
    &&& forall|k: int| 0 <= k < u.ancestors@.len() ==> !(#[trigger] u.ancestors@[k] is Function) && !(u.ancestors@[k] is Branch)
    &&& use_walk(u.ancestors@, 0, false)
}

/// Whether a promise kept in an immutable local is handled where it is
/// used: every reference is a handled use, and there is one.
pub open spec fn bound_promise_view(decl: Option<EscPromiseDeclarator>, uses: Seq<EscPromiseUse>) -> bool {
    &&& decl matches Some(d) && d.initializes && d.bound && !d.mutated
    &&& uses.len() > 0
    &&& forall|i: int| 0 <= i < uses.len() ==> use_handled(#[trigger] uses[i])
}

/// Whether a reference's ancestors hold no function or branch.
fn unbranched(anc: &Vec<EscAncestor>) -> (r: bool)
    ensures
        r == forall|k: int| 0 <= k < anc@.len() ==> !(#[trigger] anc@[k] is Function) && !(anc@[k] is Branch),
{
    let mut k: usize = 0;
    while k < anc.len()
        invariant
            0 <= k <= anc@.len(),
            forall|j: int| 0 <= j < k ==> !(#[trigger] anc@[j] is Function) && !(anc@[j] is Branch),
        decreases anc@.len() - k,
    {
        match anc[k] {
            EscAncestor::Function | EscAncestor::Branch => {
                return false;
            },
            _ => {},
        }
        k = k + 1;
    }
    true
}

/// The walk of one reference.
fn walk_use(anc: &Vec<EscAncestor>) -> (r: bool)
    ensures
        r == use_walk(anc@, 0, false),
{
    let mut awaited = false;
    let mut k: usize = 0;
    while k < anc.len()
        invariant
            0 <= k <= anc@.len(),
            use_walk(anc@, 0, false) == use_walk(anc@, k as int, awaited),
        decreases anc@.len() - k,
    {
        match anc[k] {
            EscAncestor::Function => {
                return false;
            },
            EscAncestor::Await => {
                awaited = true;
            },
            EscAncestor::Call(c) => {
                if !awaited {
                    return match c {
                        Some((m, first, second)) => (matches!(m, EscPromiseMethod::Catch) && first) || (matches!(m, EscPromiseMethod::Then) && second),
                        None => false,
                    };
                }
            },
            EscAncestor::CaughtTry => {
                if awaited {
                    return true;
                }
            },
            _ => {},
        }
        k = k + 1;
    }
    false
}

/// Decides whether a promise returned by a call and kept in an immutable
/// local is handled at its uses: the call must be the whole initializer of
/// a declarator that binds a symbol never assigned again, the symbol must
/// be used, and every use must come after the call, outside any function or
/// branch, and reach a `.catch` handler, a `.then` rejection handler, or,
/// once awaited, a `try` with a `catch`.
pub fn bound_promise_handled(decl: Option<EscPromiseDeclarator>, uses: &Vec<EscPromiseUse>) -> (r: bool)
    ensures
        r == bound_promise_view(decl, uses@),
{
    match decl {
        None => {
            return false;
        },
        Some(d) => {
            if !d.initializes || !d.bound || d.mutated {
                return false;
            }
        },
    }
    if uses.len() == 0 {
        return false;
    }
    let mut i: usize = 0;
    while i < uses.len()
        invariant
            0 <= i <= uses@.len(),
            forall|j: int| 0 <= j < i ==> use_handled(#[trigger] uses@[j]),
        decreases uses@.len() - i,
    {
        let u = &uses[i];
        if !u.after || !unbranched(&u.ancestors) || !walk_use(&u.ancestors) {
            return false;
        }
        i = i + 1;
    }
    true
}

/// Whether the deferred errors of a top-level call go unhandled: no
/// rejection handler is attached, it is not awaited inside a `try` with a
/// `catch`, and the promise is not kept in a local that is handled where it
/// is used.
pub open spec fn deferred_unhandled(caught: bool, awaited: bool, rejection_handled: bool, bound_promise_handled: bool) -> bool {
    !rejection_handled && !(awaited && caught) && !bound_promise_handled
}

/// The deferred errors of a top-level call are handled exactly by one of
/// three things: awaiting it inside the block of a `try` with a `catch`, a
/// rejection handler chained on it, or a kept promise handled at its uses.
/// Awaiting alone, or a `try` alone, handles nothing.
pub proof fn law_deferred_handling(caught: bool, awaited: bool, rejection_handled: bool, bound_promise_handled: bool)
    ensures
        rejection_handled ==> !deferred_unhandled(caught, awaited, rejection_handled, bound_promise_handled),
        bound_promise_handled ==> !deferred_unhandled(caught, awaited, rejection_handled, bound_promise_handled),
        awaited && caught ==> !deferred_unhandled(caught, awaited, rejection_handled, bound_promise_handled),
        awaited && !caught && !rejection_handled && !bound_promise_handled ==> deferred_unhandled(caught, awaited, rejection_handled, bound_promise_handled),
        !awaited && caught && !rejection_handled && !bound_promise_handled ==> deferred_unhandled(caught, awaited, rejection_handled, bound_promise_handled),
        !awaited && !caught && !rejection_handled && !bound_promise_handled ==> deferred_unhandled(caught, awaited, rejection_handled, bound_promise_handled),
{
}

/// What is reported for one call or construction between the source offsets
/// `start` and `end`: the names of every error it may raise, synchronously
/// (`sync`) or through the promise it returns (`deferred`), and the names of
/// those that nothing handles when the call runs at the top level of a
/// module: its synchronous errors unless it sits in a `try` with a `catch`,
/// and its deferred errors unless they are handled. Both lists are sorted
/// and without repetition.
pub fn call_report(
    start: u32,
    end: u32,
    sync: &Vec<String>,
    deferred: &Vec<String>,
    top_level: bool,
    caught: bool,
    awaited: bool,
    rejection_handled: bool,
    bound_promise_handled: bool,
) -> (r: EscCallReport)
    ensures
        r.start == start,
        r.end == end,
        strictly_sorted(name_views(r.errors@)),
        name_views(r.errors@).to_set() == name_views(sync@).to_set().union(name_views(deferred@).to_set()),
        strictly_sorted(name_views(r.uncaught@)),
        name_views(r.uncaught@).to_set() == (if top_level && !caught {
            name_views(sync@).to_set()
        } else {
            Set::empty()
        }).union(if top_level && deferred_unhandled(caught, awaited, rejection_handled, bound_promise_handled) {
            name_views(deferred@).to_set()
        } else {
            Set::empty()
        }),
        name_views(r.uncaught@).to_set().subset_of(name_views(r.errors@).to_set()),
{
    let mut all: Vec<String> = Vec::new();
    let mut uncaught: Vec<String> = Vec::new();
    let deferred_open = !rejection_handled && !(awaited && caught) && !bound_promise_handled;
    let mut k: usize = 0;
    while k < sync.len()
        invariant
            0 <= k <= sync@.len(),
            name_views(all@) == name_views(sync@.take(k as int)),
            name_views(uncaught@) == (if top_level && !caught {
                name_views(sync@.take(k as int))
            } else {
                Seq::empty()
            }),
        decreases sync@.len() - k,
    {
        let ghost a0 = all@;
        let ghost u0 = uncaught@;
        all.push(sync[k].clone());
        if top_level && !caught {
            uncaught.push(sync[k].clone());
        }
        proof {
            assert(sync@.take(k + 1) =~= sync@.take(k as int).push(sync@[k as int]));
            assert(name_views(all@) =~= name_views(a0).push(sync@[k as int]@));
            if top_level && !caught {
                assert(name_views(uncaught@) =~= name_views(u0).push(sync@[k as int]@));
            }
        }
        k = k + 1;
    }
    let ghost all_sync = all@;
    let ghost uncaught_sync = uncaught@;
    let mut k: usize = 0;
    while k < deferred.len()
        invariant
            0 <= k <= deferred@.len(),
            name_views(all@) == name_views(all_sync) + name_views(deferred@.take(k as int)),
            name_views(uncaught@) == name_views(uncaught_sync) + (if top_level && deferred_open {
                name_views(deferred@.take(k as int))
            } else {
                Seq::empty()
            }),
        decreases deferred@.len() - k,
    {
        let ghost a0 = all@;
        let ghost u0 = uncaught@;
        all.push(deferred[k].clone());
        if top_level && deferred_open {
            uncaught.push(deferred[k].clone());
        }
        proof {
            assert(deferred@.take(k + 1) =~= deferred@.take(k as int).push(deferred@[k as int]));
            assert(name_views(all@) =~= name_views(a0).push(deferred@[k as int]@));
            if top_level && deferred_open {
                assert(name_views(uncaught@) =~= name_views(u0).push(deferred@[k as int]@));
            }
        }
        k = k + 1;
    }
    let errors = sorted_names(&all);
    let uncaught = sorted_names(&uncaught);
    proof {
        assert(sync@.take(sync@.len() as int) =~= sync@);
        assert(deferred@.take(deferred@.len() as int) =~= deferred@);
        let s = name_views(sync@);
        let d = name_views(deferred@);
        assert((s + d).to_set() =~= s.to_set().union(d.to_set())) by {
            assert forall|x: Seq<char>| (s + d).contains(x) <==> s.contains(x) || d.contains(x) by {
                if (s + d).contains(x) {
                    let j = choose|j: int| 0 <= j < (s + d).len() && (s + d)[j] == x;
                    if j < s.len() {
                        assert(s[j] == x);
                    } else {
                        assert(d[j - s.len()] == x);
                    }
                }
                if s.contains(x) {
                    let j = choose|j: int| 0 <= j < s.len() && s[j] == x;
                    assert((s + d)[j] == x);
                }
                if d.contains(x) {
                    let j = choose|j: int| 0 <= j < d.len() && d[j] == x;
                    assert((s + d)[j + s.len()] == x);
                }
            }
        }
        let us = if top_level && !caught { s } else { Seq::<Seq<char>>::empty() };
        let ud = if top_level && deferred_open { d } else { Seq::<Seq<char>>::empty() };
        assert((us + ud).to_set() =~= us.to_set().union(ud.to_set())) by {
            assert forall|x: Seq<char>| (us + ud).contains(x) <==> us.contains(x) || ud.contains(x) by {
                if (us + ud).contains(x) {
                    let j = choose|j: int| 0 <= j < (us + ud).len() && (us + ud)[j] == x;
                    if j < us.len() {
                        assert(us[j] == x);
                    } else {
                        assert(ud[j - us.len()] == x);
                    }
                }
                if us.contains(x) {
                    let j = choose|j: int| 0 <= j < us.len() && us[j] == x;
                    assert((us + ud)[j] == x);
                }
                if ud.contains(x) {
                    let j = choose|j: int| 0 <= j < ud.len() && ud[j] == x;
                    assert((us + ud)[j + us.len()] == x);
                }
            }
        }
        assert(Seq::<Seq<char>>::empty().to_set() =~= Set::<Seq<char>>::empty());
    }
    EscCallReport { start, end, errors, uncaught }
}

/// What is reported for a call, from where it stands: its ancestors
/// decide whether it is caught, awaited or has a rejection handler chained
/// on it, and its declarator and the uses of the local it initializes
/// decide whether a kept promise is handled.
pub fn report_call(
    start: u32,
    end: u32,
    sync: &Vec<String>,
    deferred: &Vec<String>,
    top_level: bool,
    ancestors: &Vec<EscAncestor>,
    decl: Option<EscPromiseDeclarator>,
    uses: &Vec<EscPromiseUse>,
) -> (r: EscCallReport)
    ensures
        ({
            let c = call_context_view(ancestors@);
            let b = bound_promise_view(decl, uses@);
            &&& r.start == start
            &&& r.end == end
            &&& strictly_sorted(name_views(r.errors@))
            &&& name_views(r.errors@).to_set() == name_views(sync@).to_set().union(name_views(deferred@).to_set())
            &&& strictly_sorted(name_views(r.uncaught@))
            &&& name_views(r.uncaught@).to_set() == (if top_level && !c.0 {
                name_views(sync@).to_set()
            } else {
                Set::empty()
            }).union(if top_level && deferred_unhandled(c.0, c.1, c.2, b) {
                name_views(deferred@).to_set()
            } else {
                Set::empty()
            })
        }),
{
    let (caught, awaited, handled) = call_context(ancestors);
    let bound = bound_promise_handled(decl, uses);
    call_report(start, end, sync, deferred, top_level, caught, awaited, handled, bound)
}

/// Whether a report's range holds `offset`.
pub open spec fn report_holds(r: EscCallReport, offset: u32) -> bool {
    r.start <= offset < r.end
}

/// The report a hover at `offset` shows: the shortest of those whose range
/// holds the offset, the first of equally short ones.
pub fn hover_report(reports: &Vec<EscCallReport>, offset: u32) -> (r: Option<usize>)
    ensures
        r is None <==> forall|i: int| 0 <= i < reports@.len() ==> !report_holds(#[trigger] reports@[i], offset),
        r matches Some(i) ==> i < reports@.len() && report_holds(reports@[i as int], offset) && forall|j: int|
            0 <= j < reports@.len() && report_holds(#[trigger] reports@[j], offset) ==> reports@[i as int].end - reports@[i as int].start <= reports@[j].end - reports@[j].start
                && (reports@[i as int].end - reports@[i as int].start == reports@[j].end - reports@[j].start ==> i <= j),
{
    let mut best: Option<usize> = None;
    let mut k: usize = 0;
    while k < reports.len()
        invariant
            0 <= k <= reports@.len(),
            best is None <==> forall|i: int| 0 <= i < k ==> !report_holds(#[trigger] reports@[i], offset),
            best matches Some(b) ==> b < k && report_holds(reports@[b as int], offset) && forall|j: int|
                0 <= j < k && report_holds(#[trigger] reports@[j], offset) ==> reports@[b as int].end - reports@[b as int].start <= reports@[j].end - reports@[j].start
                    && (reports@[b as int].end - reports@[b as int].start == reports@[j].end - reports@[j].start ==> b <= j),
        decreases reports@.len() - k,
    {
        let report = &reports[k];
        if report.start <= offset && offset < report.end {
            let better = match best {
                None => true,
                Some(b) => report.end - report.start < reports[b].end - reports[b].start,
            };
            if better {
                best = Some(k);
            }
        }
        k = k + 1;
    }
    best
}

/// The text a hover shows for the errors of a call.
pub open spec fn hover_view(errors: Seq<Seq<char>>) -> Seq<char> {
    if errors.len() == 0 {
        "**ErrorScript**\n\nNo known thrown errors."@
    } else {
        "**ErrorScript \u{2014} may throw / reject**\n\n"@ + error_lines(errors)
    }
}

/// One line `- `name`` per error, separated by line breaks.
pub open spec fn error_lines(errors: Seq<Seq<char>>) -> Seq<char>
    decreases errors.len(),
{
    if errors.len() == 0 {
        Seq::empty()
    } else if errors.len() == 1 {
        "- `"@ + errors[0] + "`"@
    } else {
        error_lines(errors.drop_last()) + "\n"@ + ("- `"@ + errors.last() + "`"@)
    }
}

/// The hover text for a call's errors: a note that none are known, or a list
/// with one line per error.
pub fn hover_text(errors: &Vec<String>) -> (r: String)
    ensures
        r@ == hover_view(name_views(errors@)),
{
    let mut text = String::new();
    if errors.len() == 0 {
        push_text(&mut text, "**ErrorScript**\n\nNo known thrown errors.");
        assert(text@ =~= hover_view(name_views(errors@)));
        return text;
    }
    push_text(&mut text, "**ErrorScript \u{2014} may throw / reject**\n\n");
    let ghost header = text@;
    let mut k: usize = 0;
    while k < errors.len()
        invariant
            0 <= k <= errors@.len(),
            errors@.len() > 0,
            header == "**ErrorScript \u{2014} may throw / reject**\n\n"@,
            text@ == header + error_lines(name_views(errors@.take(k as int))),
        decreases errors@.len() - k,
    {
        if k > 0 {
            push_text(&mut text, "\n");
        }
        push_text(&mut text, "- `");
        push_text(&mut text, errors[k].as_str());
        push_text(&mut text, "`");
        proof {
            let before = name_views(errors@.take(k as int));
            let after = name_views(errors@.take(k + 1));
            assert(errors@.take(k + 1).drop_last() =~= errors@.take(k as int));
            assert(after.drop_last() =~= before);
            assert(after.last() == errors@[k as int]@);
            if k == 0 {
                assert(before =~= Seq::<Seq<char>>::empty());
                assert(after.len() == 1);
                assert(after[0] == errors@[0]@);
            }
        }
        k = k + 1;
    }
    assert(errors@.take(errors@.len() as int) =~= errors@);
    text
}

/// The names joined by `, `.
pub open spec fn comma_joined(names: Seq<Seq<char>>) -> Seq<char>
    decreases names.len(),
{
    if names.len() == 0 {
        Seq::empty()
    } else if names.len() == 1 {
        names[0]
    } else {
        comma_joined(names.drop_last()) + ", "@ + names.last()
    }
}

/// The message of a diagnostic for a top-level call with uncaught errors.
pub open spec fn uncaught_message_view(uncaught: Seq<Seq<char>>) -> Seq<char> {
    "Unhandled top-level call errors: "@ + comma_joined(uncaught) + ". Add a catch handler."@
}

/// The message of a diagnostic for a top-level call with the given uncaught errors.
pub fn uncaught_message(uncaught: &Vec<String>) -> (r: String)
    ensures
        r@ == uncaught_message_view(name_views(uncaught@)),
{
    let mut text = String::new();
    push_text(&mut text, "Unhandled top-level call errors: ");
    let ghost header = text@;
    let mut k: usize = 0;
    while k < uncaught.len()
        invariant
            0 <= k <= uncaught@.len(),
            header == "Unhandled top-level call errors: "@,
            text@ == header + comma_joined(name_views(uncaught@.take(k as int))),
        decreases uncaught@.len() - k,
    {
        if k > 0 {
            push_text(&mut text, ", ");
        }
        push_text(&mut text, uncaught[k].as_str());
        proof {
            let before = name_views(uncaught@.take(k as int));
            let after = name_views(uncaught@.take(k + 1));
            assert(uncaught@.take(k + 1).drop_last() =~= uncaught@.take(k as int));
            assert(after.drop_last() =~= before);
            assert(after.last() == uncaught@[k as int]@);
            if k == 0 {
                assert(before =~= Seq::<Seq<char>>::empty());
                assert(after.len() == 1);
                assert(after[0] == uncaught@[0]@);
            }
        }
        k = k + 1;
    }
    assert(uncaught@.take(uncaught@.len() as int) =~= uncaught@);
    push_text(&mut text, ". Add a catch handler.");
    text
}

/// What a document diagnostic reports.
#[derive(Debug, Clone, Copy, PartialEq, Eq, Structural)]
pub enum EscDiagnosticKind {
    /// A top-level call whose errors nothing catches.
    UncaughtCall,
    /// A checker diagnostic about a cast in a catch clause.
    CastCatch,
}

/// A diagnostic as an editor shows it: a range of the document, its kind
/// and its message.
#[derive(Debug)]
pub struct EscDocumentDiagnostic {
    pub range: EscRange,
    pub kind: EscDiagnosticKind,
    pub message: String,
}

/// Whether the editor positions of a range are those of two byte offsets.
pub open spec fn range_of(text: Seq<char>, r: EscRange, start: u32, end: u32) -> bool {
    &&& (r.start.line as int, r.start.character as int) == position_view(text, start as int)
    &&& (r.end.line as int, r.end.character as int) == position_view(text, end as int)
}

/// The reports with uncaught errors, in order.
pub open spec fn uncaught_reports(reports: Seq<EscCallReport>) -> Seq<EscCallReport> {
    reports.filter(|r: EscCallReport| r.uncaught@.len() > 0)
}

/// The diagnostics of a document: first one for each call report with
/// uncaught errors, in report order, then one for each checker diagnostic.
pub fn document_diagnostics(
    text: &str,
    lines: &LineIndex,
    reports: &Vec<EscCallReport>,
    diagnostics: &Vec<EscCheckDiagnostic>,
) -> (r: Vec<EscDocumentDiagnostic>)
    requires
        lines.indexes(text@),
        utf8_len(text@) <= u32::MAX,
    ensures
        ({
            let u = uncaught_reports(reports@);
            &&& r@.len() == u.len() + diagnostics@.len()
            &&& forall|j: int| 0 <= j < u.len() ==> {
                &&& (#[trigger] r@[j]).kind == EscDiagnosticKind::UncaughtCall
                &&& range_of(text@, r@[j].range, u[j].start, u[j].end)
                &&& r@[j].message@ == uncaught_message_view(name_views(u[j].uncaught@))
            }
            &&& forall|j: int| 0 <= j < diagnostics@.len() ==> {
                &&& (#[trigger] r@[u.len() + j]).kind == EscDiagnosticKind::CastCatch
                &&& range_of(text@, r@[u.len() + j].range, diagnostics@[j].start, diagnostics@[j].end)
                &&& r@[u.len() + j].message@ == diagnostics@[j].message@
            }
        }),
{
    let mut r: Vec<EscDocumentDiagnostic> = Vec::new();
    let mut k: usize = 0;
    while k < reports.len()
        invariant
            lines.indexes(text@),
            utf8_len(text@) <= u32::MAX,
            0 <= k <= reports@.len(),
            r@.len() == uncaught_reports(reports@.take(k as int)).len(),
            forall|j: int| 0 <= j < r@.len() ==> {
                let u = uncaught_reports(reports@.take(k as int));
                &&& (#[trigger] r@[j]).kind == EscDiagnosticKind::UncaughtCall
                &&& range_of(text@, r@[j].range, u[j].start, u[j].end)
                &&& r@[j].message@ == uncaught_message_view(name_views(u[j].uncaught@))
            },
        decreases reports@.len() - k,
    {
        let report = &reports[k];
        let ghost before = r@;
        proof {
            reveal(Seq::filter);
            assert(reports@.take(k + 1).drop_last() =~= reports@.take(k as int));
            assert(reports@.take(k + 1).last() == reports@[k as int]);
        }
        if report.uncaught.len() > 0 {
            let range = lines.range(text, report.start, report.end);
            let message = uncaught_message(&report.uncaught);
            r.push(EscDocumentDiagnostic { range, kind: EscDiagnosticKind::UncaughtCall, message });
            proof {
                let u = uncaught_reports(reports@.take(k + 1));
                assert(u =~= uncaught_reports(reports@.take(k as int)).push(*report));
                assert forall|j: int| 0 <= j < r@.len() implies {
                    &&& (#[trigger] r@[j]).kind == EscDiagnosticKind::UncaughtCall
                    &&& range_of(text@, r@[j].range, u[j].start, u[j].end)
                    &&& r@[j].message@ == uncaught_message_view(name_views(u[j].uncaught@))
                } by {
                    if j < before.len() {
                        assert(r@[j] == before[j]);
                        assert(u[j] == uncaught_reports(reports@.take(k as int))[j]);
                    }
                }
            }
        } else {
            proof {
                assert(uncaught_reports(reports@.take(k + 1)) =~= uncaught_reports(reports@.take(k as int)));
            }
        }
        k = k + 1;
    }
    assert(reports@.take(k as int) =~= reports@);
    let ghost ulen = r@.len();
    let mut k: usize = 0;
    while k < diagnostics.len()
        invariant
            lines.indexes(text@),
            utf8_len(text@) <= u32::MAX,
            0 <= k <= diagnostics@.len(),
            ulen == uncaught_reports(reports@).len(),
            r@.len() == ulen + k,
            forall|j: int| 0 <= j < ulen ==> {
                let u = uncaught_reports(reports@);
                &&& (#[trigger] r@[j]).kind == EscDiagnosticKind::UncaughtCall
                &&& range_of(text@, r@[j].range, u[j].start, u[j].end)
                &&& r@[j].message@ == uncaught_message_view(name_views(u[j].uncaught@))
            },
            forall|j: int| 0 <= j < k ==> {
                &&& (#[trigger] r@[ulen + j]).kind == EscDiagnosticKind::CastCatch
                &&& range_of(text@, r@[ulen + j].range, diagnostics@[j].start, diagnostics@[j].end)
                &&& r@[ulen + j].message@ == diagnostics@[j].message@
            },
        decreases diagnostics@.len() - k,
    {
        let diagnostic = &diagnostics[k];
        let range = lines.range(text, diagnostic.start, diagnostic.end);
        let message = string_of(&chars_of(diagnostic.message.as_str()));
        let ghost before = r@;
        r.push(EscDocumentDiagnostic { range, kind: EscDiagnosticKind::CastCatch, message });
        proof {
            assert forall|j: int| 0 <= j < ulen implies #[trigger] r@[j] == before[j] by {}
            assert forall|j: int| 0 <= j < k + 1 implies {
                &&& (#[trigger] r@[ulen + j]).kind == EscDiagnosticKind::CastCatch
                &&& range_of(text@, r@[ulen + j].range, diagnostics@[j].start, diagnostics@[j].end)
                &&& r@[ulen + j].message@ == diagnostics@[j].message@
            } by {
                if j < k {
                    assert(r@[ulen + j] == before[ulen + j]);
                }
            }
        }
        k = k + 1;
    }
    r
}

/// The background builds of an editor session: every edit is a new
/// revision; one build runs at a time, and an edit during a build is picked
/// up by building again once it ends; only a build of the newest revision
/// is published.
#[derive(Debug)]
pub struct EscBuilds {
    revision: u64,
    completed: u64,
    building: bool,
}

impl EscBuilds {
    /// The newest revision.
    pub closed spec fn revision_view(&self) -> u64 {
        self.revision
    }

    /// The newest revision that has been published.
    pub closed spec fn completed_view(&self) -> u64 {
        self.completed
    }

    /// Whether a build is running.
    pub closed spec fn building_view(&self) -> bool {
        self.building
    }

    /// A session before any edit.
    pub fn new() -> (r: Self)
        ensures
            r.revision_view() == 0,
            r.completed_view() == 0,
            !r.building_view(),
    {
        EscBuilds { revision: 0, completed: 0, building: false }
    }

    /// The newest revision.
    pub fn revision(&self) -> (r: u64)
        ensures
            r == self.revision_view(),
    {
        self.revision
    }

    /// The newest revision that has been published.
    pub fn completed(&self) -> (r: u64)
        ensures
            r == self.completed_view(),
    {
        self.completed
    }

    /// An edit arrived. Returns whether a build is to start now: only when
    /// none is running.
    pub fn edited(&mut self) -> (start: bool)
        requires
            old(self).revision_view() < u64::MAX,
        ensures
            final(self).revision_view() == old(self).revision_view() + 1,
            final(self).completed_view() == old(self).completed_view(),
            start == !old(self).building_view(),
            final(self).building_view(),
    {
        self.revision = self.revision + 1;
        if self.building {
            return false;
        }
        self.building = true;
        true
    }

    /// A build of revision `built` ended. Returns whether to publish it:
    /// only when no edit arrived meanwhile; otherwise the build goes on with
    /// the newest revision.
    pub fn finished(&mut self, built: u64) -> (publish: bool)
        requires
            old(self).building_view(),
        ensures
            publish == (built == old(self).revision_view()),
            final(self).revision_view() == old(self).revision_view(),
            final(self).completed_view() == (if publish {
                built
            } else {
                old(self).completed_view()
            }),
            final(self).building_view() == !publish,
    {
        if self.revision != built {
            return false;
        }
        self.completed = built;
        self.building = false;
        true
    }
}

/// An open document: its version and its text.
#[derive(Debug)]
pub struct EscDocument {
    pub version: i32,
    pub text: String,
}

impl View for EscDocument {
    type V = (i32, Seq<char>);

    open spec fn view(&self) -> (i32, Seq<char>) {
        (self.version, self.text@)
    }
}

/// The documents open in an editor session, by URI. Their texts take
/// precedence over the files on disk.
#[derive(Debug)]
pub struct EscDocuments {
    entries: Vec<(String, EscDocument)>,
}

impl View for EscDocuments {
    type V = Map<Seq<char>, (i32, Seq<char>)>;

    closed spec fn view(&self) -> Map<Seq<char>, (i32, Seq<char>)> {
        keyed_map(self.entries@)
    }
}

impl EscDocuments {
    #[verifier::type_invariant]
    spec fn inv(self) -> bool {
        unique_keys(self.entries@)
    }

    /// No open documents.
    pub fn new() -> (r: Self)
        ensures
            r@ == Map::<Seq<char>, (i32, Seq<char>)>::empty(),
    {
        EscDocuments { entries: Vec::new() }
    }

    fn position(&self, uri: &str) -> (r: Option<usize>)
        ensures
            r is None <==> !self@.contains_key(uri@),
            r matches Some(i) ==> i < self.entries@.len() && self.entries@[i as int].0@ == uri@,
    {
        proof {
            use_type_invariant(self);
            lemma_keyed_dom(self.entries@, uri@);
        }
        let mut i: usize = 0;
        while i < self.entries.len()
            invariant
                0 <= i <= self.entries@.len(),
                forall|j: int| 0 <= j < i ==> self.entries@[j].0@ != uri@,
            decreases self.entries@.len() - i,
        {
            if str_eq(self.entries[i].0.as_str(), uri) {
                proof {
                    lemma_keyed_dom(self.entries@, uri@);
                }
                return Some(i);
            }
            i = i + 1;
        }
        None
    }

    /// A document was opened, or opened again, with the given version and text.
    pub fn open(&mut self, uri: String, version: i32, text: String)
        ensures
            final(self)@ == old(self)@.insert(uri@, (version, text@)),
    {
        proof {
            use_type_invariant(&*self);
        }
        let document = EscDocument { version, text };
        match self.position(uri.as_str()) {
            Some(i) => {
                proof {
                    lemma_keyed_update(self.entries@, i as int, (uri, document));
                }
                let mut entries = Vec::new();
                std::mem::swap(&mut entries, &mut self.entries);
                entries.set(i, (uri, document));
                self.entries = entries;
            },
            None => {
                proof {
                    lemma_keyed_push(self.entries@, (uri, document));
                }
                let mut entries = Vec::new();
                std::mem::swap(&mut entries, &mut self.entries);
                entries.push((uri, document));
                self.entries = entries;
            },
        }
    }

    /// A new text of an open document arrived. It is taken, and the
    /// session is to be rebuilt, only when the document is open and the
    /// version is newer than the one held; stale versions are ignored.
    pub fn change(&mut self, uri: &str, version: i32, text: String) -> (rebuild: bool)
        ensures
            rebuild == (old(self)@.contains_key(uri@) && version > old(self)@[uri@].0),
            rebuild ==> final(self)@ == old(self)@.insert(uri@, (version, text@)),
            !rebuild ==> final(self)@ == old(self)@,
    {
        proof {
            use_type_invariant(&*self);
        }
        match self.position(uri) {
            None => false,
            Some(i) => {
                proof {
                    lemma_keyed_index(self.entries@, i as int);
                }
                if version <= self.entries[i].1.version {
                    return false;
                }
                let key = string_of(&chars_of(uri));
                let document = EscDocument { version, text };
                proof {
                    lemma_keyed_update(self.entries@, i as int, (key, document));
                }
                let mut entries = Vec::new();
                std::mem::swap(&mut entries, &mut self.entries);
                entries.set(i, (key, document));
                self.entries = entries;
                true
            },
        }
    }

    /// A document was closed; the file on disk counts again.
    pub fn close(&mut self, uri: &str)
        ensures
            final(self)@ == old(self)@.remove(uri@),
    {
        proof {
            use_type_invariant(&*self);
        }
        match self.position(uri) {
            None => {
                assert(old(self)@.remove(uri@) =~= old(self)@);
            },
            Some(i) => {
                proof {
                    lemma_keyed_remove(self.entries@, i as int);
                }
                let mut entries = Vec::new();
                std::mem::swap(&mut entries, &mut self.entries);
                entries.remove(i);
                self.entries = entries;
            },
        }
    }

    /// The open document at `uri`, if any.
    pub fn get(&self, uri: &str) -> (r: Option<&EscDocument>)
        ensures
            r is None <==> !self@.contains_key(uri@),
            r matches Some(d) ==> self@[uri@] == d@,
    {
        proof {
            use_type_invariant(self);
        }
        match self.position(uri) {
            None => None,
            Some(i) => {
                proof {
                    lemma_keyed_index(self.entries@, i as int);
                }
                Some(&self.entries[i].1)
            },
        }
    }

    /// Whether file notifications only report saves of open documents,
    /// each change being a URI and whether the file was changed (rather
    /// than created or deleted): their buffers stay authoritative, so
    /// nothing needs rebuilding.
    pub fn only_saves(&self, changes: &Vec<(String, bool)>) -> (r: bool)
        ensures
            r == forall|k: int| 0 <= k < changes@.len() ==> (#[trigger] changes@[k]).1 && self@.contains_key(changes@[k].0@),
    {
        let mut k: usize = 0;
        while k < changes.len()
            invariant
                0 <= k <= changes@.len(),
                forall|j: int| 0 <= j < k ==> (#[trigger] changes@[j]).1 && self@.contains_key(changes@[j].0@),
            decreases changes@.len() - k,
        {
            if !changes[k].1 || self.position(changes[k].0.as_str()).is_none() {
                return false;
            }
            k = k + 1;
        }
        true
    }
}

/// A change notification of a document: the texts of its content changes,
/// in order, of which the last is the new text. An empty notification, a
/// document that is not open and a version no newer than the one held change
/// nothing; otherwise the document takes the last text and the session
/// moves to a new revision, so an open document's version never decreases.
/// Returns whether a build is to start now.
pub fn did_change(documents: &mut EscDocuments, builds: &mut EscBuilds, uri: &str, version: i32, changes: Vec<String>) -> (start: bool)
    requires
        old(builds).revision_view() < u64::MAX,
    ensures
        ({
            let taken = changes@.len() > 0 && old(documents)@.contains_key(uri@) && version > old(documents)@[uri@].0;
            &&& taken ==> final(documents)@ == old(documents)@.insert(uri@, (version, changes@.last()@))
                && final(builds).revision_view() == old(builds).revision_view() + 1
                && final(builds).building_view()
                && start == !old(builds).building_view()
            &&& !taken ==> final(documents)@ == old(documents)@
                && final(builds).revision_view() == old(builds).revision_view()
                && final(builds).building_view() == old(builds).building_view()
                && !start
        }),
        final(builds).completed_view() == old(builds).completed_view(),
        forall|u: Seq<char>| #[trigger] old(documents)@.contains_key(u)
            ==> final(documents)@.contains_key(u) && final(documents)@[u].0 >= old(documents)@[u].0,
{
    let mut changes = changes;
    let ghost texts = changes@;
    match changes.pop() {
        None => false,
        Some(text) => {
            assert(text@ == texts.last()@);
            if documents.change(uri, version, text) {
                builds.edited()
            } else {
                false
            }
        },
    }
}

} // verus!
