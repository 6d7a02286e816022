//! Argument facts of closed-world functions. A function whose binding is only
//! ever called directly, by resolved local calls, takes its parameter values
//! from those calls instead of assuming anything may be passed.
use crate::function::{EscCall, EscCallGraph, EscFnId, FnIdView};
use crate::keyed::{keyed_map, lemma_keyed_dom, lemma_keyed_index, lemma_keyed_push, lemma_keyed_remove, lemma_keyed_update, unique_keys};
use crate::value::{bottom_view, join_view, Value, ValueView};
use vstd::prelude::*;

verus! {

broadcast use vstd::seq_lib::group_seq_properties;

/// The views of a sequence of values.
pub open spec fn value_views(s: Seq<Value>) -> Seq<ValueView> {
    s.map_values(|v: Value| v@)
}

/// The identities of a component's members.
pub open spec fn member_views(s: Seq<EscFnId>) -> Seq<FnIdView> {
    s.map_values(|f: EscFnId| f@)
}

/// Whether some call from outside the component reaches one of its members.
pub open spec fn called_from_outside(calls: Seq<EscCall>, members: Seq<FnIdView>) -> bool {
    exists|c: int, t: int|
        0 <= c < calls.len() && 0 <= t < calls[c].targets@.len()
        && (calls[c].caller matches Some(caller) && !members.contains(caller@))
        && members.contains(#[trigger] calls[c].targets@[t]@)
}

/// Whether `f` belongs to a component that no call from outside reaches.
pub open spec fn without_entry(sccs: Seq<Vec<EscFnId>>, calls: Seq<EscCall>, f: FnIdView) -> bool {
    exists|c: int| 0 <= c < sccs.len() && member_views(sccs[c]@).contains(f) && !called_from_outside(calls, #[trigger] member_views(sccs[c]@))
}

/// The value a parameter receives from a call's arguments: anything after a
/// spread, else the argument at its position, or `undefined` where the call
/// passes fewer.
pub open spec fn argument_view(arguments: Seq<Value>, spread: bool, i: int) -> ValueView {
    if spread {
        crate::env::unknown_value_view()
    } else if i < arguments.len() {
        arguments[i]@
    } else {
        crate::flow::undefined_view()
    }
}

/// The parameter values of a function after one more call: each joined with
/// what the call passes; a function seen for the first time starts from
/// nothing in each of its `count` parameters.
pub open spec fn recorded(before: Option<Seq<ValueView>>, count: usize, arguments: Seq<Value>, spread: bool) -> Seq<ValueView> {
    let base = match before {
        Some(b) => b,
        None => Seq::new(count as nat, |i: int| bottom_view()),
    };
    Seq::new(base.len(), |i: int| join_view(base[i], argument_view(arguments, spread, i)))
}

/// Argument facts of the closed-world functions of a project.
#[derive(Debug)]
pub struct Arguments {
    counts: Vec<(EscFnId, usize)>,
    values: Vec<(EscFnId, Vec<Value>)>,
}

/// The mathematical value of argument facts.
pub struct ArgumentsView {
    /// The closed-world functions, with their parameter counts.
    pub counts: Map<FnIdView, usize>,
    /// The parameter values seen so far.
    pub values: Map<FnIdView, Seq<ValueView>>,
}

impl View for Arguments {
    type V = ArgumentsView;

    closed spec fn view(&self) -> ArgumentsView {
        ArgumentsView {
            counts: keyed_map(self.counts@),
            values: keyed_map(self.values@).map_values(|s: Seq<Value>| value_views(s)),
        }
    }
}

fn count_position(counts: &Vec<(EscFnId, usize)>, id: &EscFnId) -> (r: Option<usize>)
    ensures
        r is Some <==> keyed_map(counts@).contains_key(id@),
        r matches Some(i) ==> i < counts@.len() && counts@[i as int].0@ == id@,
{
    let mut k: usize = 0;
    while k < counts.len()
        invariant
            0 <= k <= counts@.len(),
            forall|j: int| 0 <= j < k ==> counts@[j].0@ != id@,
        decreases counts@.len() - k,
    {
        if counts[k].0.same(id) {
            proof {
                lemma_keyed_dom(counts@, id@);
            }
            return Some(k);
        }
        k = k + 1;
    }
    proof {
        lemma_keyed_dom(counts@, id@);
    }
    None
}

fn value_position(values: &Vec<(EscFnId, Vec<Value>)>, id: &EscFnId) -> (r: Option<usize>)
    ensures
        r is Some <==> keyed_map(values@).contains_key(id@),
        r matches Some(i) ==> i < values@.len() && values@[i as int].0@ == id@,
{
    let mut k: usize = 0;
    while k < values.len()
        invariant
            0 <= k <= values@.len(),
            forall|j: int| 0 <= j < k ==> values@[j].0@ != id@,
        decreases values@.len() - k,
    {
        if values[k].0.same(id) {
            proof {
                lemma_keyed_dom(values@, id@);
            }
            return Some(k);
        }
        k = k + 1;
    }
    proof {
        lemma_keyed_dom(values@, id@);
    }
    None
}

/// Copies of a sequence of values.
pub fn copy_values(v: &Vec<Value>) -> (r: Vec<Value>)
    ensures
        value_views(r@) == value_views(v@),
{
    let mut r: Vec<Value> = Vec::new();
    let mut k: usize = 0;
    while k < v.len()
        invariant
            0 <= k <= v@.len(),
            value_views(r@) == value_views(v@.take(k as int)),
        decreases v@.len() - k,
    {
        let ghost r0 = r@;
        r.push(v[k].duplicate());
        proof {
            assert(value_views(r@) =~= value_views(r0).push(v@[k as int]@));
            assert(v@.take(k + 1) =~= v@.take(k as int).push(v@[k as int]));
            assert(value_views(v@.take(k + 1)) =~= value_views(v@.take(k as int)).push(v@[k as int]@));
        }
        k = k + 1;
    }
    assert(v@.take(v@.len() as int) =~= v@);
    r
}

/// Whether a function occurs among a component's members.
fn has_member(members: &Vec<EscFnId>, f: &EscFnId) -> (r: bool)
    ensures
        r == member_views(members@).contains(f@),
{
    let mut k: usize = 0;
    while k < members.len()
        invariant
            0 <= k <= members@.len(),
            forall|j: int| 0 <= j < k ==> members@[j]@ != f@,
        decreases members@.len() - k,
    {
        if members[k].same(f) {
            assert(member_views(members@)[k as int] == f@);
            return true;
        }
        k = k + 1;
    }
    proof {
        if member_views(members@).contains(f@) {
            let j = choose|j: int| 0 <= j < member_views(members@).len() && member_views(members@)[j] == f@;
            assert(members@[j]@ == f@);
        }
    }
    false
}

/// Whether some call from outside `members` reaches one of them.
fn reached_from_outside(calls: &Vec<EscCall>, members: &Vec<EscFnId>) -> (r: bool)
    ensures
        r == called_from_outside(calls@, member_views(members@)),
{
    let mut c: usize = 0;
    while c < calls.len()
        invariant
            0 <= c <= calls@.len(),
            forall|cc: int, t: int|
                0 <= cc < c && 0 <= t < calls@[cc].targets@.len() ==> !((calls@[cc].caller matches Some(caller) && !member_views(members@).contains(caller@))
                && member_views(members@).contains(#[trigger] calls@[cc].targets@[t]@)),
        decreases calls@.len() - c,
    {
        let call = &calls[c];
        let outside = match &call.caller {
            Some(caller) => !has_member(members, caller),
            None => false,
        };
        if outside {
            let mut t: usize = 0;
            while t < call.targets.len()
                invariant
                    0 <= t <= call.targets@.len(),
                    c < calls@.len(),
                    *call == calls@[c as int],
                    call.caller matches Some(caller) && !member_views(members@).contains(caller@),
                    forall|tt: int| 0 <= tt < t ==> !member_views(members@).contains(#[trigger] call.targets@[tt]@),
                decreases call.targets@.len() - t,
            {
                if has_member(members, &call.targets[t]) {
                    proof {
                        assert(calls@[c as int].targets@[t as int]@ == call.targets@[t as int]@);
                        assert(member_views(members@).contains(calls@[c as int].targets@[t as int]@));
                    }
                    return true;
                }
                t = t + 1;
            }
        }
        c = c + 1;
    }
    false
}

impl Arguments {
    #[verifier::type_invariant]
    spec fn inv(self) -> bool {
        unique_keys(self.counts@) && unique_keys(self.values@)
    }

    /// Facts for the functions of `candidates`, with their parameter counts,
    /// except those in a component that no call from outside reaches: such a
    /// component still needs open-world entry values, like an uncalled
    /// function.
    pub fn new(candidates: Vec<(EscFnId, usize)>, graph: &EscCallGraph) -> (r: Self)
        requires
            unique_keys(candidates@),
        ensures
            r@.values == Map::<FnIdView, Seq<ValueView>>::empty(),
            r@.counts == keyed_map(candidates@).restrict(Set::new(|f: FnIdView| !without_entry(graph.sccs@, graph.calls@, f))),
    {
        let mut counts = candidates;
        let ghost start = keyed_map(counts@);
        let mut c: usize = 0;
        while c < graph.sccs.len()
            invariant
                0 <= c <= graph.sccs@.len(),
                unique_keys(counts@),
                keyed_map(counts@) == start.restrict(Set::new(|f: FnIdView| !exists|cc: int| 0 <= cc < c && member_views(graph.sccs@[cc]@).contains(f) && !called_from_outside(graph.calls@, #[trigger] member_views(graph.sccs@[cc]@)))),
            decreases graph.sccs@.len() - c,
        {
            let members = &graph.sccs[c];
            let ghost before = keyed_map(counts@);
            if !reached_from_outside(&graph.calls, members) {
                let mut j: usize = 0;
                while j < members.len()
                    invariant
                        0 <= j <= members@.len(),
                        members == graph.sccs@[c as int],
                        unique_keys(counts@),
                        keyed_map(counts@) == before.restrict(Set::new(|f: FnIdView| !member_views(members@).take(j as int).contains(f))),
                    decreases members@.len() - j,
                {
                    let ghost b2 = keyed_map(counts@);
                    match count_position(&counts, &members[j]) {
                        Some(i) => {
                            proof {
                                lemma_keyed_remove(counts@, i as int);
                            }
                            counts.remove(i);
                        },
                        None => {},
                    }
                    proof {
                        assert(member_views(members@).take(j + 1) =~= member_views(members@).take(j as int).push(members@[j as int]@));
                        assert(keyed_map(counts@) =~= before.restrict(Set::new(|f: FnIdView| !member_views(members@).take(j + 1).contains(f))));
                    }
                    j = j + 1;
                }
                proof {
                    assert(member_views(members@).take(members@.len() as int) =~= member_views(members@));
                    assert(keyed_map(counts@) =~= start.restrict(Set::new(|f: FnIdView| !exists|cc: int| 0 <= cc < c + 1 && member_views(graph.sccs@[cc]@).contains(f) && !called_from_outside(graph.calls@, #[trigger] member_views(graph.sccs@[cc]@)))));
                }
            } else {
                proof {
                    assert(keyed_map(counts@) =~= start.restrict(Set::new(|f: FnIdView| !exists|cc: int| 0 <= cc < c + 1 && member_views(graph.sccs@[cc]@).contains(f) && !called_from_outside(graph.calls@, #[trigger] member_views(graph.sccs@[cc]@)))));
                }
            }
            c = c + 1;
        }
        let r = Arguments { counts, values: Vec::new() };
        proof {
            assert(keyed_map(r.values@).map_values(|s: Seq<Value>| value_views(s)) =~= Map::<FnIdView, Seq<ValueView>>::empty());
            assert(Set::new(|f: FnIdView| !exists|cc: int| 0 <= cc < graph.sccs@.len() && member_views(graph.sccs@[cc]@).contains(f) && !called_from_outside(graph.calls@, #[trigger] member_views(graph.sccs@[cc]@))) =~= Set::new(|f: FnIdView| !without_entry(graph.sccs@, graph.calls@, f)));
        }
        r
    }
}

/// The targets of a call, by identity.
pub open spec fn target_views(call: EscCall) -> Seq<FnIdView> {
    member_views(call.targets@)
}

/// The parameter values after recording a call: every closed-world target
/// gets what the call passes.
pub open spec fn record_view(v: ArgumentsView, call: EscCall, arguments: Seq<Value>, spread: bool) -> Map<FnIdView, Seq<ValueView>> {
    Map::new(
        |f: FnIdView| v.values.contains_key(f) || (v.counts.contains_key(f) && target_views(call).contains(f)),
        |f: FnIdView|
            if v.counts.contains_key(f) && target_views(call).contains(f) {
                recorded(
                    if v.values.contains_key(f) {
                        Some(v.values[f])
                    } else {
                        None
                    },
                    v.counts[f],
                    arguments,
                    spread,
                )
            } else {
                v.values[f]
            },
    )
}

/// The parameter values of a function after merging values from elsewhere,
/// position by position, as far as both go.
pub open spec fn merged(before: Option<Seq<ValueView>>, incoming: Seq<ValueView>) -> Seq<ValueView> {
    let base = match before {
        Some(b) => b,
        None => Seq::new(incoming.len(), |i: int| bottom_view()),
    };
    Seq::new(base.len(), |i: int| if i < incoming.len() {
        join_view(base[i], incoming[i])
    } else {
        base[i]
    })
}

proof fn lemma_recorded_twice(b: Option<Seq<ValueView>>, count: usize, arguments: Seq<Value>, spread: bool)
    ensures
        recorded(Some(recorded(b, count, arguments, spread)), count, arguments, spread) == recorded(b, count, arguments, spread),
{
    let once = recorded(b, count, arguments, spread);
    let twice = recorded(Some(once), count, arguments, spread);
    let base = match b {
        Some(x) => x,
        None => Seq::new(count as nat, |i: int| bottom_view()),
    };
    assert forall|i: int| 0 <= i < once.len() implies twice[i] == once[i] by {
        let a = argument_view(arguments, spread, i);
        crate::value::law_join_associative(base[i], a, a);
        crate::value::law_join_idempotent(a);
    }
    assert(twice =~= once);
}

impl Arguments {
    /// `None` for a function with open-world parameters; otherwise the values
    /// its parameters received so far, or `None` inside before any call.
    pub fn parameters(&self, id: &EscFnId) -> (r: Option<Option<Vec<Value>>>)
        ensures
            r is None <==> !self@.counts.contains_key(id@),
            r matches Some(inner) ==> (inner is Some <==> self@.values.contains_key(id@)),
            r matches Some(Some(v)) ==> value_views(v@) == self@.values[id@],
    {
        proof {
            use_type_invariant(self);
        }
        match count_position(&self.counts, id) {
            None => None,
            Some(_) => match value_position(&self.values, id) {
                None => Some(None),
                Some(i) => {
                    proof {
                        lemma_keyed_index(self.values@, i as int);
                    }
                    Some(Some(copy_values(&self.values[i].1)))
                },
            },
        }
    }

    /// The parameter values of every function that has received a call.
    pub fn snapshot(&self) -> (r: Vec<(EscFnId, Vec<Value>)>)
        ensures
            unique_keys(r@),
            keyed_map(r@).map_values(|s: Seq<Value>| value_views(s)) == self@.values,
    {
        proof {
            use_type_invariant(self);
        }
        let mut r: Vec<(EscFnId, Vec<Value>)> = Vec::new();
        let mut k: usize = 0;
        while k < self.values.len()
            invariant
                0 <= k <= self.values@.len(),
                unique_keys(self.values@),
                r@.len() == k,
                forall|j: int| 0 <= j < k ==> #[trigger] r@[j].0@ == self.values@[j].0@ && value_views(r@[j].1@) == value_views(self.values@[j].1@),
            decreases self.values@.len() - k,
        {
            r.push((self.values[k].0.duplicate(), copy_values(&self.values[k].1)));
            k = k + 1;
        }
        proof {
            assert(unique_keys(r@)) by {
                assert forall|a: int, b: int| 0 <= a < b < r@.len() implies r@[a].0@ != r@[b].0@ by {
                    assert(r@[a].0@ == self.values@[a].0@);
                    assert(r@[b].0@ == self.values@[b].0@);
                }
            }
            let m1 = keyed_map(r@).map_values(|s: Seq<Value>| value_views(s));
            let m2 = keyed_map(self.values@).map_values(|s: Seq<Value>| value_views(s));
            assert forall|f: FnIdView| m1.contains_key(f) <==> m2.contains_key(f) by {
                lemma_keyed_dom(r@, f);
                lemma_keyed_dom(self.values@, f);
                if m1.contains_key(f) {
                    let j = choose|j: int| 0 <= j < r@.len() && r@[j].0@ == f;
                    assert(self.values@[j].0@ == f);
                }
                if m2.contains_key(f) {
                    let j = choose|j: int| 0 <= j < self.values@.len() && self.values@[j].0@ == f;
                    assert(r@[j].0@ == f);
                }
            }
            assert forall|f: FnIdView| #[trigger] m1.contains_key(f) implies m1[f] == m2[f] by {
                lemma_keyed_dom(r@, f);
                let j = choose|j: int| 0 <= j < r@.len() && r@[j].0@ == f;
                lemma_keyed_index(r@, j);
                lemma_keyed_index(self.values@, j);
            }
            assert(m1 =~= m2);
        }
        r
    }

    /// Records what `call` passes to each of its closed-world targets:
    /// the arguments by position, `undefined` for missing ones, or anything
    /// at all when the call spreads an iterable.
    pub fn record(&mut self, call: &EscCall, arguments: &Vec<Value>, spread: bool)
        ensures
            final(self)@.counts == old(self)@.counts,
            final(self)@.values == record_view(old(self)@, *call, arguments@, spread),
    {
        proof {
            use_type_invariant(&*self);
        }
        let ghost start = self@;
        let mut values: Vec<(EscFnId, Vec<Value>)> = Vec::new();
        std::mem::swap(&mut values, &mut self.values);
        let mut t: usize = 0;
        while t < call.targets.len()
            invariant
                0 <= t <= call.targets@.len(),
                unique_keys(values@),
                unique_keys(self.counts@),
                keyed_map(self.counts@) == start.counts,
                keyed_map(values@).map_values(|s: Seq<Value>| value_views(s)) == Map::new(
                    |f: FnIdView| start.values.contains_key(f) || (start.counts.contains_key(f) && member_views(call.targets@).take(t as int).contains(f)),
                    |f: FnIdView|
                        if start.counts.contains_key(f) && member_views(call.targets@).take(t as int).contains(f) {
                            recorded(
                                if start.values.contains_key(f) {
                                    Some(start.values[f])
                                } else {
                                    None
                                },
                                start.counts[f],
                                arguments@,
                                spread,
                            )
                        } else {
                            start.values[f]
                        },
                ),
            decreases call.targets@.len() - t,
        {
            let target = &call.targets[t];
            let ghost fv = target@;
            let ghost before = keyed_map(values@).map_values(|s: Seq<Value>| value_views(s));
            proof {
                assert(member_views(call.targets@).take(t + 1) =~= member_views(call.targets@).take(t as int).push(fv));
            }
            match count_position(&self.counts, target) {
                None => {},
                Some(ci) => {
                    let count = self.counts[ci].1;
                    proof {
                        lemma_keyed_index(self.counts@, ci as int);
                    }
                    let position = value_position(&values, target);
                    let base: Vec<Value> = match position {
                        Some(vi) => {
                            proof {
                                lemma_keyed_index(values@, vi as int);
                            }
                            copy_values(&values[vi].1)
                        },
                        None => {
                            let mut fresh: Vec<Value> = Vec::new();
                            let mut i: usize = 0;
                            while i < count
                                invariant
                                    0 <= i <= count,
                                    fresh@.len() == i,
                                    forall|j: int| 0 <= j < i ==> #[trigger] fresh@[j]@ == bottom_view(),
                                decreases count - i,
                            {
                                fresh.push(Value::bottom());
                                i = i + 1;
                            }
                            fresh
                        },
                    };
                    let ghost prior: Option<Seq<ValueView>> = if before.contains_key(fv) { Some(before[fv]) } else { None };
                    proof {
                        lemma_keyed_dom(values@, fv);
                        if position is None {
                            assert(value_views(base@) =~= Seq::new(count as nat, |i: int| bottom_view()));
                        }
                    }
                    let mut joined: Vec<Value> = Vec::new();
                    let mut i: usize = 0;
                    while i < base.len()
                        invariant
                            0 <= i <= base@.len(),
                            joined@.len() == i,
                            forall|j: int| 0 <= j < i ==> #[trigger] joined@[j]@ == join_view(base@[j]@, argument_view(arguments@, spread, j)),
                        decreases base@.len() - i,
                    {
                        let mut value = base[i].duplicate();
                        if spread {
                            value.join(Value::unknown());
                        } else if i < arguments.len() {
                            value.join(arguments[i].duplicate());
                        } else {
                            value.join(Value::undefined());
                        }
                        joined.push(value);
                        i = i + 1;
                    }
                    let ghost next = recorded(prior, count, arguments@, spread);
                    proof {
                        assert(value_views(joined@) =~= next);
                    }
                    match position {
                        Some(vi) => {
                            let entry = (target.duplicate(), joined);
                            proof {
                                lemma_keyed_update(values@, vi as int, entry);
                            }
                            values.set(vi, entry);
                        },
                        None => {
                            let entry = (target.duplicate(), joined);
                            proof {
                                lemma_keyed_push(values@, entry);
                            }
                            values.push(entry);
                        },
                    }
                    proof {
                        let now = keyed_map(values@).map_values(|s: Seq<Value>| value_views(s));
                        assert(now =~= before.insert(fv, next));
                        let earlier = member_views(call.targets@).take(t as int).contains(fv);
                        let from_start: Option<Seq<ValueView>> = if start.values.contains_key(fv) { Some(start.values[fv]) } else { None };
                        if earlier {
                            assert(prior == Some(recorded(from_start, count, arguments@, spread)));
                            lemma_recorded_twice(from_start, count, arguments@, spread);
                        } else {
                            assert(prior == from_start);
                        }
                        assert(next == recorded(from_start, start.counts[fv], arguments@, spread));
                    }
                },
            }
            proof {
                let now = keyed_map(values@).map_values(|s: Seq<Value>| value_views(s));
                let goal = Map::new(
                    |f: FnIdView| start.values.contains_key(f) || (start.counts.contains_key(f) && member_views(call.targets@).take(t + 1).contains(f)),
                    |f: FnIdView|
                        if start.counts.contains_key(f) && member_views(call.targets@).take(t + 1).contains(f) {
                            recorded(
                                if start.values.contains_key(f) {
                                    Some(start.values[f])
                                } else {
                                    None
                                },
                                start.counts[f],
                                arguments@,
                                spread,
                            )
                        } else {
                            start.values[f]
                        },
                );
                assert forall|f: FnIdView| member_views(call.targets@).take(t + 1).contains(f) <==> (member_views(call.targets@).take(t as int).contains(f) || f == fv) by {
                    let a = member_views(call.targets@).take(t as int);
                    if a.push(fv).contains(f) && f != fv {
                        let j = choose|j: int| 0 <= j < a.push(fv).len() && a.push(fv)[j] == f;
                        assert(a[j] == f);
                    }
                    if a.contains(f) {
                        let j = choose|j: int| 0 <= j < a.len() && a[j] == f;
                        assert(a.push(fv)[j] == f);
                    }
                    if f == fv {
                        assert(a.push(fv)[a.len() as int] == f);
                    }
                }
                assert(now =~= goal);
            }
            t = t + 1;
        }
        proof {
            assert(member_views(call.targets@).take(call.targets@.len() as int) =~= member_views(call.targets@));
        }
        self.values = values;
    }
}

/// Whether two sequences of values have the same views.
pub fn same_values(a: &Vec<Value>, b: &Vec<Value>) -> (r: bool)
    ensures
        r == (value_views(a@) == value_views(b@)),
{
    if a.len() != b.len() {
        return false;
    }
    let mut k: usize = 0;
    while k < a.len()
        invariant
            a@.len() == b@.len(),
            0 <= k <= a@.len(),
            forall|j: int| 0 <= j < k ==> a@[j]@ == b@[j]@,
        decreases a@.len() - k,
    {
        if !a[k].same(&b[k]) {
            assert(value_views(a@)[k as int] != value_views(b@)[k as int]);
            return false;
        }
        k = k + 1;
    }
    assert(value_views(a@) =~= value_views(b@));
    true
}

impl Arguments {
    /// Joins parameter values that a job computed into those of `id`,
    /// position by position as far as both go. Returns whether the recorded
    /// values changed.
    pub fn merge(&mut self, id: &EscFnId, incoming: &Vec<Value>) -> (changed: bool)
        ensures
            final(self)@.counts == old(self)@.counts,
            final(self)@.values == old(self)@.values.insert(
                id@,
                merged(
                    if old(self)@.values.contains_key(id@) {
                        Some(old(self)@.values[id@])
                    } else {
                        None
                    },
                    value_views(incoming@),
                ),
            ),
            changed == !(old(self)@.values.contains_key(id@) && old(self)@.values[id@] == final(self)@.values[id@]),
    {
        proof {
            use_type_invariant(&*self);
        }
        let ghost start = self@;
        let mut values: Vec<(EscFnId, Vec<Value>)> = Vec::new();
        std::mem::swap(&mut values, &mut self.values);
        let position = value_position(&values, id);
        let base: Vec<Value> = match position {
            Some(vi) => {
                proof {
                    lemma_keyed_index(values@, vi as int);
                }
                copy_values(&values[vi].1)
            },
            None => {
                let mut fresh: Vec<Value> = Vec::new();
                let mut i: usize = 0;
                while i < incoming.len()
                    invariant
                        0 <= i <= incoming@.len(),
                        fresh@.len() == i,
                        forall|j: int| 0 <= j < i ==> #[trigger] fresh@[j]@ == bottom_view(),
                    decreases incoming@.len() - i,
                {
                    fresh.push(Value::bottom());
                    i = i + 1;
                }
                assert(value_views(fresh@) =~= Seq::new(incoming@.len(), |i: int| bottom_view()));
                fresh
            },
        };
        let mut joined: Vec<Value> = Vec::new();
        let mut i: usize = 0;
        while i < base.len()
            invariant
                0 <= i <= base@.len(),
                joined@.len() == i,
                forall|j: int| 0 <= j < i ==> #[trigger] joined@[j]@ == (if j < incoming@.len() {
                    join_view(base@[j]@, incoming@[j]@)
                } else {
                    base@[j]@
                }),
            decreases base@.len() - i,
        {
            let mut value = base[i].duplicate();
            if i < incoming.len() {
                value.join(incoming[i].duplicate());
            }
            joined.push(value);
            i = i + 1;
        }
        let ghost prior: Option<Seq<ValueView>> = if start.values.contains_key(id@) { Some(start.values[id@]) } else { None };
        proof {
            lemma_keyed_dom(values@, id@);
            assert(value_views(joined@) =~= merged(prior, value_views(incoming@)));
        }
        let changed = match position {
            Some(vi) => !same_values(&values[vi].1, &joined),
            None => true,
        };
        match position {
            Some(vi) => {
                let entry = (id.duplicate(), joined);
                proof {
                    lemma_keyed_update(values@, vi as int, entry);
                }
                values.set(vi, entry);
            },
            None => {
                let entry = (id.duplicate(), joined);
                proof {
                    lemma_keyed_push(values@, entry);
                }
                values.push(entry);
            },
        }
        proof {
            let now = keyed_map(values@).map_values(|s: Seq<Value>| value_views(s));
            assert(now =~= start.values.insert(id@, merged(prior, value_views(incoming@))));
        }
        self.values = values;
        changed
    }
}

} // verus!
