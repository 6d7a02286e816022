//! The queue of strongly connected components whose dependencies are solved.
//! Ready components wait in per-module queues. Workers prefer the module they
//! last worked in; otherwise modules are visited in the order they became
//! ready, skipping components of modules whose arenas are all in use.
use crate::function::{EscCallGraph, EscFnId};
use crate::module_id::EscModuleId;
use std::collections::VecDeque;
use vstd::prelude::*;

verus! {

broadcast use vstd::seq_lib::group_seq_properties, vstd::set_lib::group_set_properties;

/// How many workers may hold a module's syntax at the same time.
pub const MODULE_CONCURRENCY: usize = 2;

/// How many components one job takes at most.
pub const BATCH_SIZE: usize = 16;

/// The modules of the members of component `c`.
pub open spec fn component_modules(sccs: Seq<Vec<EscFnId>>, c: int) -> Seq<Seq<char>> {
    sccs[c]@.map_values(|id: EscFnId| id@.module_id)
}

/// How many jobs hold `m`, by the first entry for `m` in `active`.
pub open spec fn active_count(active: Seq<(EscModuleId, usize)>, m: Seq<char>) -> usize
    decreases active.len(),
{
    if active.len() == 0 {
        0
    } else if active[0].0@ == m {
        active[0].1
    } else {
        active_count(active.drop_first(), m)
    }
}

/// Whether every module of component `c` has a free arena.
pub open spec fn is_available(sccs: Seq<Vec<EscFnId>>, active: Seq<(EscModuleId, usize)>, c: int) -> bool {
    forall|j: int|
        0 <= j < component_modules(sccs, c).len() ==> active_count(active, component_modules(sccs, c)[j])
            < MODULE_CONCURRENCY
}

/// Whether every member of component `c` belongs to module `m`.
pub open spec fn single_module(sccs: Seq<Vec<EscFnId>>, c: int, m: Seq<char>) -> bool {
    forall|j: int| 0 <= j < component_modules(sccs, c).len() ==> component_modules(sccs, c)[j] == m
}

/// The mathematical value of the ready queue.
pub struct ReadyView {
    /// The ready components of each module, first come first.
    pub modules: Map<Seq<char>, Seq<usize>>,
    /// The order in which modules are visited when no preferred work is found.
    pub order: Seq<Seq<char>>,
    /// The modules that have a place in `order`.
    pub queued: Set<Seq<char>>,
}

/// The invariant of the ready queue: each queued module has one place in the
/// visiting order, and each module with ready components is queued.
pub open spec fn ready_wf(v: ReadyView) -> bool {
    &&& v.order.no_duplicates()
    &&& v.order.to_set() == v.queued
    &&& v.modules.dom().finite()
    &&& forall|m: Seq<char>| #[trigger]
        v.modules.contains_key(m) ==> v.queued.contains(m) && v.modules[m].len() > 0
}

/// Whether every ready component indexes one of `n` components.
pub open spec fn components_below(v: ReadyView, n: int) -> bool {
    forall|m: Seq<char>, j: int|
        #![trigger v.modules[m][j]]
        v.modules.contains_key(m) && 0 <= j < v.modules[m].len() ==> v.modules[m][j] < n
}

/// The queue of `m` after taking its first component.
pub open spec fn pop_module(modules: Map<Seq<char>, Seq<usize>>, m: Seq<char>) -> Map<Seq<char>, Seq<usize>> {
    if modules[m].len() == 1 {
        modules.remove(m)
    } else {
        modules.insert(m, modules[m].drop_first())
    }
}

/// Taking a module's next component takes exactly that component: the
/// module's queue loses its first entry and every other queue stays as it
/// was, so no queued component is lost or invented.
pub proof fn law_pop_takes_the_front(modules: Map<Seq<char>, Seq<usize>>, m: Seq<char>)
    requires
        modules.contains_key(m),
        modules[m].len() > 0,
    ensures
        module_queue(pop_module(modules, m), m) == modules[m].drop_first(),
        forall|x: Seq<char>| x != m ==> #[trigger] module_queue(pop_module(modules, m), x) == module_queue(modules, x),
        modules[m] == seq![modules[m][0]] + module_queue(pop_module(modules, m), m),
{
    if modules[m].len() == 1 {
        assert(modules[m].drop_first() =~= Seq::<usize>::empty());
    }
    assert(modules[m] =~= seq![modules[m][0]] + modules[m].drop_first());
}

/// The components ready in each module of a sequence of entries.
pub open spec fn pending_map(s: Seq<(EscModuleId, VecDeque<usize>)>) -> Map<Seq<char>, Seq<usize>>
    decreases s.len(),
{
    if s.len() == 0 {
        Map::empty()
    } else {
        pending_map(s.drop_last()).insert(s.last().0@, s.last().1@)
    }
}

spec fn unique_modules(s: Seq<(EscModuleId, VecDeque<usize>)>) -> bool {
    forall|a: int, b: int| 0 <= a < b < s.len() ==> s[a].0@ != s[b].0@
}

/// The views of a sequence of module identities.
pub open spec fn module_views(s: Seq<EscModuleId>) -> Seq<Seq<char>> {
    s.map_values(|m: EscModuleId| m@)
}

/// Components that are ready to be solved, waiting by module.
#[derive(Debug)]
pub struct Ready {
    pending: Vec<(EscModuleId, VecDeque<usize>)>,
    order: VecDeque<EscModuleId>,
    queued: Vec<EscModuleId>,
}

impl View for Ready {
    type V = ReadyView;

    closed spec fn view(&self) -> ReadyView {
        ReadyView {
            modules: pending_map(self.pending@),
            order: module_views(self.order@),
            queued: module_views(self.queued@).to_set(),
        }
    }
}

proof fn lemma_pending_dom(s: Seq<(EscModuleId, VecDeque<usize>)>, m: Seq<char>)
    ensures
        pending_map(s).contains_key(m) <==> exists|i: int| 0 <= i < s.len() && s[i].0@ == m,
        pending_map(s).dom().finite(),
    decreases s.len(),
{
    if s.len() > 0 {
        lemma_pending_dom(s.drop_last(), m);
        if pending_map(s).contains_key(m) && s.last().0@ != m {
            let i = choose|i: int| 0 <= i < s.drop_last().len() && s.drop_last()[i].0@ == m;
            assert(s[i].0@ == m);
        }
        if exists|i: int| 0 <= i < s.len() && s[i].0@ == m {
            let i = choose|i: int| 0 <= i < s.len() && s[i].0@ == m;
            if i < s.len() - 1 {
                assert(s.drop_last()[i].0@ == m);
            }
        }
    }
}

proof fn lemma_pending_index(s: Seq<(EscModuleId, VecDeque<usize>)>, i: int)
    requires
        unique_modules(s),
        0 <= i < s.len(),
    ensures
        pending_map(s).contains_key(s[i].0@),
        pending_map(s)[s[i].0@] == s[i].1@,
    decreases s.len(),
{
    if i < s.len() - 1 {
        lemma_pending_index(s.drop_last(), i);
        assert(s.drop_last()[i] == s[i]);
    }
}

proof fn lemma_pending_remove(s: Seq<(EscModuleId, VecDeque<usize>)>, i: int)
    requires
        unique_modules(s),
        0 <= i < s.len(),
    ensures
        unique_modules(s.remove(i)),
        pending_map(s.remove(i)) == pending_map(s).remove(s[i].0@),
{
    let t = s.remove(i);
    assert forall|c: Seq<char>| #![auto] pending_map(t).contains_key(c) == pending_map(s).remove(
        s[i].0@,
    ).contains_key(c) by {
        lemma_pending_dom(t, c);
        lemma_pending_dom(s, c);
        if pending_map(s).contains_key(c) && c != s[i].0@ {
            let j = choose|j: int| 0 <= j < s.len() && s[j].0@ == c;
            if j < i {
                assert(t[j] == s[j]);
            } else {
                assert(t[j - 1] == s[j]);
            }
        }
        if pending_map(t).contains_key(c) {
            let j = choose|j: int| 0 <= j < t.len() && t[j].0@ == c;
            if j < i {
                assert(t[j] == s[j]);
            } else {
                assert(t[j] == s[j + 1]);
            }
        }
    }
    assert forall|c: Seq<char>| #![auto] pending_map(t).contains_key(c) implies pending_map(t)[c]
        == pending_map(s)[c] by {
        lemma_pending_dom(t, c);
        let j = choose|j: int| 0 <= j < t.len() && t[j].0@ == c;
        lemma_pending_index(t, j);
        if j < i {
            assert(t[j] == s[j]);
            lemma_pending_index(s, j);
        } else {
            assert(t[j] == s[j + 1]);
            lemma_pending_index(s, j + 1);
        }
    }
    assert(pending_map(t) =~= pending_map(s).remove(s[i].0@));
}

proof fn lemma_pending_push(s: Seq<(EscModuleId, VecDeque<usize>)>, e: (EscModuleId, VecDeque<usize>))
    requires
        unique_modules(s),
        !pending_map(s).contains_key(e.0@),
    ensures
        unique_modules(s.push(e)),
        pending_map(s.push(e)) == pending_map(s).insert(e.0@, e.1@),
{
    assert(s.push(e).drop_last() =~= s);
    assert forall|i: int| 0 <= i < s.len() implies s[i].0@ != e.0@ by {
        lemma_pending_index(s, i);
    }
}

/// The position of the entry of `m`, if any.
fn pending_position(pending: &Vec<(EscModuleId, VecDeque<usize>)>, m: &EscModuleId) -> (r: Option<usize>)
    ensures
        r is Some <==> pending_map(pending@).contains_key(m@),
        r matches Some(i) ==> i < pending@.len() && pending@[i as int].0@ == m@,
{
    let mut k: usize = 0;
    while k < pending.len()
        invariant
            0 <= k <= pending@.len(),
            forall|j: int| 0 <= j < k ==> pending@[j].0@ != m@,
        decreases pending@.len() - k,
    {
        if pending[k].0.same(m) {
            proof {
                lemma_pending_dom(pending@, m@);
            }
            return Some(k);
        }
        k = k + 1;
    }
    proof {
        lemma_pending_dom(pending@, m@);
    }
    None
}

/// How many jobs hold `m`.
pub(crate) fn active_count_of(active: &Vec<(EscModuleId, usize)>, m: &EscModuleId) -> (r: usize)
    ensures
        r == active_count(active@, m@),
{
    let mut k: usize = 0;
    while k < active.len()
        invariant
            0 <= k <= active@.len(),
            forall|j: int| 0 <= j < k ==> active@[j].0@ != m@,
            active_count(active@, m@) == active_count(active@.skip(k as int), m@),
        decreases active@.len() - k,
    {
        proof {
            assert(active@.skip(k as int).drop_first() =~= active@.skip(k + 1));
        }
        if active[k].0.same(m) {
            return active[k].1;
        }
        k = k + 1;
    }
    0
}

/// Whether every module of component `c` has a free arena.
fn available(graph: &EscCallGraph, active: &Vec<(EscModuleId, usize)>, c: usize) -> (r: bool)
    requires
        c < graph.sccs@.len(),
    ensures
        r == is_available(graph.sccs@, active@, c as int),
{
    let members = &graph.sccs[c];
    let mut j: usize = 0;
    while j < members.len()
        invariant
            c < graph.sccs@.len(),
            members == graph.sccs@[c as int],
            0 <= j <= members@.len(),
            forall|i: int|
                0 <= i < j ==> active_count(active@, component_modules(graph.sccs@, c as int)[i])
                    < MODULE_CONCURRENCY,
        decreases members@.len() - j,
    {
        assert(component_modules(graph.sccs@, c as int)[j as int] == members@[j as int]@.module_id);
        if active_count_of(active, members[j].module_id()) >= MODULE_CONCURRENCY {
            return false;
        }
        j = j + 1;
    }
    true
}

/// Whether every member of component `c` belongs to `m`.
fn within_module(graph: &EscCallGraph, c: usize, m: &EscModuleId) -> (r: bool)
    requires
        c < graph.sccs@.len(),
    ensures
        r == single_module(graph.sccs@, c as int, m@),
{
    let members = &graph.sccs[c];
    let mut j: usize = 0;
    while j < members.len()
        invariant
            c < graph.sccs@.len(),
            members == graph.sccs@[c as int],
            0 <= j <= members@.len(),
            forall|i: int| 0 <= i < j ==> component_modules(graph.sccs@, c as int)[i] == m@,
        decreases members@.len() - j,
    {
        assert(component_modules(graph.sccs@, c as int)[j as int] == members@[j as int]@.module_id);
        if !members[j].module_id().same(m) {
            return false;
        }
        j = j + 1;
    }
    true
}

/// Whether a module occurs in a vector.
fn has_module(v: &Vec<EscModuleId>, m: &EscModuleId) -> (r: bool)
    ensures
        r == module_views(v@).contains(m@),
{
    let mut k: usize = 0;
    while k < v.len()
        invariant
            0 <= k <= v@.len(),
            forall|j: int| 0 <= j < k ==> v@[j]@ != m@,
        decreases v@.len() - k,
    {
        if v[k].same(m) {
            assert(module_views(v@)[k as int] == m@);
            return true;
        }
        k = k + 1;
    }
    proof {
        if module_views(v@).contains(m@) {
            let j = choose|j: int| 0 <= j < module_views(v@).len() && module_views(v@)[j] == m@;
            assert(v@[j]@ == m@);
        }
    }
    false
}

/// Removes every occurrence of a module from a vector.
fn remove_module(v: &mut Vec<EscModuleId>, m: &EscModuleId)
    ensures
        module_views(final(v)@).to_set() == module_views(old(v)@).to_set().remove(m@),
        module_views(old(v)@).no_duplicates() ==> module_views(final(v)@).no_duplicates(),
{
    let ghost start = v@;
    let mut kept: Vec<EscModuleId> = Vec::new();
    let mut k: usize = 0;
    while k < v.len()
        invariant
            v@ == start,
            0 <= k <= start.len(),
            module_views(kept@).to_set() == module_views(start.take(k as int)).to_set().remove(m@),
            module_views(start).no_duplicates() ==> module_views(kept@).no_duplicates(),
            module_views(kept@).to_set().subset_of(module_views(start.take(k as int)).to_set()),
        decreases start.len() - k,
    {
        proof {
            assert(start.take(k + 1) =~= start.take(k as int).push(start[k as int]));
            assert(module_views(start.take(k + 1)) =~= module_views(start.take(k as int)).push(start[k as int]@));
            assert(module_views(start.take(k + 1)).to_set() =~= module_views(start.take(k as int)).to_set().insert(start[k as int]@));
        }
        if !v[k].same(m) {
            let ghost before = kept@;
            kept.push(v[k].duplicate());
            proof {
                assert(module_views(kept@) =~= module_views(before).push(start[k as int]@));
                assert(module_views(kept@).to_set() =~= module_views(before).to_set().insert(start[k as int]@));
                if module_views(start).no_duplicates() {
                    assert(!module_views(before).contains(start[k as int]@)) by {
                        if module_views(before).contains(start[k as int]@) {
                            assert(module_views(before).to_set().contains(start[k as int]@));
                            assert(module_views(start.take(k as int)).to_set().contains(start[k as int]@));
                            let j = choose|j: int| 0 <= j < k && module_views(start.take(k as int))[j] == start[k as int]@;
                            assert(module_views(start)[j] == module_views(start)[k as int]);
                        }
                    }
                }
            }
        }
        proof {
            assert(module_views(kept@).to_set() =~= module_views(start.take(k + 1)).to_set().remove(m@));
        }
        k = k + 1;
    }
    proof {
        assert(start.take(start.len() as int) =~= start);
    }
    *v = kept;
}

impl Ready {
    /// The representation holds one entry per module.
    pub closed spec fn wf(&self) -> bool {
        &&& unique_modules(self.pending@)
        &&& ready_wf(self@)
    }

    /// A queue without ready components.
    pub fn new() -> (r: Self)
        ensures
            r.wf(),
            r@.modules == Map::<Seq<char>, Seq<usize>>::empty(),
            r@.order.len() == 0,
            r@.queued.is_empty(),
    {
        let r = Ready { pending: Vec::new(), order: VecDeque::new(), queued: Vec::new() };
        assert(module_views(r.order@) =~= Seq::<Seq<char>>::empty());
        assert(module_views(r.queued@) =~= Seq::<Seq<char>>::empty());
        assert(module_views(r.queued@).to_set() =~= Set::<Seq<char>>::empty());
        r
    }

    /// How many modules have a place in the visiting order.
    pub fn order_len(&self) -> (r: usize)
        ensures
            r == self@.order.len(),
    {
        self.order.len()
    }

    /// Whether no module has a place in the visiting order.
    pub fn queued_is_empty(&self) -> (r: bool)
        requires
            self.wf(),
        ensures
            r == self@.queued.is_empty(),
    {
        proof {
            if self.queued@.len() > 0 {
                assert(module_views(self.queued@)[0] == self.queued@[0]@);
                assert(module_views(self.queued@).to_set().contains(self.queued@[0]@));
            }
        }
        self.queued.len() == 0
    }
}

/// The module a component is queued under: that of its first member.
pub open spec fn home_module(sccs: Seq<Vec<EscFnId>>, c: int) -> Seq<char> {
    component_modules(sccs, c)[0]
}

/// The ready components of `m`, or none.
pub open spec fn module_queue(modules: Map<Seq<char>, Seq<usize>>, m: Seq<char>) -> Seq<usize> {
    if modules.contains_key(m) {
        modules[m]
    } else {
        Seq::empty()
    }
}

impl Ready {
    /// Queues a component whose dependencies are solved under its module. A
    /// module that has no place in the visiting order gets one at its end.
    pub fn push(&mut self, component: usize, graph: &EscCallGraph)
        requires
            old(self).wf(),
            component < graph.sccs@.len(),
            graph.sccs@[component as int]@.len() > 0,
        ensures
            final(self).wf(),
            final(self)@.modules == old(self)@.modules.insert(
                home_module(graph.sccs@, component as int),
                module_queue(old(self)@.modules, home_module(graph.sccs@, component as int)).push(
                    component,
                ),
            ),
            final(self)@.queued == old(self)@.queued.insert(home_module(graph.sccs@, component as int)),
            old(self)@.queued.contains(home_module(graph.sccs@, component as int)) ==> final(self)@.order
                == old(self)@.order,
            !old(self)@.queued.contains(home_module(graph.sccs@, component as int))
                ==> final(self)@.order == old(self)@.order.push(home_module(graph.sccs@, component as int)),
    {
        let ghost start = self@;
        let module = graph.sccs[component][0].module_id();
        let ghost m = module@;
        assert(m == home_module(graph.sccs@, component as int));
        match pending_position(&self.pending, module) {
            Some(i) => {
                let ghost before = self.pending@;
                let (id, mut queue) = self.pending.remove(i);
                proof {
                    lemma_pending_index(before, i as int);
                    lemma_pending_remove(before, i as int);
                }
                queue.push_back(component);
                proof {
                    lemma_pending_push(self.pending@, (id, queue));
                    assert(pending_map(self.pending@).insert(m, queue@) =~= start.modules.insert(
                        m,
                        module_queue(start.modules, m).push(component),
                    ));
                }
                self.pending.push((id, queue));
            },
            None => {
                let mut queue: VecDeque<usize> = VecDeque::new();
                queue.push_back(component);
                let entry = (module.duplicate(), queue);
                proof {
                    lemma_pending_push(self.pending@, entry);
                    assert(queue@ =~= module_queue(start.modules, m).push(component));
                }
                self.pending.push(entry);
            },
        }
        if !has_module(&self.queued, module) {
            let ghost q0 = self.queued@;
            let ghost o0 = self.order@;
            self.queued.push(module.duplicate());
            self.order.push_back(module.duplicate());
            proof {
                assert(module_views(self.queued@) =~= module_views(q0).push(m));
                assert(module_views(self.order@) =~= module_views(o0).push(m));
                assert(module_views(self.queued@).to_set() =~= start.queued.insert(m));
                assert(!start.order.contains(m)) by {
                    if start.order.contains(m) {
                        assert(start.order.to_set().contains(m));
                    }
                }
                assert(start.order.push(m).to_set() =~= start.order.to_set().insert(m));
            }
        } else {
            assert(start.queued.insert(m) =~= start.queued);
        }
        proof {
            lemma_pending_dom(self.pending@, m);
        }
    }
}

/// The ready components of `m` after a batch took the first `k` of them.
pub open spec fn after_batch(modules: Map<Seq<char>, Seq<usize>>, m: Seq<char>, k: int) -> Map<Seq<char>, Seq<usize>> {
    if k == 0 {
        modules
    } else if k == module_queue(modules, m).len() {
        modules.remove(m)
    } else {
        modules.insert(m, module_queue(modules, m).skip(k))
    }
}

impl Ready {
    /// The job that starts with component `first`: after it, as many of the
    /// components waiting in its module as lie wholly in that module, up to
    /// `BATCH_SIZE` in all. A component spanning several modules runs alone,
    /// so that each of its modules is reserved.
    pub fn batch(&mut self, first: usize, graph: &EscCallGraph) -> (r: Vec<usize>)
        requires
            old(self).wf(),
            components_below(old(self)@, graph.sccs@.len() as int),
            first < graph.sccs@.len(),
            graph.sccs@[first as int]@.len() > 0,
        ensures
            final(self).wf(),
            components_below(final(self)@, graph.sccs@.len() as int),
            final(self)@.order == old(self)@.order,
            final(self)@.queued == old(self)@.queued,
            1 <= r@.len() <= BATCH_SIZE,
            r@[0] == first,
            !single_module(graph.sccs@, first as int, home_module(graph.sccs@, first as int)) ==> r@.len() == 1,
            r@.len() - 1 <= module_queue(old(self)@.modules, home_module(graph.sccs@, first as int)).len(),
            r@.drop_first() == module_queue(old(self)@.modules, home_module(graph.sccs@, first as int)).take(r@.len() - 1),
            forall|j: int| 0 <= j < r@.len() - 1 ==> single_module(graph.sccs@, #[trigger] module_queue(old(self)@.modules, home_module(graph.sccs@, first as int))[j] as int, home_module(graph.sccs@, first as int)),
            single_module(graph.sccs@, first as int, home_module(graph.sccs@, first as int)) && r@.len() < BATCH_SIZE && r@.len() - 1 < module_queue(old(self)@.modules, home_module(graph.sccs@, first as int)).len()
                ==> !single_module(graph.sccs@, module_queue(old(self)@.modules, home_module(graph.sccs@, first as int))[r@.len() - 1] as int, home_module(graph.sccs@, first as int)),
            final(self)@.modules == after_batch(old(self)@.modules, home_module(graph.sccs@, first as int), r@.len() - 1),
    {
        let ghost start = self@;
        let mut batch: Vec<usize> = Vec::new();
        batch.push(first);
        let module = graph.sccs[first][0].module_id();
        let ghost m = module@;
        assert(m == home_module(graph.sccs@, first as int));
        let ghost q = module_queue(start.modules, m);
        if !within_module(graph, first, module) {
            return batch;
        }
        match pending_position(&self.pending, module) {
            None => {
                assert(q.len() == 0);
                batch
            },
            Some(i) => {
                let ghost before = self.pending@;
                let (id, mut queue) = self.pending.remove(i);
                proof {
                    lemma_pending_index(before, i as int);
                    lemma_pending_remove(before, i as int);
                    assert(queue@ == q);
                    assert(q.take(0) =~= Seq::<usize>::empty());
                    assert(batch@.drop_first() =~= q.take(0));
                    assert(q.skip(0) =~= q);
                }
                while batch.len() < BATCH_SIZE && queue.len() > 0 && within_module(graph, queue[0], module)
                    invariant
                        1 <= batch@.len() <= BATCH_SIZE,
                        batch@[0] == first,
                        batch@.len() - 1 <= q.len(),
                        batch@.drop_first() == q.take(batch@.len() - 1),
                        queue@ == q.skip(batch@.len() - 1),
                        forall|j: int| 0 <= j < batch@.len() - 1 ==> single_module(graph.sccs@, #[trigger] q[j] as int, m),
                        module@ == m,
                        q.len() > 0,
                        components_below(start, graph.sccs@.len() as int),
                        start.modules.contains_key(m),
                        q == start.modules[m],
                    decreases queue@.len(),
                {
                    proof {
                        assert(q[batch@.len() - 1] == queue@[0]);
                        assert(q[batch@.len() - 1] < graph.sccs@.len());
                    }
                    let next = queue.pop_front().unwrap();
                    let ghost b0 = batch@;
                    batch.push(next);
                    proof {
                        assert(batch@.drop_first() =~= b0.drop_first().push(next));
                        assert(q.take(batch@.len() - 1) =~= q.take(b0.len() - 1).push(q[b0.len() - 1]));
                        assert(queue@ =~= q.skip(batch@.len() - 1));
                    }
                }
                let ghost k = batch@.len() - 1;
                if queue.len() > 0 {
                    proof {
                        lemma_pending_push(self.pending@, (id, queue));
                        if k == 0 {
                            assert(pending_map(self.pending@).insert(m, queue@) =~= start.modules);
                        }
                    }
                    self.pending.push((id, queue));
                } else {
                    assert(k == q.len());
                }
                proof {
                    lemma_pending_dom(self.pending@, m);
                    assert(self@.modules =~= after_batch(start.modules, m, k));
                    assert forall|mm: Seq<char>, j: int|
                        #![trigger self@.modules[mm][j]]
                        self@.modules.contains_key(mm) && 0 <= j < self@.modules[mm].len() implies self@.modules[mm][j] < graph.sccs@.len() by {
                        if mm == m {
                            assert(self@.modules[mm][j] == q[j + k]);
                            assert(start.modules[m][j + k] < graph.sccs@.len());
                        } else {
                            assert(self@.modules[mm] == start.modules[mm]);
                        }
                    }
                }
                batch
            },
        }
    }
}

/// Whether `m` has a ready component whose modules all have a free arena.
pub open spec fn ready_front(v: ReadyView, sccs: Seq<Vec<EscFnId>>, active: Seq<(EscModuleId, usize)>, m: Seq<char>) -> bool {
    v.modules.contains_key(m) && is_available(sccs, active, v.modules[m][0] as int)
}

/// Whether the preferred module has a ready component that can run.
pub open spec fn preferred_hit(v: ReadyView, preferred: Option<&EscModuleId>, sccs: Seq<Vec<EscFnId>>, active: Seq<(EscModuleId, usize)>) -> bool {
    match preferred {
        Some(p) => ready_front(v, sccs, active, p@),
        None => false,
    }
}

/// The modules that still have ready components.
pub open spec fn has_pending(v: ReadyView) -> spec_fn(Seq<char>) -> bool {
    |m: Seq<char>| v.modules.contains_key(m)
}

proof fn lemma_filter_step(o: Seq<Seq<char>>, k: int, p: spec_fn(Seq<char>) -> bool)
    requires
        0 <= k < o.len(),
    ensures
        o.take(k + 1).filter(p) == (if p(o[k]) {
            o.take(k).filter(p).push(o[k])
        } else {
            o.take(k).filter(p)
        }),
{
    reveal(Seq::filter);
    assert(o.take(k + 1).drop_last() =~= o.take(k));
    assert(o.take(k + 1).last() == o[k]);
}

proof fn lemma_filter_members(s: Seq<Seq<char>>, p: spec_fn(Seq<char>) -> bool)
    ensures
        forall|x: Seq<char>| s.filter(p).contains(x) <==> s.contains(x) && p(x),
        s.no_duplicates() ==> s.filter(p).no_duplicates(),
    decreases s.len(),
{
    reveal(Seq::filter);
    if s.len() > 0 {
        let t = s.drop_last();
        lemma_filter_members(t, p);
        assert forall|x: Seq<char>| s.contains(x) <==> t.contains(x) || x == s.last() by {
            if s.contains(x) {
                let i = choose|i: int| 0 <= i < s.len() && s[i] == x;
                if i < s.len() - 1 {
                    assert(t[i] == x);
                }
            }
            if t.contains(x) {
                let i = choose|i: int| 0 <= i < t.len() && t[i] == x;
                assert(s[i] == x);
            }
        }
        if s.no_duplicates() {
            assert(!t.contains(s.last())) by {
                if t.contains(s.last()) {
                    let i = choose|i: int| 0 <= i < t.len() && t[i] == s.last();
                    assert(s[i] == s[s.len() - 1]);
                }
            }
            assert(t.no_duplicates());
        }
    }
}

/// What the visiting order is after `k` modules were looked at without
/// success: the ones not yet looked at, then those looked at that still
/// have ready components.
pub open spec fn rotated(o: Seq<Seq<char>>, k: int, keep: spec_fn(Seq<char>) -> bool) -> Seq<Seq<char>> {
    o.subrange(k, o.len() as int) + o.take(k).filter(keep)
}

proof fn lemma_rotated(o: Seq<Seq<char>>, k: int, keep: spec_fn(Seq<char>) -> bool)
    requires
        o.no_duplicates(),
        0 <= k <= o.len(),
    ensures
        rotated(o, k, keep).no_duplicates(),
        forall|x: Seq<char>| rotated(o, k, keep).contains(x) <==> (o.subrange(k, o.len() as int).contains(x) || (o.take(k).contains(x) && keep(x))),
{
    let a = o.subrange(k, o.len() as int);
    let b = o.take(k).filter(keep);
    lemma_filter_members(o.take(k), keep);
    assert(o.take(k).no_duplicates());
    assert forall|i: int, j: int| 0 <= i < a.len() && 0 <= j < b.len() implies a[i] != b[j] by {
        assert(b.contains(b[j]));
        assert(o.take(k).contains(b[j]));
        let jj = choose|jj: int| 0 <= jj < k && o.take(k)[jj] == b[j];
        assert(o[jj] == b[j]);
        assert(a[i] == o[i + k]);
    }
    vstd::seq_lib::lemma_no_dup_in_concat(a, b);
    assert forall|x: Seq<char>| rotated(o, k, keep).contains(x) <==> (a.contains(x) || b.contains(x)) by {
        let r = rotated(o, k, keep);
        if r.contains(x) {
            let i = choose|i: int| 0 <= i < r.len() && r[i] == x;
            if i < a.len() {
                assert(a[i] == x);
            } else {
                assert(b[i - a.len()] == x);
            }
        }
        if a.contains(x) {
            let i = choose|i: int| 0 <= i < a.len() && a[i] == x;
            assert(r[i] == x);
        }
        if b.contains(x) {
            let i = choose|i: int| 0 <= i < b.len() && b[i] == x;
            assert(r[i + a.len()] == x);
        }
    }
}

proof fn lemma_success_order(o: Seq<Seq<char>>, k: int, keep: spec_fn(Seq<char>) -> bool)
    requires
        o.no_duplicates(),
        0 <= k < o.len(),
    ensures
        (o.subrange(k + 1, o.len() as int) + o.take(k).filter(keep)).no_duplicates(),
        !(o.subrange(k + 1, o.len() as int) + o.take(k).filter(keep)).contains(o[k]),
        forall|x: Seq<char>| (o.subrange(k + 1, o.len() as int) + o.take(k).filter(keep)).contains(x) <==> (o.subrange(k + 1, o.len() as int).contains(x) || (o.take(k).contains(x) && keep(x))),
{
    let a = o.subrange(k + 1, o.len() as int);
    let b = o.take(k).filter(keep);
    lemma_filter_members(o.take(k), keep);
    assert(o.take(k).no_duplicates());
    assert forall|i: int, j: int| 0 <= i < a.len() && 0 <= j < b.len() implies a[i] != b[j] by {
        assert(b.contains(b[j]));
        assert(o.take(k).contains(b[j]));
        let jj = choose|jj: int| 0 <= jj < k && o.take(k)[jj] == b[j];
        assert(o[jj] == b[j]);
        assert(a[i] == o[i + k + 1]);
    }
    vstd::seq_lib::lemma_no_dup_in_concat(a, b);
    let r = a + b;
    assert forall|x: Seq<char>| r.contains(x) <==> (a.contains(x) || b.contains(x)) by {
        if r.contains(x) {
            let i = choose|i: int| 0 <= i < r.len() && r[i] == x;
            if i < a.len() {
                assert(a[i] == x);
            } else {
                assert(b[i - a.len()] == x);
            }
        }
        if a.contains(x) {
            let i = choose|i: int| 0 <= i < a.len() && a[i] == x;
            assert(r[i] == x);
        }
        if b.contains(x) {
            let i = choose|i: int| 0 <= i < b.len() && b[i] == x;
            assert(r[i + a.len()] == x);
        }
    }
    if a.contains(o[k]) {
        let i = choose|i: int| 0 <= i < a.len() && a[i] == o[k];
        assert(o[i + k + 1] == o[k]);
    }
    if b.contains(o[k]) {
        assert(o.take(k).contains(o[k]));
        let jj = choose|jj: int| 0 <= jj < o.take(k).len() && o.take(k)[jj] == o[k];
        assert(o.take(k)[jj] == o[jj]);
    }
}

/// Whether component `x` waits in some module's queue.
pub open spec fn in_ready(v: ReadyView, x: usize) -> bool {
    exists|m: Seq<char>| #[trigger] v.modules.contains_key(m) && v.modules[m].contains(x)
}

/// Taking the first component of a module's queue adds no component.
pub proof fn lemma_pop_module_within(v: ReadyView, w: ReadyView, m: Seq<char>)
    requires
        v.modules.contains_key(m),
        v.modules[m].len() > 0,
        w.modules == pop_module(v.modules, m),
    ensures
        forall|x: usize| #[trigger] in_ready(w, x) ==> in_ready(v, x),
{
    assert forall|x: usize| #[trigger] in_ready(w, x) implies in_ready(v, x) by {
        let mm = choose|mm: Seq<char>| #[trigger] w.modules.contains_key(mm) && w.modules[mm].contains(x);
        let j = choose|j: int| 0 <= j < w.modules[mm].len() && w.modules[mm][j] == x;
        assert(v.modules.contains_key(mm));
        if mm == m {
            assert(v.modules[m][j + 1] == x);
        } else {
            assert(v.modules[mm][j] == x);
        }
        assert(v.modules[mm].contains(x));
    }
}

/// Taking the first `k` components of a module's queue adds no component.
pub proof fn lemma_after_batch_within(v: ReadyView, w: ReadyView, m: Seq<char>, k: int)
    requires
        0 <= k <= module_queue(v.modules, m).len(),
        w.modules == after_batch(v.modules, m, k),
    ensures
        forall|x: usize| #[trigger] in_ready(w, x) ==> in_ready(v, x),
{
    assert forall|x: usize| #[trigger] in_ready(w, x) implies in_ready(v, x) by {
        let mm = choose|mm: Seq<char>| #[trigger] w.modules.contains_key(mm) && w.modules[mm].contains(x);
        let j = choose|j: int| 0 <= j < w.modules[mm].len() && w.modules[mm][j] == x;
        if k != 0 && mm == m {
            assert(v.modules.contains_key(m));
            assert(v.modules[m][j + k] == x);
            assert(v.modules[m].contains(x));
        } else {
            assert(v.modules.contains_key(mm));
            assert(v.modules[mm][j] == x);
            assert(v.modules[mm].contains(x));
        }
    }
}

/// Whether no module has a ready component that can run.
pub open spec fn nothing_runnable(v: ReadyView, sccs: Seq<Vec<EscFnId>>, active: Seq<(EscModuleId, usize)>) -> bool {
    forall|m: Seq<char>| #[trigger] v.modules.contains_key(m) ==> !is_available(sccs, active, v.modules[m][0] as int)
}

/// Some position of a sequence satisfies `p` first.
proof fn lemma_first_index(o: Seq<Seq<char>>, p: spec_fn(Seq<char>) -> bool, i: int)
    requires
        0 <= i < o.len(),
        p(o[i]),
    ensures
        exists|k: int| 0 <= k <= i && p(#[trigger] o[k]) && forall|j: int| 0 <= j < k ==> !p(#[trigger] o[j]),
    decreases i,
{
    if exists|j: int| 0 <= j < i && p(#[trigger] o[j]) {
        let j = choose|j: int| 0 <= j < i && p(#[trigger] o[j]);
        lemma_first_index(o, p, j);
    } else {
        assert(forall|j: int| 0 <= j < i ==> !p(#[trigger] o[j]));
    }
}

impl Ready {
    /// The invariant of a well-formed queue, over its view.
    pub proof fn lemma_ready_wf(&self)
        requires
            self.wf(),
        ensures
            ready_wf(self@),
    {
    }

    /// Takes the next component to run. A ready component of the preferred
    /// module comes first, if it can run. Otherwise modules are looked at in
    /// the visiting order, each at most once: one without ready components
    /// loses its place; one whose next component cannot run yet moves to the
    /// end; the first whose next component can run gives it, and keeps its
    /// place at the front if it has more. Nothing comes exactly when no
    /// module has a ready component that can run.
    pub fn pop(&mut self, preferred: Option<&EscModuleId>, active: &Vec<(EscModuleId, usize)>, graph: &EscCallGraph) -> (r: Option<usize>)
        requires
            old(self).wf(),
            components_below(old(self)@, graph.sccs@.len() as int),
        ensures
            final(self).wf(),
            ready_wf(final(self)@),
            r is None <==> nothing_runnable(old(self)@, graph.sccs@, active@),
            r matches Some(c) ==> is_available(graph.sccs@, active@, c as int) && exists|m: Seq<char>|
                #[trigger] old(self)@.modules.contains_key(m) && old(self)@.modules[m][0] == c,
            forall|x: usize| #[trigger] in_ready(final(self)@, x) ==> in_ready(old(self)@, x),
            components_below(final(self)@, graph.sccs@.len() as int),
            preferred_hit(old(self)@, preferred, graph.sccs@, active@) ==> r == Some(old(self)@.modules[preferred->0@][0]) && final(self)@.modules == pop_module(old(self)@.modules, preferred->0@) && final(self)@.order == old(self)@.order,
            !preferred_hit(old(self)@, preferred, graph.sccs@, active@) && (forall|i: int| 0 <= i < old(self)@.order.len() ==> !ready_front(old(self)@, graph.sccs@, active@, #[trigger] old(self)@.order[i]))
                ==> r is None && final(self)@.modules == old(self)@.modules && final(self)@.order == old(self)@.order.filter(has_pending(old(self)@)),
            forall|i: int|
                !preferred_hit(old(self)@, preferred, graph.sccs@, active@) && 0 <= i < old(self)@.order.len() && ready_front(old(self)@, graph.sccs@, active@, #[trigger] old(self)@.order[i])
                    && (forall|j: int| 0 <= j < i ==> !ready_front(old(self)@, graph.sccs@, active@, #[trigger] old(self)@.order[j]))
                ==> r == Some(old(self)@.modules[old(self)@.order[i]][0]) && final(self)@.modules == pop_module(old(self)@.modules, old(self)@.order[i]) && final(self)@.order == (if old(self)@.modules[old(self)@.order[i]].len() > 1 {
                    seq![old(self)@.order[i]]
                } else {
                    Seq::empty()
                }) + (old(self)@.order.subrange(i + 1, old(self)@.order.len() as int) + old(self)@.order.take(i).filter(has_pending(old(self)@))),
    {
        let ghost start = self@;
        let r = self.take_next(preferred, active, graph);
        proof {
            let sccs = graph.sccs@;
            let act = active@;
            let o = start.order;
            if nothing_runnable(start, sccs, act) {
                assert(!preferred_hit(start, preferred, sccs, act));
                assert forall|i: int| 0 <= i < o.len() implies !ready_front(start, sccs, act, #[trigger] o[i]) by {
                    if start.modules.contains_key(o[i]) {
                        assert(!is_available(sccs, act, start.modules[o[i]][0] as int));
                    }
                }
            } else {
                let m = choose|m: Seq<char>| #[trigger] start.modules.contains_key(m) && is_available(sccs, act, start.modules[m][0] as int);
                assert(ready_front(start, sccs, act, m));
                if !preferred_hit(start, preferred, sccs, act) {
                    assert(start.queued.contains(m));
                    assert(o.to_set().contains(m));
                    let i = choose|i: int| 0 <= i < o.len() && o[i] == m;
                    let p = |x: Seq<char>| ready_front(start, sccs, act, x);
                    assert(p(o[i]));
                    lemma_first_index(o, p, i);
                    let k = choose|k: int| 0 <= k <= i && p(#[trigger] o[k]) && forall|j: int| 0 <= j < k ==> !p(#[trigger] o[j]);
                    assert(ready_front(start, sccs, act, o[k]));
                    assert(forall|j: int| 0 <= j < k ==> !ready_front(start, sccs, act, #[trigger] o[j]));
                    assert(start.modules.contains_key(o[k]));
                    lemma_pop_module_within(start, self@, o[k]);
                } else {
                    assert(start.modules.contains_key(preferred->0@));
                    lemma_pop_module_within(start, self@, preferred->0@);
                }
            }
        }
        r
    }

    /// The search that `pop` makes, with what it gives for each outcome.
    fn take_next(&mut self, preferred: Option<&EscModuleId>, active: &Vec<(EscModuleId, usize)>, graph: &EscCallGraph) -> (r: Option<usize>)
        requires
            old(self).wf(),
            components_below(old(self)@, graph.sccs@.len() as int),
        ensures
            final(self).wf(),
            components_below(final(self)@, graph.sccs@.len() as int),
            preferred_hit(old(self)@, preferred, graph.sccs@, active@) ==> r == Some(old(self)@.modules[preferred->0@][0]) && final(self)@.modules == pop_module(old(self)@.modules, preferred->0@) && final(self)@.order == old(self)@.order,
            !preferred_hit(old(self)@, preferred, graph.sccs@, active@) && (forall|i: int| 0 <= i < old(self)@.order.len() ==> !ready_front(old(self)@, graph.sccs@, active@, #[trigger] old(self)@.order[i]))
                ==> r is None && final(self)@.modules == old(self)@.modules && final(self)@.order == old(self)@.order.filter(has_pending(old(self)@)),
            forall|i: int|
                !preferred_hit(old(self)@, preferred, graph.sccs@, active@) && 0 <= i < old(self)@.order.len() && ready_front(old(self)@, graph.sccs@, active@, #[trigger] old(self)@.order[i])
                    && (forall|j: int| 0 <= j < i ==> !ready_front(old(self)@, graph.sccs@, active@, #[trigger] old(self)@.order[j]))
                ==> r == Some(old(self)@.modules[old(self)@.order[i]][0]) && final(self)@.modules == pop_module(old(self)@.modules, old(self)@.order[i]) && final(self)@.order == (if old(self)@.modules[old(self)@.order[i]].len() > 1 {
                    seq![old(self)@.order[i]]
                } else {
                    Seq::empty()
                }) + (old(self)@.order.subrange(i + 1, old(self)@.order.len() as int) + old(self)@.order.take(i).filter(has_pending(old(self)@))),
    {
        let ghost start = self@;
        let ghost n_components = graph.sccs@.len() as int;
        if let Some(module) = preferred {
            if let Some(i) = pending_position(&self.pending, module) {
                proof {
                    lemma_pending_index(self.pending@, i as int);
                    assert(self.pending@[i as int].1@.len() > 0);
                    assert(self.pending@[i as int].1@[0] < n_components);
                }
                let front = self.pending[i].1[0];
                if available(graph, active, front) {
                    let ghost before = self.pending@;
                    let (id, mut queue) = self.pending.remove(i);
                    proof {
                        lemma_pending_remove(before, i as int);
                    }
                    let result = queue.pop_front();
                    if queue.len() > 0 {
                        proof {
                            lemma_pending_push(self.pending@, (id, queue));
                        }
                        self.pending.push((id, queue));
                    }
                    proof {
                        lemma_pending_dom(self.pending@, module@);
                        assert(self@.modules =~= pop_module(start.modules, module@));
                        assert forall|mm: Seq<char>, j: int|
                            #![trigger self@.modules[mm][j]]
                            self@.modules.contains_key(mm) && 0 <= j < self@.modules[mm].len() implies self@.modules[mm][j] < n_components by {
                            if mm == module@ {
                                assert(self@.modules[mm][j] == start.modules[mm][j + 1]);
                            }
                        }
                    }
                    return result;
                }
            }
        }
        assert(!preferred_hit(start, preferred, graph.sccs@, active@));
        let ghost o = start.order;
        let ghost keep = has_pending(start);
        let n = self.order.len();
        let mut k: usize = 0;
        proof {
            assert(rotated(o, 0, keep) =~= o) by {
                reveal(Seq::filter);
                assert(o.take(0) =~= Seq::<Seq<char>>::empty());
            }
        }
        while k < n
            invariant
                n == o.len(),
                0 <= k <= n,
                self@.modules == start.modules,
                unique_modules(self.pending@),
                module_views(self.order@) == rotated(o, k as int, keep),
                module_views(self.queued@).to_set() == module_views(self.order@).to_set(),
                o.no_duplicates(),
                ready_wf(start),
                components_below(start, n_components),
                n_components == graph.sccs@.len(),
                keep == has_pending(start),
                o == start.order,
                start == old(self)@,
                !preferred_hit(start, preferred, graph.sccs@, active@),
                forall|j: int| 0 <= j < k ==> !ready_front(start, graph.sccs@, active@, #[trigger] o[j]),
            decreases n - k,
        {
            proof {
                lemma_rotated(o, k as int, keep);
                lemma_filter_step(o, k as int, keep);
                assert(module_views(self.order@).len() > 0);
            }
            let ghost before_order = self.order@;
            let ghost k1: int = k + 1;
            let module = self.order.pop_front().unwrap();
            proof {
                assert(module_views(before_order)[0] == before_order[0]@);
                assert(rotated(o, k as int, keep)[0] == o.subrange(k as int, n as int)[0]);
                assert(module@ == o[k as int]);
                assert(module_views(self.order@) =~= module_views(before_order).subrange(1, module_views(before_order).len() as int));
                assert(module_views(self.order@) =~= o.subrange(k + 1, n as int) + o.take(k as int).filter(keep));
            }
            match pending_position(&self.pending, &module) {
                Some(i) => {
                    proof {
                        lemma_pending_index(self.pending@, i as int);
                        assert(self.pending@[i as int].1@[0] < n_components);
                    }
                    let front = self.pending[i].1[0];
                    if !available(graph, active, front) {
                        let ghost o1 = self.order@;
                        self.order.push_back(module);
                        proof {
                            assert(module_views(self.order@) =~= module_views(o1).push(o[k as int]));
                            assert(module_views(self.order@) =~= rotated(o, k + 1, keep));
                            lemma_rotated(o, k + 1, keep);
                            assert(module_views(self.order@).to_set() =~= module_views(before_order).to_set()) by {
                                assert forall|x: Seq<char>| module_views(self.order@).contains(x) <==> module_views(before_order).contains(x) by {
                                    lemma_rotated(o, k as int, keep);
                                    if o.take(k as int).contains(x) {
                                        let jj = choose|jj: int| 0 <= jj < k && o.take(k as int)[jj] == x;
                                        assert(o[jj] == x);
                                    }
                                    if o.subrange(k as int, n as int).contains(x) {
                                        let jj = choose|jj: int| 0 <= jj < n - k && o.subrange(k as int, n as int)[jj] == x;
                                        if jj > 0 {
                                            assert(o.subrange(k + 1, n as int)[jj - 1] == x);
                                        } else {
                                            assert(o.take(k + 1)[k as int] == x);
                                        }
                                    }
                                    if o.take(k + 1).contains(x) {
                                        let jj = choose|jj: int| 0 <= jj < k1 && o.take(k1)[jj] == x;
                                        if jj < k {
                                            assert(o.take(k as int)[jj] == x);
                                        } else {
                                            assert(o.subrange(k as int, n as int)[0] == x);
                                        }
                                    }
                                    if o.subrange(k + 1, n as int).contains(x) {
                                        let jj = choose|jj: int| 0 <= jj < n - k1 && o.subrange(k1, n as int)[jj] == x;
                                        assert(o.subrange(k as int, n as int)[jj + 1] == x);
                                    }
                                }
                            }
                        }
                        k = k + 1;
                        continue;
                    }
                    assert(ready_front(start, graph.sccs@, active@, o[k as int]));
                    let ghost before = self.pending@;
                    let (id, mut queue) = self.pending.remove(i);
                    proof {
                        lemma_pending_remove(before, i as int);
                    }
                    let result = queue.pop_front();
                    let ghost rest = o.subrange(k + 1, n as int) + o.take(k as int).filter(keep);
                    proof {
                        lemma_success_order(o, k as int, keep);
                        lemma_rotated(o, k as int, keep);
                    }
                    if queue.len() == 0 {
                        let ghost q0 = self.queued@;
                        remove_module(&mut self.queued, &module);
                        proof {
                            lemma_pending_dom(self.pending@, o[k as int]);
                            assert(self@.modules =~= pop_module(start.modules, o[k as int]));
                            assert(module_views(self.order@) == rest);
                            assert forall|x: Seq<char>| rest.contains(x) <==> (rotated(o, k as int, keep).contains(x) && x != o[k as int]) by {
                                if o.subrange(k as int, n as int).contains(x) && x != o[k as int] {
                                    let jj = choose|jj: int| 0 <= jj < n - k && o.subrange(k as int, n as int)[jj] == x;
                                    assert(jj > 0);
                                    assert(o.subrange(k + 1, n as int)[jj - 1] == x);
                                }
                                if o.subrange(k + 1, n as int).contains(x) {
                                    let jj = choose|jj: int| 0 <= jj < n - k1 && o.subrange(k1, n as int)[jj] == x;
                                    assert(o.subrange(k as int, n as int)[jj + 1] == x);
                                }
                            }
                            assert(module_views(self.queued@).to_set() =~= module_views(self.order@).to_set());
                            assert(seq![] + rest =~= rest);
                        }
                    } else {
                        proof {
                            lemma_pending_push(self.pending@, (id, queue));
                        }
                        self.pending.push((id, queue));
                        let ghost o1 = self.order@;
                        self.order.push_front(module);
                        proof {
                            lemma_pending_dom(self.pending@, o[k as int]);
                            assert(self@.modules =~= pop_module(start.modules, o[k as int]));
                            assert(module_views(self.order@) =~= seq![o[k as int]] + rest);
                            assert forall|x: Seq<char>| (seq![o[k as int]] + rest).contains(x) <==> rotated(o, k as int, keep).contains(x) by {
                                let t = seq![o[k as int]] + rest;
                                if t.contains(x) && x != o[k as int] {
                                    let jj = choose|jj: int| 0 <= jj < t.len() && t[jj] == x;
                                    assert(rest[jj - 1] == x);
                                }
                                if x == o[k as int] {
                                    assert(t[0] == x);
                                    assert(o.subrange(k as int, n as int)[0] == x);
                                }
                                if rest.contains(x) {
                                    let jj = choose|jj: int| 0 <= jj < rest.len() && rest[jj] == x;
                                    assert(t[jj + 1] == x);
                                }
                                if o.subrange(k as int, n as int).contains(x) && x != o[k as int] {
                                    let jj = choose|jj: int| 0 <= jj < n - k && o.subrange(k as int, n as int)[jj] == x;
                                    assert(jj > 0);
                                    assert(o.subrange(k + 1, n as int)[jj - 1] == x);
                                }
                                if o.subrange(k + 1, n as int).contains(x) {
                                    let jj = choose|jj: int| 0 <= jj < n - k1 && o.subrange(k1, n as int)[jj] == x;
                                    assert(o.subrange(k as int, n as int)[jj + 1] == x);
                                }
                            }
                            assert(module_views(self.queued@).to_set() =~= module_views(self.order@).to_set());
                            vstd::seq_lib::lemma_no_dup_in_concat(seq![o[k as int]], rest);
                        }
                    }
                    proof {
                        assert forall|mm: Seq<char>| #[trigger] self@.modules.contains_key(mm) implies self@.queued.contains(mm) && self@.modules[mm].len() > 0 by {
                            assert(start.modules.contains_key(mm));
                            assert(start.queued.contains(mm));
                            assert(o.to_set().contains(mm));
                            let jj = choose|jj: int| 0 <= jj < o.len() && o[jj] == mm;
                            if jj < k {
                                assert(o.take(k as int).contains(mm));
                                assert(keep(mm));
                            } else if jj > k {
                                assert(o.subrange(k + 1, n as int)[jj - k - 1] == mm);
                            }
                            assert(module_views(self.order@).contains(mm));
                        }
                        assert forall|mm: Seq<char>, j: int|
                            #![trigger self@.modules[mm][j]]
                            self@.modules.contains_key(mm) && 0 <= j < self@.modules[mm].len() implies self@.modules[mm][j] < n_components by {
                            if mm == o[k as int] {
                                assert(self@.modules[mm][j] == start.modules[mm][j + 1]);
                            }
                        }
                        lemma_pending_dom(self.pending@, o[k as int]);
                    }
                    return result;
                },
                None => {
                    remove_module(&mut self.queued, &module);
                    proof {
                        lemma_pending_dom(self.pending@, o[k as int]);
                        assert(!keep(o[k as int]));
                        assert(module_views(self.order@) =~= rotated(o, k + 1, keep));
                        lemma_rotated(o, k + 1, keep);
                        lemma_rotated(o, k as int, keep);
                        assert(module_views(self.queued@).to_set() =~= module_views(self.order@).to_set());
                    }
                },
            }
            k = k + 1;
        }
        proof {
            lemma_rotated(o, n as int, keep);
            assert(o.subrange(n as int, n as int) =~= Seq::<Seq<char>>::empty());
            assert(o.take(n as int) =~= o);
            assert(rotated(o, n as int, keep) =~= o.filter(keep));
        }
        None
    }
}

impl Default for Ready {
    fn default() -> (r: Self)
        ensures
            r.wf(),
            r@.modules == Map::<Seq<char>, Seq<usize>>::empty(),
            r@.order.len() == 0,
            r@.queued.is_empty(),
    {
        Ready::new()
    }
}

} // verus!
