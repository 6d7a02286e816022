//! The decisions of an editor refresh, with modules numbered by the caller.
//! Starting from the configured roots and the open documents, modules are
//! taken from a stack; excluded and already seen ones are skipped, one that
//! cannot be read counts as changed, and a loaded one adds its dependencies
//! to the stack and its import edges to the graph. The caller reads and
//! parses; the refresh decides what is visited and what has changed.
use crate::editor::marked;
use vstd::prelude::*;

verus! {

broadcast use vstd::seq_lib::group_seq_properties;

/// The mathematical value of a refresh.
pub struct RefreshView {
    /// The modules still to visit; the last comes next.
    pub pending: Seq<usize>,
    /// The modules that were read and loaded.
    pub seen: Set<int>,
    /// The modules known to have changed.
    pub changed: Set<int>,
    /// The import edges gathered so far, from importer to imported.
    pub edges: Seq<(usize, usize)>,
}

/// An editor refresh in progress over `count` modules.
#[derive(Debug)]
pub struct Refresh {
    count: usize,
    excluded: Vec<bool>,
    pending: Vec<usize>,
    seen: Vec<bool>,
    changed: Vec<bool>,
    edges: Vec<(usize, usize)>,
}

impl View for Refresh {
    type V = RefreshView;

    closed spec fn view(&self) -> RefreshView {
        RefreshView {
            pending: self.pending@,
            seen: marked(self.seen@),
            changed: marked(self.changed@),
            edges: self.edges@,
        }
    }
}

/// Whether every module of the sequence is one of `count`.
pub open spec fn all_below(s: Seq<usize>, count: nat) -> bool {
    forall|k: int| 0 <= k < s.len() ==> #[trigger] s[k] < count
}

/// Whether both ends of every edge are among `count` modules.
pub open spec fn edges_below(edges: Seq<(usize, usize)>, count: nat) -> bool {
    forall|e: int| 0 <= e < edges.len() ==> (#[trigger] edges[e]).0 < count && edges[e].1 < count
}

/// The import edges from `from` to each dependency, in order.
pub open spec fn edges_from(from: usize, dependencies: Seq<usize>) -> Seq<(usize, usize)> {
    dependencies.map_values(|d: usize| (from, d))
}

impl Refresh {
    /// The number of modules.
    pub closed spec fn count(&self) -> nat {
        self.count as nat
    }

    /// The modules that are never visited.
    pub closed spec fn excluded(&self) -> Set<int> {
        marked(self.excluded@)
    }

    /// The representation covers every module, and every pending module and
    /// edge end is one of them.
    pub closed spec fn wf(&self) -> bool {
        &&& self.excluded@.len() == self.count
        &&& self.seen@.len() == self.count
        &&& self.changed@.len() == self.count
        &&& all_below(self.pending@, self.count as nat)
        &&& edges_below(self.edges@, self.count as nat)
    }

    /// A refresh of `count` modules that starts from `start`, the last of
    /// which is visited first, and knows the import edges `edges` of the
    /// modules loaded before.
    pub fn new(count: usize, excluded: Vec<bool>, start: Vec<usize>, edges: Vec<(usize, usize)>) -> (r: Refresh)
        requires
            excluded@.len() == count,
            all_below(start@, count as nat),
            edges_below(edges@, count as nat),
        ensures
            r.wf(),
            r.count() == count,
            r.excluded() == marked(excluded@),
            r@.pending == start@,
            r@.seen.is_empty(),
            r@.changed.is_empty(),
            r@.edges == edges@,
    {
        let mut seen: Vec<bool> = Vec::new();
        let mut changed: Vec<bool> = Vec::new();
        let mut i: usize = 0;
        while i < count
            invariant
                0 <= i <= count,
                seen@.len() == i,
                changed@.len() == i,
                forall|j: int| 0 <= j < i ==> !(#[trigger] seen@[j]) && !changed@[j],
            decreases count - i,
        {
            seen.push(false);
            changed.push(false);
            i = i + 1;
        }
        let r = Refresh { count, excluded, pending: start, seen, changed, edges };
        assert(r@.seen =~= Set::<int>::empty());
        assert(r@.changed =~= Set::<int>::empty());
        r
    }

    /// The next module to visit: the last pending one that is neither
    /// excluded nor seen, with every pending module after it dropped; `None`
    /// when no such module is left, and then nothing is pending.
    pub fn next(&mut self) -> (r: Option<usize>)
        requires
            old(self).wf(),
        ensures
            final(self).wf(),
            final(self).count() == old(self).count(),
            final(self).excluded() == old(self).excluded(),
            final(self)@.seen == old(self)@.seen,
            final(self)@.changed == old(self)@.changed,
            final(self)@.edges == old(self)@.edges,
            r matches Some(p) ==> {
                let k = final(self)@.pending.len() as int;
                &&& k < old(self)@.pending.len()
                &&& final(self)@.pending == old(self)@.pending.take(k)
                &&& old(self)@.pending[k] == p
                &&& p < old(self).count()
                &&& !old(self).excluded().contains(p as int)
                &&& !old(self)@.seen.contains(p as int)
                &&& forall|j: int| k < j < old(self)@.pending.len()
                    ==> old(self).excluded().contains(#[trigger] old(self)@.pending[j] as int) || old(self)@.seen.contains(old(self)@.pending[j] as int)
            },
            r is None ==> final(self)@.pending.len() == 0 && forall|j: int| 0 <= j < old(self)@.pending.len()
                ==> old(self).excluded().contains(#[trigger] old(self)@.pending[j] as int) || old(self)@.seen.contains(old(self)@.pending[j] as int),
    {
        let ghost start = self.pending@;
        while self.pending.len() > 0
            invariant
                self.wf(),
                self.count == old(self).count,
                self.excluded@ == old(self).excluded@,
                self.seen@ == old(self).seen@,
                self.changed@ == old(self).changed@,
                self.edges@ == old(self).edges@,
                start == old(self).pending@,
                self.pending@.len() <= start.len(),
                self.pending@ == start.take(self.pending@.len() as int),
                forall|j: int| self.pending@.len() <= j < start.len()
                    ==> marked(self.excluded@).contains(#[trigger] start[j] as int) || marked(self.seen@).contains(start[j] as int),
            decreases self.pending@.len(),
        {
            let ghost before = self.pending@;
            let p = self.pending.pop().unwrap();
            proof {
                assert(before[before.len() - 1] == p);
                assert(start[self.pending@.len() as int] == p);
                assert(self.pending@ =~= start.take(self.pending@.len() as int));
            }
            if !self.excluded[p] && !self.seen[p] {
                return Some(p);
            }
        }
        None
    }

    /// Records that module `p` could not be read: it counts as changed.
    pub fn unreadable(&mut self, p: usize)
        requires
            old(self).wf(),
            p < old(self).count(),
        ensures
            final(self).wf(),
            final(self).count() == old(self).count(),
            final(self).excluded() == old(self).excluded(),
            final(self)@ == (RefreshView { changed: old(self)@.changed.insert(p as int), ..old(self)@ }),
    {
        self.changed.set(p, true);
        assert(marked(self.changed@) =~= marked(old(self).changed@).insert(p as int));
    }

    /// Records that module `p` was loaded, whether it changed, and its
    /// dependencies, which are visited next and become its import edges.
    pub fn loaded(&mut self, p: usize, changed: bool, dependencies: &Vec<usize>)
        requires
            old(self).wf(),
            p < old(self).count(),
            all_below(dependencies@, old(self).count()),
        ensures
            final(self).wf(),
            final(self).count() == old(self).count(),
            final(self).excluded() == old(self).excluded(),
            final(self)@.seen == old(self)@.seen.insert(p as int),
            final(self)@.changed == (if changed { old(self)@.changed.insert(p as int) } else { old(self)@.changed }),
            final(self)@.pending == old(self)@.pending + dependencies@,
            final(self)@.edges == old(self)@.edges + edges_from(p, dependencies@),
    {
        self.seen.set(p, true);
        assert(marked(self.seen@) =~= marked(old(self).seen@).insert(p as int));
        if changed {
            self.changed.set(p, true);
            assert(marked(self.changed@) =~= marked(old(self).changed@).insert(p as int));
        }
        let ghost seen_now = self.seen@;
        let ghost changed_now = self.changed@;
        let mut k: usize = 0;
        while k < dependencies.len()
            invariant
                self.count == old(self).count,
                self.excluded@ == old(self).excluded@,
                self.seen@ == seen_now,
                self.changed@ == changed_now,
                self.excluded@.len() == self.count,
                self.seen@.len() == self.count,
                self.changed@.len() == self.count,
                all_below(dependencies@, self.count as nat),
                0 <= k <= dependencies@.len(),
                self.pending@ == old(self).pending@ + dependencies@.take(k as int),
                self.edges@ == old(self).edges@ + edges_from(p, dependencies@.take(k as int)),
                all_below(self.pending@, self.count as nat),
                edges_below(self.edges@, self.count as nat),
                p < self.count,
            decreases dependencies@.len() - k,
        {
            let d = dependencies[k];
            self.pending.push(d);
            self.edges.push((p, d));
            proof {
                assert(dependencies@.take(k + 1) =~= dependencies@.take(k as int).push(d));
                assert(edges_from(p, dependencies@.take(k + 1)) =~= edges_from(p, dependencies@.take(k as int)).push((p, d)));
            }
            k = k + 1;
        }
        assert(dependencies@.take(k as int) =~= dependencies@);
    }

    /// The import edges gathered so far.
    pub fn edges(&self) -> (r: &Vec<(usize, usize)>)
        ensures
            r@ == self@.edges,
    {
        &self.edges
    }

    /// The modules that changed once every module is visited: those found
    /// changed, the known modules that were not seen again, and the known
    /// modules without reports.
    pub fn changed_modules(&self, known: &Vec<bool>, reported: &Vec<bool>) -> (r: Vec<bool>)
        requires
            self.wf(),
            known@.len() == self.count(),
            reported@.len() == self.count(),
        ensures
            r@.len() == self.count(),
            marked(r@) == self@.changed.union(marked(known@).difference(self@.seen)).union(marked(known@).difference(marked(reported@))),
    {
        let mut r: Vec<bool> = Vec::new();
        let mut i: usize = 0;
        while i < self.count
            invariant
                self.wf(),
                known@.len() == self.count,
                reported@.len() == self.count,
                0 <= i <= self.count,
                r@.len() == i,
                forall|j: int| 0 <= j < i ==> #[trigger] r@[j] == (self.changed@[j] || (known@[j] && !self.seen@[j]) || (known@[j] && !reported@[j])),
            decreases self.count - i,
        {
            r.push(self.changed[i] || (known[i] && !self.seen[i]) || (known[i] && !reported[i]));
            i = i + 1;
        }
        assert(marked(r@) =~= self@.changed.union(marked(known@).difference(self@.seen)).union(marked(known@).difference(marked(reported@))));
        r
    }
}

/// Where a global is modified now or was before, and anything changed, every
/// known module may be affected: modules that share globals have no import
/// edge between them. Otherwise the changed modules stay as they are.
pub fn widen_for_globals(changed: &Vec<bool>, known: &Vec<bool>, shares_globals: bool, shared_before: bool) -> (r: Vec<bool>)
    requires
        known@.len() == changed@.len(),
    ensures
        r@.len() == changed@.len(),
        marked(r@) == (if !marked(changed@).is_empty() && (shares_globals || shared_before) {
            marked(changed@).union(marked(known@))
        } else {
            marked(changed@)
        }),
{
    let mut any = false;
    let mut i: usize = 0;
    while i < changed.len()
        invariant
            0 <= i <= changed@.len(),
            any == exists|j: int| 0 <= j < i && #[trigger] changed@[j],
        decreases changed@.len() - i,
    {
        if changed[i] {
            any = true;
        }
        i = i + 1;
    }
    proof {
        if any {
            let j = choose|j: int| 0 <= j < changed@.len() && #[trigger] changed@[j];
            assert(marked(changed@).contains(j));
        } else {
            assert(marked(changed@) =~= Set::<int>::empty());
        }
    }
    let widen = any && (shares_globals || shared_before);
    let mut r: Vec<bool> = Vec::new();
    let mut k: usize = 0;
    while k < changed.len()
        invariant
            known@.len() == changed@.len(),
            0 <= k <= changed@.len(),
            r@.len() == k,
            forall|j: int| 0 <= j < k ==> #[trigger] r@[j] == (changed@[j] || (widen && known@[j])),
        decreases changed@.len() - k,
    {
        r.push(changed[k] || (widen && known[k]));
        k = k + 1;
    }
    proof {
        if widen {
            assert(marked(r@) =~= marked(changed@).union(marked(known@)));
        } else {
            assert(marked(r@) =~= marked(changed@));
        }
    }
    r
}

} // verus!
