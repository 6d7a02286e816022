//! The names each module exports once `export * from` re-exports are
//! followed. Export names, rather than declaration names or file names,
//! connect signatures across aliases and re-export barrels. A star re-export
//! from an unresolved module makes the re-exporting module's names unknown.
use crate::names::{insert_name, lemma_name_lt_irreflexive, name_views, strictly_sorted};
use crate::text::str_eq;
use std::collections::VecDeque;
use vstd::prelude::*;

verus! {

broadcast use vstd::seq_lib::group_seq_properties, vstd::set_lib::group_set_properties;

/// A star re-export: `module` re-exports every name of `source`, or of an
/// unresolved module where `source` is `None`.
pub struct EscStarExport {
    pub module: usize,
    pub source: Option<usize>,
}

/// Whether `names` and `unknown`, by module, hold the direct exports and are
/// closed under star re-exports: a re-exporting module has every name of its
/// source but `default`, and is unknown when its source is.
pub open spec fn export_closed(
    exports: Seq<(usize, String)>,
    stars: Seq<EscStarExport>,
    names: Seq<Set<Seq<char>>>,
    unknown: Set<int>,
) -> bool {
    &&& forall|e: int| 0 <= e < exports.len() ==> names[(#[trigger] exports[e]).0 as int].contains(exports[e].1@)
    &&& forall|s: int| 0 <= s < stars.len() && (#[trigger] stars[s]).source is None ==> unknown.contains(stars[s].module as int)
    &&& forall|s: int| #![trigger stars[s]] 0 <= s < stars.len() && stars[s].source is Some ==> {
        let c = stars[s].source->0 as int;
        let p = stars[s].module as int;
        &&& forall|x: Seq<char>| names[c].contains(x) && x != "default"@ ==> names[p].contains(x)
        &&& unknown.contains(c) ==> unknown.contains(p)
    }
}

/// The name sets of a sequence of name lists.
pub open spec fn name_sets(s: Seq<Vec<String>>) -> Seq<Set<Seq<char>>> {
    s.map_values(|v: Vec<String>| name_views(v@).to_set())
}

/// The total length of a sequence of name lists.
pub open spec fn total_len(s: Seq<Vec<String>>) -> nat
    decreases s.len(),
{
    if s.len() == 0 {
        0
    } else {
        total_len(s.drop_last()) + s.last()@.len()
    }
}

proof fn lemma_total_len_update(s: Seq<Vec<String>>, i: int, v: Vec<String>)
    requires
        0 <= i < s.len(),
    ensures
        total_len(s.update(i, v)) == total_len(s) - s[i]@.len() + v@.len(),
    decreases s.len(),
{
    if i < s.len() - 1 {
        lemma_total_len_update(s.drop_last(), i, v);
        assert(s.update(i, v).drop_last() =~= s.drop_last().update(i, v));
    } else {
        assert(s.update(i, v).drop_last() =~= s.drop_last());
    }
}

proof fn lemma_total_len_bound(s: Seq<Vec<String>>, bound: nat)
    requires
        forall|i: int| 0 <= i < s.len() ==> (#[trigger] s[i])@.len() <= bound,
    ensures
        total_len(s) <= s.len() * bound,
    decreases s.len(),
{
    if s.len() > 0 {
        lemma_total_len_bound(s.drop_last(), bound);
        assert((s.len() - 1) * bound + bound == s.len() * bound) by (nonlinear_arith);
    }
}

proof fn lemma_sorted_len(s: Seq<Seq<char>>, all: Set<Seq<char>>)
    requires
        strictly_sorted(s),
        s.to_set().subset_of(all),
        all.finite(),
    ensures
        s.len() <= all.len(),
        s.no_duplicates(),
{
    assert forall|i: int, j: int| 0 <= i < s.len() && 0 <= j < s.len() && i != j implies s[i] != s[j] by {
        if i < j {
            assert(crate::names::name_lt(s[i], s[j]));
        } else {
            assert(crate::names::name_lt(s[j], s[i]));
        }
        lemma_name_lt_irreflexive(s[i]);
    }
    s.unique_seq_to_set();
    vstd::set_lib::lemma_len_subset(s.to_set(), all);
}

/// The export names and unknown-export flags of `count` modules: the least
/// assignment that holds the direct exports and is closed under star
/// re-exports. Each list of names is sorted and without repetition.
pub fn propagate_exports(count: usize, exports: &Vec<(usize, String)>, stars: &Vec<EscStarExport>) -> (r: (Vec<Vec<String>>, Vec<bool>))
    requires
        forall|e: int| 0 <= e < exports@.len() ==> (#[trigger] exports@[e]).0 < count,
        forall|s: int| 0 <= s < stars@.len() ==> (#[trigger] stars@[s]).module < count && (stars@[s].source matches Some(c) ==> c < count),
    ensures
        r.0@.len() == count,
        r.1@.len() == count,
        forall|m: int| 0 <= m < count ==> strictly_sorted(name_views(#[trigger] r.0@[m]@)),
        export_closed(exports@, stars@, name_sets(r.0@), crate::editor::marked(r.1@)),
        forall|names: Seq<Set<Seq<char>>>, unknown: Set<int>|
            names.len() == count && export_closed(exports@, stars@, names, unknown) ==> (forall|m: int| 0 <= m < count ==> #[trigger] name_sets(r.0@)[m].subset_of(names[m])) && crate::editor::marked(r.1@).subset_of(unknown),
{
    let ghost all = exports@.map_values(|e: (usize, String)| e.1@).to_set();
    let ghost bound: nat = count as nat * all.len() + count as nat;
    proof {
        exports@.map_values(|e: (usize, String)| e.1@).lemma_cardinality_of_set();
    }
    let mut names: Vec<Vec<String>> = Vec::new();
    let mut unknown: Vec<bool> = Vec::new();
    let mut queued: Vec<bool> = Vec::new();
    let mut parents: Vec<Vec<usize>> = Vec::new();
    let mut i: usize = 0;
    while i < count
        invariant
            0 <= i <= count,
            names@.len() == i,
            unknown@.len() == i,
            queued@.len() == i,
            parents@.len() == i,
            forall|m: int| 0 <= m < i ==> (#[trigger] names@[m])@.len() == 0,
            forall|m: int| 0 <= m < i ==> !(#[trigger] unknown@[m]),
            forall|m: int| 0 <= m < i ==> !(#[trigger] queued@[m]),
            forall|m: int| 0 <= m < i ==> (#[trigger] parents@[m])@.len() == 0,
        decreases count - i,
    {
        names.push(Vec::new());
        unknown.push(false);
        queued.push(false);
        parents.push(Vec::new());
        i = i + 1;
    }
    proof {
        assert forall|m: int| 0 <= m < count implies strictly_sorted(name_views(#[trigger] names@[m]@)) by {}
        assert(total_len(names@) == 0) by {
            lemma_total_len_bound(names@, 0);
        }
    }
    let ghost mut total: nat = 0;
    // The direct exports.
    let mut e: usize = 0;
    while e < exports.len()
        invariant
            0 <= e <= exports@.len(),
            names@.len() == count,
            forall|k: int| 0 <= k < exports@.len() ==> (#[trigger] exports@[k]).0 < count,
            forall|m: int| 0 <= m < count ==> strictly_sorted(name_views(#[trigger] names@[m]@)),
            forall|m: int| 0 <= m < count ==> (#[trigger] name_sets(names@)[m]).subset_of(all),
            forall|k: int| 0 <= k < e ==> name_sets(names@)[(#[trigger] exports@[k]).0 as int].contains(exports@[k].1@),
            forall|nn: Seq<Set<Seq<char>>>, uu: Set<int>|
                nn.len() == count && export_closed(exports@, stars@, nn, uu) ==> (forall|m: int| 0 <= m < count ==> #[trigger] name_sets(names@)[m].subset_of(nn[m])),
            all == exports@.map_values(|e: (usize, String)| e.1@).to_set(),
            total == total_len(names@),
        decreases exports@.len() - e,
    {
        let m = exports[e].0;
        let ghost before = names@;
        let mut list: Vec<String> = Vec::new();
        std::mem::swap(&mut list, &mut names[m]);
        insert_name(&mut list, exports[e].1.clone());
        let ghost grown = list;
        names.set(m, list);
        proof {
            assert(names@ == before.update(m as int, grown));
            lemma_total_len_update(before, m as int, grown);
            total = total_len(names@);
            assert(all.contains(exports@[e as int].1@)) by {
                assert(exports@.map_values(|e: (usize, String)| e.1@)[e as int] == exports@[e as int].1@);
            }
            assert forall|mm: int| 0 <= mm < count implies (#[trigger] name_sets(names@)[mm]).subset_of(all) by {
                if mm == m {
                    assert(name_sets(names@)[mm] == name_sets(before)[mm].insert(exports@[e as int].1@));
                } else {
                    assert(name_sets(names@)[mm] == name_sets(before)[mm]);
                }
            }
            assert forall|k: int| 0 <= k < e + 1 implies name_sets(names@)[(#[trigger] exports@[k]).0 as int].contains(exports@[k].1@) by {
                let mk = exports@[k].0 as int;
                if mk == m {
                    assert(name_sets(names@)[mk] == name_sets(before)[mk].insert(exports@[e as int].1@));
                } else {
                    assert(name_sets(names@)[mk] == name_sets(before)[mk]);
                }
            }
            assert forall|nn: Seq<Set<Seq<char>>>, uu: Set<int>|
                nn.len() == count && export_closed(exports@, stars@, nn, uu) implies (forall|mm: int| 0 <= mm < count ==> #[trigger] name_sets(names@)[mm].subset_of(nn[mm])) by {
                assert(nn[m as int].contains(exports@[e as int].1@));
                assert forall|mm: int| 0 <= mm < count implies #[trigger] name_sets(names@)[mm].subset_of(nn[mm]) by {
                    assert(name_sets(before)[mm].subset_of(nn[mm]));
                    if mm == m {
                        assert(name_sets(names@)[mm] == name_sets(before)[mm].insert(exports@[e as int].1@));
                    } else {
                        assert(name_sets(names@)[mm] == name_sets(before)[mm]);
                    }
                }
            }
        }
        e = e + 1;
    }
    // Star re-exports: who re-exports each module, and unresolved sources.
    let mut s: usize = 0;
    while s < stars.len()
        invariant
            0 <= s <= stars@.len(),
            names@.len() == count,
            unknown@.len() == count,
            parents@.len() == count,
            forall|k: int| 0 <= k < stars@.len() ==> (#[trigger] stars@[k]).module < count && (stars@[k].source matches Some(c) ==> c < count),
            forall|c: int, j: int| 0 <= c < count && 0 <= j < parents@[c]@.len() ==> #[trigger] parents@[c]@[j] < count && exists|k: int| 0 <= k < stars@.len() && stars@[k].module == parents@[c]@[j] && stars@[k].source == Some(c as usize),
            forall|k: int| 0 <= k < s && (#[trigger] stars@[k]).source is Some ==> parents@[stars@[k].source->0 as int]@.contains(stars@[k].module),
            forall|k: int| 0 <= k < s && (#[trigger] stars@[k]).source is None ==> unknown@[stars@[k].module as int],
            forall|m: int| 0 <= m < count && #[trigger] unknown@[m] ==> exists|k: int| 0 <= k < stars@.len() && stars@[k].module == m && stars@[k].source is None,
        decreases stars@.len() - s,
    {
        let p = stars[s].module;
        match stars[s].source {
            Some(c) => {
                let ghost before = parents@;
                parents[c].push(p);
                proof {
                    assert forall|cc: int, j: int| 0 <= cc < count && 0 <= j < parents@[cc]@.len() implies #[trigger] parents@[cc]@[j] < count && exists|k: int| 0 <= k < stars@.len() && stars@[k].module == parents@[cc]@[j] && stars@[k].source == Some(cc as usize) by {
                        if cc == c && j == before[cc]@.len() {
                            assert(stars@[s as int].module == parents@[cc]@[j]);
                        } else {
                            assert(parents@[cc]@[j] == before[cc]@[j]);
                        }
                    }
                    assert forall|k: int| 0 <= k < s + 1 && (#[trigger] stars@[k]).source is Some implies parents@[stars@[k].source->0 as int]@.contains(stars@[k].module) by {
                        let cc = stars@[k].source->0 as int;
                        if k < s {
                            let j = choose|j: int| 0 <= j < before[cc]@.len() && before[cc]@[j] == stars@[k].module;
                            assert(parents@[cc]@[j] == stars@[k].module);
                        } else {
                            assert(parents@[cc]@[parents@[cc]@.len() - 1] == p);
                        }
                    }
                }
            },
            None => {
                unknown.set(p, true);
            },
        }
        s = s + 1;
    }
    let ghost mut ucount: nat = crate::editor::marked(unknown@).len();
    // Every module with names or unknown names starts queued.
    let mut queue: VecDeque<usize> = VecDeque::new();
    let mut m: usize = 0;
    while m < count
        invariant
            0 <= m <= count,
            names@.len() == count,
            unknown@.len() == count,
            queued@.len() == count,
            forall|j: int| 0 <= j < queue@.len() ==> #[trigger] queue@[j] < m && queued@[queue@[j] as int],
            queue@.no_duplicates(),
            forall|x: int| 0 <= x < count && #[trigger] queued@[x] ==> queue@.contains(x as usize),
            forall|x: int| 0 <= x < count && !(#[trigger] queued@[x]) ==> x >= m || (names@[x]@.len() == 0 && !unknown@[x]),
        decreases count - m,
    {
        if names[m].len() > 0 || unknown[m] {
            queue.push_back(m);
            queued.set(m, true);
        }
        m = m + 1;
    }
    proof {
        let marked_u = crate::editor::marked(unknown@);
        let universe = Set::new(|x: int| 0 <= x < count);
        vstd::set_lib::lemma_int_range(0, count as int);
        assert(universe =~= vstd::set_lib::set_int_range(0, count as int));
        assert(marked_u.subset_of(universe));
        vstd::set_lib::lemma_len_subset(marked_u, universe);
        assert forall|x: int| 0 <= x < count implies (#[trigger] names@[x])@.len() <= all.len() by {
            assert(name_sets(names@)[x] == name_views(names@[x]@).to_set());
            lemma_sorted_len(name_views(names@[x]@), all);
        }
        lemma_total_len_bound(names@, all.len());
        assert(count as nat * all.len() + count as nat == bound);
        // Edges out of a module that is not queued hold: it has no names and is known.
        assert forall|k: int| #![trigger stars@[k]] 0 <= k < stars@.len() && stars@[k].source is Some && !queued@[stars@[k].source->0 as int] implies {
            let c = stars@[k].source->0 as int;
            let p = stars@[k].module as int;
            &&& forall|x: Seq<char>| name_sets(names@)[c].contains(x) && x != "default"@ ==> name_sets(names@)[p].contains(x)
            &&& unknown@[c] ==> unknown@[p]
        } by {
            let c = stars@[k].source->0 as int;
            assert(names@[c]@.len() == 0);
            assert(name_views(names@[c]@).to_set() =~= Set::<Seq<char>>::empty());
        }
        assert forall|nn: Seq<Set<Seq<char>>>, uu: Set<int>|
            nn.len() == count && export_closed(exports@, stars@, nn, uu) implies marked_u.subset_of(uu) by {
            assert forall|x: int| marked_u.contains(x) implies uu.contains(x) by {
                let k = choose|k: int| 0 <= k < stars@.len() && stars@[k].module == x && stars@[k].source is None;
                assert(stars@[k].source is None);
            }
        }
    }
    while queue.len() > 0
        invariant
            names@.len() == count,
            unknown@.len() == count,
            queued@.len() == count,
            parents@.len() == count,
            all == exports@.map_values(|e: (usize, String)| e.1@).to_set(),
            all.finite(),
            bound == count as nat * all.len() + count as nat,
            forall|k: int| 0 <= k < exports@.len() ==> (#[trigger] exports@[k]).0 < count,
            forall|k: int| 0 <= k < stars@.len() ==> (#[trigger] stars@[k]).module < count && (stars@[k].source matches Some(c) ==> c < count),
            forall|c: int, j: int| 0 <= c < count && 0 <= j < parents@[c]@.len() ==> #[trigger] parents@[c]@[j] < count && exists|k: int| 0 <= k < stars@.len() && stars@[k].module == parents@[c]@[j] && stars@[k].source == Some(c as usize),
            forall|k: int| 0 <= k < stars@.len() && (#[trigger] stars@[k]).source is Some ==> parents@[stars@[k].source->0 as int]@.contains(stars@[k].module),
            forall|k: int| 0 <= k < stars@.len() && (#[trigger] stars@[k]).source is None ==> unknown@[stars@[k].module as int],
            forall|x: int| 0 <= x < count ==> strictly_sorted(name_views(#[trigger] names@[x]@)),
            forall|x: int| 0 <= x < count ==> (#[trigger] name_sets(names@)[x]).subset_of(all),
            forall|k: int| 0 <= k < exports@.len() ==> name_sets(names@)[(#[trigger] exports@[k]).0 as int].contains(exports@[k].1@),
            forall|j: int| 0 <= j < queue@.len() ==> #[trigger] queue@[j] < count && queued@[queue@[j] as int],
            queue@.no_duplicates(),
            forall|x: int| 0 <= x < count && #[trigger] queued@[x] ==> queue@.contains(x as usize),
            forall|k: int| #![trigger stars@[k]] 0 <= k < stars@.len() && stars@[k].source is Some && !queued@[stars@[k].source->0 as int] ==> {
                let c = stars@[k].source->0 as int;
                let p = stars@[k].module as int;
                &&& forall|x: Seq<char>| name_sets(names@)[c].contains(x) && x != "default"@ ==> name_sets(names@)[p].contains(x)
                &&& unknown@[c] ==> unknown@[p]
            },
            forall|nn: Seq<Set<Seq<char>>>, uu: Set<int>|
                nn.len() == count && export_closed(exports@, stars@, nn, uu) ==> (forall|x: int| 0 <= x < count ==> #[trigger] name_sets(names@)[x].subset_of(nn[x])) && crate::editor::marked(unknown@).subset_of(uu),
            total == total_len(names@),
            ucount == crate::editor::marked(unknown@).len(),
            total + ucount <= bound,
        decreases bound - total - ucount, queue@.len(),
    {
        let m = queue.pop_front().unwrap();
        queued.set(m, false);
        let ghost pot0: nat = total + ucount;
        let ghost q0 = queue@.len();
        let source = copy_names(&names[m]);
        let ghost ns = name_sets(names@)[m as int];
        let ghost um = unknown@[m as int];
        proof {
            assert(name_views(source@).to_set() == ns);
        }
        let mut j: usize = 0;
        while j < parents[m].len()
            invariant
                m < count,
                !queued@[m as int] || queue@.len() > q0,
                names@.len() == count,
                unknown@.len() == count,
                queued@.len() == count,
                parents@.len() == count,
                0 <= j <= parents@[m as int]@.len(),
                all == exports@.map_values(|e: (usize, String)| e.1@).to_set(),
                all.finite(),
                bound == count as nat * all.len() + count as nat,
                name_views(source@).to_set() == ns,
                name_sets(names@)[m as int] == ns,
                unknown@[m as int] == um,
                forall|k: int| 0 <= k < exports@.len() ==> (#[trigger] exports@[k]).0 < count,
                forall|k: int| 0 <= k < stars@.len() ==> (#[trigger] stars@[k]).module < count && (stars@[k].source matches Some(c) ==> c < count),
                forall|c: int, jj: int| 0 <= c < count && 0 <= jj < parents@[c]@.len() ==> #[trigger] parents@[c]@[jj] < count && exists|k: int| 0 <= k < stars@.len() && stars@[k].module == parents@[c]@[jj] && stars@[k].source == Some(c as usize),
                forall|k: int| 0 <= k < stars@.len() && (#[trigger] stars@[k]).source is Some ==> parents@[stars@[k].source->0 as int]@.contains(stars@[k].module),
                forall|k: int| 0 <= k < stars@.len() && (#[trigger] stars@[k]).source is None ==> unknown@[stars@[k].module as int],
                forall|x: int| 0 <= x < count ==> strictly_sorted(name_views(#[trigger] names@[x]@)),
                forall|x: int| 0 <= x < count ==> (#[trigger] name_sets(names@)[x]).subset_of(all),
                forall|k: int| 0 <= k < exports@.len() ==> name_sets(names@)[(#[trigger] exports@[k]).0 as int].contains(exports@[k].1@),
                forall|jj: int| 0 <= jj < queue@.len() ==> #[trigger] queue@[jj] < count && queued@[queue@[jj] as int],
                queue@.no_duplicates(),
                forall|x: int| 0 <= x < count && #[trigger] queued@[x] ==> queue@.contains(x as usize),
                forall|k: int| #![trigger stars@[k]] 0 <= k < stars@.len() && stars@[k].source is Some && stars@[k].source->0 != m && !queued@[stars@[k].source->0 as int] ==> {
                    let c = stars@[k].source->0 as int;
                    let p = stars@[k].module as int;
                    &&& forall|x: Seq<char>| name_sets(names@)[c].contains(x) && x != "default"@ ==> name_sets(names@)[p].contains(x)
                    &&& unknown@[c] ==> unknown@[p]
                },
                forall|jj: int| #![trigger parents@[m as int]@[jj]] 0 <= jj < j ==> {
                    let p = parents@[m as int]@[jj] as int;
                    &&& forall|x: Seq<char>| ns.contains(x) && x != "default"@ ==> name_sets(names@)[p].contains(x)
                    &&& um ==> unknown@[p]
                },
                forall|nn: Seq<Set<Seq<char>>>, uu: Set<int>|
                    nn.len() == count && export_closed(exports@, stars@, nn, uu) ==> (forall|x: int| 0 <= x < count ==> #[trigger] name_sets(names@)[x].subset_of(nn[x])) && crate::editor::marked(unknown@).subset_of(uu),
                total == total_len(names@),
                ucount == crate::editor::marked(unknown@).len(),
                total + ucount <= bound,
                total + ucount >= pot0,
                total + ucount == pot0 ==> queue@.len() == q0,
            decreases parents@[m as int]@.len() - j,
        {
            let p = parents[m][j];
            let ghost before_names = names@;
            let ghost total_start = total;
            let ghost ucount_start = ucount;
            let ghost before_set = name_sets(names@)[p as int];
            let mut list: Vec<String> = Vec::new();
            std::mem::swap(&mut list, &mut names[p]);
            let before_len = list.len();
            let mut k: usize = 0;
            while k < source.len()
                invariant
                    0 <= k <= source@.len(),
                    strictly_sorted(name_views(list@)),
                    name_views(list@).to_set() == before_set.union(Set::new(|x: Seq<char>| name_views(source@.take(k as int)).contains(x) && x != "default"@)),
                decreases source@.len() - k,
            {
                let ghost l0 = name_views(list@).to_set();
                if !str_eq(source[k].as_str(), "default") {
                    insert_name(&mut list, source[k].clone());
                }
                proof {
                    assert(source@.take(k + 1) =~= source@.take(k as int).push(source@[k as int]));
                    assert(name_views(source@.take(k + 1)) =~= name_views(source@.take(k as int)).push(source@[k as int]@));
                    assert(name_views(list@).to_set() =~= before_set.union(Set::new(|x: Seq<char>| name_views(source@.take(k + 1)).contains(x) && x != "default"@)));
                }
                k = k + 1;
            }
            let ghost grown = list;
            let after_len = list.len();
            names.set(p, list);
            proof {
                assert(source@.take(source@.len() as int) =~= source@);
                let added = Set::new(|x: Seq<char>| name_views(source@).contains(x) && x != "default"@);
                assert(Set::new(|x: Seq<char>| name_views(source@.take(source@.len() as int)).contains(x) && x != "default"@) =~= added);
                assert(names@ == before_names.update(p as int, grown));
                lemma_total_len_update(before_names, p as int, grown);
                assert(name_sets(names@)[p as int] == before_set.union(added));
                assert(added.subset_of(ns));
                assert(ns.subset_of(all));
                lemma_sorted_len(name_views(grown@), all);
                lemma_sorted_len(name_views(before_names[p as int]@), all);
                name_views(grown@).unique_seq_to_set();
                name_views(before_names[p as int]@).unique_seq_to_set();
                vstd::set_lib::lemma_len_subset(before_set, before_set.union(added));
                assert(name_views(grown@).len() == grown@.len());
                assert(name_views(before_names[p as int]@).len() == before_names[p as int]@.len());
                assert(name_views(grown@).to_set() == before_set.union(added));
                assert(name_views(before_names[p as int]@).to_set() == before_set);
                assert(after_len >= before_len);
                if p == m {
                    assert(before_set.union(added) =~= before_set);
                }
                assert forall|x: int| 0 <= x < count && x != p implies #[trigger] name_sets(names@)[x] == name_sets(before_names)[x] by {
                    assert(names@[x] == before_names[x]);
                }
                assert(name_sets(names@)[p as int].subset_of(all));
            }
            let ghost added = Set::new(|x: Seq<char>| name_views(source@).contains(x) && x != "default"@);
            proof {
                assert(before_names[p as int]@.len() == before_len);
                assert(total_start == total_len(before_names));
                total = total_len(names@);
                assert(total == total_start - before_len + after_len);
                assert(total >= total_start);
                if after_len == before_len {
                    assert(name_sets(names@)[p as int] =~= before_set) by {
                        let a = name_sets(names@)[p as int];
                        assert(before_set.subset_of(a));
                        if !a.subset_of(before_set) {
                            let e = choose|e: Seq<char>| a.contains(e) && !before_set.contains(e);
                            before_set.lemma_subset_not_in_lt(a, e);
                        }
                    }
                }
            }
            let changed = after_len != before_len;
            let ghost unknown_before = unknown@;
            let newly_unknown = unknown[m] && !unknown[p];
            if newly_unknown {
                let ghost u0 = crate::editor::marked(unknown@);
                proof {
                    let universe = Set::new(|x: int| 0 <= x < count);
                    vstd::set_lib::lemma_int_range(0, count as int);
                    assert(universe =~= vstd::set_lib::set_int_range(0, count as int));
                    assert(u0.subset_of(universe));
                    vstd::set_lib::lemma_len_subset(u0, universe);
                    assert(!u0.contains(p as int));
                }
                unknown.set(p, true);
                proof {
                    assert(crate::editor::marked(unknown@) =~= u0.insert(p as int));
                    ucount = crate::editor::marked(unknown@).len();
                }
            }
            let ghost queued_before = queued@;
            assert(ucount >= ucount_start);
            assert(newly_unknown ==> ucount > ucount_start);
            assert(changed ==> total > total_start);
            if (changed || newly_unknown) && !queued[p] {
                queued.set(p, true);
                queue.push_back(p);
            }
            proof {
                assert forall|k: int| #![trigger stars@[k]] 0 <= k < stars@.len() && stars@[k].source is Some && stars@[k].source->0 != m && !queued@[stars@[k].source->0 as int] implies {
                    let c = stars@[k].source->0 as int;
                    let pp = stars@[k].module as int;
                    &&& forall|x: Seq<char>| name_sets(names@)[c].contains(x) && x != "default"@ ==> name_sets(names@)[pp].contains(x)
                    &&& unknown@[c] ==> unknown@[pp]
                } by {
                    let c = stars@[k].source->0 as int;
                    let pp = stars@[k].module as int;
                    assert(!queued_before[c]);
                    if c == p as int {
                        assert(!changed && !newly_unknown);
                        assert(name_sets(names@)[c] == name_sets(before_names)[c]);
                    } else {
                        assert(name_sets(names@)[c] == name_sets(before_names)[c]);
                    }
                    if pp != p as int {
                        assert(name_sets(names@)[pp] == name_sets(before_names)[pp]);
                    }
                }
                assert forall|nn: Seq<Set<Seq<char>>>, uu: Set<int>|
                    nn.len() == count && export_closed(exports@, stars@, nn, uu) implies (forall|x: int| 0 <= x < count ==> #[trigger] name_sets(names@)[x].subset_of(nn[x])) && crate::editor::marked(unknown@).subset_of(uu) by {
                    let kk = choose|kk: int| 0 <= kk < stars@.len() && stars@[kk].module == p && stars@[kk].source == Some(m);
                    assert(stars@[kk].source is Some);
                    assert(ns.subset_of(nn[m as int])) by {
                        assert(name_sets(before_names)[m as int].subset_of(nn[m as int]));
                    }
                    assert forall|x: int| 0 <= x < count implies #[trigger] name_sets(names@)[x].subset_of(nn[x]) by {
                        assert(name_sets(before_names)[x].subset_of(nn[x]));
                        if x == p as int {
                            assert forall|y: Seq<char>| added.contains(y) implies nn[x].contains(y) by {
                                assert(ns.contains(y));
                            }
                        }
                    }
                    assert(crate::editor::marked(unknown_before).subset_of(uu));
                    if newly_unknown {
                        assert(crate::editor::marked(unknown_before).contains(m as int));
                    }
                    assert forall|x: int| crate::editor::marked(unknown@).contains(x) implies uu.contains(x) by {
                        if x != p as int {
                            assert(crate::editor::marked(unknown_before).contains(x));
                        } else if !unknown_before[x] {
                            assert(crate::editor::marked(unknown_before).contains(m as int));
                        } else {
                            assert(crate::editor::marked(unknown_before).contains(x));
                        }
                    }
                }
            }
            proof {
                let universe = Set::new(|x: int| 0 <= x < count);
                vstd::set_lib::lemma_int_range(0, count as int);
                assert(universe =~= vstd::set_lib::set_int_range(0, count as int));
                assert(crate::editor::marked(unknown@).subset_of(universe));
                vstd::set_lib::lemma_len_subset(crate::editor::marked(unknown@), universe);
                assert forall|x: int| 0 <= x < count implies (#[trigger] names@[x])@.len() <= all.len() by {
                    assert(name_sets(names@)[x] == name_views(names@[x]@).to_set());
                    lemma_sorted_len(name_views(names@[x]@), all);
                }
                lemma_total_len_bound(names@, all.len());
                assert(count as nat * all.len() + count as nat == bound);
            }
            j = j + 1;
        }
    }
    (names, unknown)
}

/// Copies of a list of names.
fn copy_names(v: &Vec<String>) -> (r: Vec<String>)
    ensures
        name_views(r@) == name_views(v@),
{
    let mut r: Vec<String> = Vec::new();
    let mut k: usize = 0;
    while k < v.len()
        invariant
            0 <= k <= v@.len(),
            name_views(r@) == name_views(v@.take(k as int)),
        decreases v@.len() - k,
    {
        let ghost r0 = r@;
        r.push(v[k].clone());
        proof {
            assert(name_views(r@) =~= name_views(r0).push(v@[k as int]@));
            assert(v@.take(k + 1) =~= v@.take(k as int).push(v@[k as int]));
        }
        k = k + 1;
    }
    assert(v@.take(v@.len() as int) =~= v@);
    r
}

} // verus!
