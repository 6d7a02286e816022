//! Sorted lists of names without repetition, in the order of `str`'s `Ord`:
//! lexicographic by Unicode scalar value.
use crate::text::chars_of;
use vstd::prelude::*;

verus! {

broadcast use vstd::seq_lib::group_seq_properties;

/// Whether `a` comes strictly before `b`.
pub open spec fn name_lt(a: Seq<char>, b: Seq<char>) -> bool
    decreases a.len(),
{
    if a.len() == 0 {
        b.len() > 0
    } else if b.len() == 0 {
        false
    } else if a[0] != b[0] {
        (a[0] as int) < (b[0] as int)
    } else {
        name_lt(a.drop_first(), b.drop_first())
    }
}

/// The characters of each name.
pub open spec fn name_views(s: Seq<String>) -> Seq<Seq<char>> {
    s.map_values(|x: String| x@)
}

/// Whether a list of names is strictly increasing, so sorted and without repetition.
pub open spec fn strictly_sorted(s: Seq<Seq<char>>) -> bool {
    forall|i: int, j: int| 0 <= i < j < s.len() ==> name_lt(s[i], s[j])
}

pub proof fn lemma_name_lt_irreflexive(a: Seq<char>)
    ensures
        !name_lt(a, a),
    decreases a.len(),
{
    if a.len() > 0 {
        lemma_name_lt_irreflexive(a.drop_first());
    }
}

pub proof fn lemma_name_lt_transitive(a: Seq<char>, b: Seq<char>, c: Seq<char>)
    requires
        name_lt(a, b),
        name_lt(b, c),
    ensures
        name_lt(a, c),
    decreases a.len(),
{
    if a.len() > 0 && b.len() > 0 && c.len() > 0 && a[0] == b[0] && b[0] == c[0] {
        lemma_name_lt_transitive(a.drop_first(), b.drop_first(), c.drop_first());
    }
}

pub proof fn lemma_name_lt_total(a: Seq<char>, b: Seq<char>)
    ensures
        a == b || name_lt(a, b) || name_lt(b, a),
    decreases a.len(),
{
    if a.len() > 0 && b.len() > 0 {
        if a[0] == b[0] {
            lemma_name_lt_total(a.drop_first(), b.drop_first());
            if a.drop_first() == b.drop_first() {
                assert(a =~= seq![a[0]] + a.drop_first());
                assert(b =~= seq![b[0]] + b.drop_first());
            }
        } else {
        }
    } else if a.len() == 0 && b.len() == 0 {
        assert(a =~= b);
    }
}

/// The order of names is asymmetric: no two names each come before the other.
pub proof fn lemma_name_lt_asymmetric(a: Seq<char>, b: Seq<char>)
    requires
        name_lt(a, b),
    ensures
        !name_lt(b, a),
{
    if name_lt(b, a) {
        lemma_name_lt_transitive(a, b, a);
        lemma_name_lt_irreflexive(a);
    }
}

/// Compares two names: negative, zero or positive as `a` comes before, is,
/// or comes after `b`.
pub fn compare_names(a: &str, b: &str) -> (r: i8)
    ensures
        r < 0 <==> name_lt(a@, b@),
        r == 0 <==> a@ == b@,
        r > 0 <==> name_lt(b@, a@),
{
    let x = chars_of(a);
    let y = chars_of(b);
    let mut i: usize = 0;
    while i < x.len() && i < y.len()
        invariant
            x@ == a@,
            y@ == b@,
            0 <= i <= x@.len(),
            i <= y@.len(),
            x@.take(i as int) == y@.take(i as int),
            name_lt(a@, b@) == name_lt(a@.skip(i as int), b@.skip(i as int)),
            name_lt(b@, a@) == name_lt(b@.skip(i as int), a@.skip(i as int)),
        decreases x@.len() - i,
    {
        let cx = x[i];
        let cy = y[i];
        proof {
            assert(a@.skip(i as int)[0] == cx);
            assert(b@.skip(i as int)[0] == cy);
        }
        if cx != cy {
            proof {
                lemma_name_lt_total(a@, b@);
                assert(a@[i as int] != b@[i as int]);
                assert(name_lt(a@.skip(i as int), b@.skip(i as int)) == ((cx as int) < (cy as int)));
                assert(name_lt(b@.skip(i as int), a@.skip(i as int)) == ((cy as int) < (cx as int)));
            }
            if cx < cy {
                return -1;
            } else {
                return 1;
            }
        }
        proof {
            assert(a@.skip(i as int).drop_first() =~= a@.skip(i + 1));
            assert(b@.skip(i as int).drop_first() =~= b@.skip(i + 1));
            assert(x@.take(i + 1) =~= x@.take(i as int).push(cx));
            assert(y@.take(i + 1) =~= y@.take(i as int).push(cy));
        }
        i = i + 1;
    }
    proof {
        if x@.len() == i && y@.len() == i {
            assert(a@ =~= x@.take(i as int));
            assert(b@ =~= y@.take(i as int));
        }
        if x@.len() != y@.len() {
            assert(a@ != b@);
        }
        lemma_name_lt_irreflexive(a@);
    }
    if x.len() < y.len() {
        -1
    } else if x.len() > y.len() {
        1
    } else {
        0
    }
}

/// Adds `name` to a strictly sorted list, unless it is there already.
pub fn insert_name(list: &mut Vec<String>, name: String)
    requires
        strictly_sorted(name_views(old(list)@)),
    ensures
        strictly_sorted(name_views(final(list)@)),
        name_views(final(list)@).to_set() == name_views(old(list)@).to_set().insert(name@),
{
    let ghost start = name_views(list@);
    let mut i: usize = 0;
    let mut stop = false;
    while i < list.len() && !stop
        invariant
            0 <= i <= list@.len(),
            name_views(list@) == start,
            strictly_sorted(start),
            forall|j: int| 0 <= j < i ==> name_lt(start[j], name@),
            stop ==> i < start.len() && name_lt(name@, start[i as int]),
        decreases list@.len() - i + (if stop {
            0int
        } else {
            1int
        }),
    {
        let c = compare_names(list[i].as_str(), name.as_str());
        if c == 0 {
            assert(start[i as int] == name@);
            assert(start.to_set().insert(name@) =~= start.to_set());
            return ;
        }
        if c > 0 {
            stop = true;
        } else {
            i = i + 1;
        }
    }
    let ghost at = i as int;
    list.insert(i, name);
    proof {
        let now = name_views(list@);
        assert(now =~= start.take(at).push(name@) + start.skip(at));
        assert forall|a: int, b: int| 0 <= a < b < now.len() implies name_lt(now[a], now[b]) by {
            if a < at && b == at {
            } else if a < at && b > at {
                assert(now[b] == start[b - 1]);
                if b - 1 > a {
                    assert(name_lt(start[a], start[b - 1]));
                } else {
                }
            } else if a == at && b > at {
                assert(now[b] == start[b - 1]);
                if b - 1 == at {
                } else {
                    lemma_name_lt_transitive(name@, start[at], start[b - 1]);
                }
            } else if a > at {
                assert(now[a] == start[a - 1]);
                assert(now[b] == start[b - 1]);
            }
        }
        assert forall|x: Seq<char>| now.to_set().contains(x) <==> start.to_set().insert(name@).contains(x) by {
            if now.contains(x) {
                let j = choose|j: int| 0 <= j < now.len() && now[j] == x;
                if j < at {
                    assert(start[j] == x);
                } else if j > at {
                    assert(start[j - 1] == x);
                }
            }
            if start.contains(x) {
                let j = choose|j: int| 0 <= j < start.len() && start[j] == x;
                if j < at {
                    assert(now[j] == x);
                } else {
                    assert(now[j + 1] == x);
                }
            }
            if x == name@ {
                assert(now[at] == x);
            }
        }
        assert(now.to_set() =~= start.to_set().insert(name@));
    }
}

/// The names of a list, sorted and without repetition.
pub fn sorted_names(names: &Vec<String>) -> (r: Vec<String>)
    ensures
        strictly_sorted(name_views(r@)),
        name_views(r@).to_set() == name_views(names@).to_set(),
{
    let mut r: Vec<String> = Vec::new();
    let mut k: usize = 0;
    assert(name_views(r@).to_set() =~= name_views(names@.take(0)).to_set());
    while k < names.len()
        invariant
            0 <= k <= names@.len(),
            strictly_sorted(name_views(r@)),
            name_views(r@).to_set() == name_views(names@.take(k as int)).to_set(),
        decreases names@.len() - k,
    {
        insert_name(&mut r, names[k].clone());
        proof {
            assert(names@.take(k + 1) =~= names@.take(k as int).push(names@[k as int]));
            assert(name_views(names@.take(k + 1)) =~= name_views(names@.take(k as int)).push(names@[k as int]@));
            assert(name_views(names@.take(k + 1)).to_set() =~= name_views(names@.take(k as int)).to_set().insert(names@[k as int]@));
        }
        k = k + 1;
    }
    assert(names@.take(names@.len() as int) =~= names@);
    r
}

} // verus!
