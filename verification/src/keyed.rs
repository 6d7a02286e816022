//! Association lists: vectors of key-value entries with no key twice, viewed
//! as maps from the keys' views to the values' views.
use vstd::prelude::*;

verus! {

/// The map of a sequence of entries, each key bound to its last entry's value.
pub open spec fn keyed_map<K: View, V: View>(s: Seq<(K, V)>) -> Map<K::V, V::V>
    decreases s.len(),
{
    if s.len() == 0 {
        Map::empty()
    } else {
        keyed_map(s.drop_last()).insert(s.last().0@, s.last().1@)
    }
}

/// Whether no key occurs twice.
pub open spec fn unique_keys<K: View, V>(s: Seq<(K, V)>) -> bool {
    forall|a: int, b: int| 0 <= a < b < s.len() ==> s[a].0@ != s[b].0@
}

pub proof fn lemma_keyed_dom<K: View, V: View>(s: Seq<(K, V)>, k: K::V)
    ensures
        keyed_map(s).contains_key(k) <==> exists|i: int| 0 <= i < s.len() && s[i].0@ == k,
        keyed_map(s).dom().finite(),
    decreases s.len(),
{
    if s.len() > 0 {
        lemma_keyed_dom(s.drop_last(), k);
        if keyed_map(s).contains_key(k) && s.last().0@ != k {
            let i = choose|i: int| 0 <= i < s.drop_last().len() && s.drop_last()[i].0@ == k;
            assert(s[i].0@ == k);
        }
        if exists|i: int| 0 <= i < s.len() && s[i].0@ == k {
            let i = choose|i: int| 0 <= i < s.len() && s[i].0@ == k;
            if i < s.len() - 1 {
                assert(s.drop_last()[i].0@ == k);
            }
        }
    }
}

pub proof fn lemma_keyed_index<K: View, V: View>(s: Seq<(K, V)>, i: int)
    requires
        unique_keys(s),
        0 <= i < s.len(),
    ensures
        keyed_map(s).contains_key(s[i].0@),
        keyed_map(s)[s[i].0@] == s[i].1@,
    decreases s.len(),
{
    if i < s.len() - 1 {
        lemma_keyed_index(s.drop_last(), i);
        assert(s.drop_last()[i] == s[i]);
    }
}

pub proof fn lemma_keyed_remove<K: View, V: View>(s: Seq<(K, V)>, i: int)
    requires
        unique_keys(s),
        0 <= i < s.len(),
    ensures
        unique_keys(s.remove(i)),
        keyed_map(s.remove(i)) == keyed_map(s).remove(s[i].0@),
{
    let t = s.remove(i);
    assert forall|c: K::V| #![auto] keyed_map(t).contains_key(c) == keyed_map(s).remove(
        s[i].0@,
    ).contains_key(c) by {
        lemma_keyed_dom(t, c);
        lemma_keyed_dom(s, c);
        if keyed_map(s).contains_key(c) && c != s[i].0@ {
            let j = choose|j: int| 0 <= j < s.len() && s[j].0@ == c;
            if j < i {
                assert(t[j] == s[j]);
            } else {
                assert(t[j - 1] == s[j]);
            }
        }
        if keyed_map(t).contains_key(c) {
            let j = choose|j: int| 0 <= j < t.len() && t[j].0@ == c;
            if j < i {
                assert(t[j] == s[j]);
            } else {
                assert(t[j] == s[j + 1]);
            }
        }
    }
    assert forall|c: K::V| #![auto] keyed_map(t).contains_key(c) implies keyed_map(t)[c]
        == keyed_map(s)[c] by {
        lemma_keyed_dom(t, c);
        let j = choose|j: int| 0 <= j < t.len() && t[j].0@ == c;
        lemma_keyed_index(t, j);
        if j < i {
            assert(t[j] == s[j]);
            lemma_keyed_index(s, j);
        } else {
            assert(t[j] == s[j + 1]);
            lemma_keyed_index(s, j + 1);
        }
    }
    assert(keyed_map(t) =~= keyed_map(s).remove(s[i].0@));
}

pub proof fn lemma_keyed_push<K: View, V: View>(s: Seq<(K, V)>, e: (K, V))
    requires
        unique_keys(s),
        !keyed_map(s).contains_key(e.0@),
    ensures
        unique_keys(s.push(e)),
        keyed_map(s.push(e)) == keyed_map(s).insert(e.0@, e.1@),
{
    assert(s.push(e).drop_last() =~= s);
    assert forall|i: int| 0 <= i < s.len() implies s[i].0@ != e.0@ by {
        lemma_keyed_index(s, i);
    }
}

/// Replacing the value of the entry at `i`.
pub proof fn lemma_keyed_update<K: View, V: View>(s: Seq<(K, V)>, i: int, e: (K, V))
    requires
        unique_keys(s),
        0 <= i < s.len(),
        e.0@ == s[i].0@,
    ensures
        unique_keys(s.update(i, e)),
        keyed_map(s.update(i, e)) == keyed_map(s).insert(e.0@, e.1@),
{
    let t = s.update(i, e);
    assert forall|a: int, b: int| 0 <= a < b < t.len() implies t[a].0@ != t[b].0@ by {}
    assert forall|c: K::V| #![auto] keyed_map(t).contains_key(c) == keyed_map(s).insert(e.0@, e.1@).contains_key(c) by {
        lemma_keyed_dom(t, c);
        lemma_keyed_dom(s, c);
        if keyed_map(s).contains_key(c) {
            let j = choose|j: int| 0 <= j < s.len() && s[j].0@ == c;
            assert(t[j].0@ == c);
        }
        if keyed_map(t).contains_key(c) {
            let j = choose|j: int| 0 <= j < t.len() && t[j].0@ == c;
            assert(s[j].0@ == c);
        }
        if c == e.0@ {
            assert(t[i].0@ == c);
        }
    }
    assert forall|c: K::V| #![auto] keyed_map(t).contains_key(c) implies keyed_map(t)[c] == keyed_map(s).insert(e.0@, e.1@)[c] by {
        lemma_keyed_dom(t, c);
        let j = choose|j: int| 0 <= j < t.len() && t[j].0@ == c;
        lemma_keyed_index(t, j);
        if j != i {
            lemma_keyed_index(s, j);
        }
    }
    assert(keyed_map(t) =~= keyed_map(s).insert(e.0@, e.1@));
}

} // verus!
