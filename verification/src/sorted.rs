//! Strictly increasing sequences of indices, used as small ordered sets.
use vstd::prelude::*;

verus! {

broadcast use vstd::seq_lib::group_seq_properties;

/// Whether a sequence of indices is strictly increasing.
pub open spec fn increasing(s: Seq<usize>) -> bool {
    forall|i: int, j: int| 0 <= i < j < s.len() ==> s[i] < s[j]
}

/// Adds `x` to a strictly increasing sequence of indices.
pub fn insert_index(v: &mut Vec<usize>, x: usize)
    requires
        increasing(old(v)@),
    ensures
        increasing(final(v)@),
        final(v)@.to_set() == old(v)@.to_set().insert(x),
{
    let ghost start = v@;
    let mut i: usize = 0;
    while i < v.len() && v[i] < x
        invariant
            0 <= i <= v@.len(),
            v@ == start,
            increasing(start),
            forall|j: int| 0 <= j < i ==> start[j] < x,
        decreases v@.len() - i,
    {
        i = i + 1;
    }
    if i < v.len() && v[i] == x {
        assert(start.to_set().insert(x) =~= start.to_set());
        return ;
    }
    v.insert(i, x);
    proof {
        let now = v@;
        assert(now =~= start.take(i as int).push(x) + start.skip(i as int));
        assert forall|a: int, b: int| 0 <= a < b < now.len() implies now[a] < now[b] by {
            if a < i && b > i {
                assert(now[b] == start[b - 1]);
            } else if a == i && b > i {
                assert(now[b] == start[b - 1]);
            } else if a > i {
                assert(now[a] == start[a - 1]);
                assert(now[b] == start[b - 1]);
            }
        }
        assert forall|y: usize| now.to_set().contains(y) <==> start.to_set().insert(x).contains(y) by {
            if now.contains(y) {
                let j = choose|j: int| 0 <= j < now.len() && now[j] == y;
                if j < i {
                    assert(start[j] == y);
                } else if j > i {
                    assert(start[j - 1] == y);
                }
            }
            if start.contains(y) {
                let j = choose|j: int| 0 <= j < start.len() && start[j] == y;
                if j < i {
                    assert(now[j] == y);
                } else {
                    assert(now[j + 1] == y);
                }
            }
            if y == x {
                assert(now[i as int] == y);
            }
        }
        assert(now.to_set() =~= start.to_set().insert(x));
    }
}

} // verus!
