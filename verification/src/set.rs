//! Sets of error types. Common builtin types are stored as bits of one word,
//! a single other type is stored inline, and larger mixed unions use a vector
//! that copies of the set share until one of them changes.
//! Every mutation returns the set to its canonical representation, so two sets
//! with the same members have the same representation.
use crate::builtins::{
    lemma_bit_test_pub, lemma_bits_stay_bounded, lemma_index_iff,
    bit_of, bit_set, bits_view, builtin_at, builtin_at_view, builtin_bit, builtin_index,
    lemma_bits_empty, lemma_bits_insert, lemma_bits_remove, lemma_bits_union,
    lemma_bits_view_contains, lemma_bits_view_injective, lemma_builtin_index,
    lemma_index_of_builtin, ALL_BUILTIN_BITS,
};
use crate::error::{ErrorTypeView, EscErrorType};
use std::sync::Arc;
use vstd::prelude::*;

verus! {

broadcast use vstd::seq_lib::group_seq_properties, vstd::set_lib::group_set_properties;

/// The views of a sequence of types.
pub open spec fn views(s: Seq<EscErrorType>) -> Seq<ErrorTypeView> {
    s.map_values(|e: EscErrorType| e@)
}

/// Whether a type is one of the builtin types listed by `plain_primitive`:
/// `undefined`, `null`, `boolean`, `number` or `string`.
pub open spec fn is_plain_primitive(t: ErrorTypeView) -> bool {
    builtin_index(t) matches Some(i) && 1 <= i <= 5
}

/// How a set of error types is held: empty; one type without a builtin
/// slot; builtin types only, as bits; or two or more types, one of them
/// without a builtin slot.
#[derive(Clone, Copy, Debug, PartialEq, Eq, Structural)]
pub enum Holding {
    Empty,
    One,
    Builtins,
    Many,
}

/// The one way a set with these members is held.
pub open spec fn canonical_holding(s: Set<ErrorTypeView>) -> Holding {
    if s.is_empty() {
        Holding::Empty
    } else if forall|t: ErrorTypeView| s.contains(t) ==> builtin_index(t) is Some {
        Holding::Builtins
    } else if s.len() == 1 {
        Holding::One
    } else {
        Holding::Many
    }
}

#[derive(Debug)]
enum Repr {
    Empty,
    One(EscErrorType),
    Builtins(u64),
    Many(Arc<Vec<EscErrorType>>),
}

spec fn repr_view(r: Repr) -> Set<ErrorTypeView> {
    match r {
        Repr::Empty => Set::empty(),
        Repr::One(x) => Set::empty().insert(x@),
        Repr::Builtins(b) => bits_view(b),
        Repr::Many(v) => views(v@).to_set(),
    }
}

/// Representations that `canonicalize` accepts.
spec fn loose(r: Repr) -> bool {
    match r {
        Repr::Builtins(b) => b <= ALL_BUILTIN_BITS,
        Repr::Many(v) => views(v@).no_duplicates(),
        _ => true,
    }
}

/// The unique representation of each set.
spec fn canonical(r: Repr) -> bool {
    match r {
        Repr::Empty => true,
        Repr::One(x) => builtin_index(x@) is None,
        Repr::Builtins(b) => b != 0 && b <= ALL_BUILTIN_BITS,
        Repr::Many(v) => {
            &&& v@.len() >= 2
            &&& views(v@).no_duplicates()
            &&& exists|k: int| 0 <= k < v@.len() && builtin_index(#[trigger] v@[k]@) is None
        },
    }
}

/// A set of error types.
#[derive(Debug)]
pub struct Types {
    repr: Repr,
}

impl View for Types {
    type V = Set<ErrorTypeView>;

    closed spec fn view(&self) -> Set<ErrorTypeView> {
        repr_view(self.repr)
    }
}

pub(crate) proof fn lemma_views_push(s: Seq<EscErrorType>, x: EscErrorType)
    ensures
        views(s.push(x)) == views(s).push(x@),
        views(s.push(x)).to_set() == views(s).to_set().insert(x@),
        views(s).no_duplicates() && !views(s).contains(x@) ==> views(s.push(x)).no_duplicates(),
{
    assert(views(s.push(x)) =~= views(s).push(x@));
    assert(views(s).push(x@).to_set() =~= views(s).to_set().insert(x@));
}

proof fn lemma_views_remove(s: Seq<EscErrorType>, k: int)
    requires
        0 <= k < s.len(),
        views(s).no_duplicates(),
    ensures
        views(s.remove(k)) == views(s).remove(k),
        views(s.remove(k)).no_duplicates(),
        views(s.remove(k)).to_set() == views(s).to_set().remove(s[k]@),
{
    assert(views(s.remove(k)) =~= views(s).remove(k));
    assert(views(s).remove(k).to_set() =~= views(s).to_set().remove(s[k]@)) by {
        assert forall|t: ErrorTypeView| views(s).remove(k).contains(t) <==> views(
            s,
        ).to_set().remove(s[k]@).contains(t) by {
            assert(views(s)[k] == s[k]@);
            if views(s).remove(k).contains(t) {
                let j = choose|j: int| 0 <= j < s.len() - 1 && views(s).remove(k)[j] == t;
                if j < k {
                    assert(views(s)[j] == t);
                } else {
                    assert(views(s)[j + 1] == t);
                }
            }
            if views(s).to_set().remove(s[k]@).contains(t) {
                let j = choose|j: int| 0 <= j < s.len() && views(s)[j] == t;
                if j < k {
                    assert(views(s).remove(k)[j] == t);
                } else {
                    assert(j != k);
                    assert(views(s).remove(k)[j - 1] == t);
                }
            }
        }
    }
}

/// Finds a type with the same view in a vector.
fn vec_find(v: &Vec<EscErrorType>, x: &EscErrorType) -> (r: Option<usize>)
    ensures
        r matches Some(k) ==> k < v@.len() && v@[k as int]@ == x@,
        r is Some <==> views(v@).contains(x@),
{
    let mut k: usize = 0;
    while k < v.len()
        invariant
            0 <= k <= v@.len(),
            forall|j: int| 0 <= j < k ==> v@[j]@ != x@,
        decreases v@.len() - k,
    {
        if v[k].same(x) {
            proof {
                assert(views(v@)[k as int] == v@[k as int]@);
            }
            return Some(k);
        }
        k = k + 1;
    }
    proof {
        if views(v@).contains(x@) {
            let j = choose|j: int| 0 <= j < v@.len() && views(v@)[j] == x@;
            assert(v@[j]@ == x@);
        }
    }
    None
}

/// The builtin types of a bit set whose index is below `n`.
spec fn bits_below(b: u64, n: nat) -> Set<ErrorTypeView> {
    Set::new(|t: ErrorTypeView| builtin_index(t) matches Some(i) && i < n && bit_set(b, i as u64))
}

/// Lists the builtin types of a bit set in bit order.
fn bits_to_vec(b: u64) -> (r: Vec<EscErrorType>)
    requires
        b <= ALL_BUILTIN_BITS,
    ensures
        views(r@).to_set() == bits_view(b),
        views(r@).no_duplicates(),
        forall|k: int| 0 <= k < r@.len() ==> builtin_index(#[trigger] r@[k]@) is Some,
        forall|j: int, k: int|
            0 <= j < k < r@.len() ==> builtin_index(#[trigger] r@[j]@)->0 < builtin_index(
                #[trigger] r@[k]@,
            )->0,
{
    let mut r: Vec<EscErrorType> = Vec::new();
    let mut i: usize = 0;
    assert(views(r@).to_set() =~= bits_below(b, 0));
    while i < 26
        invariant
            0 <= i <= 26,
            b <= ALL_BUILTIN_BITS,
            views(r@).to_set() == bits_below(b, i as nat),
            views(r@).no_duplicates(),
            forall|k: int|
                0 <= k < r@.len() ==> (builtin_index(#[trigger] r@[k]@) matches Some(m) && m
                    < i),
            forall|j: int, k: int|
                0 <= j < k < r@.len() ==> builtin_index(#[trigger] r@[j]@)->0 < builtin_index(
                    #[trigger] r@[k]@,
                )->0,
        decreases 26 - i,
    {
        let ghost old_r = r@;
        proof {
            crate::builtins::lemma_bit_test_pub(b, i as u64);
        }
        if b & (1u64 << (i as u64)) != 0 {
            let e = builtin_at(i);
            proof {
                lemma_index_of_builtin(i as nat);
                lemma_views_push(r@, e);
                if views(r@).contains(e@) {
                    let j = choose|j: int| 0 <= j < r@.len() && views(r@)[j] == e@;
                    assert(builtin_index(r@[j]@) == Some(i as nat));
                }
            }
            r.push(e);
            proof {
                assert(views(r@).to_set() =~= bits_below(b, (i + 1) as nat)) by {
                    assert forall|t: ErrorTypeView| #[trigger]
                        bits_below(b, (i + 1) as nat).contains(t) <==> views(
                            old_r,
                        ).to_set().insert(e@).contains(t) by {
                        lemma_builtin_index(t);
                        lemma_index_of_builtin(i as nat);
                    }
                }
            }
        } else {
            proof {
                assert(views(r@).to_set() =~= bits_below(b, (i + 1) as nat)) by {
                    assert forall|t: ErrorTypeView| #[trigger]
                        bits_below(b, (i + 1) as nat).contains(t) <==> bits_below(
                            b,
                            i as nat,
                        ).contains(t) by {
                        lemma_builtin_index(t);
                    }
                }
            }
        }
        i = i + 1;
    }
    proof {
        assert(bits_below(b, 26) =~= bits_view(b)) by {
            assert forall|t: ErrorTypeView| #[trigger] bits_view(b).contains(t) implies bits_below(
                b,
                26,
            ).contains(t) by {
                lemma_builtin_index(t);
            }
        }
    }
    r
}

/// The canonical representation of a one-element set.
fn singleton(x: EscErrorType) -> (r: Repr)
    ensures
        canonical(r),
        repr_view(r) == Set::<ErrorTypeView>::empty().insert(x@),
{
    let bit = builtin_bit(&x);
    if bit != 0 {
        proof {
            let i = builtin_index(x@)->0;
            lemma_builtin_index(x@);
            lemma_bits_insert(0, i as u64);
            lemma_bits_empty(0);
            assert(0u64 | bit_of(i as u64) == bit_of(i as u64)) by (bit_vector);
        }
        Repr::Builtins(bit)
    } else {
        Repr::One(x)
    }
}

/// Returns a loose representation to its canonical form.
fn canonicalize(r: Repr) -> (out: Repr)
    requires
        loose(r),
    ensures
        canonical(out),
        repr_view(out) == repr_view(r),
{
    match r {
        Repr::Empty => Repr::Empty,
        Repr::One(x) => singleton(x),
        Repr::Builtins(b) => {
            proof {
                lemma_bits_empty(b);
            }
            if b == 0 {
                Repr::Empty
            } else {
                Repr::Builtins(b)
            }
        },
        Repr::Many(v) => {
            if v.len() == 0 {
                proof {
                    assert(views(v@).to_set() =~= Set::<ErrorTypeView>::empty());
                }
                return Repr::Empty;
            }
            if v.len() == 1 {
                let x = v[0].duplicate();
                proof {
                    assert(views(v@).to_set() =~= Set::<ErrorTypeView>::empty().insert(x@)) by {
                        assert(views(v@)[0] == x@);
                    }
                }
                return singleton(x);
            }
            let ghost v0 = v@;
            let mut bits: u64 = 0;
            let mut k: usize = 0;
            proof {
                lemma_bits_empty(0);
                assert(views(v@.take(0)).to_set() =~= Set::<ErrorTypeView>::empty());
            }
            while k < v.len()
                invariant
                    v@ == v0,
                    v0.len() >= 2,
                    views(v0).no_duplicates(),
                    r == Repr::Many(v),
                    0 <= k <= v@.len(),
                    bits <= ALL_BUILTIN_BITS,
                    bits_view(bits) == views(v@.take(k as int)).to_set(),
                    forall|j: int| 0 <= j < k ==> builtin_index(#[trigger] v@[j]@) is Some,
                decreases v@.len() - k,
            {
                let bit = builtin_bit(&v[k]);
                if bit == 0 {
                    proof {
                        assert(builtin_index(v@[k as int]@) is None);
                    }
                    return Repr::Many(v);
                }
                proof {
                    let i = builtin_index(v@[k as int]@)->0;
                    lemma_builtin_index(v@[k as int]@);
                    lemma_bits_insert(bits, i as u64);
                    assert(v@.take(k + 1) =~= v@.take(k as int).push(v@[k as int]));
                    lemma_views_push(v@.take(k as int), v@[k as int]);
                }
                bits = bits | bit;
                k = k + 1;
            }
            proof {
                assert(v@.take(v@.len() as int) =~= v@);
                lemma_bits_empty(bits);
                assert(views(v@).contains(v@[0]@)) by {
                    assert(views(v@)[0] == v@[0]@);
                }
                assert(bits_view(bits).contains(v@[0]@));
                assert(bits != 0);
            }
            Repr::Builtins(bits)
        },
    }
}

/// Which representation a canonical set has is determined by its members.
proof fn lemma_canonical_unique(a: Repr, b: Repr)
    requires
        canonical(a),
        canonical(b),
        repr_view(a) == repr_view(b),
    ensures
        match (a, b) {
            (Repr::Empty, Repr::Empty) => true,
            (Repr::One(x), Repr::One(y)) => x@ == y@,
            (Repr::Builtins(p), Repr::Builtins(q)) => p == q,
            (Repr::Many(v), Repr::Many(w)) => v@.len() == w@.len(),
            _ => false,
        },
{
    lemma_canonical_empty(a);
    lemma_canonical_empty(b);
    lemma_canonical_shape(a);
    lemma_canonical_shape(b);
    match (a, b) {
        (Repr::One(x), Repr::One(y)) => {
            assert(repr_view(b).contains(x@));
        },
        (Repr::Builtins(p), Repr::Builtins(q)) => {
            lemma_bits_view_injective(p, q);
        },
        (Repr::Many(v), Repr::Many(w)) => {
            views(v@).unique_seq_to_set();
            views(w@).unique_seq_to_set();
        },
        (Repr::One(x), Repr::Many(w)) => {
            assert(views(w@)[0] == w@[0]@);
            assert(views(w@)[1] == w@[1]@);
            assert(repr_view(b).contains(w@[0]@));
            assert(repr_view(b).contains(w@[1]@));
        },
        (Repr::Many(v), Repr::One(y)) => {
            assert(views(v@)[0] == v@[0]@);
            assert(views(v@)[1] == v@[1]@);
            assert(repr_view(a).contains(v@[0]@));
            assert(repr_view(a).contains(v@[1]@));
        },
        _ => {},
    }
}

/// The members of a canonical set, by representation.
proof fn lemma_canonical_shape(r: Repr)
    requires
        canonical(r),
    ensures
        r is One ==> exists|t: ErrorTypeView| repr_view(r).contains(t) && builtin_index(t) is None,
        r is Many ==> exists|t: ErrorTypeView| repr_view(r).contains(t) && builtin_index(t) is None,
        r is Builtins ==> forall|t: ErrorTypeView| repr_view(r).contains(t) ==> builtin_index(t) is Some,
{
    match r {
        Repr::One(x) => {
            assert(repr_view(r).contains(x@));
        },
        Repr::Many(v) => {
            let k = choose|k: int| 0 <= k < v@.len() && builtin_index(#[trigger] v@[k]@) is None;
            assert(views(v@)[k] == v@[k]@);
            assert(repr_view(r).contains(v@[k]@));
        },
        Repr::Builtins(b) => {
            assert forall|t: ErrorTypeView| repr_view(r).contains(t) implies builtin_index(t) is Some by {
                lemma_bits_view_contains(b, t);
            }
        },
        Repr::Empty => {},
    }
}

/// Only the empty representation has no members.
proof fn lemma_canonical_empty(r: Repr)
    requires
        canonical(r),
    ensures
        (r is Empty) <==> repr_view(r) == Set::<ErrorTypeView>::empty(),
{
    match r {
        Repr::Empty => {},
        Repr::One(x) => {
            assert(repr_view(r).contains(x@));
        },
        Repr::Builtins(b) => {
            lemma_bits_empty(b);
        },
        Repr::Many(v) => {
            assert(views(v@)[0] == v@[0]@);
            assert(repr_view(r).contains(v@[0]@));
        },
    }
}

/// The members of a duplicate-free vector determine its length.
proof fn lemma_views_set_len(v: Seq<EscErrorType>)
    requires
        views(v).no_duplicates(),
    ensures
        views(v).to_set().finite(),
        views(v).to_set().len() == v.len(),
{
    views(v).unique_seq_to_set();
}

/// Whether every type of `v` occurs in `w`.
fn all_in(v: &Vec<EscErrorType>, w: &Vec<EscErrorType>) -> (r: bool)
    ensures
        r == (forall|k: int| 0 <= k < v@.len() ==> views(w@).contains(#[trigger] v@[k]@)),
{
    let mut k: usize = 0;
    while k < v.len()
        invariant
            0 <= k <= v@.len(),
            forall|j: int| 0 <= j < k ==> views(w@).contains(#[trigger] v@[j]@),
        decreases v@.len() - k,
    {
        if vec_find(w, &v[k]).is_none() {
            return false;
        }
        k = k + 1;
    }
    true
}

/// `Arc::clone`: another handle on the same vector.
#[verifier::external_body]
fn share(v: &Arc<Vec<EscErrorType>>) -> (r: Arc<Vec<EscErrorType>>)
    ensures
        r == *v,
{
    Arc::clone(v)
}

/// `Arc::ptr_eq`: whether both handles point to one allocation, which then
/// holds one vector. A false answer says nothing of the contents.
#[verifier::external_body]
fn same_allocation(a: &Arc<Vec<EscErrorType>>, b: &Arc<Vec<EscErrorType>>) -> (r: bool)
    ensures
        r ==> *a == *b,
{
    Arc::ptr_eq(a, b)
}

/// Copies a vector of types.
fn copy_vec(v: &Vec<EscErrorType>) -> (r: Vec<EscErrorType>)
    ensures
        views(r@) == views(v@),
{
    let mut r: Vec<EscErrorType> = Vec::new();
    let mut k: usize = 0;
    while k < v.len()
        invariant
            0 <= k <= v@.len(),
            views(r@) == views(v@.take(k as int)),
        decreases v@.len() - k,
    {
        proof {
            lemma_views_push(r@, v@[k as int]);
            assert(v@.take(k + 1) =~= v@.take(k as int).push(v@[k as int]));
            lemma_views_push(v@.take(k as int), v@[k as int]);
        }
        r.push(v[k].duplicate());
        k = k + 1;
    }
    assert(v@.take(v@.len() as int) =~= v@);
    r
}

impl Types {
    #[verifier::type_invariant]
    spec fn inv(self) -> bool {
        canonical(self.repr)
    }

    /// The empty set.
    pub fn new() -> (r: Self)
        ensures
            r@ == Set::<ErrorTypeView>::empty(),
    {
        Types { repr: Repr::Empty }
    }

    /// How the set is held, which its members alone decide.
    pub fn holding(&self) -> (r: Holding)
        ensures
            r == canonical_holding(self@),
    {
        proof {
            use_type_invariant(self);
            lemma_canonical_empty(self.repr);
            lemma_canonical_shape(self.repr);
        }
        match &self.repr {
            Repr::Empty => Holding::Empty,
            Repr::One(x) => {
                proof {
                    assert(self@ =~= Set::<ErrorTypeView>::empty().insert(x@));
                    assert(self@.len() == 1);
                }
                Holding::One
            },
            Repr::Builtins(_) => Holding::Builtins,
            Repr::Many(v) => {
                proof {
                    lemma_views_set_len(v@);
                }
                Holding::Many
            },
        }
    }

    pub fn is_empty(&self) -> (r: bool)
        ensures
            r == (self@ == Set::<ErrorTypeView>::empty()),
    {
        proof {
            use_type_invariant(self);
            lemma_canonical_empty(self.repr);
        }
        match &self.repr {
            Repr::Empty => true,
            _ => false,
        }
    }

    /// Whether the set is held as builtin bits.
    pub fn is_builtins(&self) -> (r: bool)
        ensures
            r == (!self@.is_empty() && forall|t: ErrorTypeView|
                self@.contains(t) ==> builtin_index(t) is Some),
    {
        proof {
            use_type_invariant(self);
            lemma_canonical_empty(self.repr);
            lemma_canonical_shape(self.repr);
        }
        match &self.repr {
            Repr::Builtins(_) => true,
            _ => false,
        }
    }

    /// Whether the set is held as a vector of mixed types.
    pub fn is_many(&self) -> (r: bool)
        ensures
            r == (self@.len() >= 2 && exists|t: ErrorTypeView|
                self@.contains(t) && builtin_index(t) is None),
    {
        proof {
            use_type_invariant(self);
            lemma_canonical_shape(self.repr);
            lemma_canonical_empty(self.repr);
            if self.repr is One {
                let x = self.repr->One_0;
                assert(Set::<ErrorTypeView>::empty().insert(x@).len() == 1);
            }
        }
        match &self.repr {
            Repr::Many(v) => {
                proof {
                    lemma_views_set_len(v@);
                }
                true
            },
            _ => false,
        }
    }

    pub fn contains(&self, value: &EscErrorType) -> (r: bool)
        ensures
            r == self@.contains(value@),
    {
        proof {
            use_type_invariant(self);
        }
        match &self.repr {
            Repr::Empty => false,
            Repr::One(x) => x.same(value),
            Repr::Builtins(b) => {
                let bit = builtin_bit(value);
                proof {
                    lemma_bits_view_contains(*b, value@);
                    lemma_builtin_index(value@);
                    if let Some(i) = builtin_index(value@) {
                        lemma_bit_test_pub(*b, i as u64);
                    } else {
                        assert(*b & 0u64 == 0u64) by (bit_vector);
                    }
                }
                *b & bit != 0
            },
            Repr::Many(v) => vec_find(v, value).is_some(),
        }
    }

    /// Adds a type. Returns whether it was new.
    pub fn insert(&mut self, value: EscErrorType) -> (r: bool)
        ensures
            final(self)@ == old(self)@.insert(value@),
            r == !old(self)@.contains(value@),
    {
        proof {
            use_type_invariant(&*self);
        }
        let mut repr = Repr::Empty;
        std::mem::swap(&mut repr, &mut self.repr);
        let ghost old_view = repr_view(repr);
        let (next, changed) = match repr {
            Repr::Empty => (singleton(value), true),
            Repr::One(x) => {
                if x.same(&value) {
                    proof {
                        assert(old_view.insert(value@) =~= old_view);
                    }
                    (Repr::One(x), false)
                } else {
                    let ghost xv = x@;
                    let ghost vv = value@;
                    let v = vec![x, value];
                    proof {
                        assert(views(v@) =~= seq![xv, vv]);
                        assert(views(v@).to_set() =~= old_view.insert(vv)) by {
                            assert(views(v@)[0] == xv);
                            assert(views(v@)[1] == vv);
                        }
                    }
                    (Repr::Many(Arc::new(v)), true)
                }
            },
            Repr::Builtins(b) => {
                let bit = builtin_bit(&value);
                proof {
                    lemma_bits_view_contains(b, value@);
                    lemma_builtin_index(value@);
                }
                if bit != 0 {
                    proof {
                        let i = builtin_index(value@)->0;
                        lemma_bit_test_pub(b, i as u64);
                        lemma_bits_insert(b, i as u64);
                    }
                    (Repr::Builtins(b | bit), b & bit == 0)
                } else {
                    let mut v = bits_to_vec(b);
                    proof {
                        lemma_views_push(v@, value);
                        if views(v@).contains(value@) {
                            let j = choose|j: int| 0 <= j < v@.len() && views(v@)[j] == value@;
                            assert(builtin_index(v@[j]@) is Some);
                        }
                    }
                    v.push(value);
                    (Repr::Many(Arc::new(v)), true)
                }
            },
            Repr::Many(v) => {
                match vec_find(&v, &value) {
                    Some(_) => {
                        proof {
                            assert(old_view.insert(value@) =~= old_view);
                        }
                        (Repr::Many(v), false)
                    },
                    None => {
                        let mut w = copy_vec(&v);
                        proof {
                            lemma_views_push(w@, value);
                        }
                        w.push(value);
                        (Repr::Many(Arc::new(w)), true)
                    },
                }
            },
        };
        self.repr = canonicalize(next);
        changed
    }

    /// Removes a type. Returns whether it was present.
    pub fn remove(&mut self, value: &EscErrorType) -> (r: bool)
        ensures
            final(self)@ == old(self)@.remove(value@),
            r == old(self)@.contains(value@),
    {
        proof {
            use_type_invariant(&*self);
        }
        let mut repr = Repr::Empty;
        std::mem::swap(&mut repr, &mut self.repr);
        let ghost old_view = repr_view(repr);
        let (next, removed) = match repr {
            Repr::Empty => {
                proof {
                    assert(old_view.remove(value@) =~= old_view);
                }
                (Repr::Empty, false)
            },
            Repr::One(x) => {
                if x.same(value) {
                    proof {
                        assert(old_view.remove(value@) =~= Set::<ErrorTypeView>::empty());
                    }
                    (Repr::Empty, true)
                } else {
                    proof {
                        assert(old_view.remove(value@) =~= old_view);
                    }
                    (Repr::One(x), false)
                }
            },
            Repr::Builtins(b) => {
                let bit = builtin_bit(value);
                proof {
                    lemma_bits_view_contains(b, value@);
                    lemma_builtin_index(value@);
                    if let Some(i) = builtin_index(value@) {
                        lemma_bit_test_pub(b, i as u64);
                        lemma_bits_remove(b, i as u64);
                    } else {
                        assert(b & 0u64 == 0u64) by (bit_vector);
                        assert(b & !0u64 == b) by (bit_vector);
                        assert(old_view.remove(value@) =~= old_view);
                    }
                }
                (Repr::Builtins(b & !bit), b & bit != 0)
            },
            Repr::Many(v) => {
                match vec_find(&v, value) {
                    Some(k) => {
                        let mut w = copy_vec(&v);
                        proof {
                            assert(views(w@)[k as int] == views(v@)[k as int]);
                            lemma_views_remove(w@, k as int);
                        }
                        w.remove(k);
                        (Repr::Many(Arc::new(w)), true)
                    },
                    None => {
                        proof {
                            assert(old_view.remove(value@) =~= old_view);
                        }
                        (Repr::Many(v), false)
                    },
                }
            },
        };
        self.repr = canonicalize(next);
        removed
    }

    /// Adds every type of a vector.
    fn extend_from(&mut self, values: &Vec<EscErrorType>)
        ensures
            final(self)@ == old(self)@.union(views(values@).to_set()),
    {
        let ghost start = self@;
        let mut k: usize = 0;
        assert(views(values@.take(0)).to_set() =~= Set::<ErrorTypeView>::empty());
        assert(start.union(Set::<ErrorTypeView>::empty()) =~= start);
        while k < values.len()
            invariant
                0 <= k <= values@.len(),
                self@ == start.union(views(values@.take(k as int)).to_set()),
            decreases values@.len() - k,
        {
            proof {
                assert(values@.take(k + 1) =~= values@.take(k as int).push(values@[k as int]));
                lemma_views_push(values@.take(k as int), values@[k as int]);
                assert(start.union(views(values@.take(k as int)).to_set()).insert(values@[k as int]@)
                    =~= start.union(views(values@.take(k + 1)).to_set()));
            }
            self.insert(values[k].duplicate());
            k = k + 1;
        }
        assert(values@.take(values@.len() as int) =~= values@);
    }

    /// The set of the types of a vector.
    pub fn from_vec(values: Vec<EscErrorType>) -> (r: Self)
        ensures
            r@ == views(values@).to_set(),
    {
        let mut r = Types::new();
        r.extend_from(&values);
        assert(Set::<ErrorTypeView>::empty().union(views(values@).to_set()) =~= views(
            values@,
        ).to_set());
        r
    }

    /// Adds every type of `incoming`.
    pub fn join(&mut self, incoming: Types)
        ensures
            final(self)@ == old(self)@.union(incoming@),
    {
        proof {
            use_type_invariant(&*self);
            use_type_invariant(&incoming);
        }
        let ghost incoming_view = incoming@;
        let Types { repr: inc } = incoming;
        let shared = match (&self.repr, &inc) {
            (Repr::Many(a), Repr::Many(b)) => same_allocation(a, b),
            _ => false,
        };
        if shared {
            proof {
                assert(self@.union(incoming_view) =~= self@);
            }
            return;
        }
        if self.is_empty() {
            proof {
                assert(Set::<ErrorTypeView>::empty().union(incoming_view) =~= incoming_view);
            }
            self.repr = inc;
            return;
        }
        let current_bits = match &self.repr {
            Repr::Builtins(b) => Some(*b),
            _ => None,
        };
        match inc {
            Repr::Empty => {
                assert(self@.union(Set::<ErrorTypeView>::empty()) =~= self@);
            },
            Repr::One(x) => {
                assert(self@.insert(x@) =~= self@.union(incoming_view));
                self.insert(x);
            },
            Repr::Builtins(b) => {
                match current_bits {
                    Some(c) => {
                        proof {
                            lemma_bits_union(c, b);
                            lemma_bits_empty(c | b);
                            lemma_bits_empty(c);
                            assert(bits_view(c).subset_of(bits_view(c | b)));
                        }
                        self.repr = Repr::Builtins(c | b);
                    },
                    None => {
                        let v = bits_to_vec(b);
                        self.extend_from(&v);
                    },
                }
            },
            Repr::Many(v) => {
                self.extend_from(&v);
            },
        }
    }

    /// The members of the set, without repetition. Builtin-only sets list
    /// their members in bit order.
    pub fn to_vec(&self) -> (r: Vec<EscErrorType>)
        ensures
            views(r@).to_set() == self@,
            views(r@).no_duplicates(),
            (forall|t: ErrorTypeView| self@.contains(t) ==> builtin_index(t) is Some) ==> forall|
                j: int,
                k: int,
            |
                0 <= j < k < r@.len() ==> builtin_index(#[trigger] r@[j]@)->0 < builtin_index(
                    #[trigger] r@[k]@,
                )->0,
    {
        proof {
            use_type_invariant(self);
            lemma_canonical_shape(self.repr);
        }
        match &self.repr {
            Repr::Empty => {
                let r: Vec<EscErrorType> = Vec::new();
                assert(views(r@).to_set() =~= Set::<ErrorTypeView>::empty());
                r
            },
            Repr::One(x) => {
                let ghost xv = x@;
                let r = vec![x.duplicate()];
                proof {
                    assert(views(r@) =~= seq![xv]);
                    assert(views(r@).to_set() =~= Set::<ErrorTypeView>::empty().insert(xv)) by {
                        assert(views(r@)[0] == xv);
                    }
                }
                r
            },
            Repr::Builtins(b) => bits_to_vec(*b),
            Repr::Many(v) => {
                proof {
                    let t = choose|t: ErrorTypeView| self@.contains(t) && builtin_index(t) is None;
                    assert(self@.contains(t));
                }
                copy_vec(v)
            },
        }
    }

    /// The number of members.
    pub fn len(&self) -> (r: usize)
        ensures
            self@.finite(),
            r == self@.len(),
    {
        let v = self.to_vec();
        proof {
            lemma_views_set_len(v@);
        }
        v.len()
    }

    /// Removes and returns every member.
    pub fn drain(&mut self) -> (r: Vec<EscErrorType>)
        ensures
            final(self)@ == Set::<ErrorTypeView>::empty(),
            views(r@).to_set() == old(self)@,
            views(r@).no_duplicates(),
    {
        let r = self.to_vec();
        self.repr = Repr::Empty;
        r
    }

    /// Whether every member is `undefined`, `null`, `boolean`, `number` or `string`.
    pub fn plain_primitive(&self) -> (r: bool)
        ensures
            r == (forall|t: ErrorTypeView| self@.contains(t) ==> is_plain_primitive(t)),
    {
        proof {
            use_type_invariant(self);
            lemma_canonical_shape(self.repr);
        }
        match &self.repr {
            Repr::Empty => {
                assert(self@ =~= Set::<ErrorTypeView>::empty());
                true
            },
            Repr::Builtins(b) => {
                let b = *b;
                let mut i: usize = 0;
                while i < 26
                    invariant
                        0 <= i <= 26,
                        b <= ALL_BUILTIN_BITS,
                        self@ == bits_view(b),
                        forall|j: u64| j < i ==> bit_set(b, j) ==> 1 <= j <= 5,
                    decreases 26 - i,
                {
                    proof {
                        lemma_bit_test_pub(b, i as u64);
                    }
                    if b & (1u64 << (i as u64)) != 0 && (i == 0 || i > 5) {
                        proof {
                            lemma_index_of_builtin(i as nat);
                            lemma_bits_view_contains(b, builtin_at_view(i as nat));
                            assert(self@.contains(builtin_at_view(i as nat)));
                            assert(!is_plain_primitive(builtin_at_view(i as nat)));
                        }
                        return false;
                    }
                    i = i + 1;
                }
                proof {
                    assert forall|t: ErrorTypeView| self@.contains(t) implies is_plain_primitive(t) by {
                        lemma_bits_view_contains(b, t);
                        lemma_builtin_index(t);
                    }
                }
                true
            },
            _ => {
                proof {
                    let t = choose|t: ErrorTypeView| self@.contains(t) && builtin_index(t) is None;
                    assert(self@.contains(t));
                    assert(!is_plain_primitive(t));
                }
                false
            },
        }
    }

    /// Keeps the members for which `keep` answers true. Each member is asked
    /// about once, through a type with its view, and stays exactly when the
    /// answer was true. When every answer is true the set is left as it was.
    pub fn retain<F: Fn(&EscErrorType) -> bool>(&mut self, keep: F)
        requires
            forall|e: &EscErrorType| keep.requires((e,)),
        ensures
            forall|t: ErrorTypeView| #[trigger] final(self)@.contains(t) ==> old(self)@.contains(t),
            forall|t: ErrorTypeView|
                #[trigger] old(self)@.contains(t) ==> exists|e: &EscErrorType, b: bool|
                    e@ == t && keep.ensures((e,), b) && (final(self)@.contains(t) == b),
    {
        let ghost start = self@;
        let values = self.to_vec();
        let mut removed: Vec<EscErrorType> = Vec::new();
        let mut k: usize = 0;
        while k < values.len()
            invariant
                0 <= k <= values@.len(),
                views(values@).no_duplicates(),
                forall|e: &EscErrorType| keep.requires((e,)),
                forall|t: ErrorTypeView| #[trigger] views(removed@).contains(t) ==> views(values@.take(k as int)).contains(t),
                forall|t: ErrorTypeView|
                    #[trigger] views(values@.take(k as int)).contains(t) ==> exists|e: &EscErrorType, b: bool|
                        e@ == t && keep.ensures((e,), b) && (views(removed@).contains(t) == !b),
            decreases values@.len() - k,
        {
            let ghost before = removed@;
            let ghost t = values@[k as int]@;
            let answer = keep(&values[k]);
            proof {
                assert(values@.take(k + 1) =~= values@.take(k as int).push(values@[k as int]));
                lemma_views_push(values@.take(k as int), values@[k as int]);
                assert(views(values@)[k as int] == t);
                assert(!views(values@.take(k as int)).contains(t)) by {
                    if views(values@.take(k as int)).contains(t) {
                        let j = choose|j: int| 0 <= j < k && views(values@.take(k as int))[j] == t;
                        assert(views(values@)[j] == views(values@.take(k as int))[j]);
                    }
                }
            }
            if !answer {
                let x = values[k].duplicate();
                removed.push(x);
                proof {
                    lemma_views_push(before, x);
                }
            }
            proof {
                assert forall|u: ErrorTypeView| #[trigger] views(removed@).contains(u) implies views(values@.take(k + 1)).contains(u) by {
                    if u != t {
                        assert(views(before).contains(u));
                    }
                }
                assert forall|u: ErrorTypeView| #[trigger] views(values@.take(k + 1)).contains(u) implies exists|e: &EscErrorType, b: bool|
                    e@ == u && keep.ensures((e,), b) && (views(removed@).contains(u) == !b) by {
                    if u == t {
                        assert(keep.ensures((&values@[k as int],), answer));
                        assert(views(removed@).contains(u) == !answer);
                    } else {
                        assert(views(values@.take(k as int)).contains(u));
                        assert(views(removed@).contains(u) == views(before).contains(u));
                    }
                }
            }
            k = k + 1;
        }
        proof {
            assert(values@.take(values@.len() as int) =~= values@);
        }
        if removed.len() == 0 {
            return;
        }
        let mut j: usize = 0;
        while j < removed.len()
            invariant
                0 <= j <= removed@.len(),
                self@ == start.difference(views(removed@.take(j as int)).to_set()),
            decreases removed@.len() - j,
        {
            proof {
                assert(removed@.take(j + 1) =~= removed@.take(j as int).push(removed@[j as int]));
                lemma_views_push(removed@.take(j as int), removed@[j as int]);
                assert(start.difference(views(removed@.take(j as int)).to_set()).remove(removed@[j as int]@)
                    =~= start.difference(views(removed@.take(j + 1)).to_set()));
            }
            self.remove(&removed[j]);
            j = j + 1;
        }
        proof {
            assert(removed@.take(removed@.len() as int) =~= removed@);
        }
    }

    /// A copy with the same members. A set of two or more mixed types
    /// shares its vector with the copy.
    pub fn duplicate(&self) -> (r: Self)
        ensures
            r@ == self@,
    {
        proof {
            use_type_invariant(self);
        }
        let repr = match &self.repr {
            Repr::Empty => Repr::Empty,
            Repr::One(x) => Repr::One(x.duplicate()),
            Repr::Builtins(b) => Repr::Builtins(*b),
            Repr::Many(v) => Repr::Many(share(v)),
        };
        Types { repr }
    }

    /// Whether both sets hold two or more mixed types in one shared vector,
    /// which then gives them the same members. A false answer says nothing
    /// of the members.
    pub fn shares_members(&self, other: &Self) -> (r: bool)
        ensures
            r ==> self@ == other@,
    {
        match (&self.repr, &other.repr) {
            (Repr::Many(a), Repr::Many(b)) => same_allocation(a, b),
            _ => false,
        }
    }

    /// Whether two sets have the same members.
    pub fn same(&self, other: &Self) -> (r: bool)
        ensures
            r == (self@ == other@),
    {
        proof {
            use_type_invariant(self);
            use_type_invariant(other);
            if self@ == other@ {
                lemma_canonical_unique(self.repr, other.repr);
            }
        }
        match (&self.repr, &other.repr) {
            (Repr::Empty, Repr::Empty) => true,
            (Repr::One(x), Repr::One(y)) => {
                let r = x.same(y);
                proof {
                    if r {
                        assert(self@ =~= other@);
                    }
                }
                r
            },
            (Repr::Builtins(p), Repr::Builtins(q)) => *p == *q,
            (Repr::Many(v), Repr::Many(w)) => {
                if v.len() != w.len() {
                    return false;
                }
                let r = all_in(v, w);
                proof {
                    lemma_views_set_len(v@);
                    lemma_views_set_len(w@);
                    if r {
                        assert forall|t: ErrorTypeView| views(v@).to_set().contains(t) implies views(
                            w@,
                        ).to_set().contains(t) by {
                            let k = choose|k: int| 0 <= k < v@.len() && views(v@)[k] == t;
                            assert(views(v@)[k] == v@[k]@);
                        }
                        vstd::set_lib::lemma_subset_equality(views(v@).to_set(), views(w@).to_set());
                    } else {
                        let k = choose|k: int| 0 <= k < v@.len() && !views(w@).contains(#[trigger] v@[k]@);
                        assert(views(v@)[k] == v@[k]@);
                        assert(self@.contains(v@[k]@));
                    }
                }
                r
            },
            _ => false,
        }
    }
}

impl Clone for Types {
    fn clone(&self) -> (r: Self)
        ensures
            r@ == self@,
    {
        self.duplicate()
    }
}

impl PartialEq for Types {
    fn eq(&self, other: &Self) -> (r: bool) {
        self.same(other)
    }
}

impl vstd::std_specs::cmp::PartialEqSpecImpl for Types {
    open spec fn obeys_eq_spec() -> bool {
        true
    }

    open spec fn eq_spec(&self, other: &Self) -> bool {
        self@ == other@
    }
}

impl Eq for Types {

}

impl Default for Types {
    fn default() -> (r: Self)
        ensures
            r@ == Set::<ErrorTypeView>::empty(),
    {
        Types::new()
    }
}

} // verus!
