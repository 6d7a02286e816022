//! Subtyping between error types, for narrowing caught errors by `instanceof`.
//! Declared classes extend the types their superclass expressions resolve to;
//! builtin error constructors extend `Error`. The answer is unknown whenever
//! `unknown` is involved or the declared hierarchy is cyclic.
use crate::error::{builtin_view, constructed_type, unknown_view, ErrorTypeView, EscErrorType};
use crate::set::{views, Types};
use vstd::prelude::*;

verus! {

broadcast use vstd::seq_lib::group_seq_properties, vstd::set_lib::group_set_properties;

/// The direct supertypes of declared classes.
#[derive(Debug)]
pub struct EscSuperTypes {
    entries: Vec<(EscErrorType, Types)>,
}

/// The supertypes recorded in a sequence of entries, by the last entry of each type.
pub open spec fn supers_map(s: Seq<(EscErrorType, Types)>) -> Map<ErrorTypeView, Set<ErrorTypeView>>
    decreases s.len(),
{
    if s.len() == 0 {
        Map::empty()
    } else {
        supers_map(s.drop_last()).insert(s.last().0@, s.last().1@)
    }
}

proof fn lemma_supers_map_dom(s: Seq<(EscErrorType, Types)>, t: ErrorTypeView)
    ensures
        supers_map(s).contains_key(t) <==> exists|i: int| 0 <= i < s.len() && s[i].0@ == t,
        supers_map(s).dom().finite(),
    decreases s.len(),
{
    if s.len() > 0 {
        lemma_supers_map_dom(s.drop_last(), t);
        if supers_map(s).contains_key(t) && s.last().0@ != t {
            let i = choose|i: int| 0 <= i < s.drop_last().len() && s.drop_last()[i].0@ == t;
            assert(s[i].0@ == t);
        }
        if exists|i: int| 0 <= i < s.len() && s[i].0@ == t {
            let i = choose|i: int| 0 <= i < s.len() && s[i].0@ == t;
            if i < s.len() - 1 {
                assert(s.drop_last()[i].0@ == t);
            }
        }
    }
}

proof fn lemma_supers_map_index(s: Seq<(EscErrorType, Types)>, i: int)
    requires
        forall|a: int, b: int| 0 <= a < b < s.len() ==> s[a].0@ != s[b].0@,
        0 <= i < s.len(),
    ensures
        supers_map(s).contains_key(s[i].0@),
        supers_map(s)[s[i].0@] == s[i].1@,
    decreases s.len(),
{
    if i < s.len() - 1 {
        lemma_supers_map_index(s.drop_last(), i);
        assert(s.drop_last()[i] == s[i]);
    }
}

proof fn lemma_supers_map_remove(s: Seq<(EscErrorType, Types)>, i: int)
    requires
        forall|a: int, b: int| 0 <= a < b < s.len() ==> s[a].0@ != s[b].0@,
        0 <= i < s.len(),
    ensures
        forall|a: int, b: int| 0 <= a < b < s.remove(i).len() ==> s.remove(i)[a].0@ != s.remove(i)[b].0@,
        supers_map(s.remove(i)) == supers_map(s).remove(s[i].0@),
{
    let t = s.remove(i);
    assert forall|c: ErrorTypeView| #![auto] supers_map(t).contains_key(c) == supers_map(s).remove(
        s[i].0@,
    ).contains_key(c) by {
        lemma_supers_map_dom(t, c);
        lemma_supers_map_dom(s, c);
        if supers_map(s).contains_key(c) && c != s[i].0@ {
            let j = choose|j: int| 0 <= j < s.len() && s[j].0@ == c;
            if j < i {
                assert(t[j] == s[j]);
            } else {
                assert(t[j - 1] == s[j]);
            }
        }
        if supers_map(t).contains_key(c) {
            let j = choose|j: int| 0 <= j < t.len() && t[j].0@ == c;
            if j < i {
                assert(t[j] == s[j]);
            } else {
                assert(t[j] == s[j + 1]);
            }
        }
    }
    assert forall|c: ErrorTypeView| #![auto] supers_map(t).contains_key(c) implies supers_map(t)[c]
        == supers_map(s)[c] by {
        lemma_supers_map_dom(t, c);
        let j = choose|j: int| 0 <= j < t.len() && t[j].0@ == c;
        lemma_supers_map_index(t, j);
        if j < i {
            assert(t[j] == s[j]);
            lemma_supers_map_index(s, j);
        } else {
            assert(t[j] == s[j + 1]);
            lemma_supers_map_index(s, j + 1);
        }
    }
    assert(supers_map(t) =~= supers_map(s).remove(s[i].0@));
}

proof fn lemma_supers_map_push(s: Seq<(EscErrorType, Types)>, e: (EscErrorType, Types))
    requires
        forall|a: int, b: int| 0 <= a < b < s.len() ==> s[a].0@ != s[b].0@,
        !supers_map(s).contains_key(e.0@),
    ensures
        forall|a: int, b: int| 0 <= a < b < s.push(e).len() ==> s.push(e)[a].0@ != s.push(e)[b].0@,
        supers_map(s.push(e)) == supers_map(s).insert(e.0@, e.1@),
{
    assert(s.push(e).drop_last() =~= s);
    assert forall|i: int| 0 <= i < s.len() implies s[i].0@ != e.0@ by {
        lemma_supers_map_index(s, i);
    }
}

impl View for EscSuperTypes {
    type V = Map<ErrorTypeView, Set<ErrorTypeView>>;

    closed spec fn view(&self) -> Map<ErrorTypeView, Set<ErrorTypeView>> {
        supers_map(self.entries@)
    }
}

/// Whether `ty` extends `base`: `Some(true)` if it does, `Some(false)` if it
/// does not, `None` if that cannot be known. Types in `seen` are already on
/// the path being followed; meeting one again is a cycle.
pub open spec fn spec_subtype(
    supers: Map<ErrorTypeView, Set<ErrorTypeView>>,
    ty: ErrorTypeView,
    base: ErrorTypeView,
    seen: Set<ErrorTypeView>,
) -> Option<bool>
    decreases supers.dom().difference(seen).len(), 0nat,
    when supers.dom().finite()
{
    if ty == unknown_view() || base == unknown_view() {
        None
    } else if ty == base {
        Some(true)
    } else if seen.contains(ty) {
        None
    } else if supers.contains_key(ty) {
        proof {
            lemma_difference_shrinks(supers.dom(), seen, ty);
        }
        let (any_true, any_none) = base_answers(supers, supers[ty], base, seen.insert(ty));
        if any_true {
            Some(true)
        } else if any_none {
            None
        } else {
            Some(false)
        }
    } else {
        Some(
            base == builtin_view("Error"@) && (ty matches ErrorTypeView::Builtin(name)
                && constructed_type(name) is Some),
        )
    }
}

/// What subtyping answers without declared supertypes: every known type
/// extends itself; nothing is known of `unknown`; a type with no declared
/// supertypes extends no other type but `Error`, which every standard error
/// constructor's instances extend.
pub proof fn law_subtype_without_declarations(
    supers: Map<ErrorTypeView, Set<ErrorTypeView>>,
    ty: ErrorTypeView,
    base: ErrorTypeView,
    seen: Set<ErrorTypeView>,
)
    requires
        supers.dom().finite(),
    ensures
        ty != unknown_view() && base != unknown_view() && ty == base ==> spec_subtype(supers, ty, base, seen) == Some(true),
        ty == unknown_view() || base == unknown_view() ==> spec_subtype(supers, ty, base, seen) is None,
        ty != unknown_view() && base != unknown_view() && ty != base && !seen.contains(ty) && !supers.contains_key(ty)
            && base != builtin_view("Error"@) ==> spec_subtype(supers, ty, base, seen) == Some(false),
        ty != unknown_view() && ty != builtin_view("Error"@) && !seen.contains(ty) && !supers.contains_key(ty)
            && ty is Node ==> spec_subtype(supers, ty, builtin_view("Error"@), seen) == Some(false),
        forall|name: Seq<char>|
            ty == #[trigger] builtin_view(name) && ty != builtin_view("Error"@) && ty != unknown_view() && !seen.contains(ty) && !supers.contains_key(ty)
                ==> (spec_subtype(supers, ty, builtin_view("Error"@), seen) == Some(true) <==> constructed_type(name) is Some),
{
    reveal_strlit("Error");
    reveal_strlit("unknown");
    assert("Error"@.len() != "unknown"@.len());
    assert(builtin_view("Error"@) != unknown_view());
}

/// Subtyping follows declared supertypes: a type extends `base` when one of
/// its declared supertypes does, and does not when each of them surely
/// does not.
pub proof fn law_subtype_through_declarations(
    supers: Map<ErrorTypeView, Set<ErrorTypeView>>,
    ty: ErrorTypeView,
    base: ErrorTypeView,
    seen: Set<ErrorTypeView>,
)
    requires
        supers.dom().finite(),
        supers.contains_key(ty),
        supers[ty].finite(),
        ty != unknown_view(),
        base != unknown_view(),
        ty != base,
        !seen.contains(ty),
    ensures
        (exists|b: ErrorTypeView| supers[ty].contains(b) && #[trigger] spec_subtype(supers, b, base, seen.insert(ty)) == Some(true))
            ==> spec_subtype(supers, ty, base, seen) == Some(true),
        (forall|b: ErrorTypeView| supers[ty].contains(b) ==> #[trigger] spec_subtype(supers, b, base, seen.insert(ty)) == Some(false))
            ==> spec_subtype(supers, ty, base, seen) == Some(false),
{
    lemma_base_answers(supers, supers[ty], base, seen.insert(ty));
}

/// Whether some of `bases` extends `base`, and whether for some it cannot be
/// known, each followed with `seen`.
pub open spec fn base_answers(
    supers: Map<ErrorTypeView, Set<ErrorTypeView>>,
    bases: Set<ErrorTypeView>,
    base: ErrorTypeView,
    seen: Set<ErrorTypeView>,
) -> (bool, bool)
    decreases supers.dom().difference(seen).len(), bases.len() + 1,
    when supers.dom().finite() && bases.finite()
{
    if bases.is_empty() {
        (false, false)
    } else {
        let b = bases.choose();
        let answer = spec_subtype(supers, b, base, seen);
        let rest = base_answers(supers, bases.remove(b), base, seen);
        (rest.0 || answer == Some(true), rest.1 || answer is None)
    }
}

/// `base_answers` asks each of the bases.
pub proof fn lemma_base_answers(
    supers: Map<ErrorTypeView, Set<ErrorTypeView>>,
    bases: Set<ErrorTypeView>,
    base: ErrorTypeView,
    seen: Set<ErrorTypeView>,
)
    requires
        supers.dom().finite(),
        bases.finite(),
    ensures
        base_answers(supers, bases, base, seen).0 == exists|b: ErrorTypeView|
            bases.contains(b) && #[trigger] spec_subtype(supers, b, base, seen) == Some(true),
        base_answers(supers, bases, base, seen).1 == exists|b: ErrorTypeView|
            bases.contains(b) && #[trigger] spec_subtype(supers, b, base, seen) is None,
    decreases bases.len(),
{
    if !bases.is_empty() {
        let b = bases.choose();
        let rest = bases.remove(b);
        assert(bases.contains(b));
        lemma_base_answers(supers, rest, base, seen);
        let answer = spec_subtype(supers, b, base, seen);
        assert(base_answers(supers, bases, base, seen) == (
            base_answers(supers, rest, base, seen).0 || answer == Some(true),
            base_answers(supers, rest, base, seen).1 || answer is None,
        ));
        if exists|c: ErrorTypeView| bases.contains(c) && #[trigger] spec_subtype(supers, c, base, seen) == Some(true) {
            let c = choose|c: ErrorTypeView| bases.contains(c) && #[trigger] spec_subtype(supers, c, base, seen) == Some(true);
            if c != b {
                assert(rest.contains(c));
            }
        }
        if exists|c: ErrorTypeView| bases.contains(c) && #[trigger] spec_subtype(supers, c, base, seen) is None {
            let c = choose|c: ErrorTypeView| bases.contains(c) && #[trigger] spec_subtype(supers, c, base, seen) is None;
            if c != b {
                assert(rest.contains(c));
            }
        }
    } else {
        assert(base_answers(supers, bases, base, seen) == (false, false));
    }
}

/// Adding a member of `d` to `seen` shrinks what is left of `d`.
pub proof fn lemma_difference_shrinks(d: Set<ErrorTypeView>, seen: Set<ErrorTypeView>, t: ErrorTypeView)
    requires
        d.finite(),
        d.contains(t),
        !seen.contains(t),
    ensures
        d.difference(seen.insert(t)).len() < d.difference(seen).len(),
{
    d.lemma_set_insert_diff_decreases(seen, t);
}

impl EscSuperTypes {
    #[verifier::type_invariant]
    spec fn inv(self) -> bool {
        forall|a: int, b: int|
            0 <= a < b < self.entries@.len() ==> self.entries@[a].0@ != self.entries@[b].0@
    }

    /// No declared supertypes.
    pub fn new() -> (r: Self)
        ensures
            r@ == Map::<ErrorTypeView, Set<ErrorTypeView>>::empty(),
    {
        EscSuperTypes { entries: Vec::new() }
    }

    /// Records the direct supertypes of `ty`, replacing earlier ones.
    pub fn insert(&mut self, ty: EscErrorType, bases: Types)
        ensures
            final(self)@ == old(self)@.insert(ty@, bases@),
    {
        proof {
            use_type_invariant(&*self);
        }
        let mut entries: Vec<(EscErrorType, Types)> = Vec::new();
        std::mem::swap(&mut entries, &mut self.entries);
        let ghost before = entries@;
        let ghost tv = ty@;
        let ghost bv = bases@;
        match position(&entries, &ty) {
            Some(i) => {
                entries.remove(i);
                proof {
                    lemma_supers_map_remove(before, i as int);
                    lemma_supers_map_dom(entries@, tv);
                    lemma_supers_map_push(entries@, (ty, bases));
                    assert(supers_map(entries@).insert(tv, bv) =~= supers_map(before).insert(tv, bv));
                }
            },
            None => {
                proof {
                    lemma_supers_map_push(entries@, (ty, bases));
                }
            },
        }
        entries.push((ty, bases));
        self.entries = entries;
    }

    /// The direct supertypes of `ty`, if it is a declared class.
    pub fn get(&self, ty: &EscErrorType) -> (r: Option<&Types>)
        ensures
            r is Some <==> self@.contains_key(ty@),
            r matches Some(b) ==> b@ == self@[ty@],
    {
        proof {
            use_type_invariant(self);
        }
        match position(&self.entries, ty) {
            Some(k) => {
                proof {
                    lemma_supers_map_index(self.entries@, k as int);
                }
                Some(&self.entries[k].1)
            },
            None => None,
        }
    }

    /// Whether `ty` extends `base`, as `spec_subtype` says, starting from an
    /// empty path.
    pub fn subtype(&self, ty: &EscErrorType, base: &EscErrorType) -> (r: Option<bool>)
        ensures
            r == spec_subtype(self@, ty@, base@, Set::empty()),
    {
        let mut seen: Vec<EscErrorType> = Vec::new();
        assert(views(seen@).to_set() =~= Set::<ErrorTypeView>::empty());
        self.subtype_from(ty, base, &mut seen)
    }

    #[verifier::rlimit(60)]
    #[verifier::spinoff_prover]
    fn subtype_from(&self, ty: &EscErrorType, base: &EscErrorType, seen: &mut Vec<EscErrorType>) -> (r: Option<bool>)
        ensures
            r == spec_subtype(self@, ty@, base@, views(old(seen)@).to_set()),
            views(final(seen)@) == views(old(seen)@),
        decreases self@.dom().difference(views(old(seen)@).to_set()).len(),
    {
        proof {
            use_type_invariant(self);
            lemma_supers_map_dom(self.entries@, ty@);
        }
        let ghost s0 = views(seen@).to_set();
        assert(self@.dom().finite());
        if ty.same(&EscErrorType::unknown()) || base.same(&EscErrorType::unknown()) {
            return None;
        }
        if ty.same(base) {
            return Some(true);
        }
        if contains_type(seen, ty) {
            return None;
        }
        match self.get(ty) {
            Some(bases) => {
                let ghost next = s0.insert(ty@);
                let ghost before = seen@;
                seen.push(ty.duplicate());
                proof {
                    assert(views(seen@) =~= views(before).push(ty@));
                    assert(views(seen@).to_set() =~= next);
                    lemma_difference_shrinks(self@.dom(), s0, ty@);
                }
                let list = bases.to_vec();
                let mut any_true = false;
                let mut any_none = false;
                let mut k: usize = 0;
                while k < list.len()
                    invariant
                        0 <= k <= list@.len(),
                        views(seen@).to_set() == next,
                        views(seen@) == views(before).push(ty@),
                        s0 == views(old(seen)@).to_set(),
                        self@.dom().finite(),
                        self@.dom().difference(next).len() < self@.dom().difference(s0).len(),
                        any_true == exists|j: int| 0 <= j < k && spec_subtype(self@, #[trigger] list@[j]@, base@, next) == Some(true),
                        any_none == exists|j: int| 0 <= j < k && spec_subtype(self@, #[trigger] list@[j]@, base@, next) is None,
                    decreases list@.len() - k,
                {
                    let answer = self.subtype_from(&list[k], base, seen);
                    match answer {
                        Some(true) => { any_true = true; },
                        None => { any_none = true; },
                        Some(false) => {},
                    }
                    k = k + 1;
                }
                let ghost after = seen@;
                seen.pop();
                proof {
                    assert(views(seen@) =~= views(after).drop_last());
                    assert(views(seen@) =~= views(before));
                    let bs = self@[ty@];
                    assert(views(list@).to_set() == bs);
                    assert(any_true == exists|b: ErrorTypeView| bs.contains(b) && #[trigger] spec_subtype(self@, b, base@, next) == Some(true)) by {
                        if any_true {
                            let j = choose|j: int| 0 <= j < list@.len() && spec_subtype(self@, #[trigger] list@[j]@, base@, next) == Some(true);
                            assert(views(list@)[j] == list@[j]@);
                            assert(bs.contains(list@[j]@));
                        }
                        if exists|b: ErrorTypeView| bs.contains(b) && #[trigger] spec_subtype(self@, b, base@, next) == Some(true) {
                            let b = choose|b: ErrorTypeView| bs.contains(b) && #[trigger] spec_subtype(self@, b, base@, next) == Some(true);
                            let j = choose|j: int| 0 <= j < views(list@).len() && views(list@)[j] == b;
                            assert(list@[j]@ == b);
                        }
                    }
                    assert(any_none == exists|b: ErrorTypeView| bs.contains(b) && #[trigger] spec_subtype(self@, b, base@, next) is None) by {
                        if any_none {
                            let j = choose|j: int| 0 <= j < list@.len() && spec_subtype(self@, #[trigger] list@[j]@, base@, next) is None;
                            assert(views(list@)[j] == list@[j]@);
                            assert(bs.contains(list@[j]@));
                        }
                        if exists|b: ErrorTypeView| bs.contains(b) && #[trigger] spec_subtype(self@, b, base@, next) is None {
                            let b = choose|b: ErrorTypeView| bs.contains(b) && #[trigger] spec_subtype(self@, b, base@, next) is None;
                            let j = choose|j: int| 0 <= j < views(list@).len() && views(list@)[j] == b;
                            assert(list@[j]@ == b);
                        }
                    }
                }
                assert(self@.contains_key(ty@));
                assert(!s0.contains(ty@));
                assert(ty@ != base@);
                let r = if any_true {
                    Some(true)
                } else if any_none {
                    None
                } else {
                    Some(false)
                };
                proof {
                    lemma_base_answers(self@, self@[ty@], base@, next);
                }
                assert(r == spec_subtype(self@, ty@, base@, s0));
                if any_true {
                    Some(true)
                } else if any_none {
                    None
                } else {
                    Some(false)
                }
            },
            None => {
                let is_error = base.same(&EscErrorType::builtin("Error"));
                let constructs = match ty.builtin_name() {
                    Some(name) => EscErrorType::constructor(name).is_some(),
                    None => false,
                };
                assert(!self@.contains_key(ty@));
                assert(Some(is_error && constructs) == spec_subtype(self@, ty@, base@, s0));
                Some(is_error && constructs)
            },
        }
    }
}

/// The position of the entry for `ty`, if any.
fn position(entries: &Vec<(EscErrorType, Types)>, ty: &EscErrorType) -> (r: Option<usize>)
    ensures
        r is Some <==> supers_map(entries@).contains_key(ty@),
        r matches Some(i) ==> i < entries@.len() && entries@[i as int].0@ == ty@,
{
    let mut k: usize = 0;
    while k < entries.len()
        invariant
            0 <= k <= entries@.len(),
            forall|j: int| 0 <= j < k ==> entries@[j].0@ != ty@,
        decreases entries@.len() - k,
    {
        if entries[k].0.same(ty) {
            proof {
                lemma_supers_map_dom(entries@, ty@);
            }
            return Some(k);
        }
        k = k + 1;
    }
    proof {
        lemma_supers_map_dom(entries@, ty@);
    }
    None
}

/// Whether a type occurs in a vector.
fn contains_type(v: &Vec<EscErrorType>, t: &EscErrorType) -> (r: bool)
    ensures
        r == views(v@).to_set().contains(t@),
{
    let mut k: usize = 0;
    while k < v.len()
        invariant
            0 <= k <= v@.len(),
            forall|j: int| 0 <= j < k ==> v@[j]@ != t@,
        decreases v@.len() - k,
    {
        if v[k].same(t) {
            assert(views(v@)[k as int] == t@);
            return true;
        }
        k = k + 1;
    }
    proof {
        if views(v@).to_set().contains(t@) {
            let j = choose|j: int| 0 <= j < views(v@).len() && views(v@)[j] == t@;
            assert(v@[j]@ == t@);
        }
    }
    false
}

/// Whether `instanceof` narrowing keeps the type `t` against the bases that
/// the right operand may denote: when some answer is unknown; otherwise, in
/// the branch where the test holds, when `t` extends some base, and in the
/// other branch, when some base is not among its supertypes.
pub open spec fn narrow_keeps(supers: Map<ErrorTypeView, Set<ErrorTypeView>>, t: ErrorTypeView, bases: Seq<ErrorTypeView>, positive: bool) -> bool {
    if exists|k: int| 0 <= k < bases.len() && #[trigger] spec_subtype(supers, t, bases[k], Set::empty()) is None {
        true
    } else if positive {
        exists|k: int| 0 <= k < bases.len() && #[trigger] spec_subtype(supers, t, bases[k], Set::empty()) == Some(true)
    } else {
        exists|k: int| 0 <= k < bases.len() && #[trigger] spec_subtype(supers, t, bases[k], Set::empty()) == Some(false)
    }
}

/// The types that an `instanceof` test against `bases` keeps in one branch;
/// `None` when it keeps none, so that the branch cannot be taken.
pub fn narrow_types(types: &Types, bases: &Vec<EscErrorType>, supers: &EscSuperTypes, positive: bool) -> (r: Option<Types>)
    ensures
        ({
            let kept = types@.filter(|t: ErrorTypeView| narrow_keeps(supers@, t, views(bases@), positive));
            &&& r is None <==> kept == Set::<ErrorTypeView>::empty()
            &&& r matches Some(k) ==> k@ == kept
        }),
{
    let ghost bv = views(bases@);
    let all = types.to_vec();
    let ghost av = views(all@);
    let mut kept = Types::new();
    let mut i: usize = 0;
    while i < all.len()
        invariant
            bv == views(bases@),
            av == views(all@),
            av.to_set() == types@,
            0 <= i <= all@.len(),
            kept@ == av.take(i as int).to_set().filter(|t: ErrorTypeView| narrow_keeps(supers@, t, bv, positive)),
        decreases all@.len() - i,
    {
        let t = &all[i];
        let mut unknown = false;
        let mut yes = false;
        let mut no = false;
        let mut k: usize = 0;
        while k < bases.len()
            invariant
                bv == views(bases@),
                0 <= k <= bases@.len(),
                unknown == exists|j: int| 0 <= j < k && #[trigger] spec_subtype(supers@, t@, bv[j], Set::empty()) is None,
                yes == exists|j: int| 0 <= j < k && #[trigger] spec_subtype(supers@, t@, bv[j], Set::empty()) == Some(true),
                no == exists|j: int| 0 <= j < k && #[trigger] spec_subtype(supers@, t@, bv[j], Set::empty()) == Some(false),
            decreases bases@.len() - k,
        {
            let answer = supers.subtype(t, &bases[k]);
            assert(bv[k as int] == bases@[k as int]@);
            match answer {
                None => {
                    unknown = true;
                },
                Some(true) => {
                    yes = true;
                },
                Some(false) => {
                    no = true;
                },
            }
            k = k + 1;
        }
        let keep = unknown || (if positive {
            yes
        } else {
            no
        });
        assert(keep == narrow_keeps(supers@, t@, bv, positive));
        let ghost before = kept@;
        if keep {
            kept.insert(t.duplicate());
        }
        proof {
            assert(av.take(i + 1) =~= av.take(i as int).push(t@));
            assert(av[i as int] == t@);
            assert(kept@ =~= av.take(i + 1).to_set().filter(|t: ErrorTypeView| narrow_keeps(supers@, t, bv, positive)));
        }
        i = i + 1;
    }
    assert(av.take(i as int) =~= av);
    if kept.is_empty() {
        None
    } else {
        Some(kept)
    }
}

} // verus!
