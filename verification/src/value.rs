//! Abstract values of the may-throw analysis: the possible types of a value,
//! the errors it defers (rejections of a promise or iterator), what awaiting
//! it yields, the types of its array elements, the standard globals it may be,
//! and whether it may be falsy or truthy.
use crate::error::{builtin_view, unknown_view, ErrorTypeView, EscErrorType};
use crate::globals::{string_views, EscGlobal};
use crate::set::Types;
use crate::text::str_eq;
use vstd::prelude::*;

verus! {

broadcast use vstd::seq_lib::group_seq_properties, vstd::set_lib::group_set_properties;

/// Bit 0 of `truth`: the value may be falsy.
pub const MAY_BE_FALSY: u8 = 1;

/// Bit 1 of `truth`: the value may be truthy.
pub const MAY_BE_TRUTHY: u8 = 2;

/// The mathematical value of an abstract value.
#[verifier::ext_equal]
pub struct ValueView {
    pub types: Set<ErrorTypeView>,
    pub deferred: Set<ErrorTypeView>,
    pub awaited: Set<ErrorTypeView>,
    pub elements: Set<ErrorTypeView>,
    pub globals: Set<Seq<char>>,
    pub nonglobal: bool,
    pub truth: u8,
}

/// The least upper bound of two abstract values: every component is the union
/// of the components, and the truth bits are combined.
pub open spec fn join_view(a: ValueView, b: ValueView) -> ValueView {
    ValueView {
        types: a.types.union(b.types),
        deferred: a.deferred.union(b.deferred),
        awaited: a.awaited.union(b.awaited),
        elements: a.elements.union(b.elements),
        globals: a.globals.union(b.globals),
        nonglobal: a.nonglobal || b.nonglobal,
        truth: a.truth | b.truth,
    }
}

/// The view with no possibilities at all.
pub open spec fn bottom_view() -> ValueView {
    ValueView {
        types: Set::empty(),
        deferred: Set::empty(),
        awaited: Set::empty(),
        elements: Set::empty(),
        globals: Set::empty(),
        nonglobal: false,
        truth: 0,
    }
}

/// The paths held in a vector of strings.
pub open spec fn path_set(s: Seq<String>) -> Set<Seq<char>> {
    string_views(s).to_set()
}

/// An abstract value.
#[derive(Debug)]
pub struct Value {
    pub types: Types,
    /// Deferred failures of a promise or iterator, not synchronous call errors.
    pub deferred: Types,
    pub awaited: Types,
    /// Array element identities stay shallow so recursive interfaces remain finite.
    pub elements: Types,
    pub globals: Vec<String>,
    pub nonglobal: bool,
    /// Bit 0: may be falsy; bit 1: may be truthy.
    pub truth: u8,
}

impl View for Value {
    type V = ValueView;

    open spec fn view(&self) -> ValueView {
        ValueView {
            types: self.types@,
            deferred: self.deferred@,
            awaited: self.awaited@,
            elements: self.elements@,
            globals: path_set(self.globals@),
            nonglobal: self.nonglobal,
            truth: self.truth,
        }
    }
}

/// Whether a path occurs in a vector of paths.
fn has_path(paths: &Vec<String>, path: &str) -> (r: bool)
    ensures
        r == path_set(paths@).contains(path@),
{
    let mut k: usize = 0;
    while k < paths.len()
        invariant
            0 <= k <= paths@.len(),
            forall|j: int| 0 <= j < k ==> paths@[j]@ != path@,
        decreases paths@.len() - k,
    {
        if str_eq(paths[k].as_str(), path) {
            proof {
                assert(string_views(paths@)[k as int] == path@);
            }
            return true;
        }
        k = k + 1;
    }
    proof {
        if path_set(paths@).contains(path@) {
            let j = choose|j: int|
                0 <= j < paths@.len() && string_views(paths@)[j] == path@;
            assert(paths@[j]@ == path@);
        }
    }
    false
}

/// Adds the paths of `incoming` to `target`.
fn join_paths(target: &mut Vec<String>, incoming: Vec<String>)
    ensures
        path_set(final(target)@) == path_set(old(target)@).union(path_set(incoming@)),
{
    let ghost start = path_set(target@);
    let mut k: usize = 0;
    assert(string_views(incoming@.take(0)).to_set() =~= Set::<Seq<char>>::empty());
    while k < incoming.len()
        invariant
            0 <= k <= incoming@.len(),
            path_set(target@) == start.union(path_set(incoming@.take(k as int))),
        decreases incoming@.len() - k,
    {
        let ghost before = target@;
        let present = has_path(target, incoming[k].as_str());
        proof {
            assert(incoming@.take(k + 1) =~= incoming@.take(k as int).push(incoming@[k as int]));
            assert(string_views(incoming@.take(k + 1)) =~= string_views(incoming@.take(
                k as int,
            )).push(incoming@[k as int]@));
            assert(path_set(incoming@.take(k + 1)) =~= path_set(incoming@.take(k as int)).insert(
                incoming@[k as int]@,
            ));
        }
        if !present {
            target.push(incoming[k].clone());
            proof {
                assert(string_views(target@) =~= string_views(before).push(incoming@[k as int]@));
                assert(path_set(target@) =~= path_set(before).insert(incoming@[k as int]@));
            }
        }
        proof {
            assert(path_set(target@) =~= start.union(path_set(incoming@.take(k + 1))));
        }
        k = k + 1;
    }
    assert(incoming@.take(incoming@.len() as int) =~= incoming@);
}

impl Value {
    /// The value with no possibilities.
    pub fn bottom() -> (r: Self)
        ensures
            r@ == bottom_view(),
    {
        let r = Value {
            types: Types::new(),
            deferred: Types::new(),
            awaited: Types::new(),
            elements: Types::new(),
            globals: Vec::new(),
            nonglobal: false,
            truth: 0,
        };
        assert(path_set(r.globals@) =~= Set::<Seq<char>>::empty());
        r
    }

    /// A non-global value of the given types, possibly falsy or truthy.
    pub fn of_types(types: Types) -> (r: Self)
        ensures
            r@ == (ValueView {
                types: types@,
                nonglobal: true,
                truth: 3,
                ..bottom_view()
            }),
    {
        let r = Value {
            types,
            deferred: Types::new(),
            awaited: Types::new(),
            elements: Types::new(),
            globals: Vec::new(),
            nonglobal: true,
            truth: 3,
        };
        assert(path_set(r.globals@) =~= Set::<Seq<char>>::empty());
        r
    }

    /// A value of the builtin type `name`.
    pub fn builtin(name: &str) -> (r: Self)
        ensures
            r@ == (ValueView {
                types: Set::empty().insert(builtin_view(name@)),
                nonglobal: true,
                truth: 3,
                ..bottom_view()
            }),
    {
        let mut types = Types::new();
        types.insert(EscErrorType::builtin(name));
        Value::of_types(types)
    }

    /// A value about which nothing is known.
    pub fn unknown() -> (r: Self)
        ensures
            r@ == (ValueView {
                types: Set::empty().insert(unknown_view()),
                nonglobal: true,
                truth: 3,
                ..bottom_view()
            }),
    {
        Value::builtin("unknown")
    }

    /// The value `undefined`, which is falsy.
    pub fn undefined() -> (r: Self)
        ensures
            r@ == (ValueView {
                types: Set::empty().insert(builtin_view("undefined"@)),
                nonglobal: true,
                truth: 1,
                ..bottom_view()
            }),
    {
        let mut r = Value::builtin("undefined");
        r.truth = 1;
        r
    }

    /// A boolean that is known to be `value`.
    pub fn boolean(value: bool) -> (r: Self)
        ensures
            r@ == (ValueView {
                types: Set::empty().insert(builtin_view("boolean"@)),
                nonglobal: true,
                truth: if value {
                    2
                } else {
                    1
                },
                ..bottom_view()
            }),
    {
        let mut r = Value::builtin("boolean");
        r.truth = if value {
            2
        } else {
            1
        };
        r
    }

    /// The value of a standard global: functions and objects are tracked by
    /// their path and are truthy; other globals are values of their type.
    pub fn global(global: &EscGlobal) -> (r: Self)
        ensures
            (global.value_type@ != "Function"@ && global.value_type@ != "object"@) ==> r@ == (
            ValueView {
                types: Set::empty().insert(builtin_view(global.value_type@)),
                nonglobal: true,
                truth: 3,
                ..bottom_view()
            }),
            (global.value_type@ == "Function"@ || global.value_type@ == "object"@) ==> r@ == (
            ValueView {
                types: Set::empty().insert(builtin_view(global.value_type@)),
                globals: Set::empty().insert(global.path@),
                nonglobal: false,
                truth: 2,
                ..bottom_view()
            }),
    {
        let kind = global.value_type.as_str();
        if !str_eq(kind, "Function") && !str_eq(kind, "object") {
            return Value::builtin(kind);
        }
        let mut types = Types::new();
        types.insert(EscErrorType::builtin(kind));
        let r = Value {
            types,
            deferred: Types::new(),
            awaited: Types::new(),
            elements: Types::new(),
            globals: vec![global.path.clone()],
            nonglobal: false,
            truth: 2,
        };
        proof {
            assert(string_views(r.globals@) =~= seq![global.path@]);
            assert(path_set(r.globals@) =~= Set::<Seq<char>>::empty().insert(global.path@)) by {
                assert(string_views(r.globals@)[0] == global.path@);
            }
        }
        r
    }

    /// Whether every possible type is `undefined`, `null`, `boolean`, `number` or `string`.
    pub fn plain_primitive(&self) -> (r: bool)
        ensures
            r == (forall|t: ErrorTypeView|
                self@.types.contains(t) ==> crate::set::is_plain_primitive(t)),
    {
        self.types.plain_primitive()
    }

    /// Widens this value by every possibility of `other`.
    pub fn join(&mut self, other: Self)
        ensures
            final(self)@ == join_view(old(self)@, other@),
    {
        self.types.join(other.types);
        self.deferred.join(other.deferred);
        self.awaited.join(other.awaited);
        self.elements.join(other.elements);
        join_paths(&mut self.globals, other.globals);
        self.nonglobal = self.nonglobal || other.nonglobal;
        self.truth = self.truth | other.truth;
    }

    /// A copy with the same view.
    pub fn duplicate(&self) -> (r: Self)
        ensures
            r@ == self@,
    {
        let mut globals: Vec<String> = Vec::new();
        let mut k: usize = 0;
        while k < self.globals.len()
            invariant
                0 <= k <= self.globals@.len(),
                globals@ == self.globals@.take(k as int),
            decreases self.globals@.len() - k,
        {
            globals.push(self.globals[k].clone());
            k = k + 1;
            assert(globals@ =~= self.globals@.take(k as int));
        }
        assert(self.globals@.take(self.globals@.len() as int) =~= self.globals@);
        Value {
            types: self.types.duplicate(),
            deferred: self.deferred.duplicate(),
            awaited: self.awaited.duplicate(),
            elements: self.elements.duplicate(),
            globals,
            nonglobal: self.nonglobal,
            truth: self.truth,
        }
    }

    /// Whether two values have the same view.
    pub fn same(&self, other: &Self) -> (r: bool)
        ensures
            r == (self@ == other@),
    {
        let globals = same_paths(&self.globals, &other.globals);
        let r = self.types.same(&other.types) && self.deferred.same(&other.deferred)
            && self.awaited.same(&other.awaited) && self.elements.same(&other.elements) && globals
            && self.nonglobal == other.nonglobal && self.truth == other.truth;
        proof {
            if r {
                assert(self@ =~= other@);
            }
        }
        r
    }
}

/// Whether two vectors hold the same set of paths.
fn same_paths(a: &Vec<String>, b: &Vec<String>) -> (r: bool)
    ensures
        r == (path_set(a@) == path_set(b@)),
{
    let r = subset_paths(a, b) && subset_paths(b, a);
    proof {
        if r {
            assert(path_set(a@) =~= path_set(b@));
        }
    }
    r
}

/// Whether every path of `a` occurs in `b`.
fn subset_paths(a: &Vec<String>, b: &Vec<String>) -> (r: bool)
    ensures
        r == path_set(a@).subset_of(path_set(b@)),
{
    let mut k: usize = 0;
    while k < a.len()
        invariant
            0 <= k <= a@.len(),
            forall|j: int| 0 <= j < k ==> path_set(b@).contains(#[trigger] a@[j]@),
        decreases a@.len() - k,
    {
        if !has_path(b, a[k].as_str()) {
            proof {
                assert(string_views(a@)[k as int] == a@[k as int]@);
                assert(path_set(a@).contains(a@[k as int]@));
            }
            return false;
        }
        k = k + 1;
    }
    proof {
        assert forall|p: Seq<char>| path_set(a@).contains(p) implies path_set(b@).contains(p) by {
            let j = choose|j: int| 0 <= j < a@.len() && string_views(a@)[j] == p;
            assert(a@[j]@ == p);
        }
    }
    true
}

impl Clone for Value {
    fn clone(&self) -> (r: Self)
        ensures
            r@ == self@,
    {
        self.duplicate()
    }
}

impl PartialEq for Value {
    fn eq(&self, other: &Self) -> (r: bool) {
        self.same(other)
    }
}

impl vstd::std_specs::cmp::PartialEqSpecImpl for Value {
    open spec fn obeys_eq_spec() -> bool {
        true
    }

    open spec fn eq_spec(&self, other: &Self) -> bool {
        self@ == other@
    }
}

impl Eq for Value {

}

impl Default for Value {
    fn default() -> (r: Self)
        ensures
            r@ == bottom_view(),
    {
        Value::bottom()
    }
}

proof fn lemma_truth_or(x: u8, y: u8, z: u8)
    by (bit_vector)
    ensures
        x | y == y | x,
        (x | y) | z == x | (y | z),
        x | x == x,
        x | 0 == x,
{
}

/// Joining abstract values is commutative.
pub proof fn law_join_commutative(a: ValueView, b: ValueView)
    ensures
        join_view(a, b) == join_view(b, a),
{
    lemma_truth_or(a.truth, b.truth, 0);
    assert(join_view(a, b) =~= join_view(b, a));
}

/// Joining abstract values is associative.
pub proof fn law_join_associative(a: ValueView, b: ValueView, c: ValueView)
    ensures
        join_view(join_view(a, b), c) == join_view(a, join_view(b, c)),
{
    lemma_truth_or(a.truth, b.truth, c.truth);
    assert(join_view(join_view(a, b), c) =~= join_view(a, join_view(b, c)));
}

/// Joining an abstract value with itself changes nothing.
pub proof fn law_join_idempotent(a: ValueView)
    ensures
        join_view(a, a) == a,
{
    lemma_truth_or(a.truth, a.truth, 0);
    assert(join_view(a, a) =~= a);
}

/// The value with no possibilities is the identity of joining.
pub proof fn law_join_bottom(a: ValueView)
    ensures
        join_view(a, bottom_view()) == a,
{
    lemma_truth_or(a.truth, 0, 0);
    assert(join_view(a, bottom_view()) =~= a);
}

} // verus!
