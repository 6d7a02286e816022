//! Environments of the may-throw analysis: persistent ordered maps from
//! bindings to abstract values. Unchanged branches are shared between copies,
//! so joining two environments costs in proportion to their difference.
use crate::error::unknown_view;
use crate::value::{bottom_view, join_view, Value, ValueView};
use vstd::prelude::*;

verus! {

#[verifier::external_type_specification]
#[verifier::external_body]
#[verifier::reject_recursive_types(K)]
#[verifier::reject_recursive_types(V)]
pub struct ExOrdMap<K, V>(im::OrdMap<K, V>);

/// An environment: abstract values by binding.
pub type Env = im::OrdMap<u32, Value>;

/// The bindings an environment holds, each value taken by its view.
pub uninterp spec fn env_entries(env: Env) -> Map<u32, ValueView>;

/// The view of a value about which nothing is known.
pub open spec fn unknown_value_view() -> ValueView {
    ValueView {
        types: Set::empty().insert(unknown_view()),
        nonglobal: true,
        truth: 3,
        ..bottom_view()
    }
}

/// The join of two environments: a binding of both holds the join of its two
/// values; a binding of only one may also be anything at all.
pub open spec fn join_env_view(a: Map<u32, ValueView>, b: Map<u32, ValueView>) -> Map<
    u32,
    ValueView,
> {
    Map::new(
        |k: u32| a.contains_key(k) || b.contains_key(k),
        |k: u32|
            if a.contains_key(k) && b.contains_key(k) {
                join_view(a[k], b[k])
            } else if a.contains_key(k) {
                join_view(a[k], unknown_value_view())
            } else {
                join_view(b[k], unknown_value_view())
            },
    )
}

/// Whether two environments disagree on a binding.
pub open spec fn differs_at(a: Map<u32, ValueView>, b: Map<u32, ValueView>, k: u32) -> bool {
    a.contains_key(k) != b.contains_key(k) || (a.contains_key(k) && b.contains_key(k) && a[k]
        != b[k])
}

/// One entry of the difference between an old and a new environment.
pub enum EnvChange<'a> {
    /// The binding is only in the new environment.
    Add(u32, &'a Value),
    /// The binding is in both, with different values: old, then new.
    Update(u32, &'a Value, &'a Value),
    /// The binding is only in the old environment.
    Remove(u32, &'a Value),
}

/// The binding a change is about.
pub open spec fn change_key(c: EnvChange) -> u32 {
    match c {
        EnvChange::Add(k, _) => k,
        EnvChange::Update(k, _, _) => k,
        EnvChange::Remove(k, _) => k,
    }
}

/// Whether a change describes the difference of `a` and `b` at its binding.
pub open spec fn change_of(a: Map<u32, ValueView>, b: Map<u32, ValueView>, c: EnvChange) -> bool {
    match c {
        EnvChange::Add(k, v) => !a.contains_key(k) && b.contains_key(k) && v@ == b[k],
        EnvChange::Update(k, o, n) => a.contains_key(k) && b.contains_key(k) && o@ == a[k] && n@
            == b[k] && a[k] != b[k],
        EnvChange::Remove(k, v) => a.contains_key(k) && !b.contains_key(k) && v@ == a[k],
    }
}

/// `im::OrdMap::new`: an environment without bindings.
#[verifier::external_body]
pub(crate) fn env_new() -> (r: Env)
    ensures
        env_entries(r).is_empty(),
{
    im::OrdMap::new()
}

/// An environment without bindings.
pub fn empty_env() -> (r: Env)
    ensures
        env_entries(r) == Map::<u32, ValueView>::empty(),
{
    let r = env_new();
    assert(env_entries(r) =~= Map::<u32, ValueView>::empty());
    r
}

/// Binds `key` to `value` in `env`, replacing an earlier binding.
pub fn bind(env: &mut Env, key: u32, value: Value)
    ensures
        env_entries(*final(env)) == env_entries(*old(env)).insert(key, value@),
{
    env_insert(env, key, value);
}

/// The value that `env` binds to `key`, if any.
pub fn lookup(env: &Env, key: u32) -> (r: Option<&Value>)
    ensures
        r is Some <==> env_entries(*env).contains_key(key),
        r matches Some(v) ==> v@ == env_entries(*env)[key],
{
    env_get(env, key)
}

/// `im::OrdMap::get`: the value bound to `key`, if any.
#[verifier::external_body]
pub(crate) fn env_get(env: &Env, key: u32) -> (r: Option<&Value>)
    ensures
        r is Some <==> env_entries(*env).contains_key(key),
        r matches Some(v) ==> v@ == env_entries(*env)[key],
{
    env.get(&key)
}

/// `im::OrdMap::insert`: binds `key` to `value`, replacing an earlier binding.
#[verifier::external_body]
pub(crate) fn env_insert(env: &mut Env, key: u32, value: Value)
    ensures
        env_entries(*final(env)) == env_entries(*old(env)).insert(key, value@),
{
    env.insert(key, value);
}

/// `im::OrdMap::ptr_eq`: true only where both maps share one root, which
/// implies that they hold the same bindings. A false answer says nothing.
#[verifier::external_body]
pub(crate) fn env_ptr_eq(a: &Env, b: &Env) -> (r: bool)
    ensures
        r ==> env_entries(*a) == env_entries(*b),
{
    a.ptr_eq(b)
}

/// `im::OrdMap::clone`: a copy that shares the original's tree.
#[verifier::external_body]
pub(crate) fn env_clone(env: &Env) -> (r: Env)
    ensures
        env_entries(r) == env_entries(*env),
{
    env.clone()
}

/// `im::OrdMap::diff`: the bindings on which `a` and `b` differ, in ascending
/// order of binding. Values are compared with `==`, which compares views.
#[verifier::external_body]
pub(crate) fn env_diff<'a>(a: &'a Env, b: &'a Env) -> (r:
    Vec<EnvChange<'a>>)
    ensures
        forall|i: int| 0 <= i < r@.len() ==> change_of(env_entries(*a), env_entries(*b), r@[i]),
        forall|k: u32|
            differs_at(env_entries(*a), env_entries(*b), k) ==> exists|i: int|
                0 <= i < r@.len() && change_key(r@[i]) == k,
        forall|i: int, j: int|
            0 <= i < j < r@.len() ==> change_key(r@[i]) < change_key(r@[j]),
{
    a.diff(b).map(
        |item| match item {
            im::ordmap::DiffItem::Add(k, v) => EnvChange::Add(*k, v),
            im::ordmap::DiffItem::Update { old: (k, o), new: (_, n) } => EnvChange::Update(
                *k,
                o,
                n,
            ),
            im::ordmap::DiffItem::Remove(k, v) => EnvChange::Remove(*k, v),
        },
    ).collect()
}

/// `im::OrdMap::len`: how many bindings the environment holds.
#[verifier::external_body]
pub(crate) fn env_len(env: &Env) -> (r: usize)
    ensures
        r == env_entries(*env).dom().len(),
{
    env.len()
}

/// `im::OrdMap::keys`: the bound keys, from lowest to highest.
#[verifier::external_body]
pub(crate) fn env_keys(env: &Env) -> (r: Vec<u32>)
    ensures
        forall|i: int| 0 <= i < r@.len() ==> env_entries(*env).contains_key(r@[i]),
        forall|k: u32| env_entries(*env).contains_key(k) ==> r@.contains(k),
        forall|i: int, j: int| 0 <= i < j < r@.len() ==> r@[i] < r@[j],
{
    env.keys().copied().collect()
}

/// Whether two environments hold the same bindings.
pub fn env_same(a: &Env, b: &Env) -> (r: bool)
    ensures
        r == (env_entries(*a) == env_entries(*b)),
{
    if env_ptr_eq(a, b) {
        return true;
    }
    let changes = env_diff(a, b);
    let r = changes.len() == 0;
    proof {
        let x = env_entries(*a);
        let y = env_entries(*b);
        if r {
            assert forall|k: u32| !differs_at(x, y, k) by {
                if differs_at(x, y, k) {
                    let i = choose|i: int| 0 <= i < changes@.len() && change_key(changes@[i]) == k;
                }
            }
            assert(x.dom() =~= y.dom()) by {
                assert forall|k: u32| x.dom().contains(k) == y.dom().contains(k) by {
                    assert(!differs_at(x, y, k));
                }
            }
            assert forall|k: u32| #[trigger] x.dom().contains(k) implies x[k] == y[k] by {
                assert(!differs_at(x, y, k));
            }
            assert(x =~= y);
        } else {
            assert(change_of(x, y, changes@[0]));
        }
    }
    r
}

/// Joining an environment with itself changes nothing.
pub proof fn lemma_join_env_same(a: Map<u32, ValueView>)
    ensures
        join_env_view(a, a) == a,
{
    assert forall|k: u32| a.contains_key(k) implies join_env_view(a, a)[k] == a[k] by {
        crate::value::law_join_idempotent(a[k]);
    }
    assert(join_env_view(a, a) =~= a);
}

/// Widens `env` by `other`: afterwards each binding of either may hold what it
/// held in both, and a binding of only one may hold anything.
pub fn join_env(env: &mut Env, other: Env)
    ensures
        env_entries(*final(env)) == join_env_view(env_entries(*old(env)), env_entries(other)),
{
    if env_ptr_eq(env, &other) {
        proof {
            lemma_join_env_same(env_entries(*env));
        }
        return ;
    }
    let previous = env_clone(env);
    let ghost a = env_entries(previous);
    let ghost b = env_entries(other);
    let ghost target = join_env_view(a, b);
    let changes = env_diff(&previous, &other);
    let ghost mut processed: Set<u32> = Set::empty();
    let mut i: usize = 0;
    while i < changes.len()
        invariant
            0 <= i <= changes@.len(),
            a == env_entries(previous),
            b == env_entries(other),
            target == join_env_view(a, b),
            forall|j: int| 0 <= j < changes@.len() ==> change_of(a, b, changes@[j]),
            forall|j: int| 0 <= j < i ==> processed.contains(change_key(#[trigger] changes@[j])),
            forall|k: u32| processed.contains(k) ==> target.contains_key(k),
            forall|k: u32|
                processed.contains(k) ==> env_entries(*env).contains_key(k) && env_entries(
                    *env,
                )[k] == target[k],
            forall|k: u32|
                !processed.contains(k) ==> (env_entries(*env).contains_key(k)
                    == a.contains_key(k)) && (a.contains_key(k) ==> env_entries(*env)[k] == a[k]),
        decreases changes@.len() - i,
    {
        let ghost c = changes@[i as int];
        let (id, value) = match &changes[i] {
            EnvChange::Add(id, v) => {
                let mut value = v.duplicate();
                value.join(Value::unknown());
                (*id, value)
            },
            EnvChange::Remove(id, v) => {
                let mut value = v.duplicate();
                value.join(Value::unknown());
                (*id, value)
            },
            EnvChange::Update(id, o, n) => {
                let mut value = o.duplicate();
                value.join(n.duplicate());
                (*id, value)
            },
        };
        assert(id == change_key(c));
        assert(value@ == target[id]);
        let unchanged = match env_get(&previous, id) {
            Some(current) => current.same(&value),
            None => false,
        };
        if !unchanged {
            env_insert(env, id, value);
        }
        proof {
            processed = processed.insert(id);
        }
        i = i + 1;
    }
    proof {
        assert forall|k: u32| #![auto] target.contains_key(k) implies processed.contains(k) || (
        a.contains_key(k) && b.contains_key(k) && a[k] == b[k]) by {
            if differs_at(a, b, k) {
                let j = choose|j: int| 0 <= j < changes@.len() && change_key(changes@[j]) == k;
                assert(processed.contains(change_key(changes@[j])));
            }
        }
        assert forall|k: u32| #![auto] env_entries(*env).contains_key(k) implies target.contains_key(
            k,
        ) by {
            if !processed.contains(k) {
                assert(a.contains_key(k));
            }
        }
        assert forall|k: u32| #![auto] target.contains_key(k) implies env_entries(*env).contains_key(
            k,
        ) && env_entries(*env)[k] == target[k] by {
            if !processed.contains(k) {
                crate::value::law_join_idempotent(a[k]);
            }
        }
        let e = env_entries(*env);
        assert forall|k: u32| e.dom().contains(k) <==> target.dom().contains(k) by {
            if processed.contains(k) {
                assert(target.contains_key(k));
                assert(e.contains_key(k));
            } else {
                assert(e.contains_key(k) == a.contains_key(k));
                if target.contains_key(k) {
                    assert(a.contains_key(k) && b.contains_key(k));
                }
            }
        }
        assert(e.dom() =~= target.dom());
        assert forall|k: u32| #[trigger] e.dom().contains(k) implies e[k] == target[k] by {
            assert(target.contains_key(k));
        }
        assert(e =~= target);
    }
}

/// Joining environments is commutative.
pub proof fn law_join_env_commutative(a: Map<u32, ValueView>, b: Map<u32, ValueView>)
    ensures
        join_env_view(a, b) == join_env_view(b, a),
{
    assert forall|k: u32| #![auto] join_env_view(a, b).contains_key(k) implies join_env_view(
        a,
        b,
    )[k] == join_env_view(b, a)[k] by {
        if a.contains_key(k) && b.contains_key(k) {
            crate::value::law_join_commutative(a[k], b[k]);
        }
    }
    assert(join_env_view(a, b) =~= join_env_view(b, a));
}

/// Joining environments is associative.
pub proof fn law_join_env_associative(
    a: Map<u32, ValueView>,
    b: Map<u32, ValueView>,
    c: Map<u32, ValueView>,
)
    ensures
        join_env_view(join_env_view(a, b), c) == join_env_view(a, join_env_view(b, c)),
{
    let l = join_env_view(join_env_view(a, b), c);
    let r = join_env_view(a, join_env_view(b, c));
    let u = unknown_value_view();
    assert forall|k: u32| #![auto] l.contains_key(k) implies l[k] == r[k] by {
        let (x, y, z) = (a[k], b[k], c[k]);
        crate::value::law_join_associative(x, y, z);
        crate::value::law_join_associative(x, y, u);
        crate::value::law_join_associative(x, u, z);
        crate::value::law_join_associative(y, u, z);
        crate::value::law_join_associative(x, u, u);
        crate::value::law_join_associative(y, u, u);
        crate::value::law_join_associative(z, u, u);
        crate::value::law_join_associative(x, z, u);
        crate::value::law_join_idempotent(u);
        crate::value::law_join_commutative(u, z);
        crate::value::law_join_commutative(y, u);
        crate::value::law_join_commutative(x, u);
        crate::value::law_join_commutative(z, u);
        crate::value::law_join_associative(u, z, u);
        crate::value::law_join_associative(x, u, y);
        crate::value::law_join_commutative(u, y);
        crate::value::law_join_associative(y, z, u);
    }
    assert(l =~= r);
}

} // verus!
