//! What a callee, a base class or a type reference denotes, as the call graph
//! builder resolves it: bindings and exports are followed, `export *`
//! re-exports are searched, members of namespaces and of standard globals are
//! looked up, and a binding or export met again on the way contributes
//! nothing, which cuts cycles.
use crate::error::{builtin_view, ErrorTypeView, EscErrorId, EscErrorType};
use crate::globals::{spec_get, spec_property, EscGlobals};
use crate::set::Types;
use crate::text::{chars_of, str_eq, string_of};
use vstd::prelude::*;

verus! {

broadcast use vstd::seq_lib::group_seq_properties;

/// A binding, or an export of a module by name, that resolution is following.
#[derive(Clone, Copy, Debug, PartialEq, Eq, Structural)]
pub enum Lookup {
    Binding(usize),
    Export(usize, usize),
}

/// What an expression, binding or export denotes before resolution. Modules
/// and export names are indices into the resolver's modules and names.
#[derive(Debug)]
pub enum Denotation {
    /// A declared signature without a body.
    Signature(EscErrorId),
    /// A function, by its node in the call graph.
    Function(usize),
    /// A class or other declared type.
    Type(EscErrorType),
    /// Only the types of the inner denotation, for annotations.
    TypeOnly(Box<Denotation>),
    /// A standard global, by its path.
    Global(String),
    /// A binding, by its index.
    Binding(usize),
    /// An export of a module, by module and name.
    Export(usize, usize),
    /// The namespace object of a module.
    Namespace(usize),
    /// A named member of an object.
    Member(Box<Denotation>, usize),
    /// Either of two denotations.
    Union(Box<Denotation>, Box<Denotation>),
    Unknown,
}

/// What a module exports.
#[derive(Debug)]
pub struct ModuleExports {
    /// Exports by name.
    pub exports: Vec<(usize, Denotation)>,
    /// The sources of `export *` declarations; `None` for a source outside
    /// the project.
    pub stars: Vec<Option<usize>>,
    /// Every name the module exports, its re-exports included.
    pub export_names: Vec<usize>,
    /// Whether the module re-exports names that cannot be known.
    pub unknown_exports: bool,
}

/// The bindings and exports of a project, as far as resolution reads them.
#[derive(Debug)]
pub struct Resolver {
    /// The names that exports and members use, by index.
    pub names: Vec<String>,
    /// What each binding was last assigned, by index.
    pub bindings: Vec<Option<Denotation>>,
    /// The exports of each module, by index.
    pub modules: Vec<ModuleExports>,
    /// Standard globals that the project assigns to.
    pub modified_globals: Vec<String>,
    /// Whether export names are final, so that `export *` sources that
    /// cannot provide a name are skipped.
    pub resolving: bool,
    /// The declared classes, by type.
    pub classes: Vec<(EscErrorType, ClassInfo)>,
}

/// What the builder knows of a declared class.
#[derive(Debug)]
pub struct ClassInfo {
    /// The class's own constructor, by its node in the call graph.
    pub constructor: Option<usize>,
    /// What the class extends, if anything.
    pub superclass: Option<Denotation>,
    /// Whether instances may run initialization that is not known.
    pub unknown_initialization: bool,
}

/// The mathematical value of resolved targets.
#[verifier::ext_equal]
pub struct TargetsView {
    pub signatures: Set<(Seq<char>, u32)>,
    pub functions: Set<usize>,
    pub namespaces: Seq<usize>,
    pub unknown: bool,
    pub types: Set<ErrorTypeView>,
    pub annotation_types: Set<ErrorTypeView>,
    pub globals: Seq<Seq<char>>,
}

/// What a denotation may turn out to be: signatures, functions, module
/// namespaces, declared types, types from annotations and standard globals,
/// and whether it may be anything else.
#[derive(Debug)]
pub struct Targets {
    pub signatures: Vec<EscErrorId>,
    pub functions: Vec<usize>,
    pub namespaces: Vec<usize>,
    pub unknown: bool,
    pub types: Types,
    pub annotation_types: Types,
    pub globals: Vec<String>,
}

impl View for Targets {
    type V = TargetsView;

    open spec fn view(&self) -> TargetsView {
        TargetsView {
            signatures: self.signatures@.map_values(|e: EscErrorId| (e.module_id@, e.node)).to_set(),
            functions: self.functions@.to_set(),
            namespaces: self.namespaces@,
            unknown: self.unknown,
            types: self.types@,
            annotation_types: self.annotation_types@,
            globals: self.globals@.map_values(|g: String| g@),
        }
    }
}

/// No targets.
pub open spec fn no_targets() -> TargetsView {
    TargetsView {
        signatures: Set::empty(),
        functions: Set::empty(),
        namespaces: Seq::empty(),
        unknown: false,
        types: Set::empty(),
        annotation_types: Set::empty(),
        globals: Seq::empty(),
    }
}

/// Only the possibility of anything.
pub open spec fn unknown_targets() -> TargetsView {
    TargetsView { unknown: true, ..no_targets() }
}

/// Both sets of targets.
pub open spec fn merge_view(a: TargetsView, b: TargetsView) -> TargetsView {
    TargetsView {
        signatures: a.signatures.union(b.signatures),
        functions: a.functions.union(b.functions),
        namespaces: a.namespaces + b.namespaces,
        unknown: a.unknown || b.unknown,
        types: a.types.union(b.types),
        annotation_types: a.annotation_types.union(b.annotation_types),
        globals: a.globals + b.globals,
    }
}

/// The part of a path before its first dot.
pub open spec fn before_dot(s: Seq<char>) -> Seq<char>
    decreases s.len(),
{
    if s.len() == 0 {
        s
    } else if s[0] == '.' {
        Seq::empty()
    } else {
        seq![s[0]] + before_dot(s.drop_first())
    }
}

/// Whether the project assigns to the standard global `name`.
pub open spec fn is_modified(s: &Resolver, name: Seq<char>) -> bool {
    s.modified_globals@.map_values(|g: String| g@).contains(name)
}

/// The targets of the standard global at `path`: unknown when the project
/// assigns to `globalThis` or to the global's root object, or when no
/// standard global has that path.
pub open spec fn global_targets_view(s: &Resolver, path: Seq<char>) -> TargetsView {
    if is_modified(s, "globalThis"@) || is_modified(s, before_dot(path)) {
        unknown_targets()
    } else {
        match spec_get(path) {
            Some(g) => TargetsView {
                globals: seq![g.path],
                types: match g.instance_type {
                    Some(t) => Set::empty().insert(builtin_view(t)),
                    None => Set::empty(),
                },
                ..no_targets()
            },
            None => unknown_targets(),
        }
    }
}

/// The size of a denotation.
pub open spec fn size(d: Denotation) -> nat
    decreases d,
{
    match d {
        Denotation::TypeOnly(x) => 1 + size(*x),
        Denotation::Member(x, _) => 1 + size(*x),
        Denotation::Union(a, b) => 1 + size(*a) + size(*b),
        _ => 1,
    }
}

/// Whether every member name of a denotation is one of `names` names.
pub open spec fn den_ok(names: nat, d: Denotation) -> bool
    decreases d,
{
    match d {
        Denotation::TypeOnly(x) => den_ok(names, *x),
        Denotation::Member(x, n) => n < names && den_ok(names, *x),
        Denotation::Union(a, b) => den_ok(names, *a) && den_ok(names, *b),
        _ => true,
    }
}

/// Whether the bindings and exports only use known names.
pub open spec fn resolver_wf(s: &Resolver) -> bool {
    &&& forall|b: int| 0 <= b < s.bindings@.len() && (#[trigger] s.bindings@[b]) is Some ==> den_ok(s.names@.len(), s.bindings@[b]->0)
    &&& forall|m: int, i: int|
        0 <= m < s.modules@.len() && 0 <= i < s.modules@[m].exports@.len() ==> den_ok(s.names@.len(), (#[trigger] s.modules@[m].exports@[i]).1)
    &&& forall|i: int| 0 <= i < s.classes@.len() && (#[trigger] s.classes@[i]).1.superclass is Some ==> den_ok(s.names@.len(), s.classes@[i].1.superclass->0)
}

/// Whether a lookup is of a binding or a module and name that exist.
pub open spec fn in_scope(s: &Resolver, l: Lookup) -> bool {
    match l {
        Lookup::Binding(b) => b < s.bindings@.len(),
        Lookup::Export(m, n) => m < s.modules@.len() && n < s.names@.len(),
    }
}

/// Whether the lookups being followed are distinct and exist.
pub open spec fn visiting_ok(s: &Resolver, v: Seq<Lookup>) -> bool {
    &&& v.no_duplicates()
    &&& forall|i: int| 0 <= i < v.len() ==> in_scope(s, #[trigger] v[i])
}

/// How many distinct lookups exist.
pub open spec fn total(s: &Resolver) -> int {
    (s.bindings@.len() + s.modules@.len() * s.names@.len()) as int
}

/// A distinct number for each lookup that exists.
pub open spec fn code(s: &Resolver, l: Lookup) -> int {
    match l {
        Lookup::Binding(b) => b as int,
        Lookup::Export(m, n) => s.bindings@.len() + m * s.names@.len() + n,
    }
}

proof fn lemma_code_range(s: &Resolver, l: Lookup)
    requires
        in_scope(s, l),
    ensures
        0 <= code(s, l) < total(s),
{
    if let Lookup::Export(m, n) = l {
        let nl = s.names@.len() as int;
        let mc = s.modules@.len() as int;
        assert(m * nl + n < mc * nl) by (nonlinear_arith)
            requires
                0 <= m < mc,
                0 <= n < nl,
        ;
        assert(0 <= m * nl) by (nonlinear_arith)
            requires
                0 <= m,
                0 <= nl,
        ;
    }
}

proof fn lemma_code_injective(s: &Resolver, a: Lookup, b: Lookup)
    requires
        in_scope(s, a),
        in_scope(s, b),
        code(s, a) == code(s, b),
    ensures
        a == b,
{
    lemma_code_range(s, a);
    lemma_code_range(s, b);
    if let Lookup::Export(m1, n1) = a {
        if let Lookup::Export(m2, n2) = b {
            let nl = s.names@.len() as int;
            assert(m1 == m2 && n1 == n2) by (nonlinear_arith)
                requires
                    m1 * nl + n1 == m2 * nl + n2,
                    0 <= n1 < nl,
                    0 <= n2 < nl,
                    0 <= m1,
                    0 <= m2,
            {
                if m1 < m2 {
                    assert(m1 * nl + nl <= m2 * nl);
                } else if m2 < m1 {
                    assert(m2 * nl + nl <= m1 * nl);
                }
            }
        } else {
            assert(0 <= m1 * s.names@.len()) by (nonlinear_arith)
                requires
                    0 <= m1,
            ;
        }
    } else if let Lookup::Export(m2, n2) = b {
        assert(0 <= m2 * s.names@.len()) by (nonlinear_arith)
            requires
                0 <= m2,
        ;
    }
}

/// Lookups that are followed at once never outnumber the lookups that exist.
proof fn lemma_visiting_bound(s: &Resolver, v: Seq<Lookup>)
    requires
        visiting_ok(s, v),
    ensures
        v.len() <= total(s),
{
    let codes = v.map_values(|l: Lookup| code(s, l));
    assert(codes.no_duplicates()) by {
        assert forall|i: int, j: int| 0 <= i < codes.len() && 0 <= j < codes.len() && i != j implies codes[i] != codes[j] by {
            if codes[i] == codes[j] {
                lemma_code_injective(s, v[i], v[j]);
            }
        }
    }
    codes.unique_seq_to_set();
    assert(total(s) >= 0) by {
        assert(0 <= s.modules@.len() * s.names@.len()) by (nonlinear_arith);
    }
    vstd::set_lib::lemma_int_range(0, total(s));
    assert(codes.to_set().subset_of(vstd::set_lib::set_int_range(0, total(s)))) by {
        assert forall|x: int| codes.to_set().contains(x) implies vstd::set_lib::set_int_range(0, total(s)).contains(x) by {
            let i = choose|i: int| 0 <= i < codes.len() && codes[i] == x;
            lemma_code_range(s, v[i]);
        }
    }
    vstd::set_lib::lemma_len_subset(codes.to_set(), vstd::set_lib::set_int_range(0, total(s)));
}

/// Following one more lookup that exists and is not followed yet keeps the
/// lookups distinct, and within the number that exist.
pub proof fn lemma_push_ok(s: &Resolver, v: Seq<Lookup>, key: Lookup)
    requires
        visiting_ok(s, v),
        in_scope(s, key),
        !v.contains(key),
    ensures
        visiting_ok(s, v.push(key)),
        v.len() + 1 <= total(s),
{
    let w = v.push(key);
    assert(w.no_duplicates()) by {
        assert forall|i: int, j: int| 0 <= i < w.len() && 0 <= j < w.len() && i != j implies w[i] != w[j] by {
            if i == v.len() {
                assert(v[j] == w[j]);
            } else if j == v.len() {
                assert(v[i] == w[i]);
            }
        }
    }
    assert forall|i: int| 0 <= i < w.len() implies in_scope(s, #[trigger] w[i]) by {
        if i < v.len() {
            assert(w[i] == v[i]);
        }
    }
    lemma_visiting_bound(s, w);
}

/// The first export of `exports` named `n`.
pub open spec fn find_export(exports: Seq<(usize, Denotation)>, n: usize) -> Option<Denotation>
    decreases exports.len(),
{
    if exports.len() == 0 {
        None
    } else if exports[0].0 == n {
        Some(exports[0].1)
    } else {
        find_export(exports.drop_first(), n)
    }
}

/// Whether `export *` from module `src` may provide the name `n`: always
/// while export names are still being collected, afterwards only when the
/// module exports that name or names that cannot be known.
pub open spec fn star_may_provide(s: &Resolver, src: usize, n: usize) -> bool {
    !s.resolving || (src < s.modules@.len() && (s.modules@[src as int].unknown_exports || s.modules@[src as int].export_names@.contains(n)))
}

/// What the member named `prop` of the standard global at `object` adds.
pub open spec fn global_member_view(s: &Resolver, object: Seq<char>, prop: Seq<char>) -> TargetsView {
    match spec_property(object, prop) {
        Some(g) => global_targets_view(s, g.path),
        None => unknown_targets(),
    }
}

/// `base` with the member named `prop` of each of the standard globals `objects`.
pub open spec fn fold_globals(s: &Resolver, base: TargetsView, objects: Seq<Seq<char>>, prop: Seq<char>) -> TargetsView
    decreases objects.len(),
{
    if objects.len() == 0 {
        base
    } else {
        merge_view(fold_globals(s, base, objects.drop_last(), prop), global_member_view(s, objects.last(), prop))
    }
}

/// What the given denotation may turn out to be while the lookups in `v`
/// are being followed.
pub open spec fn resolve_view(s: &Resolver, d: Denotation, v: Seq<Lookup>) -> TargetsView
    decreases total(s) - v.len(), size(d), 0nat
    when resolver_wf(s) && visiting_ok(s, v)
{
    match d {
        Denotation::Signature(id) => TargetsView { signatures: Set::empty().insert((id.module_id@, id.node)), unknown: true, ..no_targets() },
        Denotation::Function(f) => TargetsView { functions: Set::empty().insert(f), ..no_targets() },
        Denotation::Type(t) => TargetsView { types: Set::empty().insert(t@), ..no_targets() },
        Denotation::TypeOnly(x) => {
            let r = resolve_view(s, *x, v);
            TargetsView {
                annotation_types: r.annotation_types.union(r.types),
                types: Set::empty(),
                functions: Set::empty(),
                globals: Seq::empty(),
                ..r
            }
        },
        Denotation::Global(path) => global_targets_view(s, path@),
        Denotation::Binding(b) => {
            let key = Lookup::Binding(b);
            if v.contains(key) {
                no_targets()
            } else if b < s.bindings@.len() && s.bindings@[b as int] is Some {
                proof {
                    lemma_push_ok(s, v, key);
                }
                resolve_view(s, s.bindings@[b as int]->0, v.push(key))
            } else {
                unknown_targets()
            }
        },
        Denotation::Export(m, n) => {
            let key = Lookup::Export(m, n);
            if v.contains(key) || !in_scope(s, key) {
                no_targets()
            } else {
                proof {
                    lemma_push_ok(s, v, key);
                }
                match find_export(s.modules@[m as int].exports@, n) {
                    Some(e) => resolve_view(s, e, v.push(key)),
                    None => if s.names@[n as int]@ == "default"@ {
                        no_targets()
                    } else {
                        fold_stars(s, no_targets(), s.modules@[m as int].stars@, n, v.push(key))
                    },
                }
            }
        },
        Denotation::Namespace(m) => TargetsView { namespaces: seq![m], ..no_targets() },
        Denotation::Member(x, n) => {
            let o = resolve_view(s, *x, v);
            let base = TargetsView {
                unknown: o.unknown || (o.namespaces.len() == 0 && o.globals.len() == 0) || o.functions != Set::<usize>::empty(),
                ..no_targets()
            };
            let prop = if n < s.names@.len() { s.names@[n as int]@ } else { Seq::empty() };
            fold_namespaces(s, fold_globals(s, base, o.globals, prop), o.namespaces, n, v)
        },
        Denotation::Union(a, b) => merge_view(resolve_view(s, *a, v), resolve_view(s, *b, v)),
        Denotation::Unknown => unknown_targets(),
    }
}

/// `base` with the export named `n` of each of the modules `namespaces`.
pub open spec fn fold_namespaces(s: &Resolver, base: TargetsView, namespaces: Seq<usize>, n: usize, v: Seq<Lookup>) -> TargetsView
    decreases total(s) - v.len(), 1nat, namespaces.len()
    when resolver_wf(s) && visiting_ok(s, v)
{
    if namespaces.len() == 0 {
        base
    } else {
        merge_view(fold_namespaces(s, base, namespaces.drop_last(), n, v), resolve_view(s, Denotation::Export(namespaces.last(), n), v))
    }
}

/// `base` with what each `export *` source in `stars` provides for the name `n`.
pub open spec fn fold_stars(s: &Resolver, base: TargetsView, stars: Seq<Option<usize>>, n: usize, v: Seq<Lookup>) -> TargetsView
    decreases total(s) - v.len(), 1nat, stars.len()
    when resolver_wf(s) && visiting_ok(s, v)
{
    if stars.len() == 0 {
        base
    } else {
        let rest = fold_stars(s, base, stars.drop_last(), n, v);
        match stars.last() {
            Some(src) => if star_may_provide(s, src, n) {
                merge_view(rest, resolve_view(s, Denotation::Export(src, n), v))
            } else {
                rest
            },
            None => merge_view(rest, unknown_targets()),
        }
    }
}

impl Targets {
    /// No targets.
    pub fn empty() -> (r: Self)
        ensures
            r@ == no_targets(),
            r.signatures@.len() == 0,
            r.functions@.len() == 0,
            r.globals@.len() == 0,
    {
        let r = Targets {
            signatures: Vec::new(),
            functions: Vec::new(),
            namespaces: Vec::new(),
            unknown: false,
            types: Types::new(),
            annotation_types: Types::new(),
            globals: Vec::new(),
        };
        assert(r@ =~= no_targets());
        r
    }

    /// Only the possibility of anything.
    pub fn unknown() -> (r: Self)
        ensures
            r@ == unknown_targets(),
            r.signatures@.len() == 0,
            r.functions@.len() == 0,
            r.globals@.len() == 0,
    {
        let mut r = Targets::empty();
        r.unknown = true;
        assert(r@ =~= unknown_targets());
        r
    }

    /// Adds `other`'s targets to these.
    pub fn merge(&mut self, other: Self)
        ensures
            final(self)@ == merge_view(old(self)@, other@),
    {
        let ghost ov = other@;
        let ghost osig = other.signatures@;
        let ghost ofun = other.functions@;
        let ghost oglob = other.globals@;
        let mut other = other;
        let ghost sig0 = self.signatures@;
        let ghost gl0 = self.globals@;
        let ghost fun0 = self.functions@;
        self.signatures.append(&mut other.signatures);
        self.functions.append(&mut other.functions);
        self.namespaces.append(&mut other.namespaces);
        self.unknown = self.unknown || other.unknown;
        self.types.join(other.types);
        self.annotation_types.join(other.annotation_types);
        self.globals.append(&mut other.globals);
        proof {
            let f = |e: EscErrorId| (e.module_id@, e.node);
            assert(self.signatures@.map_values(f) =~= sig0.map_values(f) + osig.map_values(f));
            vstd::seq_lib::seq_to_set_distributes_over_add(sig0.map_values(f), osig.map_values(f));
            vstd::seq_lib::seq_to_set_distributes_over_add(fun0, ofun);
            let g = |s: String| s@;
            assert(self.globals@.map_values(g) =~= gl0.map_values(g) + oglob.map_values(g));
        }
        assert(self@ =~= merge_view(old(self)@, ov));
    }
}

/// Whether `key` is among the lookups being followed.
fn contains_lookup(v: &Vec<Lookup>, key: Lookup) -> (r: bool)
    ensures
        r == v@.contains(key),
{
    let mut i: usize = 0;
    while i < v.len()
        invariant
            0 <= i <= v@.len(),
            forall|j: int| 0 <= j < i ==> v@[j] != key,
        decreases v@.len() - i,
    {
        if v[i] == key {
            assert(v@[i as int] == key);
            return true;
        }
        i = i + 1;
    }
    false
}

/// The first export of `exports` named `n`.
fn find_export_in(exports: &Vec<(usize, Denotation)>, n: usize) -> (r: Option<&Denotation>)
    ensures
        r matches Some(d) ==> find_export(exports@, n) == Some(*d) && exists|i: int| 0 <= i < exports@.len() && exports@[i].1 == *d,
        r is None ==> find_export(exports@, n) is None,
{
    let mut i: usize = 0;
    while i < exports.len()
        invariant
            0 <= i <= exports@.len(),
            find_export(exports@, n) == find_export(exports@.skip(i as int), n),
        decreases exports@.len() - i,
    {
        proof {
            assert(exports@.skip(i as int).drop_first() =~= exports@.skip(i + 1));
        }
        if exports[i].0 == n {
            assert(exports@.skip(i as int)[0] == exports@[i as int]);
            return Some(&exports[i].1);
        }
        i = i + 1;
    }
    None
}

/// The part of `path` before its first dot.
pub(crate) fn before_first_dot(path: &str) -> (r: String)
    ensures
        r@ == before_dot(path@),
{
    let chars = chars_of(path);
    let mut head: Vec<char> = Vec::new();
    let mut i: usize = 0;
    while i < chars.len()
        invariant
            0 <= i <= chars@.len(),
            chars@ == path@,
            head@ + before_dot(chars@.skip(i as int)) == before_dot(chars@),
        decreases chars@.len() - i,
    {
        proof {
            assert(chars@.skip(i as int).drop_first() =~= chars@.skip(i + 1));
            assert(chars@.skip(i as int)[0] == chars@[i as int]);
        }
        if chars[i] == '.' {
            assert(head@ =~= before_dot(chars@));
            return string_of(&head);
        }
        let ghost h0 = head@;
        head.push(chars[i]);
        assert(head@ + before_dot(chars@.skip(i + 1)) =~= h0 + before_dot(chars@.skip(i as int)));
        i = i + 1;
    }
    assert(chars@.skip(i as int) =~= Seq::<char>::empty());
    assert(head@ =~= before_dot(chars@));
    string_of(&head)
}

impl Resolver {
    /// Whether the project assigns to the standard global `name`.
    pub fn is_modified(&self, name: &str) -> (r: bool)
        ensures
            r == is_modified(self, name@),
    {
        let ghost views = self.modified_globals@.map_values(|g: String| g@);
        let mut i: usize = 0;
        while i < self.modified_globals.len()
            invariant
                0 <= i <= self.modified_globals@.len(),
                views == self.modified_globals@.map_values(|g: String| g@),
                forall|j: int| 0 <= j < i ==> views[j] != name@,
            decreases self.modified_globals@.len() - i,
        {
            if str_eq(self.modified_globals[i].as_str(), name) {
                assert(views[i as int] == name@);
                return true;
            }
            i = i + 1;
        }
        false
    }

    /// The targets of the standard global at `path`.
    pub fn global_targets(&self, path: &str) -> (r: Targets)
        ensures
            r@ == global_targets_view(self, path@),
    {
        let root = before_first_dot(path);
        if self.is_modified("globalThis") || self.is_modified(root.as_str()) {
            return Targets::unknown();
        }
        match EscGlobals::get(path) {
            Some(global) => {
                let mut r = Targets::empty();
                let ghost g = global@;
                match global.instance_type {
                    Some(t) => {
                        r.types.insert(EscErrorType::builtin(t.as_str()));
                    },
                    None => {},
                }
                r.globals.push(global.path);
                assert(r.globals@.map_values(|s: String| s@) =~= seq![g.path]);
                assert(r@ =~= global_targets_view(self, path@));
                r
            },
            None => Targets::unknown(),
        }
    }

    /// What `value` may turn out to be while the lookups in `visiting` are
    /// being followed; a binding or export met again contributes nothing.
    pub fn resolve(&self, value: &Denotation, visiting: &mut Vec<Lookup>) -> (r: Targets)
        requires
            resolver_wf(self),
            visiting_ok(self, old(visiting)@),
            den_ok(self.names@.len(), *value),
        ensures
            final(visiting)@ == old(visiting)@,
            r@ == resolve_view(self, *value, old(visiting)@),
        decreases total(self) - old(visiting)@.len(), size(*value),
    {
        let ghost v = visiting@;
        match value {
            Denotation::Signature(id) => {
                let mut r = Targets::unknown();
                let d = id.duplicate();
                r.signatures.push(d);
                proof {
                    assert(r.signatures@ =~= seq![d]);
                    assert(r.signatures@.map_values(|e: EscErrorId| (e.module_id@, e.node)) =~= seq![(d.module_id@, d.node)]);
                    assert(seq![(d.module_id@, d.node)].to_set() =~= Set::empty().insert((d.module_id@, d.node))) by {
                        assert(seq![(d.module_id@, d.node)][0] == (d.module_id@, d.node));
                    }
                    assert(r@.signatures =~= Set::empty().insert((id.module_id@, id.node)));
                }
                assert(r@ =~= resolve_view(self, *value, v));
                r
            },
            Denotation::Function(f) => {
                let mut r = Targets::empty();
                r.functions.push(*f);
                assert(r@ =~= resolve_view(self, *value, v));
                r
            },
            Denotation::Type(t) => {
                let mut r = Targets::empty();
                r.types.insert(t.duplicate());
                assert(r@ =~= resolve_view(self, *value, v));
                r
            },
            Denotation::TypeOnly(x) => {
                let mut r = self.resolve(x, visiting);
                let types = r.types.duplicate();
                r.annotation_types.join(types);
                r.types = Types::new();
                r.functions = Vec::new();
                r.globals = Vec::new();
                assert(r@ =~= resolve_view(self, *value, v));
                r
            },
            Denotation::Global(path) => self.global_targets(path.as_str()),
            Denotation::Binding(b) => {
                let key = Lookup::Binding(*b);
                if contains_lookup(visiting, key) {
                    return Targets::empty();
                }
                if *b < self.bindings.len() {
                    match &self.bindings[*b] {
                        Some(d) => {
                            proof {
                                lemma_push_ok(self, v, key);
                            }
                            visiting.push(key);
                            let r = self.resolve(d, visiting);
                            visiting.pop();
                            assert(visiting@ =~= v);
                            r
                        },
                        None => Targets::unknown(),
                    }
                } else {
                    Targets::unknown()
                }
            },
            Denotation::Export(m, n) => {
                let key = Lookup::Export(*m, *n);
                if contains_lookup(visiting, key) || !(*m < self.modules.len() && *n < self.names.len()) {
                    return Targets::empty();
                }
                proof {
                    lemma_push_ok(self, v, key);
                }
                visiting.push(key);
                let module = &self.modules[*m];
                let r = match find_export_in(&module.exports, *n) {
                    Some(e) => self.resolve(e, visiting),
                    None => {
                        if str_eq(self.names[*n].as_str(), "default") {
                            Targets::empty()
                        } else {
                            self.resolve_stars(&module.stars, *n, visiting)
                        }
                    },
                };
                visiting.pop();
                assert(visiting@ =~= v);
                r
            },
            Denotation::Namespace(m) => {
                let mut r = Targets::empty();
                r.namespaces.push(*m);
                assert(r@ =~= resolve_view(self, *value, v));
                r
            },
            Denotation::Member(x, n) => {
                let object = self.resolve(x, visiting);
                assert(size(**x) >= 1);
                let mut r = Targets::empty();
                r.unknown = object.unknown || (object.namespaces.len() == 0 && object.globals.len() == 0) || object.functions.len() != 0;
                proof {
                    if object.functions@.len() != 0 {
                        assert(object.functions@.to_set().contains(object.functions@[0]));
                    }
                    assert(object.globals@.map_values(|g: String| g@).len() == object.globals@.len());
                }
                let prop = self.names[*n].as_str();
                let ghost base = r@;
                let ghost objects = object@.globals;
                let mut i: usize = 0;
                while i < object.globals.len()
                    invariant
                        0 <= i <= object.globals@.len(),
                        objects == object.globals@.map_values(|g: String| g@),
                        r@ == fold_globals(self, base, objects.take(i as int), prop@),
                    decreases object.globals@.len() - i,
                {
                    proof {
                        assert(objects.take(i + 1).drop_last() =~= objects.take(i as int));
                        assert(objects.take(i + 1).last() == object.globals@[i as int]@);
                    }
                    match EscGlobals::property(object.globals[i].as_str(), prop) {
                        Some(global) => {
                            r.merge(self.global_targets(global.path.as_str()));
                        },
                        None => {
                            let ghost r0 = r@;
                            r.unknown = true;
                            assert(r@ =~= merge_view(r0, unknown_targets()));
                        },
                    }
                    i = i + 1;
                }
                proof {
                    assert(objects.take(objects.len() as int) =~= objects);
                }
                let ghost middle = r@;
                let mut i: usize = 0;
                while i < object.namespaces.len()
                    invariant
                        resolver_wf(self),
                        visiting_ok(self, v),
                        visiting@ == v,
                        v == old(visiting)@,
                        size(*value) >= 2,
                        0 <= i <= object.namespaces@.len(),
                        r@ == fold_namespaces(self, middle, object.namespaces@.take(i as int), *n, v),
                    decreases object.namespaces@.len() - i,
                {
                    proof {
                        assert(object.namespaces@.take(i + 1).drop_last() =~= object.namespaces@.take(i as int));
                    }
                    let part = self.resolve(&Denotation::Export(object.namespaces[i], *n), visiting);
                    r.merge(part);
                    i = i + 1;
                }
                proof {
                    assert(object.namespaces@.take(object.namespaces@.len() as int) =~= object.namespaces@);
                }
                r
            },
            Denotation::Union(a, b) => {
                let mut r = self.resolve(a, visiting);
                let other = self.resolve(b, visiting);
                r.merge(other);
                r
            },
            Denotation::Unknown => Targets::unknown(),
        }
    }

    /// What the `export *` sources `stars` provide for the name `n`.
    fn resolve_stars(&self, stars: &Vec<Option<usize>>, n: usize, visiting: &mut Vec<Lookup>) -> (r: Targets)
        requires
            resolver_wf(self),
            visiting_ok(self, old(visiting)@),
            old(visiting)@.len() >= 1,
        ensures
            final(visiting)@ == old(visiting)@,
            r@ == fold_stars(self, no_targets(), stars@, n, old(visiting)@),
        decreases total(self) - old(visiting)@.len() + 1, 0nat,
    {
        let ghost v = visiting@;
        let mut r = Targets::empty();
        let mut i: usize = 0;
        while i < stars.len()
            invariant
                resolver_wf(self),
                visiting_ok(self, v),
                visiting@ == v,
                v == old(visiting)@,
                v.len() >= 1,
                0 <= i <= stars@.len(),
                r@ == fold_stars(self, no_targets(), stars@.take(i as int), n, v),
            decreases stars@.len() - i,
        {
            proof {
                assert(stars@.take(i + 1).drop_last() =~= stars@.take(i as int));
                lemma_visiting_bound(self, v);
            }
            match stars[i] {
                Some(source) => {
                    if !self.resolving || (source < self.modules.len() && (self.modules[source].unknown_exports || contains_index(&self.modules[source].export_names, n))) {
                        let part = self.resolve(&Denotation::Export(source, n), visiting);
                        r.merge(part);
                    }
                },
                None => {
                    r.merge(Targets::unknown());
                },
            }
            i = i + 1;
        }
        proof {
            assert(stars@.take(stars@.len() as int) =~= stars@);
        }
        r
    }
}

/// Whether `n` is in `v`.
fn contains_index(v: &Vec<usize>, n: usize) -> (r: bool)
    ensures
        r == v@.contains(n),
{
    let mut i: usize = 0;
    while i < v.len()
        invariant
            0 <= i <= v@.len(),
            forall|j: int| 0 <= j < i ==> v@[j] != n,
        decreases v@.len() - i,
    {
        if v[i] == n {
            assert(v@[i as int] == n);
            return true;
        }
        i = i + 1;
    }
    false
}

/// The first entry of `classes` for the type `t`.
pub open spec fn class_index(classes: Seq<(EscErrorType, ClassInfo)>, t: ErrorTypeView) -> Option<int>
    decreases classes.len(),
{
    if classes.len() == 0 {
        None
    } else if classes[0].0@ == t {
        Some(0)
    } else {
        match class_index(classes.drop_first(), t) {
            Some(i) => Some(i + 1),
            None => None,
        }
    }
}

proof fn lemma_class_index(classes: Seq<(EscErrorType, ClassInfo)>, t: ErrorTypeView)
    ensures
        class_index(classes, t) matches Some(i) ==> 0 <= i < classes.len() && classes[i].0@ == t,
    decreases classes.len(),
{
    if classes.len() > 0 && classes[0].0@ != t {
        lemma_class_index(classes.drop_first(), t);
    }
}

/// Whether the types whose constructors are being followed are distinct
/// declared classes.
pub open spec fn classes_visiting_ok(s: &Resolver, v: Seq<ErrorTypeView>) -> bool {
    &&& v.no_duplicates()
    &&& forall|i: int| 0 <= i < v.len() ==> (#[trigger] class_index(s.classes@, v[i])) is Some
}

/// Following the constructors of one more declared class keeps the types
/// distinct, and within the number of classes.
pub proof fn lemma_class_push_ok(s: &Resolver, v: Seq<ErrorTypeView>, t: ErrorTypeView)
    requires
        classes_visiting_ok(s, v),
        class_index(s.classes@, t) is Some,
        !v.contains(t),
    ensures
        classes_visiting_ok(s, v.push(t)),
        v.len() + 1 <= s.classes@.len(),
{
    let w = v.push(t);
    assert(w.no_duplicates()) by {
        assert forall|i: int, j: int| 0 <= i < w.len() && 0 <= j < w.len() && i != j implies w[i] != w[j] by {
            if i == v.len() {
                assert(v[j] == w[j]);
            } else if j == v.len() {
                assert(v[i] == w[i]);
            }
        }
    }
    assert forall|i: int| 0 <= i < w.len() implies (#[trigger] class_index(s.classes@, w[i])) is Some by {
        if i < v.len() {
            assert(w[i] == v[i]);
        }
    }
    let codes = w.map_values(|u: ErrorTypeView| class_index(s.classes@, u)->0);
    assert(codes.no_duplicates()) by {
        assert forall|i: int, j: int| 0 <= i < codes.len() && 0 <= j < codes.len() && i != j implies codes[i] != codes[j] by {
            lemma_class_index(s.classes@, w[i]);
            lemma_class_index(s.classes@, w[j]);
            assert(class_index(s.classes@, w[i]) is Some);
            assert(class_index(s.classes@, w[j]) is Some);
        }
    }
    codes.unique_seq_to_set();
    vstd::set_lib::lemma_int_range(0, s.classes@.len() as int);
    assert(codes.to_set().subset_of(vstd::set_lib::set_int_range(0, s.classes@.len() as int))) by {
        assert forall|x: int| codes.to_set().contains(x) implies vstd::set_lib::set_int_range(0, s.classes@.len() as int).contains(x) by {
            let i = choose|i: int| 0 <= i < codes.len() && codes[i] == x;
            lemma_class_index(s.classes@, w[i]);
            assert(class_index(s.classes@, w[i]) is Some);
        }
    }
    vstd::set_lib::lemma_len_subset(codes.to_set(), vstd::set_lib::set_int_range(0, s.classes@.len() as int));
}

/// The constructors that `new` on the type `t` may run, and whether others
/// may run too, while the types in `v` are being followed: the class's own
/// constructor, or else those its superclass leads to.
pub open spec fn constructors_view(s: &Resolver, t: ErrorTypeView, v: Seq<ErrorTypeView>) -> (Set<usize>, bool)
    decreases s.classes@.len() - v.len()
    when resolver_wf(s) && classes_visiting_ok(s, v)
{
    if v.contains(t) {
        (Set::empty(), true)
    } else {
        match class_index(s.classes@, t) {
            None => (Set::empty(), false),
            Some(i) => {
                let class = s.classes@[i].1;
                match class.constructor {
                    Some(f) => (Set::empty().insert(f), class.unknown_initialization),
                    None => match class.superclass {
                        None => (Set::empty(), class.unknown_initialization),
                        Some(base) => {
                            proof {
                                lemma_class_push_ok(s, v, t);
                            }
                            let b = resolve_view(s, base, Seq::empty());
                            let w = v.push(t);
                            (
                                b.functions.union(Set::new(|f: usize| exists|u: ErrorTypeView| #[trigger] b.types.contains(u) && constructors_view(s, u, w).0.contains(f))),
                                class.unknown_initialization || b.unknown || b.types == Set::<ErrorTypeView>::empty()
                                    || exists|u: ErrorTypeView| #[trigger] b.types.contains(u) && constructors_view(s, u, w).1,
                            )
                        },
                    },
                }
            },
        }
    }
}

/// Whether `v` holds a type with the view `t`.
fn contains_type(v: &Vec<EscErrorType>, t: &EscErrorType) -> (r: bool)
    ensures
        r == crate::set::views(v@).contains(t@),
{
    let mut i: usize = 0;
    while i < v.len()
        invariant
            0 <= i <= v@.len(),
            forall|j: int| 0 <= j < i ==> v@[j]@ != t@,
        decreases v@.len() - i,
    {
        if v[i].same(t) {
            assert(crate::set::views(v@)[i as int] == t@);
            return true;
        }
        i = i + 1;
    }
    false
}

impl Resolver {
    /// The first class entry for the type `t`.
    fn find_class(&self, t: &EscErrorType) -> (r: Option<usize>)
        ensures
            r matches Some(i) ==> class_index(self.classes@, t@) == Some(i as int),
            r is None ==> class_index(self.classes@, t@) is None,
    {
        let mut i: usize = 0;
        while i < self.classes.len()
            invariant
                0 <= i <= self.classes@.len(),
                class_index(self.classes@, t@) == (match class_index(self.classes@.skip(i as int), t@) {
                    Some(k) => Some(k + i),
                    None => None,
                }),
            decreases self.classes@.len() - i,
        {
            proof {
                assert(self.classes@.skip(i as int).drop_first() =~= self.classes@.skip(i + 1));
                assert(self.classes@.skip(i as int)[0] == self.classes@[i as int]);
            }
            if self.classes[i].0.same(t) {
                return Some(i);
            }
            i = i + 1;
        }
        assert(self.classes@.skip(i as int).len() == 0);
        None
    }

    /// The constructors that `new` on the type `ty` may run, and whether
    /// others may run too, while the types in `visiting` are being followed;
    /// a type met again may run anything.
    pub fn constructors(&self, ty: &EscErrorType, visiting: &mut Vec<EscErrorType>) -> (r: (Vec<usize>, bool))
        requires
            resolver_wf(self),
            classes_visiting_ok(self, crate::set::views(old(visiting)@)),
        ensures
            crate::set::views(final(visiting)@) == crate::set::views(old(visiting)@),
            (r.0@.to_set(), r.1) == constructors_view(self, ty@, crate::set::views(old(visiting)@)),
        decreases self.classes@.len() - old(visiting)@.len(),
    {
        let ghost v = crate::set::views(visiting@);
        if contains_type(visiting, ty) {
            return (Vec::new(), true);
        }
        let index = match self.find_class(ty) {
            None => {
                return (Vec::new(), false);
            },
            Some(i) => i,
        };
        proof {
            lemma_class_index(self.classes@, ty@);
        }
        let class = &self.classes[index].1;
        match class.constructor {
            Some(f) => {
                let fs = vec![f];
                assert(fs@.to_set() =~= Set::empty().insert(f)) by {
                    assert(fs@[0] == f);
                }
                return (fs, class.unknown_initialization);
            },
            None => {},
        }
        let base = match &class.superclass {
            None => {
                return (Vec::new(), class.unknown_initialization);
            },
            Some(base) => base,
        };
        proof {
            lemma_class_push_ok(self, v, ty@);
        }
        let mut fresh: Vec<Lookup> = Vec::new();
        let b = self.resolve(base, &mut fresh);
        let ghost bv = b@;
        let mut functions: Vec<usize> = b.functions;
        let mut unknown = class.unknown_initialization || b.unknown || b.types.is_empty();
        let types = b.types.to_vec();
        let ghost w = v.push(ty@);
        visiting.push(ty.duplicate());
        assert(crate::set::views(visiting@) =~= w);
        let ghost tv = crate::set::views(types@);
        let mut i: usize = 0;
        while i < types.len()
            invariant
                resolver_wf(self),
                classes_visiting_ok(self, w),
                w == v.push(ty@),
                v.len() == old(visiting)@.len(),
                crate::set::views(visiting@) == w,
                visiting@.len() == w.len(),
                w.len() <= self.classes@.len(),
                tv == crate::set::views(types@),
                tv.to_set() == bv.types,
                0 <= i <= types@.len(),
                forall|f: usize| #[trigger] functions@.to_set().contains(f) <==> (bv.functions.contains(f) || exists|j: int| 0 <= j < i && constructors_view(self, #[trigger] tv[j], w).0.contains(f)),
                unknown == (class.unknown_initialization || bv.unknown || bv.types == Set::<ErrorTypeView>::empty() || exists|j: int| 0 <= j < i && constructors_view(self, #[trigger] tv[j], w).1),
            decreases types@.len() - i,
        {
            let (more, more_unknown) = self.constructors(&types[i], visiting);
            let ghost f0 = functions@;
            let mut more = more;
            let ghost m0 = more@;
            functions.append(&mut more);
            unknown = unknown || more_unknown;
            proof {
                assert(tv[i as int] == types@[i as int]@);
                assert forall|f: usize| #[trigger] functions@.to_set().contains(f) <==> (bv.functions.contains(f) || exists|j: int| 0 <= j < i + 1 && constructors_view(self, #[trigger] tv[j], w).0.contains(f)) by {
                    vstd::seq_lib::seq_to_set_distributes_over_add(f0, m0);
                    assert(functions@ =~= f0 + m0);
                    if m0.to_set().contains(f) {
                        assert(constructors_view(self, tv[i as int], w).0.contains(f));
                    }
                    if exists|j: int| 0 <= j < i + 1 && constructors_view(self, #[trigger] tv[j], w).0.contains(f) {
                        let j = choose|j: int| 0 <= j < i + 1 && constructors_view(self, #[trigger] tv[j], w).0.contains(f);
                        if j == i {
                            assert(m0.to_set().contains(f));
                        }
                    }
                }
                if more_unknown {
                    assert(constructors_view(self, tv[i as int], w).1);
                }
            }
            i = i + 1;
        }
        let ghost before_pop = visiting@;
        visiting.pop();
        proof {
            assert(visiting@ =~= before_pop.subrange(0, before_pop.len() - 1));
            assert forall|k: int| 0 <= k < v.len() implies crate::set::views(visiting@)[k] == v[k] by {
                assert(visiting@[k] == before_pop[k]);
                assert(crate::set::views(before_pop)[k] == w[k]);
            }
            assert(crate::set::views(visiting@) =~= v);
            let fs = bv.functions.union(Set::new(|f: usize| exists|u: ErrorTypeView| #[trigger] bv.types.contains(u) && constructors_view(self, u, w).0.contains(f)));
            assert forall|f: usize| functions@.to_set().contains(f) <==> fs.contains(f) by {
                if exists|j: int| 0 <= j < i && constructors_view(self, #[trigger] tv[j], w).0.contains(f) {
                    let j = choose|j: int| 0 <= j < i && constructors_view(self, #[trigger] tv[j], w).0.contains(f);
                    assert(tv.to_set().contains(tv[j]));
                    assert(bv.types.contains(tv[j]));
                }
                if exists|u: ErrorTypeView| #[trigger] bv.types.contains(u) && constructors_view(self, u, w).0.contains(f) {
                    let u = choose|u: ErrorTypeView| #[trigger] bv.types.contains(u) && constructors_view(self, u, w).0.contains(f);
                    assert(tv.to_set().contains(u));
                    let j = choose|j: int| 0 <= j < tv.len() && tv[j] == u;
                    assert(constructors_view(self, tv[j], w).0.contains(f));
                }
            }
            assert(functions@.to_set() =~= fs);
            if exists|j: int| 0 <= j < i && constructors_view(self, #[trigger] tv[j], w).1 {
                let j = choose|j: int| 0 <= j < i && constructors_view(self, #[trigger] tv[j], w).1;
                assert(tv.to_set().contains(tv[j]));
                assert(bv.types.contains(tv[j]));
            }
            if exists|u: ErrorTypeView| #[trigger] bv.types.contains(u) && constructors_view(self, u, w).1 {
                let u = choose|u: ErrorTypeView| #[trigger] bv.types.contains(u) && constructors_view(self, u, w).1;
                assert(tv.to_set().contains(u));
                let j = choose|j: int| 0 <= j < tv.len() && tv[j] == u;
                assert(constructors_view(self, tv[j], w).1);
            }
        }
        (functions, unknown)
    }
}

/// The functions a call of `callee` may reach, its constructors included,
/// and whether the call may reach code that is not known.
pub open spec fn call_targets_view(s: &Resolver, callee: Denotation) -> (Set<usize>, bool) {
    let r = resolve_view(s, callee, Seq::empty());
    let functions = r.functions.union(Set::new(|f: usize| exists|t: ErrorTypeView| #[trigger] r.types.contains(t) && constructors_view(s, t, Seq::empty()).0.contains(f)));
    let unknown = r.unknown || exists|t: ErrorTypeView| #[trigger] r.types.contains(t) && constructors_view(s, t, Seq::empty()).1;
    (
        functions,
        unknown || (functions == Set::<usize>::empty() && r.types == Set::<ErrorTypeView>::empty() && r.globals.len() == 0) || r.namespaces.len() != 0,
    )
}

/// The types that a resolution stands for: its declared types, with those
/// of annotations when asked for, and `unknown` when it may be anything or
/// names no type.
pub open spec fn types_of_view(r: TargetsView, annotation: bool) -> Set<ErrorTypeView> {
    let types = if annotation {
        r.types.union(r.annotation_types)
    } else {
        r.types
    };
    if r.unknown || types == Set::<ErrorTypeView>::empty() {
        types.insert(crate::error::unknown_view())
    } else {
        types
    }
}

impl Resolver {
    /// The functions, in increasing order, that a call of `callee` may
    /// reach, constructors of the types it may construct included, and
    /// whether the call is unresolved: it may reach code that is not known,
    /// reaches nothing known, or calls a module namespace.
    pub fn call_targets(&self, callee: &Denotation) -> (r: (Vec<usize>, bool))
        requires
            resolver_wf(self),
            den_ok(self.names@.len(), *callee),
        ensures
            crate::sorted::increasing(r.0@),
            (r.0@.to_set(), r.1) == call_targets_view(self, *callee),
    {
        let mut fresh: Vec<Lookup> = Vec::new();
        let targets = self.resolve(callee, &mut fresh);
        let ghost tv = targets@;
        let types = targets.types.to_vec();
        let ghost ts = crate::set::views(types@);
        let mut functions: Vec<usize> = Vec::new();
        let mut i: usize = 0;
        while i < targets.functions.len()
            invariant
                0 <= i <= targets.functions@.len(),
                crate::sorted::increasing(functions@),
                functions@.to_set() == targets.functions@.take(i as int).to_set(),
            decreases targets.functions@.len() - i,
        {
            proof {
                assert(targets.functions@.take(i + 1) =~= targets.functions@.take(i as int).push(targets.functions@[i as int]));
            }
            crate::sorted::insert_index(&mut functions, targets.functions[i]);
            i = i + 1;
        }
        assert(targets.functions@.take(i as int) =~= targets.functions@);
        let mut unknown = targets.unknown;
        let mut k: usize = 0;
        while k < types.len()
            invariant
                resolver_wf(self),
                ts == crate::set::views(types@),
                ts.to_set() == tv.types,
                0 <= k <= types@.len(),
                crate::sorted::increasing(functions@),
                forall|f: usize| #[trigger] functions@.to_set().contains(f) <==> (tv.functions.contains(f) || exists|j: int| 0 <= j < k && constructors_view(self, #[trigger] ts[j], Seq::empty()).0.contains(f)),
                unknown == (tv.unknown || exists|j: int| 0 <= j < k && constructors_view(self, #[trigger] ts[j], Seq::empty()).1),
            decreases types@.len() - k,
        {
            let mut visiting: Vec<EscErrorType> = Vec::new();
            proof {
                assert(crate::set::views(visiting@) =~= Seq::<ErrorTypeView>::empty());
                assert(ts[k as int] == types@[k as int]@);
            }
            let (more, more_unknown) = self.constructors(&types[k], &mut visiting);
            let ghost f0 = functions@;
            let mut j: usize = 0;
            while j < more.len()
                invariant
                    0 <= j <= more@.len(),
                    crate::sorted::increasing(functions@),
                    functions@.to_set() == f0.to_set().union(more@.take(j as int).to_set()),
                decreases more@.len() - j,
            {
                proof {
                    assert(more@.take(j + 1) =~= more@.take(j as int).push(more@[j as int]));
                }
                crate::sorted::insert_index(&mut functions, more[j]);
                j = j + 1;
            }
            assert(more@.take(j as int) =~= more@);
            unknown = unknown || more_unknown;
            proof {
                assert forall|f: usize| #[trigger] functions@.to_set().contains(f) <==> (tv.functions.contains(f) || exists|j: int| 0 <= j < k + 1 && constructors_view(self, #[trigger] ts[j], Seq::empty()).0.contains(f)) by {
                    if more@.to_set().contains(f) {
                        assert(constructors_view(self, ts[k as int], Seq::empty()).0.contains(f));
                    }
                    if exists|j: int| 0 <= j < k + 1 && constructors_view(self, #[trigger] ts[j], Seq::empty()).0.contains(f) {
                        let j = choose|j: int| 0 <= j < k + 1 && constructors_view(self, #[trigger] ts[j], Seq::empty()).0.contains(f);
                        if j == k {
                            assert(more@.to_set().contains(f));
                        }
                    }
                }
                if more_unknown {
                    assert(constructors_view(self, ts[k as int], Seq::empty()).1);
                }
            }
            k = k + 1;
        }
        let unresolved = unknown || (functions.len() == 0 && targets.types.is_empty() && targets.globals.len() == 0) || targets.namespaces.len() != 0;
        proof {
            let fs = tv.functions.union(Set::new(|f: usize| exists|t: ErrorTypeView| #[trigger] tv.types.contains(t) && constructors_view(self, t, Seq::empty()).0.contains(f)));
            assert forall|f: usize| functions@.to_set().contains(f) <==> fs.contains(f) by {
                if exists|j: int| 0 <= j < k && constructors_view(self, #[trigger] ts[j], Seq::empty()).0.contains(f) {
                    let j = choose|j: int| 0 <= j < k && constructors_view(self, #[trigger] ts[j], Seq::empty()).0.contains(f);
                    assert(ts.to_set().contains(ts[j]));
                }
                if exists|t: ErrorTypeView| #[trigger] tv.types.contains(t) && constructors_view(self, t, Seq::empty()).0.contains(f) {
                    let t = choose|t: ErrorTypeView| #[trigger] tv.types.contains(t) && constructors_view(self, t, Seq::empty()).0.contains(f);
                    assert(ts.to_set().contains(t));
                    let j = choose|j: int| 0 <= j < ts.len() && ts[j] == t;
                    assert(constructors_view(self, ts[j], Seq::empty()).0.contains(f));
                }
            }
            assert(functions@.to_set() =~= fs);
            if exists|j: int| 0 <= j < k && constructors_view(self, #[trigger] ts[j], Seq::empty()).1 {
                let j = choose|j: int| 0 <= j < k && constructors_view(self, #[trigger] ts[j], Seq::empty()).1;
                assert(ts.to_set().contains(ts[j]));
            }
            if exists|t: ErrorTypeView| #[trigger] tv.types.contains(t) && constructors_view(self, t, Seq::empty()).1 {
                let t = choose|t: ErrorTypeView| #[trigger] tv.types.contains(t) && constructors_view(self, t, Seq::empty()).1;
                assert(ts.to_set().contains(t));
                let j = choose|j: int| 0 <= j < ts.len() && ts[j] == t;
                assert(constructors_view(self, ts[j], Seq::empty()).1);
            }
            if functions@.len() != 0 {
                assert(functions@.to_set().contains(functions@[0]));
            }
            if functions@.len() == 0 {
                assert(functions@.to_set() =~= Set::<usize>::empty());
            }
            assert(targets.globals@.map_values(|g: String| g@).len() == targets.globals@.len());
        }
        (functions, unresolved)
    }

    /// The types that `value` stands for, for a base class or a type
    /// reference: its declared types, with those of annotations when
    /// `annotation`, and `unknown` when it may be anything or names no type.
    pub fn types_of(&self, value: &Denotation, annotation: bool) -> (r: Types)
        requires
            resolver_wf(self),
            den_ok(self.names@.len(), *value),
        ensures
            r@ == types_of_view(resolve_view(self, *value, Seq::empty()), annotation),
    {
        let mut fresh: Vec<Lookup> = Vec::new();
        let resolved = self.resolve(value, &mut fresh);
        let mut types = resolved.types;
        if annotation {
            types.join(resolved.annotation_types);
        }
        if resolved.unknown || types.is_empty() {
            types.insert(EscErrorType::unknown());
        }
        types
    }
}

/// The (function, signature) pairs that a declaration module gives to the
/// functions of its runtime module: for each name the declaration module
/// exports, each function the runtime export of that name may be gets each
/// signature the declaration export may be.
pub open spec fn paired_signatures_view(s: &Resolver, runtime: usize, types: usize, names: Seq<usize>) -> Set<(usize, (Seq<char>, u32))> {
    Set::new(
        |p: (usize, (Seq<char>, u32))|
            exists|k: int|
                0 <= k < names.len() && #[trigger] resolve_view(s, Denotation::Export(runtime, names[k]), Seq::empty()).functions.contains(p.0)
                    && resolve_view(s, Denotation::Export(types, names[k]), Seq::empty()).signatures.contains(p.1),
    )
}

impl Resolver {
    /// The signatures that the declaration module `types` gives to the
    /// functions of its runtime module `runtime`, as (function node,
    /// signature) pairs; none when the two are the same module.
    pub fn paired_signatures(&self, runtime: usize, types: usize) -> (r: Vec<(usize, EscErrorId)>)
        requires
            resolver_wf(self),
        ensures
            runtime == types ==> r@.len() == 0,
            runtime != types && types < self.modules@.len() ==> r@.map_values(|p: (usize, EscErrorId)| (p.0, (p.1.module_id@, p.1.node))).to_set()
                == paired_signatures_view(self, runtime, types, self.modules@[types as int].export_names@),
            types >= self.modules@.len() ==> r@.len() == 0,
    {
        let mut r: Vec<(usize, EscErrorId)> = Vec::new();
        if runtime == types || types >= self.modules.len() {
            return r;
        }
        let names = &self.modules[types].export_names;
        let ghost key = |p: (usize, EscErrorId)| (p.0, (p.1.module_id@, p.1.node));
        let mut k: usize = 0;
        while k < names.len()
            invariant
                resolver_wf(self),
                *names == self.modules@[types as int].export_names,
                0 <= k <= names@.len(),
                key == |p: (usize, EscErrorId)| (p.0, (p.1.module_id@, p.1.node)),
                r@.map_values(key).to_set() == paired_signatures_view(self, runtime, types, names@.take(k as int)),
            decreases names@.len() - k,
        {
            let name = names[k];
            let mut fresh: Vec<Lookup> = Vec::new();
            let implementation = self.resolve(&Denotation::Export(runtime, name), &mut fresh);
            let declaration = self.resolve(&Denotation::Export(types, name), &mut fresh);
            let ghost before = r@;
            let ghost iv = implementation@;
            let ghost dv = declaration@;
            let mut i: usize = 0;
            while i < implementation.functions.len()
                invariant
                    dv == declaration@,
                    iv == implementation@,
                    0 <= i <= implementation.functions@.len(),
                    key == |p: (usize, EscErrorId)| (p.0, (p.1.module_id@, p.1.node)),
                    forall|p: (usize, (Seq<char>, u32))| #[trigger] r@.map_values(key).to_set().contains(p) <==> (before.map_values(key).to_set().contains(p)
                        || (implementation.functions@.take(i as int).contains(p.0) && dv.signatures.contains(p.1))),
                decreases implementation.functions@.len() - i,
            {
                let f = implementation.functions[i];
                let ghost mid = r@;
                let mut j: usize = 0;
                while j < declaration.signatures.len()
                    invariant
                        0 <= j <= declaration.signatures@.len(),
                        key == |p: (usize, EscErrorId)| (p.0, (p.1.module_id@, p.1.node)),
                        forall|p: (usize, (Seq<char>, u32))| #[trigger] r@.map_values(key).to_set().contains(p) <==> (mid.map_values(key).to_set().contains(p)
                            || (p.0 == f && declaration.signatures@.take(j as int).map_values(|e: EscErrorId| (e.module_id@, e.node)).contains(p.1))),
                    decreases declaration.signatures@.len() - j,
                {
                    let sig = declaration.signatures[j].duplicate();
                    let ghost r0 = r@;
                    r.push((f, sig));
                    proof {
                        let sv = declaration.signatures@.map_values(|e: EscErrorId| (e.module_id@, e.node));
                        assert(declaration.signatures@.take(j + 1).map_values(|e: EscErrorId| (e.module_id@, e.node)) =~= sv.take(j as int).push(sv[j as int]));
                        assert(declaration.signatures@.take(j as int).map_values(|e: EscErrorId| (e.module_id@, e.node)) =~= sv.take(j as int));
                        assert(r@.map_values(key) =~= r0.map_values(key).push(key((f, sig))));
                        assert forall|p: (usize, (Seq<char>, u32))| #[trigger] r@.map_values(key).to_set().contains(p) <==> (mid.map_values(key).to_set().contains(p)
                            || (p.0 == f && declaration.signatures@.take(j + 1).map_values(|e: EscErrorId| (e.module_id@, e.node)).contains(p.1))) by {
                            let t0 = sv.take(j as int);
                            let t1 = sv.take(j + 1);
                            if t1.contains(p.1) {
                                let x = choose|x: int| 0 <= x < t1.len() && #[trigger] t1[x] == p.1;
                                if x < j {
                                    assert(t0[x] == p.1);
                                }
                            }
                            if t0.contains(p.1) {
                                let x = choose|x: int| 0 <= x < t0.len() && #[trigger] t0[x] == p.1;
                                assert(t1[x] == p.1);
                            }
                            if r@.map_values(key).to_set().contains(p) {
                                let x = choose|x: int| 0 <= x < r@.map_values(key).len() && #[trigger] r@.map_values(key)[x] == p;
                                if x < r0.len() {
                                    assert(r0.map_values(key)[x] == p);
                                } else {
                                    assert(t1[j as int] == p.1);
                                }
                            }
                            if r0.map_values(key).to_set().contains(p) {
                                let x = choose|x: int| 0 <= x < r0.map_values(key).len() && #[trigger] r0.map_values(key)[x] == p;
                                assert(r@.map_values(key)[x] == p);
                            }
                            if p.0 == f && t1.contains(p.1) && !t0.contains(p.1) {
                                assert(r@.map_values(key)[r0.len() as int] == p);
                            }
                        }
                    }
                    j = j + 1;
                }
                proof {
                    let sv = declaration.signatures@.map_values(|e: EscErrorId| (e.module_id@, e.node));
                    assert(declaration.signatures@.take(j as int) =~= declaration.signatures@);
                    assert forall|x: (Seq<char>, u32)| dv.signatures.contains(x) <==> sv.to_set().contains(x) by {
                        let dm = declaration.signatures@.map_values(|e: EscErrorId| (e.module_id@, e.node));
                        if dv.signatures.contains(x) {
                            let y = choose|y: int| 0 <= y < dm.len() && #[trigger] dm[y] == x;
                            assert(sv[y] == x);
                        }
                        if sv.to_set().contains(x) {
                            let y = choose|y: int| 0 <= y < sv.len() && #[trigger] sv[y] == x;
                            assert(dm[y] == x);
                        }
                    }
                    let fs = implementation.functions@;
                    assert forall|p: (usize, (Seq<char>, u32))| #[trigger] r@.map_values(key).to_set().contains(p) <==> (before.map_values(key).to_set().contains(p)
                        || (fs.take(i + 1).contains(p.0) && dv.signatures.contains(p.1))) by {
                        if fs.take(i + 1).contains(p.0) {
                            let x = choose|x: int| 0 <= x < fs.take(i + 1).len() && #[trigger] fs.take(i + 1)[x] == p.0;
                            if x < i {
                                assert(fs.take(i as int)[x] == p.0);
                            }
                        }
                        if fs.take(i as int).contains(p.0) {
                            let x = choose|x: int| 0 <= x < fs.take(i as int).len() && #[trigger] fs.take(i as int)[x] == p.0;
                            assert(fs.take(i + 1)[x] == p.0);
                        }
                        if p.0 == f {
                            assert(fs.take(i + 1)[i as int] == f);
                        }
                        assert(dv.signatures.contains(p.1) <==> sv.contains(p.1));
                    }
                }
                i = i + 1;
            }
            proof {
                assert(implementation.functions@.take(i as int) =~= implementation.functions@);
                let pre = names@.take(k as int);
                let post = names@.take(k + 1);
                assert(post =~= pre.push(name));
                assert forall|p: (usize, (Seq<char>, u32))| r@.map_values(key).to_set().contains(p) <==> paired_signatures_view(self, runtime, types, post).contains(p) by {
                    if paired_signatures_view(self, runtime, types, post).contains(p) {
                        let x = choose|x: int|
                            0 <= x < post.len() && #[trigger] resolve_view(self, Denotation::Export(runtime, post[x]), Seq::empty()).functions.contains(p.0)
                                && resolve_view(self, Denotation::Export(types, post[x]), Seq::empty()).signatures.contains(p.1);
                        if x < k {
                            assert(pre[x] == post[x]);
                            assert(paired_signatures_view(self, runtime, types, pre).contains(p));
                        } else {
                            assert(iv.functions.contains(p.0));
                        }
                    }
                    if paired_signatures_view(self, runtime, types, pre).contains(p) {
                        let x = choose|x: int|
                            0 <= x < pre.len() && #[trigger] resolve_view(self, Denotation::Export(runtime, pre[x]), Seq::empty()).functions.contains(p.0)
                                && resolve_view(self, Denotation::Export(types, pre[x]), Seq::empty()).signatures.contains(p.1);
                        assert(post[x] == pre[x]);
                        assert(resolve_view(self, Denotation::Export(runtime, post[x]), Seq::empty()).functions.contains(p.0));
                    }
                    if implementation.functions@.contains(p.0) && dv.signatures.contains(p.1) {
                        assert(post[k as int] == name);
                        assert(resolve_view(self, Denotation::Export(runtime, post[k as int]), Seq::empty()).functions.contains(p.0));
                    }
                }
                assert(r@.map_values(key).to_set() =~= paired_signatures_view(self, runtime, types, post));
            }
            k = k + 1;
        }
        assert(names@.take(k as int) =~= names@);
        r
    }
}

} // verus!
