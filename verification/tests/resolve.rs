use errorscript::error::{EscErrorId, EscErrorType};
use errorscript::module_id::EscModuleId;
use errorscript::path::{EscModulePath, EscPath, EscRepoPath};
use errorscript::resolve::{ClassInfo, Denotation, Lookup, ModuleExports, Resolver, Targets};
use errorscript::set::Types;
use std::path::PathBuf;

fn module(name: &str) -> EscModuleId {
    let repo = EscRepoPath::try_new(EscPath::from_canonical(PathBuf::from("/repo")), true).unwrap();
    let path = EscModulePath::from_canonical(PathBuf::from(format!("/repo/{name}")));
    EscModuleId::from_path(&path, &repo).unwrap()
}

fn class(node: u32) -> EscErrorType {
    EscErrorType::Node(EscErrorId { module_id: module("a.ts"), node })
}

fn exports(exports: Vec<(usize, Denotation)>, stars: Vec<Option<usize>>, names: Vec<usize>) -> ModuleExports {
    ModuleExports { exports, stars, export_names: names, unknown_exports: false }
}

/// Names: 0 "run", 1 "default", 2 "parse". Module 0 exports `run`; module 1
/// re-exports everything from module 0; module 2 re-exports from outside.
fn resolver(resolving: bool) -> Resolver {
    Resolver {
        names: vec!["run".to_string(), "default".to_string(), "parse".to_string()],
        bindings: vec![
            Some(Denotation::Binding(1)),
            Some(Denotation::Union(Box::new(Denotation::Binding(0)), Box::new(Denotation::Function(7)))),
            None,
        ],
        modules: vec![
            exports(vec![(0, Denotation::Function(3)), (1, Denotation::Function(4))], vec![], vec![0, 1]),
            exports(vec![], vec![Some(0)], vec![]),
            exports(vec![], vec![None], vec![]),
        ],
        modified_globals: vec![],
        resolving,
        classes: vec![
            (class(1), ClassInfo { constructor: Some(4), superclass: None, unknown_initialization: false }),
            (class(2), ClassInfo { constructor: None, superclass: Some(Denotation::Type(class(1))), unknown_initialization: false }),
            (class(3), ClassInfo { constructor: None, superclass: Some(Denotation::Type(class(3))), unknown_initialization: false }),
        ],
    }
}

fn resolve(r: &Resolver, d: &Denotation) -> Targets {
    let mut visiting: Vec<Lookup> = Vec::new();
    let t = r.resolve(d, &mut visiting);
    assert!(visiting.is_empty());
    t
}

#[test]
fn binding_cycles_contribute_nothing_but_what_they_meet() {
    let r = resolver(false);
    let t = resolve(&r, &Denotation::Binding(0));
    assert_eq!(t.functions, vec![7]);
    assert!(!t.unknown);
    assert!(resolve(&r, &Denotation::Binding(2)).unknown);
    assert!(resolve(&r, &Denotation::Binding(9)).unknown);
}

#[test]
fn star_exports_are_searched_except_for_default() {
    let r = resolver(false);
    let t = resolve(&r, &Denotation::Export(1, 0));
    assert_eq!(t.functions, vec![3]);
    assert!(!t.unknown);
    let t = resolve(&r, &Denotation::Export(1, 1));
    assert!(t.functions.is_empty() && !t.unknown);
    assert!(resolve(&r, &Denotation::Export(2, 0)).unknown);
    assert!(!resolve(&r, &Denotation::Export(7, 0)).unknown);
}

#[test]
fn final_export_names_skip_sources_that_cannot_provide_a_name() {
    let mut r = resolver(true);
    assert_eq!(resolve(&r, &Denotation::Export(1, 0)).functions, vec![3]);
    r.modules[0].export_names = vec![];
    assert!(resolve(&r, &Denotation::Export(1, 0)).functions.is_empty());
    r.modules[0].unknown_exports = true;
    assert_eq!(resolve(&r, &Denotation::Export(1, 0)).functions, vec![3]);
}

#[test]
fn members_of_namespaces_and_globals_are_looked_up() {
    let r = resolver(false);
    let t = resolve(&r, &Denotation::Member(Box::new(Denotation::Namespace(0)), 0));
    assert_eq!(t.functions, vec![3]);
    assert!(!t.unknown);
    let t = resolve(&r, &Denotation::Member(Box::new(Denotation::Global("JSON".to_string())), 2));
    assert_eq!(t.globals, vec!["JSON.parse".to_string()]);
    assert!(!t.unknown);
    let t = resolve(&r, &Denotation::Member(Box::new(Denotation::Function(1)), 2));
    assert!(t.unknown);
}

#[test]
fn standard_globals_resolve_unless_the_project_assigns_them() {
    let mut r = resolver(false);
    let t = resolve(&r, &Denotation::Global("Error".to_string()));
    assert_eq!(t.globals, vec!["Error".to_string()]);
    assert_eq!(t.types, Types::from_vec(vec![EscErrorType::builtin("Error")]));
    assert!(!t.unknown);
    assert!(resolve(&r, &Denotation::Global("NoSuchThing".to_string())).unknown);
    r.modified_globals = vec!["JSON".to_string()];
    assert!(resolve(&r, &Denotation::Global("JSON.parse".to_string())).unknown);
    assert!(r.is_modified("JSON"));
    assert!(!r.is_modified("Math"));
}

#[test]
fn type_only_values_keep_their_types_as_annotations() {
    let r = resolver(false);
    let t = resolve(&r, &Denotation::TypeOnly(Box::new(Denotation::Union(Box::new(Denotation::Type(class(1))), Box::new(Denotation::Function(3))))));
    assert!(t.types.is_empty());
    assert!(t.functions.is_empty());
    assert!(t.annotation_types.contains(&class(1)));
    assert_eq!(r.types_of(&Denotation::TypeOnly(Box::new(Denotation::Type(class(1)))), true), Types::from_vec(vec![class(1)]));
    assert_eq!(r.types_of(&Denotation::TypeOnly(Box::new(Denotation::Type(class(1)))), false), Types::from_vec(vec![EscErrorType::unknown()]));
    assert_eq!(r.types_of(&Denotation::Unknown, false), Types::from_vec(vec![EscErrorType::unknown()]));
}

#[test]
fn constructors_follow_superclasses_and_cut_cycles() {
    let r = resolver(false);
    let mut visiting = Vec::new();
    assert_eq!(r.constructors(&class(2), &mut visiting), (vec![4], false));
    assert_eq!(r.constructors(&class(3), &mut visiting), (vec![], true));
    assert_eq!(r.constructors(&class(9), &mut visiting), (vec![], false));
    assert!(visiting.is_empty());
}

#[test]
fn call_targets_include_constructors_and_flag_unresolved_calls() {
    let r = resolver(false);
    assert_eq!(r.call_targets(&Denotation::Type(class(2))), (vec![4], false));
    let either = Denotation::Union(Box::new(Denotation::Function(9)), Box::new(Denotation::Function(2)));
    assert_eq!(r.call_targets(&either), (vec![2, 9], false));
    assert_eq!(r.call_targets(&Denotation::Unknown), (vec![], true));
    assert_eq!(r.call_targets(&Denotation::Namespace(0)), (vec![], true));
    assert_eq!(r.call_targets(&Denotation::Global("Error".to_string())), (vec![], false));
}

#[test]
fn declaration_modules_give_their_signatures_to_runtime_functions() {
    let signature = EscErrorId { module_id: module("a.d.ts"), node: 9 };
    let r = Resolver {
        names: vec!["run".to_string(), "other".to_string()],
        bindings: vec![],
        modules: vec![
            exports(vec![(0, Denotation::Union(Box::new(Denotation::Function(5)), Box::new(Denotation::Function(6))))], vec![], vec![0]),
            exports(vec![(0, Denotation::Signature(EscErrorId { module_id: module("a.d.ts"), node: 9 })), (1, Denotation::Unknown)], vec![], vec![0, 1]),
        ],
        modified_globals: vec![],
        resolving: true,
        classes: vec![],
    };
    let mut pairs: Vec<(usize, u32)> = r.paired_signatures(0, 1).iter().map(|(f, s)| (*f, s.node)).collect();
    pairs.sort();
    assert_eq!(pairs, vec![(5, signature.node), (6, signature.node)]);
    assert!(r.paired_signatures(1, 1).is_empty());
    assert!(r.paired_signatures(0, 7).is_empty());
}
