use errorscript::error::{EscErrorId, EscErrorType};
use errorscript::module_id::EscModuleId;
use errorscript::path::{EscModulePath, EscPath, EscRepoPath};
use errorscript::set::Types;
use errorscript::subtype::{narrow_types, EscSuperTypes};
use std::path::PathBuf;

fn class(node: u32) -> EscErrorType {
    let repo = EscRepoPath::try_new(EscPath::from_canonical(PathBuf::from("/repo")), true).unwrap();
    let path = EscModulePath::from_canonical(PathBuf::from("/repo/errors.ts"));
    let module_id = EscModuleId::from_path(&path, &repo).unwrap();
    EscErrorType::Node(EscErrorId { module_id, node })
}

#[test]
fn builtin_error_constructors_extend_error() {
    let supers = EscSuperTypes::new();
    let error = EscErrorType::builtin("Error");
    assert_eq!(supers.subtype(&EscErrorType::builtin("TypeError"), &error), Some(true));
    assert_eq!(supers.subtype(&error, &error), Some(true));
    assert_eq!(supers.subtype(&EscErrorType::builtin("number"), &error), Some(false));
    assert_eq!(supers.subtype(&EscErrorType::unknown(), &error), None);
    assert_eq!(supers.subtype(&error, &EscErrorType::unknown()), None);
}

#[test]
fn declared_classes_follow_their_superclasses() {
    let mut supers = EscSuperTypes::new();
    let base = class(1);
    let derived = class(2);
    let opaque = class(3);
    supers.insert(base.clone(), Types::from_vec(vec![EscErrorType::builtin("Error")]));
    supers.insert(derived.clone(), Types::from_vec(vec![base.clone()]));
    supers.insert(opaque.clone(), Types::from_vec(vec![EscErrorType::unknown()]));
    assert_eq!(supers.subtype(&derived, &base), Some(true));
    assert_eq!(supers.subtype(&derived, &EscErrorType::builtin("Error")), Some(true));
    assert_eq!(supers.subtype(&base, &derived), Some(false));
    assert_eq!(supers.subtype(&opaque, &base), None);
    assert_eq!(supers.get(&derived).map(|t| t.len()), Some(1));
    assert!(supers.get(&EscErrorType::builtin("Error")).is_none());
}

#[test]
fn cyclic_hierarchies_are_unknown() {
    let mut supers = EscSuperTypes::new();
    let a = class(10);
    let b = class(11);
    supers.insert(a.clone(), Types::from_vec(vec![b.clone()]));
    supers.insert(b.clone(), Types::from_vec(vec![a.clone()]));
    assert_eq!(supers.subtype(&a, &EscErrorType::builtin("Error")), None);
    assert_eq!(supers.subtype(&a, &b), Some(true));
}

#[test]
fn instanceof_narrowing_keeps_matching_and_unknown_types() {
    let mut supers = EscSuperTypes::new();
    let custom = class(20);
    supers.insert(custom.clone(), Types::from_vec(vec![EscErrorType::builtin("Error")]));
    let types = Types::from_vec(vec![
        custom.clone(),
        EscErrorType::builtin("TypeError"),
        EscErrorType::builtin("string"),
        EscErrorType::unknown(),
    ]);
    let bases = vec![EscErrorType::builtin("Error")];
    let caught = narrow_types(&types, &bases, &supers, true).unwrap();
    assert_eq!(
        caught,
        Types::from_vec(vec![custom.clone(), EscErrorType::builtin("TypeError"), EscErrorType::unknown()])
    );
    let rest = narrow_types(&types, &bases, &supers, false).unwrap();
    assert_eq!(rest, Types::from_vec(vec![EscErrorType::builtin("string"), EscErrorType::unknown()]));
    let only_errors = Types::from_vec(vec![EscErrorType::builtin("RangeError")]);
    assert!(narrow_types(&only_errors, &bases, &supers, false).is_none());
    assert!(narrow_types(&only_errors, &vec![], &supers, true).is_none());
}
