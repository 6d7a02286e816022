use errorscript::references::{is_external_module_name_relative, parse_reference_pragma};

#[test]
fn relative_module_names_start_with_dot_segments() {
    assert!(is_external_module_name_relative("."));
    assert!(is_external_module_name_relative(".."));
    assert!(is_external_module_name_relative("./a"));
    assert!(is_external_module_name_relative("../a"));
    assert!(is_external_module_name_relative(".\\a"));
    assert!(!is_external_module_name_relative(".a"));
    assert!(!is_external_module_name_relative("a/b"));
    assert!(!is_external_module_name_relative(""));
}

#[test]
fn reference_pragmas_name_their_kind_and_value() {
    assert_eq!(
        parse_reference_pragma("/ <reference path=\"./types.d.ts\" />"),
        Some(("path", "./types.d.ts".to_string()))
    );
    assert_eq!(
        parse_reference_pragma("/<reference types='node'/>"),
        Some(("types", "node".to_string()))
    );
    assert_eq!(
        parse_reference_pragma("/ <reference lib = \"es2020\" />"),
        Some(("lib", "es2020".to_string()))
    );
    assert_eq!(parse_reference_pragma(" <reference path=\"x\" />"), None);
    assert_eq!(parse_reference_pragma("/ <reference other=\"x\" />"), None);
    assert_eq!(parse_reference_pragma("/ <reference path=x />"), None);
    assert_eq!(parse_reference_pragma("/ <reference path=\"unterminated />"), None);
}

use errorscript::path::EscModulePath;
use errorscript::references::{EscModuleReference, EscModuleReferenceInfo, EscModuleReferenceKind, EscModuleReferences, EscSpan};
use std::collections::HashSet;
use std::path::PathBuf;

fn file(name: &str) -> EscModulePath {
    EscModulePath::from_canonical(PathBuf::from(format!("/dir/{name}")))
}

fn external(specifier: &str, kind: EscModuleReferenceKind, type_only: bool, module: &str, types: &str) -> EscModuleReference {
    EscModuleReference::External {
        info: EscModuleReferenceInfo { specifier: specifier.to_string(), span: EscSpan { start: 0, end: 0 }, kind, type_only },
        module: file(module),
        types: Some(file(types)),
    }
}

// The references of
//   import type { T } from './types.js';
//   import { type T as U } from './types.js';
//   export { type T } from './types.js';
//   export type * from './types.js';
//   import type C = require('./types.js');
//   type Query = import('./types.js').T<import('./nested.js').N>;
//   import { type T as V, value } from './value.js';
// each resolved to its runtime file and its declaration file.
#[test]
fn preserves_type_only_metadata_and_loads_only_type_dependencies() {
    let mut references = EscModuleReferences::new();
    references.imports = vec![
        external("./types.js", EscModuleReferenceKind::Import, true, "types.js", "types.d.ts"),
        external("./types.js", EscModuleReferenceKind::Import, true, "types.js", "types.d.ts"),
        external("./types.js", EscModuleReferenceKind::Export, true, "types.js", "types.d.ts"),
        external("./types.js", EscModuleReferenceKind::Export, true, "types.js", "types.d.ts"),
        external("./types.js", EscModuleReferenceKind::ImportEquals, true, "types.js", "types.d.ts"),
        external("./value.js", EscModuleReferenceKind::Import, false, "value.js", "value.d.ts"),
        external("./types.js", EscModuleReferenceKind::ImportType, true, "types.js", "types.d.ts"),
        external("./nested.js", EscModuleReferenceKind::ImportType, true, "nested.js", "nested.d.ts"),
    ];
    assert_eq!(references.imports.len(), 8);
    for reference in &references.imports {
        let info = reference.info();
        assert_eq!(info.type_only, info.specifier != "./value.js");
    }
    let names: HashSet<String> = references
        .dependencies()
        .iter()
        .map(|p| p.as_path().file_name().unwrap().to_string_lossy().into_owned())
        .collect();
    assert_eq!(
        names,
        HashSet::from(["types.d.ts".to_string(), "nested.d.ts".to_string(), "value.js".to_string(), "value.d.ts".to_string()])
    );
}
