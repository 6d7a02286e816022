use errorscript::function::{components_of, EscCall, EscCallGraph, EscCallSite, EscFnId};
use errorscript::module_id::EscModuleId;
use errorscript::path::{EscModulePath, EscPath, EscRepoPath};
use errorscript::subtype::EscSuperTypes;
use std::path::PathBuf;

fn module(name: &str) -> EscModuleId {
    let repo = EscRepoPath::try_new(EscPath::from_canonical(PathBuf::from("/repo")), true).unwrap();
    let path = EscModulePath::from_canonical(PathBuf::from(format!("/repo/{name}")));
    EscModuleId::from_path(&path, &repo).unwrap()
}

fn call(caller: Option<usize>, targets: &[usize], functions: &[EscFnId], site: u32) -> EscCall {
    EscCall {
        caller: caller.map(|n| functions[n].clone()),
        site: EscCallSite { module_id: module("a.ts"), node_id: site },
        targets: targets.iter().map(|&n| functions[n].clone()).collect(),
        unresolved: false,
        constructed_types: errorscript::set::Types::new(),
        global_calls: Vec::new(),
    }
}

/// Two mutually recursive functions in one module and a third that calls
/// one of them from another module.
pub fn sample_graph() -> EscCallGraph {
    let functions = vec![
        EscFnId::new(module("a.ts"), 0),
        EscFnId::new(module("a.ts"), 1),
        EscFnId::new(module("b.ts"), 2),
    ];
    let calls = vec![
        call(Some(0), &[1], &functions, 10),
        call(Some(1), &[0], &functions, 11),
        call(Some(2), &[0], &functions, 12),
        call(None, &[2], &functions, 13),
    ];
    EscCallGraph::assemble(functions, calls, EscSuperTypes::new(), Vec::new()).unwrap()
}

#[test]
fn components_of_sorts_members_and_indexes_nodes() {
    let (sorted, comp) = components_of(3, &vec![vec![2, 0], vec![1]]).unwrap();
    assert_eq!(sorted, vec![vec![0, 2], vec![1]]);
    assert_eq!(comp, vec![0, 1, 0]);
}

#[test]
fn components_of_rejects_repeated_missing_or_foreign_nodes() {
    assert!(components_of(1, &vec![vec![0], vec![0]]).is_none());
    assert!(components_of(2, &vec![vec![0]]).is_none());
    assert!(components_of(1, &vec![vec![5]]).is_none());
    assert_eq!(components_of(0, &Vec::new()), Some((Vec::new(), Vec::new())));
}

#[test]
fn assemble_groups_mutual_recursion_and_orders_callees_first() {
    let graph = sample_graph();
    assert_eq!(graph.sccs.len(), 2);
    let nodes: Vec<Vec<usize>> = graph.sccs.iter().map(|c| c.iter().map(|f| f.node()).collect()).collect();
    assert_eq!(nodes, vec![vec![0, 1], vec![2]]);
    assert_eq!(graph.component_of, vec![0, 0, 1]);
    assert_eq!(graph.sccs[1][0].module_id().as_str(), "b.ts");
    assert_eq!(graph.calls.len(), 4);
}

#[test]
fn assemble_keeps_isolated_functions_as_their_own_components() {
    let functions = vec![EscFnId::new(module("a.ts"), 0), EscFnId::new(module("a.ts"), 1)];
    let graph = EscCallGraph::assemble(functions, Vec::new(), EscSuperTypes::new(), vec!["Math".to_string()]).unwrap();
    assert_eq!(graph.sccs.len(), 2);
    assert_eq!(graph.component_of.len(), 2);
    assert_ne!(graph.component_of[0], graph.component_of[1]);
    assert_eq!(graph.modified_globals, vec!["Math".to_string()]);
}

#[test]
fn recursion_is_a_component_of_several_members_or_a_self_call() {
    let graph = sample_graph();
    assert!(graph.is_recursive(0));
    assert!(!graph.is_recursive(1));
    let functions = vec![EscFnId::new(module("a.ts"), 0)];
    let calls = vec![call(Some(0), &[0], &functions, 1)];
    let graph = EscCallGraph::assemble(functions, calls, EscSuperTypes::new(), Vec::new()).unwrap();
    assert!(graph.is_recursive(0));
}

#[test]
fn module_identities_order_by_path() {
    assert!(module("a.ts") < module("b.ts"));
    assert!(module("dir/a.ts") > module("b.ts"));
    let mut ids = vec![module("c.ts"), module("a.ts"), module("b.ts")];
    ids.sort();
    let names: Vec<&str> = ids.iter().map(|id| id.as_str()).collect();
    assert_eq!(names, ["a.ts", "b.ts", "c.ts"]);
}
