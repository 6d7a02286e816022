use errorscript::error::EscErrorType;
use errorscript::flow::Summary;
use errorscript::function::{EscCall, EscCallGraph, EscCallSite, EscFnId};
use errorscript::module_id::EscModuleId;
use errorscript::path::{EscModulePath, EscPath, EscRepoPath};
use errorscript::schedule::{EscDependencies, LocalSummaries, SummaryStore};
use errorscript::set::Types;
use errorscript::subtype::EscSuperTypes;
use std::path::PathBuf;

fn module(name: &str) -> EscModuleId {
    let repo = EscRepoPath::try_new(EscPath::from_canonical(PathBuf::from("/repo")), true).unwrap();
    let path = EscModulePath::from_canonical(PathBuf::from(format!("/repo/{name}")));
    EscModuleId::from_path(&path, &repo).unwrap()
}

fn call(caller: Option<usize>, targets: &[usize], functions: &[EscFnId]) -> EscCall {
    EscCall {
        caller: caller.map(|n| functions[n].clone()),
        site: EscCallSite { module_id: module("a.ts"), node_id: 0 },
        targets: targets.iter().map(|&n| functions[n].clone()).collect(),
        unresolved: false,
        constructed_types: errorscript::set::Types::new(),
        global_calls: Vec::new(),
    }
}

/// Components: {0, 1} (mutual recursion) and {2}, which calls node 0.
fn graph() -> EscCallGraph {
    let functions = vec![
        EscFnId::new(module("a.ts"), 0),
        EscFnId::new(module("a.ts"), 1),
        EscFnId::new(module("b.ts"), 2),
    ];
    let calls = vec![
        call(Some(0), &[1], &functions),
        call(Some(1), &[0], &functions),
        call(Some(2), &[0], &functions),
        call(None, &[2], &functions),
    ];
    EscCallGraph::assemble(functions, calls, EscSuperTypes::new(), Vec::new()).unwrap()
}

fn throwing(name: &str) -> Summary {
    let mut summary = Summary::new();
    summary.errors = Types::from_vec(vec![EscErrorType::builtin(name)]);
    summary
}

#[test]
fn dependencies_follow_calls_between_components() {
    let graph = graph();
    let deps = EscDependencies::new(&graph);
    assert_eq!(deps.readers(0), &vec![1]);
    assert!(deps.readers(1).is_empty());
    assert!(deps.readers(2).is_empty());
}

#[test]
fn a_round_starts_with_components_whose_dirty_dependencies_are_done() {
    let graph = graph();
    let deps = EscDependencies::new(&graph);
    let dirty = vec![true, true];
    let mut remaining = vec![7, 7];
    let ready = deps.start_round(&dirty, &mut remaining);
    assert_eq!(ready, vec![0]);
    assert_eq!(remaining, vec![0, 1]);
    let ready = deps.finish(0, &dirty, &mut remaining);
    assert_eq!(ready, vec![1]);
    assert_eq!(remaining, vec![0, 0]);

    // A clean dependency does not hold its dependents back.
    let dirty = vec![false, true];
    let mut remaining = vec![7, 7];
    assert_eq!(deps.start_round(&dirty, &mut remaining), vec![1]);
    assert_eq!(remaining, vec![7, 0]);
    let mut remaining = vec![7, 5];
    assert!(deps.finish(0, &dirty, &mut remaining).is_empty());
    assert_eq!(remaining, vec![7, 4]);
}

#[test]
fn merges_bump_versions_only_when_a_summary_grows() {
    let mut store = SummaryStore::new(3);
    assert_eq!(store.version(0), 0);
    assert!(store.merge(0, throwing("TypeError")));
    assert_eq!(store.version(0), 1);
    assert!(!store.merge(0, throwing("TypeError")));
    assert_eq!(store.version(0), 1);
    assert!(!store.merge(1, Summary::new()));
    assert_eq!(store.version(1), 0);
    assert!(store.summary(0).errors.contains(&EscErrorType::builtin("TypeError")));
    assert!(store.stale(&vec![(0, 0)]));
    assert!(!store.stale(&vec![(0, 1), (1, 0)]));
    assert!(!store.stale(&Vec::new()));
}

#[test]
fn absorbing_a_result_marks_stale_readers_and_readers_of_changed_summaries() {
    let graph = graph();
    let mut deps = EscDependencies::new(&graph);
    let mut store = SummaryStore::new(3);
    let mut next_dirty = vec![false, false];

    // Component 1 read node 0 at version 0; component 0 then changes it.
    store.absorb(&mut deps, 1, &vec![(0, 0)], vec![(2, throwing("RangeError"))], &mut next_dirty);
    assert_eq!(next_dirty, vec![false, false]);
    assert_eq!(store.version(2), 1);
    store.absorb(&mut deps, 0, &Vec::new(), vec![(0, throwing("TypeError")), (1, Summary::new())], &mut next_dirty);
    assert_eq!(next_dirty, vec![false, true]);
    assert_eq!(store.version(0), 1);
    assert_eq!(store.version(1), 0);

    // A result that read node 0 at the old version is stale itself.
    let mut next_dirty = vec![false, false];
    store.absorb(&mut deps, 0, &vec![(0, 0)], Vec::new(), &mut next_dirty);
    assert_eq!(next_dirty, vec![true, false]);
    assert_eq!(deps.readers(0), &vec![0, 1]);
}

#[test]
fn component_reads_prefer_own_summaries_and_record_the_oldest_version() {
    let mut store = SummaryStore::new(4);
    let mut local = LocalSummaries::new(&vec![0, 1], vec![throwing("RangeError"), Summary::new()]);
    assert!(local.get(&store, 0).errors.contains(&EscErrorType::builtin("RangeError")));
    assert!(local.local_read());
    assert!(local.reads().is_empty());
    assert!(local.get(&store, 2).errors.is_empty());
    assert_eq!(local.reads(), &vec![(2, 0)]);
    assert!(store.merge(2, throwing("TypeError")));
    assert!(local.get(&store, 2).errors.contains(&EscErrorType::builtin("TypeError")));
    assert_eq!(local.reads(), &vec![(2, 0)]);
    assert!(store.stale(local.reads()));
    local.get(&store, 3);
    assert_eq!(local.reads(), &vec![(2, 0), (3, 0)]);
}
