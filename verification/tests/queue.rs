use errorscript::function::{EscCallGraph, EscFnId};
use errorscript::module_id::EscModuleId;
use errorscript::path::{EscModulePath, EscPath, EscRepoPath};
use errorscript::queue::{Ready, MODULE_CONCURRENCY};
use std::path::PathBuf;

fn module(name: &str) -> EscModuleId {
    let repo = EscRepoPath::try_new(EscPath::from_canonical(PathBuf::from("/repo")), true).unwrap();
    let path = EscModulePath::from_canonical(PathBuf::from(format!("/repo/{name}")));
    EscModuleId::from_path(&path, &repo).unwrap()
}

#[test]
fn affinity_requeue_keeps_one_fallback_entry_and_releases_blocked_work() {
    let mut graph = EscCallGraph::default();
    for name in ["a.ts", "b.ts"] {
        let node = graph.sccs.len();
        graph.sccs.push(vec![EscFnId::new(module(name), node)]);
    }
    let a = graph.sccs[0][0].module_id().clone();
    let b = graph.sccs[1][0].module_id().clone();
    let mut ready = Ready::default();
    let empty: Vec<(EscModuleId, usize)> = Vec::new();
    for _ in 0..1000 {
        ready.push(0, &graph);
        assert_eq!(ready.pop(Some(&a), &empty, &graph), Some(0));
    }
    assert_eq!(ready.order_len(), 1);
    ready.push(0, &graph);
    ready.push(1, &graph);
    let active = vec![(a.clone(), MODULE_CONCURRENCY)];
    assert_eq!(ready.pop(Some(&a), &active, &graph), Some(1));
    assert_eq!(ready.pop(Some(&b), &active, &graph), None);
    assert_eq!(ready.pop(None, &empty, &graph), Some(0));
    assert_eq!(ready.order_len(), 0);
    assert!(ready.queued_is_empty());

    // A batch must not consume a cross-module SCC without reserving its
    // other arena, or grow without bound on a large generated bundle.
    for _ in 0..20 {
        let node = graph.sccs.len();
        graph.sccs.push(vec![EscFnId::new(a.clone(), node)]);
    }
    let cross = graph.sccs.len();
    graph.sccs.push(vec![
        EscFnId::new(a.clone(), cross),
        EscFnId::new(b, cross + 1),
    ]);
    for component in 2..=cross {
        ready.push(component, &graph);
    }
    let first = ready.pop(Some(&a), &empty, &graph).unwrap();
    assert_eq!(ready.batch(first, &graph), (2..18).collect::<Vec<_>>());
    let first = ready.pop(Some(&a), &empty, &graph).unwrap();
    assert_eq!(ready.batch(first, &graph), (18..cross).collect::<Vec<_>>());
    let first = ready.pop(Some(&a), &empty, &graph).unwrap();
    assert_eq!(ready.batch(first, &graph), vec![cross]);
    assert_eq!(ready.pop(None, &empty, &graph), None);
}

#[test]
fn blocked_modules_rotate_to_the_back() {
    let mut graph = EscCallGraph::default();
    for name in ["a.ts", "b.ts", "c.ts"] {
        let node = graph.sccs.len();
        graph.sccs.push(vec![EscFnId::new(module(name), node)]);
    }
    let a = module("a.ts");
    let mut ready = Ready::new();
    for component in 0..3 {
        ready.push(component, &graph);
    }
    assert_eq!(ready.order_len(), 3);
    let active = vec![(a.clone(), MODULE_CONCURRENCY)];
    assert_eq!(ready.pop(None, &active, &graph), Some(1));
    assert_eq!(ready.pop(None, &active, &graph), Some(2));
    assert_eq!(ready.pop(None, &active, &graph), None);
    assert_eq!(ready.order_len(), 1);
    assert_eq!(ready.pop(None, &Vec::new(), &graph), Some(0));
    assert!(ready.queued_is_empty());
}

#[test]
fn popping_takes_each_queued_component_exactly_once() {
    let mut graph = EscCallGraph::default();
    for name in ["a.ts", "a.ts", "b.ts", "a.ts"] {
        let node = graph.sccs.len();
        graph.sccs.push(vec![EscFnId::new(module(name), node)]);
    }
    let mut ready = Ready::default();
    for component in 0..4 {
        ready.push(component, &graph);
    }
    let empty: Vec<(EscModuleId, usize)> = Vec::new();
    let mut taken = Vec::new();
    while let Some(c) = ready.pop(None, &empty, &graph) {
        taken.push(c);
    }
    taken.sort();
    assert_eq!(taken, vec![0, 1, 2, 3]);
    assert!(ready.queued_is_empty());
}
