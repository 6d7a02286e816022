use errorscript::error::EscErrorType;
use errorscript::flow::Summary;
use errorscript::function::{EscCall, EscCallGraph, EscCallSite, EscFnId};
use errorscript::module_id::EscModuleId;
use errorscript::path::{EscModulePath, EscPath, EscRepoPath};
use errorscript::rounds::{adjust_component, Rounds};
use errorscript::schedule::SummaryStore;
use errorscript::set::Types;
use errorscript::subtype::EscSuperTypes;
use std::path::PathBuf;

fn module(name: &str) -> EscModuleId {
    let repo = EscRepoPath::try_new(EscPath::from_canonical(PathBuf::from("/repo")), true).unwrap();
    let path = EscModulePath::from_canonical(PathBuf::from(format!("/repo/{name}")));
    EscModuleId::from_path(&path, &repo).unwrap()
}

fn call(caller: Option<usize>, targets: &[usize], functions: &[EscFnId]) -> EscCall {
    EscCall {
        caller: caller.map(|n| functions[n].clone()),
        site: EscCallSite { module_id: module("a.ts"), node_id: 0 },
        targets: targets.iter().map(|&n| functions[n].clone()).collect(),
        unresolved: false,
        constructed_types: errorscript::set::Types::new(),
        global_calls: Vec::new(),
    }
}

/// Node 1 (b.ts) calls node 0 (a.ts): two components, callee first.
fn graph() -> EscCallGraph {
    let functions = vec![EscFnId::new(module("a.ts"), 0), EscFnId::new(module("b.ts"), 1)];
    let calls = vec![call(Some(1), &[0], &functions)];
    EscCallGraph::assemble(functions, calls, EscSuperTypes::new(), Vec::new()).unwrap()
}

fn throwing(name: &str) -> Summary {
    let mut summary = Summary::new();
    summary.errors = Types::from_vec(vec![EscErrorType::builtin(name)]);
    summary
}

#[test]
fn rounds_run_callees_first_and_stop_when_nothing_is_dirty() {
    let graph = graph();
    let callee = graph.component_of[0];
    let caller = graph.component_of[1];
    assert!(callee < caller);
    let mut store = SummaryStore::new(2);
    let mut rounds = Rounds::new(&graph, 4);
    assert_eq!(rounds.in_flight(), 0);
    assert!(rounds.begin_round(&graph));
    assert!(!rounds.round_done());
    // Only the callee is ready; both workers are free but one job runs.
    let jobs = rounds.dispatch(None, &graph).unwrap();
    assert_eq!(jobs, vec![callee]);
    assert_eq!(rounds.in_flight(), 1);
    assert!(rounds.dispatch(None, &graph).is_none());
    rounds.record(&mut store, callee, &vec![], vec![(0, throwing("TypeError"))]);
    rounds.job_done(callee, &graph);
    rounds.component_done(callee, &graph);
    assert_eq!(rounds.in_flight(), 0);
    // The caller was waiting for the callee only.
    let jobs = rounds.dispatch(None, &graph).unwrap();
    assert_eq!(jobs, vec![caller]);
    let read = store.version(0);
    rounds.record(&mut store, caller, &vec![(0, read)], vec![(1, throwing("TypeError"))]);
    rounds.job_done(caller, &graph);
    rounds.component_done(caller, &graph);
    assert!(rounds.round_done());
    // Completing a component twice changes nothing.
    rounds.component_done(caller, &graph);
    assert!(rounds.round_done());
    let observed = vec![vec![], vec![(0, store.version(0))]];
    rounds.end_round(&store, &observed, &vec![false, false]);
    assert!(!rounds.begin_round(&graph));
}

#[test]
fn a_stale_read_keeps_a_component_dirty_for_the_next_round() {
    let graph = graph();
    let callee = graph.component_of[0];
    let caller = graph.component_of[1];
    let mut store = SummaryStore::new(2);
    let mut rounds = Rounds::new(&graph, 1);
    assert!(rounds.begin_round(&graph));
    let jobs = rounds.dispatch(None, &graph).unwrap();
    assert_eq!(jobs, vec![callee]);
    assert!(rounds.dispatch(None, &graph).is_none());
    rounds.job_done(callee, &graph);
    rounds.component_done(callee, &graph);
    let jobs = rounds.dispatch(None, &graph).unwrap();
    assert_eq!(jobs, vec![caller]);
    // The caller read version 0 of node 0; then node 0's summary grows.
    rounds.record(&mut store, caller, &vec![(0, 0)], vec![]);
    rounds.record(&mut store, callee, &vec![], vec![(0, throwing("RangeError"))]);
    rounds.job_done(caller, &graph);
    rounds.component_done(caller, &graph);
    assert!(rounds.round_done());
    let observed = vec![vec![], vec![(0, 0)]];
    rounds.end_round(&store, &observed, &vec![false, false]);
    assert!(rounds.begin_round(&graph));
    let jobs = rounds.dispatch(None, &graph).unwrap();
    assert_eq!(jobs, vec![caller]);
}

#[test]
fn held_modules_are_counted_once_per_component() {
    let graph = graph();
    let mut active = Vec::new();
    adjust_component(&mut active, &graph, graph.component_of[0], true);
    adjust_component(&mut active, &graph, graph.component_of[0], true);
    assert_eq!(active.len(), 1);
    assert_eq!(active[0].1, 2);
    adjust_component(&mut active, &graph, graph.component_of[0], false);
    assert_eq!(active[0].1, 1);
}
