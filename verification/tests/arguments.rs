use errorscript::arguments::Arguments;
use errorscript::error::EscErrorType;
use errorscript::function::{EscCall, EscCallGraph, EscCallSite, EscFnId};
use errorscript::module_id::EscModuleId;
use errorscript::path::{EscModulePath, EscPath, EscRepoPath};
use errorscript::value::Value;
use std::path::PathBuf;

fn module() -> EscModuleId {
    let repo = EscRepoPath::try_new(EscPath::from_canonical(PathBuf::from("/repo")), true).unwrap();
    let path = EscModulePath::from_canonical(PathBuf::from("/repo/main.ts"));
    EscModuleId::from_path(&path, &repo).unwrap()
}

fn call(caller: Option<usize>, targets: &[usize]) -> EscCall {
    EscCall {
        caller: caller.map(|node| EscFnId::new(module(), node)),
        site: EscCallSite { module_id: module(), node_id: 0 },
        targets: targets.iter().map(|node| EscFnId::new(module(), *node)).collect(),
        unresolved: false,
        constructed_types: errorscript::set::Types::new(),
        global_calls: Vec::new(),
    }
}

#[test]
fn closed_world_functions_collect_the_arguments_of_their_calls() {
    let mut graph = EscCallGraph::default();
    graph.sccs = vec![vec![EscFnId::new(module(), 0)], vec![EscFnId::new(module(), 1)], vec![EscFnId::new(module(), 2)]];
    graph.calls = vec![call(Some(1), &[0])];
    let mut arguments = Arguments::new(
        vec![(EscFnId::new(module(), 0), 2), (EscFnId::new(module(), 2), 1)],
        &graph,
    );
    // Function 2 has no caller outside its component, so it stays open-world.
    assert!(arguments.parameters(&EscFnId::new(module(), 2)).is_none());
    assert_eq!(arguments.parameters(&EscFnId::new(module(), 0)).map(|v| v.is_none()), Some(true));
    arguments.record(&graph.calls[0], &vec![Value::builtin("number")], false);
    let values = arguments.parameters(&EscFnId::new(module(), 0)).unwrap().unwrap();
    assert_eq!(values.len(), 2);
    assert!(values[0].types.contains(&EscErrorType::builtin("number")));
    assert!(values[1].types.contains(&EscErrorType::builtin("undefined")));
    arguments.record(&graph.calls[0], &vec![], true);
    let values = arguments.parameters(&EscFnId::new(module(), 0)).unwrap().unwrap();
    assert!(values[0].types.contains(&EscErrorType::unknown()));
    assert!(values[1].types.contains(&EscErrorType::unknown()));
    assert_eq!(arguments.snapshot().len(), 1);
    assert!(!arguments.merge(&EscFnId::new(module(), 0), &values));
    assert!(arguments.merge(&EscFnId::new(module(), 1), &vec![Value::boolean(true)]));
}
