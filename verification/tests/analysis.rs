use errorscript::analysis::{
    Analyzer, EscAssign, EscAssignOp, EscBinary, EscCallExpr, EscCallFacts, EscDeclared, EscForEach, EscFunction, EscLoop, EscNarrowing, EscParam, EscSyntax, EscTargetFacts, EscTry,
};
use errorscript::bindings::{BindingFacts, EscNodeTree, EscSymbolWrites};
use errorscript::error::EscErrorType;
use errorscript::flow::{Completion, Flow, Summary};
use errorscript::set::Types;
use errorscript::subtype::EscSuperTypes;
use errorscript::value::Value;

fn analyzer(calls: Vec<EscCallFacts>) -> Analyzer {
    let tree = EscNodeTree { parents: vec![0, 0], owners: vec![true, false] };
    let symbols = vec![
        EscSymbolWrites { declaration: 1, mutated: false, writes: vec![] },
        EscSymbolWrites { declaration: 1, mutated: true, writes: vec![] },
    ];
    Analyzer { bindings: BindingFacts::new(&tree, &symbols), modified_globals: vec![], calls, super_types: EscSuperTypes::new() }
}

fn types(names: &[&str]) -> Types {
    let mut t = Types::new();
    for n in names {
        t.insert(EscErrorType::builtin(n));
    }
    t
}

fn thrown(flow: &mut Flow) -> Option<Types> {
    flow.take(&Completion::Throw).map(|st| st.value.types)
}

fn empty() -> im::OrdMap<u32, Value> {
    im::OrdMap::new()
}

#[test]
fn throw_of_a_string_literal_throws_a_string() {
    let a = analyzer(vec![]);
    let tree = vec![EscSyntax::Str(false), EscSyntax::Throw(0)];
    let mut flow = a.eval(&tree, 1, empty());
    assert!(!flow.contains(&Completion::Normal));
    let t = thrown(&mut flow).unwrap();
    assert!(t.same(&types(&["string"])));
    assert!(flow.is_empty());
}

#[test]
fn return_carries_its_value() {
    let a = analyzer(vec![]);
    let tree = vec![EscSyntax::Number(false), EscSyntax::Return(Some(0))];
    let mut flow = a.eval(&tree, 1, empty());
    let st = flow.take(&Completion::Return).unwrap();
    assert!(st.value.types.same(&types(&["number"])));
    assert_eq!(st.value.truth, 2);
    assert!(flow.is_empty());
}

#[test]
fn catch_turns_a_throw_into_normal_completion_and_binds_the_error() {
    let a = analyzer(vec![]);
    // try { throw "x" } catch (e) { return e }
    let tree = vec![
        EscSyntax::Str(false),
        EscSyntax::Throw(0),
        EscSyntax::Local(0, EscDeclared::Other),
        EscSyntax::Return(Some(2)),
        EscSyntax::Bind(Some(0)),
        EscSyntax::Try(EscTry { block: vec![1], handler: Some((Some(4), vec![3])), finalizer: None }),
    ];
    let mut flow = a.eval(&tree, 5, empty());
    assert!(!flow.contains(&Completion::Throw));
    assert!(!flow.contains(&Completion::Normal));
    let st = flow.take(&Completion::Return).unwrap();
    assert!(st.value.types.same(&types(&["string"])));
}

#[test]
fn false_condition_runs_only_the_else_branch() {
    let a = analyzer(vec![]);
    // if (false) throw "x"
    let tree = vec![
        EscSyntax::Boolean(false),
        EscSyntax::Str(false),
        EscSyntax::Throw(1),
        EscSyntax::If(0, 2, None),
    ];
    let mut flow = a.eval(&tree, 3, empty());
    assert!(!flow.contains(&Completion::Throw));
    let st = flow.take(&Completion::Normal).unwrap();
    assert!(st.value.types.same(&types(&["undefined"])));
}

#[test]
fn unknown_global_read_may_throw_a_reference_error() {
    let a = analyzer(vec![]);
    let tree = vec![EscSyntax::Global("notAGlobalName".to_string())];
    let mut flow = a.eval(&tree, 0, empty());
    let t = thrown(&mut flow).unwrap();
    assert!(t.same(&types(&["ReferenceError"])));
    assert!(flow.contains(&Completion::Normal));
}

#[test]
fn labelled_break_completes_normally() {
    let a = analyzer(vec![]);
    // l: { break l; }
    let tree = vec![
        EscSyntax::Break(Some("l".to_string())),
        EscSyntax::Block(vec![0]),
        EscSyntax::Labeled("l".to_string(), 1),
    ];
    let mut flow = a.eval(&tree, 2, empty());
    assert!(flow.take(&Completion::Normal).is_some());
    assert!(flow.is_empty());
}

#[test]
fn declaration_binds_the_initializer_value() {
    let a = analyzer(vec![]);
    // let x = "s"; return x;
    let tree = vec![
        EscSyntax::Str(false),
        EscSyntax::Declare(vec![(Some(0), Some(0))]),
        EscSyntax::Local(0, EscDeclared::Initializer(0)),
        EscSyntax::Return(Some(2)),
        EscSyntax::Block(vec![1, 3]),
    ];
    let mut flow = a.eval(&tree, 4, empty());
    let st = flow.take(&Completion::Return).unwrap();
    assert!(st.value.types.same(&types(&["string"])));
    assert!(flow.is_empty());
}

#[test]
fn strict_equality_cannot_throw_but_loose_comparison_of_objects_may() {
    let a = analyzer(vec![]);
    let tree = vec![
        EscSyntax::Opaque,
        EscSyntax::Number(false),
        EscSyntax::Binary(EscBinary::Strict, 0, 1, true),
        EscSyntax::Binary(EscBinary::Compare, 0, 1, true),
    ];
    let mut strict = a.eval(&tree, 2, empty());
    assert!(thrown(&mut strict).is_none());
    let mut loose = a.eval(&tree, 3, empty());
    assert!(thrown(&mut loose).is_some());
}

fn summary(errors: &[&str], returned: &str, completes: bool) -> Summary {
    Summary { errors: types(errors), returned: Value::builtin(returned), completes }
}

fn target(s: Summary) -> EscTargetFacts {
    EscTargetFacts { summary: s, is_async: false, is_generator: false, own_type: EscErrorType::builtin("Object") }
}

#[test]
fn invoke_throws_what_the_target_summary_throws() {
    let facts = EscCallFacts {
        targets: vec![target(summary(&["TypeError"], "number", true))],
        unresolved: false,
        constructed_types: Types::new(),
        global_calls: vec![],
    };
    let a = analyzer(vec![facts]);
    let mut flow = a.invoke(Some(0), false, false, empty());
    let t = thrown(&mut flow).unwrap();
    assert!(t.same(&types(&["TypeError"])));
    let st = flow.take(&Completion::Normal).unwrap();
    assert!(st.value.types.same(&types(&["number"])));
}

#[test]
fn invoke_of_a_target_that_never_completes_only_throws() {
    let facts = EscCallFacts {
        targets: vec![target(summary(&["RangeError"], "undefined", false))],
        unresolved: false,
        constructed_types: Types::new(),
        global_calls: vec![],
    };
    let a = analyzer(vec![facts]);
    let mut flow = a.invoke(Some(0), false, false, empty());
    assert!(!flow.contains(&Completion::Normal));
    assert!(thrown(&mut flow).unwrap().same(&types(&["RangeError"])));
}

#[test]
fn invoke_without_facts_may_throw_anything() {
    let a = analyzer(vec![]);
    let mut flow = a.invoke(None, false, false, empty());
    assert!(thrown(&mut flow).unwrap().contains(&EscErrorType::unknown()));
    assert!(flow.contains(&Completion::Normal));
}

#[test]
fn async_target_defers_its_errors_to_the_promise() {
    let mut t = target(summary(&["TypeError"], "number", true));
    t.is_async = true;
    let facts = EscCallFacts { targets: vec![t], unresolved: false, constructed_types: Types::new(), global_calls: vec![] };
    let a = analyzer(vec![facts]);
    let mut flow = a.invoke(Some(0), false, false, empty());
    assert!(thrown(&mut flow).is_none());
    let st = flow.take(&Completion::Normal).unwrap();
    assert!(st.value.types.same(&types(&["Promise"])));
    assert!(st.value.deferred.same(&types(&["TypeError"])));
}

#[test]
fn call_expression_runs_arguments_then_the_call() {
    let facts = EscCallFacts {
        targets: vec![target(summary(&["TypeError"], "number", true))],
        unresolved: false,
        constructed_types: Types::new(),
        global_calls: vec![],
    };
    let a = analyzer(vec![facts]);
    // f(g) where g is an unbound name and f has the facts above
    let call = EscCallExpr {
        call: Some(0),
        callee: 0,
        super_callee: false,
        member: None,
        arguments: vec![(1, false)],
        new: false,
        optional: false,
    };
    let tree = vec![
        EscSyntax::Function,
        EscSyntax::Global("notAGlobalName".to_string()),
        EscSyntax::Call(call),
    ];
    let mut flow = a.eval(&tree, 2, empty());
    let t = thrown(&mut flow).unwrap();
    assert!(t.same(&types(&["ReferenceError", "TypeError"])));
    let st = flow.take(&Completion::Normal).unwrap();
    assert!(st.value.types.same(&types(&["number"])));
}

#[test]
fn try_without_a_handler_lets_the_throw_through() {
    let a = analyzer(vec![]);
    let tree = vec![
        EscSyntax::Str(false),
        EscSyntax::Throw(0),
        EscSyntax::Try(EscTry { block: vec![1], handler: None, finalizer: None }),
    ];
    let mut flow = a.eval(&tree, 2, empty());
    assert!(thrown(&mut flow).unwrap().same(&types(&["string"])));
    assert!(flow.is_empty());
}

#[test]
fn finally_replaces_a_pending_return_by_its_throw() {
    let a = analyzer(vec![]);
    // try { return 1 } finally { throw "" }
    let tree = vec![
        EscSyntax::Number(false),
        EscSyntax::Return(Some(0)),
        EscSyntax::Str(true),
        EscSyntax::Throw(2),
        EscSyntax::Try(EscTry { block: vec![1], handler: None, finalizer: Some(vec![3]) }),
    ];
    let mut flow = a.eval(&tree, 4, empty());
    assert!(!flow.contains(&Completion::Return));
    let t = thrown(&mut flow).unwrap();
    assert!(t.same(&types(&["string"])));
    assert!(flow.is_empty());
}

#[test]
fn finally_that_completes_keeps_each_pending_completion() {
    let a = analyzer(vec![]);
    // try { if (x) return 1; throw "s" } finally { }
    let tree = vec![
        EscSyntax::Opaque,
        EscSyntax::Number(false),
        EscSyntax::Return(Some(1)),
        EscSyntax::If(0, 2, None),
        EscSyntax::Str(false),
        EscSyntax::Throw(4),
        EscSyntax::Empty,
        EscSyntax::Try(EscTry { block: vec![3, 5], handler: None, finalizer: Some(vec![6]) }),
    ];
    let mut flow = a.eval(&tree, 7, empty());
    let st = flow.take(&Completion::Return).unwrap();
    assert!(st.value.types.same(&types(&["number"])));
    assert!(thrown(&mut flow).unwrap().same(&types(&["string"])));
    assert!(flow.is_empty());
}

fn looping(test: Option<usize>, body: usize, do_first: bool, optional: bool, label: Option<&str>) -> EscSyntax {
    EscSyntax::Loop(EscLoop { test, update: None, body, do_first, optional, label: label.map(|l| l.to_string()) })
}

#[test]
fn break_ends_an_endless_loop_normally() {
    let a = analyzer(vec![]);
    // while (true) { break; }
    let tree = vec![EscSyntax::Boolean(true), EscSyntax::Break(None), looping(Some(0), 1, false, false, None)];
    let mut flow = a.eval(&tree, 2, empty());
    assert!(flow.take(&Completion::Normal).is_some());
    assert!(flow.is_empty());
}

#[test]
fn loop_may_exit_by_its_test_or_throw_from_its_body() {
    let a = analyzer(vec![]);
    // while (x) { throw "s"; }
    let tree = vec![EscSyntax::Opaque, EscSyntax::Str(false), EscSyntax::Throw(1), looping(Some(0), 2, false, false, None)];
    let mut flow = a.eval(&tree, 3, empty());
    assert!(thrown(&mut flow).unwrap().same(&types(&["string"])));
    assert!(flow.take(&Completion::Normal).is_some());
    assert!(flow.is_empty());
}

#[test]
fn endless_loop_without_break_never_completes_normally() {
    let a = analyzer(vec![]);
    // while (true) { continue; }
    let tree = vec![EscSyntax::Boolean(true), EscSyntax::Continue(None), looping(Some(0), 1, false, false, None)];
    let flow = a.eval(&tree, 2, empty());
    assert!(flow.is_empty());
}

#[test]
fn do_while_runs_its_body_before_the_test() {
    let a = analyzer(vec![]);
    // do { throw "s" } while (false)
    let tree = vec![EscSyntax::Boolean(false), EscSyntax::Str(false), EscSyntax::Throw(1), looping(Some(0), 2, true, false, None)];
    let mut flow = a.eval(&tree, 3, empty());
    assert!(thrown(&mut flow).unwrap().same(&types(&["string"])));
    assert!(flow.is_empty());
}

#[test]
fn collection_loop_may_return_or_finish() {
    let a = analyzer(vec![]);
    // for (const x of xs) { return 1 }
    let tree = vec![EscSyntax::Number(false), EscSyntax::Return(Some(0)), looping(None, 1, false, true, None)];
    let mut flow = a.eval(&tree, 2, empty());
    assert!(flow.take(&Completion::Return).is_some());
    assert!(flow.take(&Completion::Normal).is_some());
    assert!(flow.is_empty());
}

#[test]
fn labelled_continue_goes_back_to_the_labelled_loop() {
    let a = analyzer(vec![]);
    // outer: while (x) { continue outer; }
    let tree = vec![
        EscSyntax::Opaque,
        EscSyntax::Continue(Some("outer".to_string())),
        looping(Some(0), 1, false, false, Some("outer")),
        EscSyntax::Labeled("outer".to_string(), 2),
    ];
    let mut flow = a.eval(&tree, 3, empty());
    assert!(flow.take(&Completion::Normal).is_some());
    assert!(flow.is_empty());
}

#[test]
fn loop_widens_bindings_until_the_head_is_stable() {
    let a = analyzer(vec![]);
    // while (x) { let y = "s"; }
    let tree = vec![
        EscSyntax::Opaque,
        EscSyntax::Str(false),
        EscSyntax::Declare(vec![(Some(0), Some(1))]),
        looping(Some(0), 2, false, false, None),
    ];
    let mut flow = a.eval(&tree, 3, empty());
    let st = flow.take(&Completion::Normal).unwrap();
    let y = st.env.get(&0).unwrap();
    assert!(y.types.contains(&EscErrorType::builtin("string")));
    assert!(y.types.contains(&EscErrorType::unknown()));
    assert!(flow.is_empty());
}

#[test]
fn switch_enters_each_case_and_falls_through() {
    let a = analyzer(vec![]);
    // switch (x) { case 1: throw "a"; case 2: break; default: return 1; }
    let tree = vec![
        EscSyntax::Opaque,
        EscSyntax::Number(false),
        EscSyntax::Number(false),
        EscSyntax::Str(false),
        EscSyntax::Throw(3),
        EscSyntax::Block(vec![4]),
        EscSyntax::Break(None),
        EscSyntax::Block(vec![6]),
        EscSyntax::Number(false),
        EscSyntax::Return(Some(8)),
        EscSyntax::Block(vec![9]),
        EscSyntax::Switch(0, vec![(Some(1), 5), (Some(2), 7), (None, 10)]),
    ];
    let mut flow = a.eval(&tree, 11, empty());
    assert!(thrown(&mut flow).unwrap().same(&types(&["string"])));
    assert!(flow.take(&Completion::Return).is_some());
    assert!(flow.take(&Completion::Normal).is_some());
    assert!(flow.is_empty());
}

#[test]
fn switch_without_default_may_match_nothing() {
    let a = analyzer(vec![]);
    // switch (x) { case 1: return 1; }
    let tree = vec![
        EscSyntax::Opaque,
        EscSyntax::Number(false),
        EscSyntax::Number(false),
        EscSyntax::Return(Some(2)),
        EscSyntax::Block(vec![3]),
        EscSyntax::Switch(0, vec![(Some(1), 4)]),
    ];
    let mut flow = a.eval(&tree, 5, empty());
    assert!(flow.take(&Completion::Return).is_some());
    assert!(flow.take(&Completion::Normal).is_some());
    assert!(flow.is_empty());
}

#[test]
fn destructuring_may_throw_anything_and_binds_unknown_values() {
    let a = analyzer(vec![]);
    // const { [k]: x, ...rest } = "s"; return x;
    let tree = vec![
        EscSyntax::Str(false),
        EscSyntax::Global("notAGlobalName".to_string()),
        EscSyntax::Bind(Some(0)),
        EscSyntax::Bind(Some(1)),
        EscSyntax::BindObject(vec![(Some(1), 2)], Some(3)),
        EscSyntax::DeclarePattern(4, Some(0)),
        EscSyntax::Local(0, EscDeclared::Other),
        EscSyntax::Return(Some(6)),
        EscSyntax::Block(vec![5, 7]),
    ];
    let mut flow = a.eval(&tree, 8, empty());
    let t = thrown(&mut flow).unwrap();
    assert!(t.contains(&EscErrorType::unknown()));
    assert!(t.contains(&EscErrorType::builtin("ReferenceError")));
    let st = flow.take(&Completion::Return).unwrap();
    assert!(st.value.types.same(&types(&["unknown"])));
    assert!(flow.is_empty());
}

#[test]
fn default_binds_the_given_value_or_the_default() {
    let a = analyzer(vec![]);
    // const [x = 1] = ...; here the pattern `x = 1` is bound directly to a string.
    let tree = vec![
        EscSyntax::Str(false),
        EscSyntax::Bind(Some(0)),
        EscSyntax::Number(false),
        EscSyntax::BindDefault(1, 2),
        EscSyntax::DeclarePattern(3, Some(0)),
        EscSyntax::Local(0, EscDeclared::Other),
        EscSyntax::Return(Some(5)),
        EscSyntax::Block(vec![4, 6]),
    ];
    let mut flow = a.eval(&tree, 7, empty());
    let st = flow.take(&Completion::Return).unwrap();
    assert!(st.value.types.same(&types(&["string", "number"])));
    assert!(flow.is_empty());
}

#[test]
fn for_in_may_throw_anything_and_binds_a_string() {
    let a = analyzer(vec![]);
    // for (const k in o) { return k; }
    let tree = vec![
        EscSyntax::Opaque,
        EscSyntax::Bind(Some(0)),
        EscSyntax::Local(0, EscDeclared::Other),
        EscSyntax::Return(Some(2)),
        EscSyntax::ForEach(EscForEach {
            right: 0,
            target: 1,
            of: false,
            iteration: EscLoop { test: None, update: None, body: 3, do_first: false, optional: true, label: None },
        }),
    ];
    let mut flow = a.eval(&tree, 4, empty());
    assert!(thrown(&mut flow).unwrap().contains(&EscErrorType::unknown()));
    let st = flow.take(&Completion::Return).unwrap();
    assert!(st.value.types.same(&types(&["string"])));
    assert!(flow.take(&Completion::Normal).is_some());
    assert!(flow.is_empty());
}

#[test]
fn function_summary_collects_throws_of_its_body() {
    let a = analyzer(vec![]);
    // function f(x) { throw "s" }
    let tree = vec![
        EscSyntax::Bind(Some(0)),
        EscSyntax::Str(false),
        EscSyntax::Throw(1),
        EscSyntax::Block(vec![2]),
        EscSyntax::Function,
    ];
    let f = EscFunction { params: vec![EscParam { pattern: 0, optional: false, initializer: None }], rest: None, body: 3, expression_body: false };
    let s = a.function_summary(&tree, 4, &f, Some(vec![Value::builtin("number")]), false);
    assert!(s.errors.same(&types(&["string"])));
    assert!(!s.completes);
    let unreachable = a.function_summary(&tree, 4, &f, None, false);
    assert!(unreachable.errors.is_empty());
    assert!(!unreachable.completes);
}

#[test]
fn default_parameter_replaces_undefined() {
    let a = analyzer(vec![]);
    // (x = "d") => x
    let tree = vec![
        EscSyntax::Bind(Some(0)),
        EscSyntax::Str(false),
        EscSyntax::Local(0, EscDeclared::Other),
        EscSyntax::Function,
    ];
    let f = EscFunction { params: vec![EscParam { pattern: 0, optional: false, initializer: Some(1) }], rest: None, body: 2, expression_body: true };
    let s = a.function_summary(&tree, 3, &f, Some(vec![Value::undefined()]), false);
    assert!(s.completes);
    assert!(s.returned.types.same(&types(&["string"])));
    let s = a.function_summary(&tree, 3, &f, Some(vec![Value::builtin("number")]), false);
    assert!(s.returned.types.same(&types(&["number"])));
    let mut flow = a.function_flow(&tree, 3, &f, vec![Value::builtin("boolean")]);
    let st = flow.take(&Completion::Return).unwrap();
    assert!(st.value.types.same(&types(&["boolean"])));
    assert!(flow.is_empty());
}

#[test]
fn instanceof_narrows_the_local_in_each_branch() {
    let a = analyzer(vec![]);
    // if (x instanceof TypeError) { return x } else { throw x }, with x: TypeError | string
    let tree = vec![
        EscSyntax::Opaque,
        EscSyntax::Local(0, EscDeclared::Other),
        EscSyntax::Return(Some(1)),
        EscSyntax::Throw(1),
        EscSyntax::IfNarrowing(0, 2, Some(3), EscNarrowing { symbol: 0, bases: vec![EscErrorType::builtin("TypeError")], sense: true }),
    ];
    let mut env = empty();
    env.insert(0, Value::of_types(types(&["TypeError", "string"])));
    let mut flow = a.eval(&tree, 4, env);
    let st = flow.take(&Completion::Return).unwrap();
    assert!(st.value.types.same(&types(&["TypeError"])));
    assert!(thrown(&mut flow).unwrap().same(&types(&["string"])));
    assert!(flow.is_empty());
}

#[test]
fn negated_instanceof_swaps_the_branches() {
    let a = analyzer(vec![]);
    // if (!(x instanceof TypeError)) { return x }, with x: TypeError only
    let tree = vec![
        EscSyntax::Opaque,
        EscSyntax::Local(0, EscDeclared::Other),
        EscSyntax::Return(Some(1)),
        EscSyntax::IfNarrowing(0, 2, None, EscNarrowing { symbol: 0, bases: vec![EscErrorType::builtin("TypeError")], sense: false }),
    ];
    let mut env = empty();
    env.insert(0, Value::of_types(types(&["TypeError"])));
    let mut flow = a.eval(&tree, 3, env);
    assert!(!flow.contains(&Completion::Return));
    assert!(flow.take(&Completion::Normal).is_some());
    assert!(flow.is_empty());
}

#[test]
fn literals_run_their_parts_and_give_their_kind() {
    let a = analyzer(vec![]);
    let tree = vec![
        EscSyntax::Global("notAGlobalName".to_string()),
        EscSyntax::Template(vec![0]),
        EscSyntax::Array(vec![(0, true)]),
        EscSyntax::Object(vec![(None, 0, false)]),
    ];
    let mut template = a.eval(&tree, 1, empty());
    assert!(thrown(&mut template).unwrap().same(&types(&["ReferenceError"])));
    assert!(template.take(&Completion::Normal).unwrap().value.types.same(&types(&["string"])));
    let mut array = a.eval(&tree, 2, empty());
    assert!(thrown(&mut array).unwrap().contains(&EscErrorType::unknown()));
    let st = array.take(&Completion::Normal).unwrap();
    assert!(st.value.types.same(&types(&["Array"])));
    assert_eq!(st.value.truth, 2);
    let mut object = a.eval(&tree, 3, empty());
    assert!(thrown(&mut object).unwrap().same(&types(&["ReferenceError"])));
    assert!(object.take(&Completion::Normal).unwrap().value.types.same(&types(&["object"])));
}

#[test]
fn assignment_stores_into_the_local() {
    let a = analyzer(vec![]);
    // x = "s"; return x;
    let tree = vec![
        EscSyntax::Str(false),
        EscSyntax::Assign(EscAssign { target: Some(Some(0)), member: None, op: EscAssignOp::Plain, right: 0 }),
        EscSyntax::Expression(1),
        EscSyntax::Local(0, EscDeclared::Other),
        EscSyntax::Return(Some(3)),
        EscSyntax::Block(vec![2, 4]),
    ];
    let mut flow = a.eval(&tree, 5, empty());
    let st = flow.take(&Completion::Return).unwrap();
    assert!(st.value.types.same(&types(&["string"])));
    assert!(flow.is_empty());
}

#[test]
fn compound_assignment_on_an_object_may_throw() {
    let a = analyzer(vec![]);
    // x += 1 with x an object: a number or a string, and possibly a throw.
    let tree = vec![
        EscSyntax::Number(false),
        EscSyntax::Assign(EscAssign { target: Some(Some(0)), member: None, op: EscAssignOp::Compound(true), right: 0 }),
    ];
    let mut env = empty();
    env.insert(0, Value::builtin("object"));
    let mut flow = a.eval(&tree, 1, env);
    assert!(thrown(&mut flow).unwrap().contains(&EscErrorType::unknown()));
    let st = flow.take(&Completion::Normal).unwrap();
    assert!(st.value.types.same(&types(&["number", "string"])));
    // With a number it cannot throw.
    let mut env = empty();
    env.insert(0, Value::builtin("number"));
    let mut flow = a.eval(&tree, 1, env);
    assert!(thrown(&mut flow).is_none());
    assert!(flow.take(&Completion::Normal).unwrap().value.types.same(&types(&["number"])));
}

#[test]
fn update_of_a_local_gives_a_number() {
    let a = analyzer(vec![]);
    // x++ with x a string
    let tree = vec![EscSyntax::Local(0, EscDeclared::Other), EscSyntax::Update(0, Some(0))];
    let mut env = empty();
    env.insert(0, Value::builtin("string"));
    let mut flow = a.eval(&tree, 1, env);
    assert!(thrown(&mut flow).is_none());
    let st = flow.take(&Completion::Normal).unwrap();
    assert!(st.value.types.same(&types(&["number"])));
    assert!(st.env.get(&0).unwrap().types.same(&types(&["number"])));
}
