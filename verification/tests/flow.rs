use errorscript::env::join_env;
use errorscript::error::EscErrorType;
use errorscript::flow::{Completion, Flow, State, Summary};
use errorscript::set::Types;
use errorscript::value::Value;

fn env(entries: &[(u32, Value)]) -> im::OrdMap<u32, Value> {
    let mut env = im::OrdMap::new();
    for (k, v) in entries {
        env.insert(*k, v.clone());
    }
    env
}

#[test]
fn join_env_widens_one_sided_bindings() {
    let mut a = env(&[(1, Value::builtin("number")), (2, Value::builtin("string"))]);
    let b = env(&[(2, Value::builtin("boolean")), (3, Value::undefined())]);
    join_env(&mut a, b);
    assert_eq!(a.len(), 3);
    assert!(a[&1].types.contains(&EscErrorType::unknown()));
    assert!(a[&1].types.contains(&EscErrorType::builtin("number")));
    assert!(a[&2].types.contains(&EscErrorType::builtin("string")));
    assert!(a[&2].types.contains(&EscErrorType::builtin("boolean")));
    assert!(!a[&2].types.contains(&EscErrorType::unknown()));
    assert!(a[&3].types.contains(&EscErrorType::unknown()));
    assert_eq!(a[&3].truth, 3);
}

#[test]
fn join_env_is_commutative_on_examples() {
    let x = env(&[(1, Value::builtin("number"))]);
    let y = env(&[(1, Value::boolean(true)), (2, Value::undefined())]);
    let mut left = x.clone();
    join_env(&mut left, y.clone());
    let mut right = y.clone();
    join_env(&mut right, x.clone());
    assert_eq!(left, right);
    let mut same = x.clone();
    join_env(&mut same, x.clone());
    assert_eq!(same, x);
}

#[test]
fn flows_join_states_of_the_same_completion() {
    let mut flow = Flow::normal(env(&[]), Value::builtin("number"));
    flow.add(Completion::Throw, State { env: env(&[]), value: Value::builtin("TypeError") });
    flow.add(Completion::Normal, State { env: env(&[]), value: Value::builtin("string") });
    let normal = flow.take(&Completion::Normal).unwrap();
    assert!(normal.value.types.contains(&EscErrorType::builtin("number")));
    assert!(normal.value.types.contains(&EscErrorType::builtin("string")));
    assert!(flow.contains(&Completion::Throw));
    assert!(!flow.contains(&Completion::Normal));
    assert!(flow.take(&Completion::Return).is_none());
}

#[test]
fn then_continues_only_normal_completions() {
    let mut flow = Flow::normal(env(&[]), Value::builtin("number"));
    flow.add(Completion::Break(Some("outer".to_string())), State { env: env(&[]), value: Value::undefined() });
    let next = flow.then(|state| Flow::one(Completion::Return, state.env, state.value));
    assert!(next.contains(&Completion::Return));
    assert!(next.contains(&Completion::Break(Some("outer".to_string()))));
    assert!(!next.contains(&Completion::Break(None)));
    assert!(!next.contains(&Completion::Normal));
    let thrown = Flow::empty().possible_throw(&env(&[]), Types::new());
    assert!(thrown.is_empty());
    let thrown = thrown.possible_throw(&env(&[]), Types::from_vec(vec![EscErrorType::builtin("RangeError")]));
    assert!(thrown.contains(&Completion::Throw));
}

#[test]
fn flow_join_is_commutative_on_examples() {
    let make = |first: bool| {
        let mut a = Flow::normal(env(&[]), Value::builtin("number"));
        let b = Flow::one(Completion::Throw, env(&[(1, Value::undefined())]), Value::builtin("Error"));
        if first {
            a.join(b);
            a
        } else {
            let mut b = b;
            b.join(a);
            b
        }
    };
    assert!(make(true).same(&make(false)));
}

#[test]
fn async_summaries_settle_promises_and_surface_deferred_errors() {
    let mut value = Value::builtin("Promise");
    value.awaited = Types::from_vec(vec![EscErrorType::builtin("number")]);
    value.deferred = Types::from_vec(vec![EscErrorType::builtin("TypeError")]);
    let mut flow = Flow::one(Completion::Return, env(&[]), value);
    flow.add(Completion::Throw, State { env: env(&[]), value: Value::builtin("RangeError") });
    flow.add(Completion::Continue(None), State { env: env(&[]), value: Value::undefined() });
    let summary = Summary::of_flow(flow, true);
    assert!(summary.completes);
    assert!(summary.errors.contains(&EscErrorType::builtin("TypeError")));
    assert!(summary.errors.contains(&EscErrorType::builtin("RangeError")));
    assert!(summary.errors.contains(&EscErrorType::unknown()));
    assert!(summary.returned.types.contains(&EscErrorType::builtin("number")));
    assert!(!summary.returned.types.contains(&EscErrorType::builtin("Promise")));
    assert!(summary.returned.deferred.is_empty());
}

#[test]
fn a_function_that_only_throws_does_not_complete() {
    let flow = Flow::one(Completion::Throw, env(&[]), Value::builtin("Error"));
    let summary = Summary::of_flow(flow, false);
    assert!(!summary.completes);
    assert_eq!(summary.errors, Types::from_vec(vec![EscErrorType::builtin("Error")]));
    let mut total = Summary::new();
    total.join(summary);
    assert!(total.errors.contains(&EscErrorType::builtin("Error")));
}

#[test]
fn loop_iterations_turn_breaks_into_normal_exits_and_continues_into_back_edges() {
    let mut iteration = Flow::one(Completion::Normal, env(&[(1, Value::builtin("number"))]), Value::undefined());
    iteration.add(Completion::Break(None), State { env: env(&[(2, Value::builtin("string"))]), value: Value::undefined() });
    iteration.add(Completion::Continue(None), State { env: env(&[(1, Value::builtin("string"))]), value: Value::undefined() });
    iteration.add(Completion::Break(Some("outer".to_string())), State { env: env(&[]), value: Value::undefined() });
    iteration.add(Completion::Throw, State { env: env(&[]), value: Value::builtin("Error") });
    let mut result = Flow::empty();
    let back = iteration.close_iteration(None, &mut result).unwrap();
    assert!(back.env[&1].types.contains(&EscErrorType::builtin("number")));
    assert!(back.env[&1].types.contains(&EscErrorType::builtin("string")));
    assert!(result.contains(&Completion::Normal));
    assert!(result.contains(&Completion::Throw));
    assert!(result.contains(&Completion::Break(Some("outer".to_string()))));
    assert!(!result.contains(&Completion::Continue(None)));

    let labelled = Flow::one(Completion::Break(Some("outer".to_string())), env(&[]), Value::undefined());
    let mut result = Flow::empty();
    assert!(labelled.close_iteration(Some("outer".to_string()), &mut result).is_none());
    assert!(result.contains(&Completion::Normal));
    assert!(!result.contains(&Completion::Break(Some("outer".to_string()))));
}

#[test]
fn finally_blocks_preserve_or_replace_each_pending_completion() {
    let mut pending = Flow::one(Completion::Return, env(&[(1, Value::builtin("number"))]), Value::builtin("string"));
    pending.add(Completion::Throw, State { env: env(&[]), value: Value::builtin("TypeError") });
    let mut result = Flow::empty();
    for (kind, state) in pending.into_entries() {
        let finally_flow = match kind {
            // The finalizer completes normally after the return, in a changed environment.
            Completion::Return => Flow::normal(env(&[(1, Value::builtin("boolean"))]), Value::undefined()),
            // After the throw, it returns instead.
            _ => Flow::one(Completion::Return, env(&[]), Value::builtin("bigint")),
        };
        Flow::finish_pending(&mut result, kind, state, finally_flow);
    }
    assert!(!result.contains(&Completion::Throw));
    assert!(!result.contains(&Completion::Normal));
    let returned = result.take(&Completion::Return).unwrap();
    assert!(returned.value.types.contains(&EscErrorType::builtin("string")));
    assert!(returned.value.types.contains(&EscErrorType::builtin("bigint")));
    assert!(returned.env[&1].types.contains(&EscErrorType::builtin("boolean")));
}

#[test]
fn labelled_statements_end_breaks_to_their_label() {
    let flow = Flow::one(Completion::Break(Some("done".to_string())), env(&[]), Value::undefined());
    let flow = flow.close_label("done");
    assert!(flow.contains(&Completion::Normal));
    let other = Flow::one(Completion::Break(Some("other".to_string())), env(&[]), Value::undefined());
    assert!(other.close_label("done").contains(&Completion::Break(Some("other".to_string()))));
}

#[test]
fn joining_flows_in_either_grouping_gives_the_same_flow() {
    let make = || {
        let a = Flow::one(Completion::Throw, env(&[(1, Value::builtin("number"))]), Value::builtin("TypeError"));
        let mut b = Flow::normal(env(&[(2, Value::undefined())]), Value::builtin("string"));
        b.add(Completion::Throw, State { env: env(&[]), value: Value::builtin("RangeError") });
        let c = Flow::one(Completion::Return, env(&[(1, Value::builtin("boolean"))]), Value::undefined());
        (a, b, c)
    };
    let (a, b, c) = make();
    let mut left = a;
    left.join(b);
    left.join(c);
    let (a, b, c) = make();
    let mut right = b;
    right.join(c);
    let mut grouped = a;
    grouped.join(right);
    assert!(left.same(&grouped));
}
