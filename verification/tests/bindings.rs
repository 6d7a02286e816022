use errorscript::bindings::{BindingFacts, EscNodeTree, EscSymbolWrites};
use errorscript::error::EscErrorType;
use errorscript::value::Value;

// The shape of
// `function outer() { let captured = 0; let local = 0; function nested() { captured++; let own = 0; own++; } local++; const arrow = () => { captured = 2; }; }`:
// 0 program, 1 outer, 2 `captured`, 3 `local`, 4 nested, 5 `captured++`,
// 6 `own`, 7 `own++`, 8 `local++`, 9 `arrow`, 10 the arrow function,
// 11 `captured = 2`.
fn tree() -> EscNodeTree {
    EscNodeTree {
        parents: vec![0, 0, 1, 1, 1, 4, 4, 4, 1, 1, 9, 10],
        owners: vec![true, true, false, false, true, false, false, false, false, false, true, false],
    }
}

const NAMES: [&str; 6] = ["outer", "captured", "local", "nested", "own", "arrow"];

fn symbols() -> Vec<EscSymbolWrites> {
    vec![
        EscSymbolWrites { declaration: 1, mutated: false, writes: vec![] },
        EscSymbolWrites { declaration: 2, mutated: true, writes: vec![5, 11] },
        EscSymbolWrites { declaration: 3, mutated: true, writes: vec![8] },
        EscSymbolWrites { declaration: 4, mutated: false, writes: vec![] },
        EscSymbolWrites { declaration: 6, mutated: true, writes: vec![7] },
        EscSymbolWrites { declaration: 9, mutated: false, writes: vec![] },
    ]
}

#[test]
fn indexes_nested_writes_and_preserves_unaffected_bindings() {
    let symbols = symbols();
    let writes = BindingFacts::new(&tree(), &symbols);
    let names: Vec<&str> = writes.symbols().iter().map(|s| NAMES[*s as usize]).collect();
    assert_eq!(names, ["captured"]);
    let mut env = im::OrdMap::new();
    for (symbol, facts) in symbols.iter().enumerate() {
        assert_eq!(writes.is_mutated(symbol as u32), facts.mutated);
        env.insert(symbol as u32, Value::builtin("number"));
    }
    let original = env.clone();
    writes.widen(&mut env);
    for (symbol, name) in NAMES.iter().enumerate() {
        let symbol = symbol as u32;
        assert_eq!(
            env[&symbol].types.contains(&EscErrorType::unknown()),
            *name == "captured"
        );
        assert!(!original[&symbol].types.contains(&EscErrorType::unknown()));
    }
    let widened = env.clone();
    writes.widen(&mut env);
    assert!(env.ptr_eq(&widened));
    // Every symbol written from a nested function, with only one bound.
    let all_symbols: Vec<EscSymbolWrites> = (0..6)
        .map(|_| EscSymbolWrites { declaration: 2, mutated: true, writes: vec![5] })
        .collect();
    let all = BindingFacts::new(&tree(), &all_symbols);
    let mut sparse = im::OrdMap::new();
    sparse.insert(1u32, Value::boolean(false));
    all.widen(&mut sparse);
    assert_eq!(sparse.len(), 1);
    assert_eq!(sparse[&1].truth, 3);
    assert!(sparse[&1].types.contains(&EscErrorType::unknown()));
}

#[test]
fn symbols_without_writes_are_neither_mutated_nor_widened() {
    let symbols = symbols();
    let writes = BindingFacts::new(&tree(), &symbols);
    assert!(!writes.is_mutated(0));
    assert!(!writes.is_mutated(3));
    let mut env = im::OrdMap::new();
    env.insert(4u32, Value::undefined());
    writes.widen(&mut env);
    assert_eq!(env[&4].truth, 1);
}

#[test]
fn environments_built_by_the_library_are_widened() {
    let symbols = symbols();
    let writes = BindingFacts::new(&tree(), &symbols);
    let mut env = errorscript::env::empty_env();
    errorscript::env::bind(&mut env, 1, Value::builtin("number"));
    errorscript::env::bind(&mut env, 2, Value::builtin("number"));
    assert!(errorscript::env::lookup(&env, 0).is_none());
    writes.widen(&mut env);
    let captured = errorscript::env::lookup(&env, 1).unwrap();
    assert!(captured.types.contains(&EscErrorType::unknown()));
    let local = errorscript::env::lookup(&env, 2).unwrap();
    assert!(!local.types.contains(&EscErrorType::unknown()));
}
