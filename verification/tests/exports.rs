use errorscript::exports::{propagate_exports, EscStarExport};

fn names(list: &[&str]) -> Vec<String> {
    list.iter().map(|s| s.to_string()).collect()
}

#[test]
fn star_re_exports_carry_names_but_default_through_barrels() {
    // 0 exports a and default; 1 re-exports 0; 2 re-exports 1; 3 re-exports an unresolved module.
    let exports = vec![
        (0, "default".to_string()),
        (0, "b".to_string()),
        (0, "a".to_string()),
        (1, "own".to_string()),
    ];
    let stars = vec![
        EscStarExport { module: 1, source: Some(0) },
        EscStarExport { module: 2, source: Some(1) },
        EscStarExport { module: 3, source: None },
        EscStarExport { module: 2, source: Some(3) },
    ];
    let (result, unknown) = propagate_exports(4, &exports, &stars);
    assert_eq!(result[0], names(&["a", "b", "default"]));
    assert_eq!(result[1], names(&["a", "b", "own"]));
    assert_eq!(result[2], names(&["a", "b", "own"]));
    assert!(result[3].is_empty());
    assert_eq!(unknown, vec![false, false, true, true]);
}

#[test]
fn cyclic_barrels_reach_a_fixed_point() {
    let exports = vec![(0, "x".to_string()), (1, "y".to_string())];
    let stars = vec![
        EscStarExport { module: 0, source: Some(1) },
        EscStarExport { module: 1, source: Some(0) },
    ];
    let (result, unknown) = propagate_exports(2, &exports, &stars);
    assert_eq!(result[0], names(&["x", "y"]));
    assert_eq!(result[1], names(&["x", "y"]));
    assert_eq!(unknown, vec![false, false]);
}
