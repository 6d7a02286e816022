use errorscript::names::{compare_names, sorted_names};

#[test]
fn names_sort_by_scalar_value() {
    let names: Vec<String> = ["b", "a", "ä", "B", "a", "ab"].iter().map(|s| s.to_string()).collect();
    assert_eq!(sorted_names(&names), vec!["B", "a", "ab", "b", "ä"]);
    assert!(compare_names("a", "ab") < 0);
    assert!(compare_names("b", "ab") > 0);
    assert_eq!(compare_names("ä", "ä"), 0);
}
