use errorscript::walk::{pattern_parts, pattern_root, scan, Frontier, PatternPart, WalkEntry, WalkState};

fn strings(parts: &[&str]) -> Vec<String> {
    parts.iter().map(|s| s.to_string()).collect()
}

fn compiled(parts: &[&str]) -> Vec<PatternPart> {
    parts.iter().map(|s| PatternPart::new(s).unwrap()).collect()
}

fn file(name: &str) -> WalkEntry {
    WalkEntry { name: Some(name.to_string()), directory: false }
}

fn dir(name: &str) -> WalkEntry {
    WalkEntry { name: Some(name.to_string()), directory: true }
}

#[test]
fn walks_start_at_the_fixed_directory_prefix() {
    let components = strings(&["/", "tmp", "x", "**", "*.ts"]);
    assert_eq!(pattern_root("/tmp/x/**/*.ts", &components).unwrap(), Some(3));
    let components = strings(&["/", "a", "root.ts"]);
    assert_eq!(pattern_root("/a/root.ts", &components).unwrap(), Some(2));
    assert_eq!(pattern_root("/a/*.ts/", &strings(&["/", "a", "*.ts"])).unwrap(), None);
    let error = pattern_root("/tmp/[invalid", &strings(&["/", "tmp", "[invalid"])).unwrap_err();
    assert_eq!(error.pattern, "/tmp/[invalid");
}

#[test]
fn pattern_parts_skip_current_directory_components() {
    let parts = pattern_parts(&strings(&["/", "a", "**", ".", "*.ts"]), 2).unwrap();
    let texts: Vec<&str> = parts.iter().map(|p| p.as_str()).collect();
    assert_eq!(texts, vec!["**", "*.ts"]);
    assert!(pattern_parts(&strings(&["/", "a"]), 2).unwrap().is_empty());
    assert_eq!(pattern_parts(&strings(&["/", "[x"]), 1).unwrap_err().pattern, "[x");
}

#[test]
fn double_star_matches_zero_or_more_directories() {
    let patterns = vec![compiled(&["**", "*.ts"])];
    let entries = vec![file("a.ts"), dir("sub"), file("b.txt"), dir("c.ts")];
    let (next, matched) = scan(&patterns, &vec![WalkState { pattern: 0, offset: 0 }], &entries);
    assert_eq!(next, vec![(1, WalkState { pattern: 0, offset: 0 }), (3, WalkState { pattern: 0, offset: 0 })]);
    assert_eq!(matched, vec![true, false, false, false]);
}

#[test]
fn plain_components_descend_one_level_and_match_files_last() {
    let patterns = vec![compiled(&["a", "*.ts"])];
    let entries = vec![dir("a"), dir("b"), file("x.ts")];
    let (next, matched) = scan(&patterns, &vec![WalkState { pattern: 0, offset: 0 }], &entries);
    assert_eq!(next, vec![(0, WalkState { pattern: 0, offset: 1 })]);
    assert_eq!(matched, vec![false, false, false]);
    let entries = vec![file("x.ts"), file("y.js"), WalkEntry { name: None, directory: false }];
    let (next, matched) = scan(&patterns, &vec![WalkState { pattern: 0, offset: 1 }], &entries);
    assert!(next.is_empty());
    assert_eq!(matched, vec![true, false, false]);
}

#[test]
fn each_directory_and_state_is_scanned_once() {
    let mut frontier = Frontier::new();
    let a = frontier.add_directory();
    let b = frontier.add_directory();
    let s = WalkState { pattern: 0, offset: 0 };
    let t = WalkState { pattern: 0, offset: 1 };
    assert_eq!(frontier.pop_ready(), None);
    frontier.enqueue(a, s);
    frontier.enqueue(b, s);
    frontier.enqueue(a, s);
    assert_eq!(frontier.pop_ready(), Some((a, vec![s])));
    frontier.enqueue(a, s);
    frontier.enqueue(a, t);
    assert_eq!(frontier.pop_ready(), Some((b, vec![s])));
    assert_eq!(frontier.pop_ready(), None);
    frontier.finish(a);
    assert_eq!(frontier.pop_ready(), Some((a, vec![t])));
    frontier.finish(a);
    frontier.finish(b);
    frontier.enqueue(a, t);
    assert_eq!(frontier.pop_ready(), None);
}

#[test]
fn invalid_patterns_are_refused_with_their_text() {
    let error = PatternPart::new("[invalid").unwrap_err();
    assert_eq!(error.pattern, "[invalid");
    assert!(PatternPart::new("*.ts").is_ok());
    let error = pattern_root("/dir/[invalid", &strings(&["/", "dir", "[invalid"])).unwrap_err();
    assert_eq!(error.pattern, "/dir/[invalid");
    let error = pattern_parts(&strings(&["/", "dir", ".", "[x"]), 2).err().unwrap();
    assert_eq!(error.pattern, "[x");
}
