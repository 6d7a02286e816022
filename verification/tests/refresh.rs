use errorscript::editor::affected_modules;
use errorscript::refresh::{widen_for_globals, Refresh};

#[test]
fn a_refresh_visits_roots_and_their_imports_once() {
    // Module 0 imports 1 and 2; 2 imports 1; 3 is excluded; 4 is a root
    // that cannot be read.
    let mut refresh = Refresh::new(5, vec![false, false, false, true, false], vec![4, 3, 0], vec![]);
    assert_eq!(refresh.next(), Some(0));
    refresh.loaded(0, false, &vec![1, 2]);
    assert_eq!(refresh.next(), Some(2));
    refresh.loaded(2, true, &vec![1]);
    assert_eq!(refresh.next(), Some(1));
    refresh.loaded(1, false, &vec![]);
    // The second 1 is seen already, 3 is excluded.
    assert_eq!(refresh.next(), Some(4));
    refresh.unreadable(4);
    assert_eq!(refresh.next(), None);
    assert_eq!(refresh.edges(), &vec![(0, 1), (0, 2), (2, 1)]);
    let known = vec![true, true, true, false, false];
    let reported = vec![true, true, true, false, false];
    let changed = refresh.changed_modules(&known, &reported);
    assert_eq!(changed, vec![false, false, true, false, true]);
    let list: Vec<usize> = (0..5).filter(|&i| changed[i]).collect();
    let affected = affected_modules(5, refresh.edges(), &list);
    assert_eq!(affected, vec![true, true, true, false, true]);
}

#[test]
fn known_modules_left_unseen_or_unreported_change() {
    let mut refresh = Refresh::new(3, vec![false; 3], vec![0], vec![]);
    assert_eq!(refresh.next(), Some(0));
    refresh.loaded(0, false, &vec![]);
    assert_eq!(refresh.next(), None);
    let changed = refresh.changed_modules(&vec![true, true, true], &vec![true, true, false]);
    assert_eq!(changed, vec![false, true, true]);
}

#[test]
fn shared_globals_widen_a_change_to_every_known_module() {
    let changed = vec![false, true, false];
    let known = vec![true, true, true];
    assert_eq!(widen_for_globals(&changed, &known, true, false), vec![true, true, true]);
    assert_eq!(widen_for_globals(&changed, &known, false, true), vec![true, true, true]);
    assert_eq!(widen_for_globals(&changed, &known, false, false), changed);
    assert_eq!(widen_for_globals(&vec![false; 3], &known, true, true), vec![false; 3]);
}
