use errorscript::editor::{affected_modules, call_report, did_change, document_diagnostics, hover_report, hover_text, uncaught_message, EscBuilds, EscDiagnosticKind, EscDocuments};
use errorscript::lines::{EscPosition, LineIndex};
use errorscript::report::EscCheckDiagnostic;
use errorscript::report::EscCallReport;

#[test]
fn edits_reach_every_connected_module_in_both_directions() {
    // 0 imports 1, 1 imports 2; 3 imports 4.
    let edges = vec![(0, 1), (1, 2), (3, 4)];
    assert_eq!(
        affected_modules(6, &edges, &vec![2]),
        vec![true, true, true, false, false, false]
    );
    assert_eq!(
        affected_modules(6, &edges, &vec![4, 5]),
        vec![false, false, false, true, true, true]
    );
    assert_eq!(affected_modules(3, &edges[..2].to_vec(), &vec![]), vec![false; 3]);
}

fn strings(list: &[&str]) -> Vec<String> {
    list.iter().map(|s| s.to_string()).collect()
}

#[test]
fn top_level_reports_keep_unhandled_errors_only() {
    let sync = strings(&["TypeError", "RangeError", "TypeError"]);
    let deferred = strings(&["SyntaxError"]);
    let report = call_report(3, 9, &sync, &deferred, true, false, false, false, false);
    assert_eq!((report.start, report.end), (3, 9));
    assert_eq!(report.errors, strings(&["RangeError", "SyntaxError", "TypeError"]));
    assert_eq!(report.uncaught, strings(&["RangeError", "SyntaxError", "TypeError"]));
    let caught = call_report(0, 1, &sync, &deferred, true, true, false, false, false);
    assert_eq!(caught.uncaught, strings(&["SyntaxError"]));
    let awaited = call_report(0, 1, &sync, &deferred, true, true, true, false, false);
    assert!(awaited.uncaught.is_empty());
    let handled = call_report(0, 1, &sync, &deferred, true, false, false, true, false);
    assert_eq!(handled.uncaught, strings(&["RangeError", "TypeError"]));
    let nested = call_report(0, 1, &sync, &deferred, false, false, false, false, false);
    assert!(nested.uncaught.is_empty());
    assert_eq!(nested.errors.len(), 3);
}

#[test]
fn hovers_show_the_shortest_enclosing_report() {
    let report = |start, end| EscCallReport { start, end, errors: vec![], uncaught: vec![] };
    let reports = vec![report(0, 20), report(5, 10), report(4, 9), report(5, 10)];
    assert_eq!(hover_report(&reports, 6), Some(1));
    assert_eq!(hover_report(&reports, 4), Some(2));
    assert_eq!(hover_report(&reports, 9), Some(1));
    assert_eq!(hover_report(&reports, 15), Some(0));
    assert_eq!(hover_report(&reports, 20), None);
    assert_eq!(hover_text(&vec![]), "**ErrorScript**\n\nNo known thrown errors.");
    assert_eq!(
        hover_text(&strings(&["RangeError", "TypeError"])),
        "**ErrorScript — may throw / reject**\n\n- `RangeError`\n- `TypeError`"
    );
}

#[test]
fn uncaught_messages_list_the_errors() {
    let message = uncaught_message(&vec!["TypeError".to_string(), "Error".to_string()]);
    assert_eq!(message, "Unhandled top-level call errors: TypeError, Error. Add a catch handler.");
}

#[test]
fn documents_report_uncaught_calls_then_checker_diagnostics() {
    let text = "foo();\nbar();";
    let lines = LineIndex::new(text);
    let report = |start, end, uncaught: Vec<&str>| EscCallReport {
        start,
        end,
        errors: uncaught.iter().map(|s| s.to_string()).collect(),
        uncaught: uncaught.iter().map(|s| s.to_string()).collect(),
    };
    let reports = vec![report(0, 5, vec!["TypeError"]), report(7, 12, vec![])];
    let checks = vec![EscCheckDiagnostic { start: 7, end: 12, message: "cast".to_string() }];
    let diagnostics = document_diagnostics(text, &lines, &reports, &checks);
    assert_eq!(diagnostics.len(), 2);
    assert_eq!(diagnostics[0].kind, EscDiagnosticKind::UncaughtCall);
    assert_eq!(diagnostics[0].range.start, EscPosition { line: 0, character: 0 });
    assert_eq!(diagnostics[0].range.end, EscPosition { line: 0, character: 5 });
    assert_eq!(diagnostics[0].message, "Unhandled top-level call errors: TypeError. Add a catch handler.");
    assert_eq!(diagnostics[1].kind, EscDiagnosticKind::CastCatch);
    assert_eq!(diagnostics[1].range.start, EscPosition { line: 1, character: 0 });
    assert_eq!(diagnostics[1].range.end, EscPosition { line: 1, character: 5 });
    assert_eq!(diagnostics[1].message, "cast");
}

#[test]
fn edits_during_a_build_are_built_before_publishing() {
    let mut builds = EscBuilds::new();
    assert!(builds.edited());
    let first = builds.revision();
    assert!(!builds.edited());
    assert!(!builds.edited());
    assert!(!builds.finished(first));
    let second = builds.revision();
    assert_eq!(second, 3);
    assert!(builds.finished(second));
    assert_eq!(builds.completed(), 3);
    assert!(builds.edited());
}

#[test]
fn open_buffers_ignore_stale_versions_and_saves() {
    let mut documents = EscDocuments::new();
    documents.open("file:///a.ts".to_string(), 1, "one".to_string());
    assert!(documents.change("file:///a.ts", 2, "two".to_string()));
    assert!(!documents.change("file:///a.ts", 2, "stale".to_string()));
    assert!(!documents.change("file:///a.ts", 1, "older".to_string()));
    assert!(!documents.change("file:///b.ts", 5, "closed".to_string()));
    let current = documents.get("file:///a.ts").unwrap();
    assert_eq!((current.version, current.text.as_str()), (2, "two"));
    assert!(documents.get("file:///b.ts").is_none());
    assert!(documents.only_saves(&vec![("file:///a.ts".to_string(), true)]));
    assert!(!documents.only_saves(&vec![("file:///a.ts".to_string(), false)]));
    assert!(!documents.only_saves(&vec![("file:///a.ts".to_string(), true), ("file:///c.ts".to_string(), true)]));
    documents.close("file:///a.ts");
    assert!(documents.get("file:///a.ts").is_none());
    assert!(!documents.only_saves(&vec![("file:///a.ts".to_string(), true)]));
}

#[test]
fn change_notifications_take_the_last_text_of_newer_versions_only() {
    let mut documents = EscDocuments::new();
    let mut builds = EscBuilds::new();
    documents.open("file:///a.ts".to_string(), 3, "one".to_string());
    // Not open: ignored.
    assert!(!did_change(&mut documents, &mut builds, "file:///b.ts", 9, vec!["x".to_string()]));
    assert_eq!(builds.revision(), 0);
    // Stale and repeated versions: ignored.
    assert!(!did_change(&mut documents, &mut builds, "file:///a.ts", 2, vec!["x".to_string()]));
    assert!(!did_change(&mut documents, &mut builds, "file:///a.ts", 3, vec!["x".to_string()]));
    // No content change: ignored.
    assert!(!did_change(&mut documents, &mut builds, "file:///a.ts", 4, vec![]));
    assert_eq!(builds.revision(), 0);
    assert_eq!(documents.get("file:///a.ts").unwrap().text, "one");
    // Newer: the last text is taken and a build starts.
    assert!(did_change(&mut documents, &mut builds, "file:///a.ts", 4, vec!["two".to_string(), "three".to_string()]));
    assert_eq!(builds.revision(), 1);
    let document = documents.get("file:///a.ts").unwrap();
    assert_eq!(document.version, 4);
    assert_eq!(document.text, "three");
    // A build is running: the next edit is picked up without starting another.
    assert!(!did_change(&mut documents, &mut builds, "file:///a.ts", 5, vec!["four".to_string()]));
    assert_eq!(builds.revision(), 2);
    assert_eq!(documents.get("file:///a.ts").unwrap().text, "four");
}

use errorscript::editor::{bound_promise_handled, call_context, report_call, EscAncestor, EscPromiseDeclarator, EscPromiseMethod, EscPromiseUse};

#[test]
fn awaited_call_inside_try_is_caught_and_awaited() {
    // try { await f(); } catch {}
    let ancestors = vec![EscAncestor::Await, EscAncestor::Other, EscAncestor::CaughtTry, EscAncestor::Other];
    assert_eq!(call_context(&ancestors), (true, true, false));
}

#[test]
fn then_with_a_rejection_handler_handles_but_finally_alone_does_not() {
    // f().then(ok, fail)
    let then = vec![EscAncestor::Call(Some((EscPromiseMethod::Then, true, true)))];
    assert_eq!(call_context(&then), (false, false, true));
    // f().then(ok)
    let then_only = vec![EscAncestor::Call(Some((EscPromiseMethod::Then, true, false)))];
    assert_eq!(call_context(&then_only), (false, false, false));
    // f().finally(done)
    let finally = vec![EscAncestor::Call(Some((EscPromiseMethod::Finally, true, false)))];
    assert_eq!(call_context(&finally), (false, false, false));
    // f().finally(done).catch(h): the chain keeps the promise.
    let chained = vec![
        EscAncestor::Call(Some((EscPromiseMethod::Finally, true, false))),
        EscAncestor::Call(Some((EscPromiseMethod::Catch, true, false))),
    ];
    assert_eq!(call_context(&chained), (false, false, true));
    // g(f()).catch(h): the promise is an argument, not the object.
    let argument = vec![EscAncestor::Call(None), EscAncestor::Call(Some((EscPromiseMethod::Catch, true, false)))];
    assert_eq!(call_context(&argument), (false, false, false));
}

#[test]
fn context_stops_at_the_enclosing_function() {
    // try { () => f() } catch {}
    let ancestors = vec![EscAncestor::Function, EscAncestor::CaughtTry];
    assert_eq!(call_context(&ancestors), (false, false, false));
}

fn declarator() -> Option<EscPromiseDeclarator> {
    Some(EscPromiseDeclarator { initializes: true, bound: true, mutated: false })
}

#[test]
fn stored_promise_handled_at_its_use() {
    // const p = f(); p.catch(h);
    let uses = vec![EscPromiseUse { after: true, ancestors: vec![EscAncestor::Call(Some((EscPromiseMethod::Catch, true, false)))] }];
    assert!(bound_promise_handled(declarator(), &uses));
    // const p = f(); try { await p } catch {}
    let awaited = vec![EscPromiseUse { after: true, ancestors: vec![EscAncestor::Await, EscAncestor::Other, EscAncestor::CaughtTry] }];
    assert!(bound_promise_handled(declarator(), &awaited));
}

#[test]
fn stored_promise_escaping_or_unused_is_not_handled() {
    let handled = EscPromiseUse { after: true, ancestors: vec![EscAncestor::Call(Some((EscPromiseMethod::Catch, true, false)))] };
    // No use at all.
    assert!(!bound_promise_handled(declarator(), &vec![]));
    // Not a declarator, or one assigned again.
    assert!(!bound_promise_handled(None, &vec![EscPromiseUse { after: true, ancestors: handled.ancestors.clone() }]));
    let mutated = Some(EscPromiseDeclarator { initializes: true, bound: true, mutated: true });
    assert!(!bound_promise_handled(mutated, &vec![EscPromiseUse { after: true, ancestors: handled.ancestors.clone() }]));
    // One use passes the promise on.
    let escape = EscPromiseUse { after: true, ancestors: vec![EscAncestor::Call(None)] };
    assert!(!bound_promise_handled(declarator(), &vec![handled, escape]));
    // A use inside a branch.
    let branch = EscPromiseUse { after: true, ancestors: vec![EscAncestor::Call(Some((EscPromiseMethod::Catch, true, false))), EscAncestor::Branch] };
    assert!(!bound_promise_handled(declarator(), &vec![branch]));
    // `.finally` alone.
    let finally = EscPromiseUse { after: true, ancestors: vec![EscAncestor::Call(Some((EscPromiseMethod::Finally, true, false)))] };
    assert!(!bound_promise_handled(declarator(), &vec![finally]));
}

#[test]
fn top_level_report_uses_the_context() {
    let sync = vec!["TypeError".to_string()];
    let deferred = vec!["RangeError".to_string()];
    // f().catch(h) at the top level: the rejection is handled, the sync error is not.
    let ancestors = vec![EscAncestor::Call(Some((EscPromiseMethod::Catch, true, false)))];
    let r = report_call(0, 3, &sync, &deferred, true, &ancestors, None, &vec![]);
    assert_eq!(r.errors, vec!["RangeError".to_string(), "TypeError".to_string()]);
    assert_eq!(r.uncaught, vec!["TypeError".to_string()]);
    // Bare f(): both are uncaught.
    let r = report_call(0, 3, &sync, &deferred, true, &vec![], None, &vec![]);
    assert_eq!(r.uncaught, vec!["RangeError".to_string(), "TypeError".to_string()]);
}
