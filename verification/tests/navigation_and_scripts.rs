use meow_engine::encoding::{decode_classic_script, decode_stylesheet};
use meow_engine::history::SessionHistory;
use meow_engine::script::{
    dispatch_event_source, execution_order, inline_script_task, js_string_literal,
    loaded_script_task, node_id_string, script_phase, unresolved_script_task, ScriptErrorKind,
    ScriptExecutionPhase,
};
use meow_engine::encoding::LoadOutcome;

#[test]
fn back_forward_reload_and_branching_preserve_session_history() {
    let mut history = SessionHistory::new("about:blank".to_owned());
    assert_eq!(history.commit_navigation("https://example.test/page".to_owned()), 1);
    assert_eq!(history.commit_navigation("https://example.test/styled".to_owned()), 2);
    assert_eq!(history.entries().len(), 3);
    assert!(history.can_go_back());
    assert!(!history.can_go_forward());

    let back = history.back_index().unwrap();
    history.commit_traversal(back, "https://example.test/page".to_owned());
    assert_eq!(history.url_at(history.current_index()), "https://example.test/page");
    assert!(history.can_go_forward());

    let forward = history.forward_index().unwrap();
    history.commit_traversal(forward, "https://example.test/styled".to_owned());
    assert_eq!(history.url_at(history.current_index()), "https://example.test/styled");
    let len = history.entries().len();
    let current = history.current_index();
    history.commit_traversal(current, "https://example.test/styled".to_owned());
    assert_eq!(history.entries().len(), len);
    assert_eq!(history.current_index(), 2);

    let back = history.back_index().unwrap();
    history.commit_traversal(back, "https://example.test/page".to_owned());
    assert_eq!(history.commit_navigation("https://example.test/style-errors".to_owned()), 2);
    assert_eq!(history.entries().len(), 3);
    assert_eq!(history.current_index(), 2);
    assert_eq!(history.url_at(2), "https://example.test/style-errors");
    assert!(!history.can_go_forward());
    let sequences: Vec<u64> = history.entries().iter().map(|e| e.sequence).collect();
    assert_eq!(sequences, vec![0, 1, 3]);
}

#[test]
fn the_first_entry_cannot_go_back_and_redirects_update_the_entry() {
    let mut history = SessionHistory::new("about:blank".to_owned());
    assert!(!history.can_go_back());
    assert_eq!(history.back_index(), None);
    assert_eq!(history.forward_index(), None);
    history.commit_navigation("https://example.test/a".to_owned());
    let back = history.back_index().unwrap();
    assert_eq!(back, 0);
    history.commit_traversal(1, "https://example.test/redirected".to_owned());
    assert_eq!(history.url_at(1), "https://example.test/redirected");
    assert_eq!(history.entries()[1].sequence, 1);
}

#[test]
fn deferred_external_scripts_run_after_parser_blocking_ones() {
    assert_eq!(script_phase(true, true), ScriptExecutionPhase::Deferred);
    assert_eq!(script_phase(true, false), ScriptExecutionPhase::ParserBlocking);
    assert_eq!(script_phase(false, true), ScriptExecutionPhase::ParserBlocking);
    let phases = [
        ScriptExecutionPhase::Deferred,
        ScriptExecutionPhase::ParserBlocking,
        ScriptExecutionPhase::Deferred,
        ScriptExecutionPhase::ParserBlocking,
        ScriptExecutionPhase::ParserBlocking,
    ];
    assert_eq!(execution_order(&phases), vec![1, 3, 4, 0, 2]);
    assert_eq!(execution_order(&[]), Vec::<usize>::new());
}

#[test]
fn script_and_stylesheet_bodies_decode_with_the_declared_charset() {
    assert_eq!(decode_classic_script(b"caf\xe9", Some("text/javascript; charset=windows-1252")), "café");
    assert_eq!(decode_stylesheet("café".as_bytes(), Some("text/css")), "café");
    assert_eq!(decode_stylesheet(b"a\xffb", None), "a\u{fffd}b");
    assert_eq!(decode_stylesheet(b"\xef\xbb\xbfbody{}", None), "body{}");
    assert_eq!(decode_classic_script("x".as_bytes(), Some("text/javascript; charset=bogus")), "x");
}

#[test]
fn script_string_literals_escape_quotes_breaks_and_controls() {
    assert_eq!(js_string_literal("click"), "\"click\"");
    assert_eq!(js_string_literal("a\"b\\c"), "\"a\\\"b\\\\c\"");
    assert_eq!(js_string_literal("l1\nl2\r\t"), "\"l1\\nl2\\r\\t\"");
    assert_eq!(js_string_literal("\u{1}\u{7f}\u{9f}"), "\"\\u0001\\u007f\\u009f\"");
    assert_eq!(js_string_literal("é\u{a0}"), "\"é\u{a0}\"");
    assert_eq!(js_string_literal(""), "\"\"");
}

#[test]
fn trusted_event_dispatch_source_names_target_and_flags() {
    let target = node_id_string(1, 42, 7);
    assert_eq!(target, "1:42:7");
    assert_eq!(
        dispatch_event_source(&target, "click", true, false),
        "__meow_dispatch_trusted(\"1:42:7\", \"click\", true, false)"
    );
    assert_eq!(
        dispatch_event_source("0:0:0", "sub\"mit", false, true),
        "__meow_dispatch_trusted(\"0:0:0\", \"sub\\\"mit\", false, true)"
    );
}

#[test]
fn script_tasks_carry_source_or_load_error() {
    let inline = inline_script_task(4, "https://example.test/", "x = 1".to_owned(), true);
    assert_eq!(inline.phase, ScriptExecutionPhase::ParserBlocking);
    assert_eq!(inline.source_url, "https://example.test/");
    let source = inline.source.unwrap();
    assert_eq!(source.code, "x = 1");
    assert_eq!(source.node, Some(4));

    let unresolved = unresolved_script_task(5, "https://example.test/", "bad reference".to_owned(), true);
    assert_eq!(unresolved.phase, ScriptExecutionPhase::Deferred);
    let error = unresolved.source.unwrap_err();
    assert_eq!(error.kind, ScriptErrorKind::Load);
    assert_eq!(error.message, "bad reference");
    assert_eq!(error.source_url, "https://example.test/");

    let ok = loaded_script_task(
        6,
        "https://example.test/a.js",
        false,
        LoadOutcome::Response {
            status: 200,
            final_url: "https://cdn.example.test/a.js".to_owned(),
            content_type: Some("text/javascript; charset=windows-1252".to_owned()),
            body: b"caf\xe9".to_vec(),
        },
    )
    .unwrap();
    assert_eq!(ok.phase, ScriptExecutionPhase::ParserBlocking);
    assert_eq!(ok.source_url, "https://cdn.example.test/a.js");
    let loaded = ok.source.unwrap();
    assert_eq!(loaded.code, "café");
    assert_eq!(loaded.url, "https://cdn.example.test/a.js");

    let missing = loaded_script_task(
        7,
        "https://example.test/b.js",
        true,
        LoadOutcome::Response {
            status: 404,
            final_url: "https://example.test/b.js".to_owned(),
            content_type: None,
            body: Vec::new(),
        },
    )
    .unwrap();
    assert_eq!(missing.phase, ScriptExecutionPhase::Deferred);
    let error = missing.source.unwrap_err();
    assert_eq!(error.message, "script HTTP status 404 Not Found");
    assert_eq!(error.source_url, "https://example.test/b.js");

    let failed = loaded_script_task(
        8,
        "https://example.test/c.js",
        false,
        LoadOutcome::Failed { message: "connection refused".to_owned() },
    )
    .unwrap();
    assert_eq!(failed.source_url, "https://example.test/c.js");
    assert_eq!(failed.source.unwrap_err().message, "connection refused");

    assert!(loaded_script_task(9, "https://example.test/d.js", false, LoadOutcome::Cancelled).is_none());
}
