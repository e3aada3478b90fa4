use semantic_edit_mcp::editor::engine::{Attempt, CandidateRun, Editor};
use semantic_edit_mcp::languages::LanguageName;
use semantic_edit_mcp::selector::{Operation, Selector};

fn editor(language: LanguageName, source: &str, op: Operation, anchor: &str, content: &str) -> Editor {
    Editor::from_source(
        content.to_string(),
        Selector { operation: op, anchor: Some(anchor.to_string()), item: None },
        language,
        "file".to_string(),
        source.to_string(),
    )
    .unwrap()
}

fn parsed_outputs(e: &Editor) -> Vec<String> {
    let edits = e.build_edits().unwrap();
    edits
        .iter()
        .filter_map(|x| match e.attempt(x) {
            Attempt::Parsed(s) => Some(s),
            _ => None,
        })
        .collect()
}

#[test]
fn a_rust_insert_after_lands_after_the_item() {
    let e = editor(
        LanguageName::Rust,
        "fn a() {}\n\nfn b() {}\n",
        Operation::InsertAfter,
        "fn a() {}",
        "\nfn c() {}",
    );
    let outs = parsed_outputs(&e);
    assert!(!outs.is_empty());
    assert!(outs[0].starts_with("fn a() {}"), "{:?}", outs);
    assert!(outs[0].contains("fn c() {}"), "{:?}", outs);
    assert!(outs[0].contains("fn b() {}"), "{:?}", outs);
}

#[test]
fn a_plain_text_replace_swaps_the_anchor() {
    let e = editor(LanguageName::Other, "one two three", Operation::Replace, "two", "2");
    let outs = parsed_outputs(&e);
    assert_eq!(outs.first().map(String::as_str), Some("one 2 three"));
}

#[test]
fn a_plain_text_insert_before_keeps_the_anchor() {
    let e = editor(LanguageName::Other, "one two three", Operation::InsertBefore, "two", "1.5 ");
    let outs = parsed_outputs(&e);
    assert_eq!(outs.first().map(String::as_str), Some("one 1.5 two three"));
}

#[test]
fn a_missing_anchor_is_an_error() {
    let e = editor(LanguageName::Other, "one two three", Operation::Replace, "four", "4");
    let err = e.build_edits().unwrap_err();
    assert!(err.contains("four"), "{err}");
}

#[test]
fn a_python_statement_insert_gets_its_own_line() {
    let e = editor(
        LanguageName::Python,
        "def f():\n    x = 1\n    return x\n",
        Operation::InsertAfter,
        "x = 1",
        "y = 2",
    );
    let edits = e.build_edits().unwrap();
    assert!(
        edits.iter().any(|x| x.content == "\n    y = 2"),
        "{:?}",
        edits.iter().map(|x| x.content.clone()).collect::<Vec<_>>()
    );
    let outs = parsed_outputs(&e);
    assert!(
        outs.iter().any(|o| o == "def f():\n    x = 1\n    y = 2\n    return x\n"),
        "{outs:?}"
    );
}

#[test]
fn broken_output_is_reported_not_accepted() {
    let e = editor(LanguageName::Json, "{\"a\": 1}", Operation::Replace, "1", "[");
    let edits = e.build_edits().unwrap();
    assert!(edits.iter().all(|x| !matches!(e.attempt(x), Attempt::Parsed(_))));
}

#[test]
fn the_source_and_content_are_kept() {
    let e = editor(LanguageName::Other, "abc", Operation::Replace, "b", "x");
    assert_eq!(e.source_code(), "abc");
    assert_eq!(e.content(), "x");
    assert_eq!(e.language(), LanguageName::Other);
    assert_eq!(e.selector().anchor(), Some("b"));
}

#[test]
fn a_toml_file_is_formatted_by_the_library() {
    let e = editor(LanguageName::Toml, "a = 1\n", Operation::Replace, "1", "2");
    let formatted = e.library_format("a    =   2\n");
    assert_eq!(formatted.as_deref(), Some("a = 2\n"));
}

#[test]
fn a_run_reports_the_first_formatter_failure_before_other_failures() {
    let e = editor(LanguageName::Other, "a b c", Operation::Replace, "b", "x");
    let mut run = CandidateRun::new();
    assert_eq!(e.record_attempt(&mut run, Attempt::Invalid("first".to_string())), None);
    assert_eq!(e.record_attempt(&mut run, Attempt::Unparsable("second".to_string())), None);
    assert_eq!(run.first_failure.as_deref(), Some("first"));
    assert_eq!(e.record_attempt(&mut run, Attempt::Parsed("out".to_string())), Some("out".to_string()));
    assert!(e.run_failure(&run).starts_with("first\n\nNone of the candidate placements"));
    e.record_format_failure(&mut run, "boom", "a x c");
    e.record_format_failure(&mut run, "later", "a y c");
    let m = e.run_failure(&run);
    assert!(m.starts_with("The formatter has encountered the following error"));
    assert!(m.contains("boom"));
    assert!(!m.contains("later"));
}

#[test]
fn an_ambiguous_anchor_is_noted_in_the_report() {
    let e = editor(LanguageName::Other, "x = 1\ny = 2\nx = 1\n", Operation::Replace, "x = 1", "x = 3");
    let edits = e.build_edits().unwrap();
    let note = e.ambiguity_note(&edits[0]).unwrap();
    assert!(note.starts_with("Note: the anchor matched at 2 locations (lines 1, 3)"), "{note}");
    let report = e.success_report(&edits[0], "x = 3\ny = 2\nx = 1\n");
    assert!(report.ends_with(&format!("\n\n{note}")), "{report}");
}

#[test]
fn a_shorter_anchor_is_its_unique_first_line() {
    let e = editor(LanguageName::Other, "alpha\nbeta\ngamma\n", Operation::Replace, "alpha\nbeta", "x");
    assert_eq!(e.shorthand_suggestion().as_deref(), Some("alpha"));
    let e = editor(LanguageName::Other, "alpha\nbeta\nalpha\n", Operation::Replace, "alpha\nbeta", "x");
    assert_eq!(e.shorthand_suggestion(), None);
    let e = editor(LanguageName::Other, "alpha\nbeta\n", Operation::Replace, "alpha", "x");
    assert_eq!(e.shorthand_suggestion(), None);
}
