use semantic_edit_mcp::editor::engine::Editor;
use semantic_edit_mcp::languages::LanguageName;
use semantic_edit_mcp::selector::{Operation, Selector};

fn editor(source: &str, anchor: &str) -> Editor {
    Editor::from_source(
        "content".to_string(),
        Selector { operation: Operation::InsertAfter, anchor: Some(anchor.to_string()), item: None },
        LanguageName::Other,
        "notes.txt".to_string(),
        source.to_string(),
    )
    .unwrap()
}

#[test]
fn one_match_is_listed_with_its_context() {
    let e = editor("fn a() {}\n\nfn b() {\n    x\n}\n", "fn b()");
    let expected = [
        "Anchor matched at 1 location\n",
        "\n=== match 1: lines 3-3 ===\n",
        "       1 | fn a() {}\n",
        "       2 | \n",
        ">>>    3 | fn b() {\n",
        "       4 |     x\n",
        "       5 | }\n",
    ]
    .concat();
    assert_eq!(e.find_anchor(), expected);
}

#[test]
fn several_matches_are_numbered_and_advised() {
    let e = editor("x\ny\nx\n", "  x ");
    let out = e.find_anchor();
    assert!(out.starts_with("Anchor matched at 2 locations\n"), "{out}");
    assert!(out.contains("=== match 1: lines 1-1 ==="), "{out}");
    assert!(out.contains("=== match 2: lines 3-3 ==="), "{out}");
    assert!(out.ends_with("until it is unique."), "{out}");
}

#[test]
fn a_multi_line_match_marks_every_line() {
    let e = editor("a\nb\nc\n", "a\nb");
    let out = e.find_anchor();
    assert!(out.contains("=== match 1: lines 1-2 ==="), "{out}");
    assert!(out.contains(">>>    1 | a\n>>>    2 | b\n       3 | c\n"), "{out}");
}

#[test]
fn a_missing_anchor_gives_the_search_message() {
    let e = editor("a\n", "zzz");
    assert_eq!(e.find_anchor(), "Anchor \"zzz\" not found in source");
}

#[test]
fn an_anchor_the_report_cannot_find_gives_edits_nothing() {
    let e = Editor::from_source(
        "fn q() {}".to_string(),
        Selector { operation: Operation::Replace, anchor: Some("fn z()".to_string()), item: None },
        LanguageName::Rust,
        "src/lib.rs".to_string(),
        "fn a() {}\n".to_string(),
    )
    .unwrap();
    assert_eq!(e.find_anchor(), "Anchor \"fn z()\" not found in source");
    assert_eq!(e.build_edits().unwrap_err(), "Anchor \"fn z()\" not found in source");
}
