use semantic_edit_mcp::editor::diff::{clean_diff, focused_diff};

#[test]
fn a_distant_whitespace_only_hunk_is_elided_and_counted() {
    let original = "fn a() {\n        let x = 1;\n}\n".to_string()
        + &"// filler\n".repeat(20)
        + "struct S {\n    a: u8,\n}\n";
    let modified = "fn a() {\n    let x = 1;\n}\n".to_string()
        + &"// filler\n".repeat(20)
        + "struct S {\n    a: u8,\n    b: u8,\n}\n";

    let (diff, elided) = focused_diff(&original, &modified);
    assert_eq!(elided, 1, "{diff}");
    assert!(diff.contains("+    b: u8,"), "the edit is shown: {diff}");
    assert!(!diff.contains("let x = 1"), "reflow is not: {diff}");
}

#[test]
fn a_distant_non_whitespace_change_always_stays() {
    let original = "use a::b;\n".to_string() + &"// filler\n".repeat(20) + "struct S {\n}\n";
    let modified =
        "use a::c;\n".to_string() + &"// filler\n".repeat(20) + "struct S {\n    a: u8,\n}\n";

    let (diff, elided) = focused_diff(&original, &modified);
    assert_eq!(elided, 0, "{diff}");
    assert!(diff.contains("+use a::c;"), "{diff}");
    assert!(diff.contains("+    a: u8,"), "{diff}");
}

#[test]
fn an_all_whitespace_diff_falls_back_to_the_full_diff() {
    let (diff, elided) = focused_diff("fn a() {\n  x\n}\n", "fn a() {\n    x\n}\n");
    assert_eq!(elided, 0);
    assert!(diff.contains("+    x"), "{diff}");
}

#[test]
fn hunks_carry_their_line_numbers() {
    let (diff, _) = focused_diff("a\nb\nc\n", "a\nB\nc\n");
    assert!(diff.contains("@@ -1,3 +1,3 @@"), "{diff}");
}

#[test]
fn a_blank_context_line_has_no_prefix() {
    let (diff, _) = focused_diff("a\n\nb\n", "a\n\nB\n");
    assert!(diff.contains("\n\n"), "blank line stays bare: {diff:?}");
    assert!(!diff.contains(" \n"), "no trailing space: {diff:?}");
}

#[test]
fn a_clean_diff_drops_the_file_headers() {
    let diff = clean_diff("a\nb\n", "a\nc\n");
    assert!(!diff.contains("--- original"), "{diff}");
    assert!(!diff.contains("+++ modified"), "{diff}");
    assert!(diff.contains("-b"), "{diff}");
    assert!(diff.contains("+c"), "{diff}");
}

#[test]
fn an_unchanged_file_has_an_empty_focused_diff_body() {
    let (diff, elided) = focused_diff("a\n", "a\n");
    assert_eq!(elided, 0);
    assert!(!diff.contains("@@"), "{diff}");
}
