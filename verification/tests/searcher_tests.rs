use semantic_edit_mcp::searcher::find_positions;

fn position_strs<'a>(source: &'a str, snippet: &str) -> Vec<&'a str> {
    find_positions(source, snippet)
        .unwrap_or_default()
        .into_iter()
        .map(|(start, end)| &source[start..end])
        .collect()
}

#[test]
fn test_exact_match_single_line() {
    let source = "hello world\nfoo bar\nbaz";
    let snippet = "foo bar";
    let result = position_strs(source, snippet);
    assert_eq!(result, ["foo bar"]);
}

#[test]
fn test_exact_match_multiline() {
    let source = "line1\nline2\nline3\nline4";
    let snippet = "line2\nline3";
    let result = position_strs(source, snippet);
    assert_eq!(result, ["line2\nline3"]);
}

#[test]
fn test_whitespace_differences() {
    let source = "  hello   world  \n\t\tfoo\tbar\t\n   baz   ";
    let snippet = "hello world\nfoo bar";
    let result = position_strs(source, snippet);
    assert_eq!(result, ["hello   world  \n\t\tfoo\tbar"]);
}

#[test]
fn test_multiple_matches() {
    let source = "foo\nbar\nbaz\nfoo\nbar\nqux";
    let snippet = "foo\nbar";
    let result = position_strs(source, snippet);
    assert_eq!(result, ["foo\nbar", "foo\nbar"]);
}

#[test]
fn test_overlapping_first_lines() {
    let source = "abc1abc   1abc\nghi\nabc\njkl";
    let snippet = "abc 1 abc";
    let result = position_strs(source, snippet);
    assert_eq!(result, ["abc1abc", "abc   1abc"]);
}

#[test]
fn test_first_line_appears_multiple_times_but_only_one_full_match() {
    let source = "start\nmiddle\nstart\nend\nother";
    let snippet = "start\nend";
    let result = position_strs(source, snippet);
    assert_eq!(result, ["start\nend"]);
}

#[test]
fn test_no_matches_first_line_not_found() {
    let source = "hello\nworld\nfoo";
    let snippet = "missing\nline";
    let result = position_strs(source, snippet);
    assert!(result.is_empty());
}

#[test]
fn test_no_matches_partial_match() {
    let source = "hello\nworld\nfoo";
    let snippet = "hello\nmissing";
    let result = position_strs(source, snippet);
    assert!(result.is_empty());
}

#[test]
fn test_single_line_snippet() {
    let source = "one\ntwo\nthree 3\nfour";
    let snippet = "three      3";
    let result = position_strs(source, snippet);
    assert_eq!(result, ["three 3"]);
}

#[test]
fn test_entire_source_matches() {
    let source = "line1\nline2\nline3";
    let snippet = "line1\nline2\nline3";
    let result = position_strs(source, snippet);
    assert_eq!(result, [source]);
}

#[test]
fn test_whitespace_only_differences() {
    let source = "func(a,  b  )\n{\n    return a + b;\n}";
    let snippet = "func(a, b)\n{\nreturn a + b;\n}";
    let result = position_strs(source, snippet);
    assert_eq!(result, [source]);
}

#[test]
fn test_mixed_whitespace_types() {
    let source = "hello\tworld\r\n  foo   bar  ";
    let snippet = "hello world\nfoo bar";
    let result = position_strs(source, snippet);
    assert_eq!(result, ["hello\tworld\r\n  foo   bar"]);
}

#[test]
fn test_trailing_whitespace_in_source() {
    let source = "line1   \nline2\t\t\nline3";
    let snippet = "line1\nline2";
    let result = position_strs(source, snippet);
    assert_eq!(result, ["line1   \nline2"]);
}

#[test]
fn test_snippet_longer_than_remaining_source() {
    let source = "short\nfile";
    let snippet = "short\nfile\nextra\nlines";
    let result = position_strs(source, snippet);
    assert!(result.is_empty());
}

#[test]
fn test_unicode_characters() {
    let source = "héllo\nwörld\n测试";
    let snippet = "héllo\nwörld";
    let result = position_strs(source, snippet);
    assert_eq!(result, ["héllo\nwörld"]);
}

#[test]
fn test_first_line_at_end_of_source() {
    let source = "beginning\nmiddle\nend";
    let snippet = "end\nextra";
    let result = position_strs(source, snippet);
    assert!(result.is_empty());
}

#[test]
fn a_missing_anchor_reports_its_text() {
    assert_eq!(
        find_positions("abc", "xyz").unwrap_err(),
        "Anchor \"xyz\" not found in source"
    );
}

#[test]
fn every_match_is_the_snippet_modulo_whitespace() {
    let source = "a  b\nc\n\ta b c";
    for (s, e) in find_positions(source, "a b c").unwrap() {
        let squeezed: String = source[s..e].chars().filter(|c| !c.is_whitespace()).collect();
        assert_eq!(squeezed, "abc");
    }
}

#[test]
fn matches_come_in_source_order() {
    let v = find_positions("x y x y x y", "x y").unwrap();
    assert_eq!(v, vec![(0, 3), (4, 7), (8, 11)]);
}

#[test]
fn a_reflowed_anchor_is_found_at_the_first_occurrence_of_its_word() {
    let source = "fn main() {\n    let   total =\n        1 + 2;\n}\n";
    assert_eq!(position_strs(source, "let total = 1 + 2;"), vec!["let   total =\n        1 + 2;"]);
}
