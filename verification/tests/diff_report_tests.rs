use semantic_edit_mcp::editor::diff::{DiffHunk, DiffLine, LineKind};
use semantic_edit_mcp::operations::edit_operation::{changed_lines, generate_diff};

fn hunk(old_start: usize, old_len: usize) -> DiffHunk {
    DiffHunk {
        old_start,
        old_len,
        new_start: old_start,
        new_len: old_len,
        lines: vec![DiffLine { kind: LineKind::Context, text: "x\n".to_string() }],
    }
}

#[test]
fn changed_lines_counts_covered_lines_once() {
    let hunks = vec![hunk(2, 3), hunk(4, 3), hunk(9, 5)];
    // lines 2..5, 4..7 and 9..14, cut at 10: {2,3,4,5,6,9}
    assert_eq!(changed_lines(&hunks, 10), 6);
    assert_eq!(changed_lines(&hunks, 0), 0);
    assert_eq!(changed_lines(&Vec::new(), 10), 0);
}

#[test]
fn the_diff_drops_its_headers() {
    let d = generate_diff("a\nb\n", "a\nc\n", None);
    assert_eq!(d, "===DIFF===\n a\n-b\n+c");
}

#[test]
fn short_content_gets_no_efficiency_note() {
    let d = generate_diff("a\nb\n", "a\nc\n", Some("c\n"));
    assert_eq!(d, "===DIFF===\n a\n-b\n+c");
}

#[test]
fn long_content_gets_an_efficiency_note() {
    let original: String = (1..=12).map(|i| format!("l{i}\n")).collect();
    let modified = original.replace("l6\n", "changed\n");
    let content: String = (1..=11).map(|i| format!("c{i}\n")).collect();
    let d = generate_diff(&original, &modified, Some(&content));
    assert!(d.starts_with("Edit efficiency: 63%\n\n===DIFF===\n l3\n"), "{d}");
    assert!(d.ends_with("+changed\n l7\n l8\n l9"), "{d}");
}

use semantic_edit_mcp::operations::edit_operation::{EditOperation, EditResult};
use semantic_edit_mcp::operations::selector::Selector;

#[test]
fn a_staged_preview_names_the_operation() {
    let op = EditOperation::new(Selector::Replace { anchor: "b".to_string() }, "c".to_string());
    let result = EditResult { message: "Applied Replace operation".to_string(), new_content: "a\nc\n".to_string() };
    assert_eq!(op.generate_contextual_preview(&result, "a\nb\n"), "STAGED: Replace\n\n===DIFF===\n a\n-b\n+c");
}
