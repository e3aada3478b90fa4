use semantic_edit_mcp::languages::markdown::MarkdownEditor;
use semantic_edit_mcp::syntax::{SyntaxNode, SyntaxTree};

#[test]
fn blocks_get_a_blank_line() {
    assert_eq!(MarkdownEditor::ensure_proper_markdown_spacing("para", "paragraph", true), "para\n\n");
    assert_eq!(MarkdownEditor::ensure_proper_markdown_spacing("para\n", "paragraph", true), "para\n\n");
    assert_eq!(MarkdownEditor::ensure_proper_markdown_spacing("x", "atx_heading", false), "\n\nx");
    assert_eq!(MarkdownEditor::ensure_proper_markdown_spacing("\nx", "section", false), "\n\nx");
}

#[test]
fn list_items_get_one_line_break() {
    assert_eq!(MarkdownEditor::ensure_proper_markdown_spacing("- a", "list_item", true), "- a\n");
    assert_eq!(MarkdownEditor::ensure_proper_markdown_spacing("\n- a", "list_item", false), "\n- a");
    assert_eq!(MarkdownEditor::ensure_proper_markdown_spacing("- a", "list_item", false), "\n- a");
    assert_eq!(MarkdownEditor::ensure_proper_markdown_spacing("x", "emphasis", true), "x");
}

#[test]
fn deletions_take_the_following_blank_line() {
    assert_eq!(MarkdownEditor::adjust_deletion_range_for_spacing("# H\n\ntext", 0, 3, "atx_heading"), (0, 5));
    assert_eq!(MarkdownEditor::adjust_deletion_range_for_spacing("# H\ntext", 0, 3, "atx_heading"), (0, 4));
    assert_eq!(MarkdownEditor::adjust_deletion_range_for_spacing("x\n", 0, 1, "list"), (0, 1));
}

fn node(kind: &str, start: usize, end: usize, parent: Option<usize>) -> SyntaxNode {
    SyntaxNode {
        kind: kind.to_string(),
        start,
        end,
        named: true,
        extra: false,
        error: false,
        missing: false,
        field: None,
        parent,
        prev_sibling: None,
    }
}

#[test]
fn emptying_a_heading_deletes_it_whole() {
    let source = "# H\n\ntext\n";
    let t = SyntaxTree {
        nodes: vec![
            node("document", 0, 10, None),
            node("atx_heading", 0, 3, Some(0)),
            node("inline", 2, 3, Some(1)),
        ],
    };
    let r = MarkdownEditor::try_smart_deletion(&t, 2, source).unwrap();
    assert_eq!(r.new_content, "text\n");
    assert_eq!(r.message, "Smart deletion: removed entire heading instead of creating empty heading");
}

#[test]
fn emptying_a_list_item_deletes_it_whole() {
    let source = "- a\n- b\n";
    let t = SyntaxTree {
        nodes: vec![
            node("document", 0, 8, None),
            node("list", 0, 8, Some(0)),
            node("list_item", 0, 3, Some(1)),
            node("paragraph", 2, 3, Some(2)),
            node("inline", 2, 3, Some(3)),
        ],
    };
    let r = MarkdownEditor::try_smart_deletion(&t, 4, source).unwrap();
    assert_eq!(r.new_content, "- b\n");
    assert!(MarkdownEditor::try_smart_deletion(&t, 1, source).is_none());
}
