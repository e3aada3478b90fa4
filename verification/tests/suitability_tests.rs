use semantic_edit_mcp::ast_explorer::{ASTExplorer, EditSuitability};

#[test]
fn whole_rust_constructs_are_excellent() {
    match ASTExplorer::assess_edit_suitability("rust", "function_item") {
        EditSuitability::Excellent { reason } => {
            assert_eq!(reason, "Complete function - perfect for replacement or modification")
        }
        other => panic!("{other:?}"),
    }
}

#[test]
fn a_name_token_is_poor() {
    match ASTExplorer::assess_edit_suitability("rust", "identifier") {
        EditSuitability::Poor { reason, better_alternatives } => {
            assert_eq!(reason, "Just a name token, not the full construct");
            assert_eq!(better_alternatives, vec!["Select the parent function_item, struct_item, etc.".to_string()]);
        }
        other => panic!("{other:?}"),
    }
}

#[test]
fn heading_markers_are_terrible() {
    assert!(matches!(
        ASTExplorer::assess_edit_suitability("markdown", "atx_h2_marker"),
        EditSuitability::Terrible { .. }
    ));
}

#[test]
fn generic_kinds_are_judged_by_name() {
    match ASTExplorer::assess_edit_suitability("python", "if_statement") {
        EditSuitability::Good { reason, .. } => assert_eq!(reason, "Appears to be a complete language construct"),
        other => panic!("{other:?}"),
    }
    match ASTExplorer::assess_edit_suitability("python", "+") {
        EditSuitability::Poor { reason, .. } => assert_eq!(reason, "Appears to be a small token or literal"),
        other => panic!("{other:?}"),
    }
    match ASTExplorer::assess_edit_suitability("json", "pair") {
        EditSuitability::Good { reason, .. } => assert_eq!(reason, "Key-value pair in JSON object"),
        other => panic!("{other:?}"),
    }
    match ASTExplorer::assess_edit_suitability("toml", "table") {
        EditSuitability::Good { reason, .. } => assert_eq!(reason, "Generic node"),
        other => panic!("{other:?}"),
    }
}

use semantic_edit_mcp::ast_explorer::ASTNodeInfo;
use semantic_edit_mcp::languages::LanguageName;
use semantic_edit_mcp::syntax::{parse_source, read_tree, SyntaxNode, SyntaxTree};
use semantic_edit_mcp::text::byte_offsets;

fn rust_tree(source: &str) -> (SyntaxTree, Vec<char>, Vec<usize>) {
    let t = read_tree(&parse_source(LanguageName::Rust, source).unwrap()).unwrap();
    let c: Vec<char> = source.chars().collect();
    let off = byte_offsets(&c);
    (t, c, off)
}

fn kind_index(t: &SyntaxTree, kind: &str) -> usize {
    t.nodes.iter().position(|n| n.kind == kind).unwrap()
}

#[test]
fn rust_items_are_named_and_queried() {
    let (t, c, off) = rust_tree("fn alpha() {}\nstruct S;\n");
    let f = kind_index(&t, "function_item");
    let s = kind_index(&t, "struct_item");
    assert_eq!(ASTExplorer::extract_node_name(&t, &c, &off, f).as_deref(), Some("alpha"));
    assert_eq!(
        ASTExplorer::generate_query_selector(&t, &c, &off, f).as_deref(),
        Some("(function_item name: (identifier) @name (#eq? @name \"alpha\"))")
    );
    assert_eq!(
        ASTExplorer::generate_query_selector(&t, &c, &off, s).as_deref(),
        Some("(struct_item name: (type_identifier) @name (#eq? @name \"S\"))")
    );
    assert_eq!(
        ASTExplorer::identify_semantic_role(&t, &c, &off, "rust", f).as_deref(),
        Some("Function Definition")
    );
    assert_eq!(ASTExplorer::identify_semantic_role(&t, &c, &off, "rust", 0), None);
}

fn node(kind: &str, start: usize, end: usize, parent: Option<usize>) -> SyntaxNode {
    SyntaxNode {
        kind: kind.to_string(),
        start,
        end,
        named: true,
        extra: false,
        error: false,
        missing: false,
        field: None,
        parent,
        prev_sibling: None,
    }
}

#[test]
fn markdown_roles_read_their_children() {
    let source = "## Title\n```rust\nx\n```\n";
    let c: Vec<char> = source.chars().collect();
    let off = byte_offsets(&c);
    let t = SyntaxTree {
        nodes: vec![
            node("document", 0, 22, None),
            node("atx_heading", 0, 8, Some(0)),
            node("atx_h2_marker", 0, 2, Some(1)),
            node("fenced_code_block", 9, 22, Some(0)),
            node("info_string", 12, 16, Some(3)),
            node("language", 12, 16, Some(4)),
        ],
    };
    assert_eq!(
        ASTExplorer::identify_semantic_role(&t, &c, &off, "markdown", 1).as_deref(),
        Some("Heading Level 2")
    );
    assert_eq!(
        ASTExplorer::identify_semantic_role(&t, &c, &off, "markdown", 3).as_deref(),
        Some("Code Block (rust)")
    );
}

#[test]
fn the_context_explanation_reads_inside_out() {
    let focus = ASTNodeInfo {
        id: 2,
        byte_range: (4, 5),
        is_named: true,
        child_count: 0,
        selector_options: Vec::new(),
        kind: "identifier".to_string(),
        semantic_role: None,
        text_preview: "x".to_string(),
        line_range: (1, 1),
        char_range: (4, 5),
        edit_suitability: ASTExplorer::assess_edit_suitability("rust", "identifier"),
    };
    let ancestors = vec![ASTNodeInfo {
        id: 1,
        byte_range: (0, 9),
        is_named: true,
        child_count: 4,
        selector_options: Vec::new(),
        kind: "function_item".to_string(),
        semantic_role: Some("Function Definition".to_string()),
        text_preview: "fn x() {}".to_string(),
        line_range: (1, 1),
        char_range: (0, 9),
        edit_suitability: ASTExplorer::assess_edit_suitability("rust", "function_item"),
    }];
    let text = ASTExplorer::generate_context_explanation(&focus, &ancestors, "rust");
    assert_eq!(
        text,
        "🎯 Focus: identifier (structural)\n   Content: \"x\"\n   Position: lines 1-1, chars 4-5\
\n\n📍 Context hierarchy (inner → outer):\n  function_item (Function Definition) - \"fn x() {}\"\
\n\n⚠\u{fe0f} Poor edit target: Just a name token, not the full construct\
\n   💡 Try instead: Select the parent function_item, struct_item, etc."
    );
}
