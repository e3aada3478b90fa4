use semantic_edit_mcp::editors::rust::{NodeEditResult, NodeOperation, RustEditor};
use semantic_edit_mcp::operations::selector::NodeSelector;
use semantic_edit_mcp::parsers::rust::RustParser;

const SOURCE: &str = "fn main() {\n    let x = 1;\n}\n";

fn let_target() -> NodeSelector {
    NodeSelector {
        position: None,
        anchor_text: "let x".to_string(),
        ancestor_node_type: Some("let_declaration".to_string()),
    }
}

fn success(r: Result<NodeEditResult, String>) -> (String, String, (usize, usize)) {
    match r {
        Ok(NodeEditResult::Success { message, new_content, affected_range }) => (message, new_content, affected_range),
        other => panic!("expected success, got {other:?}"),
    }
}

#[test]
fn replace_swaps_the_selected_node() {
    let op = NodeOperation::Replace { target: let_target(), new_content: "let y = 2;".to_string(), preview_only: None };
    let (message, content, range) = success(RustEditor::apply_operation(&op, SOURCE));
    assert_eq!(message, "Successfully replaced let_declaration node");
    assert_eq!(content, "fn main() {\n    let y = 2;\n}\n");
    assert_eq!(range, (16, 26));
}

#[test]
fn replace_refuses_invalid_syntax() {
    let op = NodeOperation::Replace { target: let_target(), new_content: "let y = ;".to_string(), preview_only: None };
    match RustEditor::apply_operation(&op, SOURCE) {
        Ok(NodeEditResult::Error(m)) => assert_eq!(m, "Replacement would create invalid syntax"),
        other => panic!("expected a refusal, got {other:?}"),
    }
}

#[test]
fn preview_marks_the_message() {
    let op = NodeOperation::Replace { target: let_target(), new_content: "let y = 2;".to_string(), preview_only: Some(true) };
    let (message, content, _) = success(RustEditor::apply_operation(&op, SOURCE));
    assert_eq!(message, "PREVIEW: Successfully replaced let_declaration node");
    assert_eq!(content, "fn main() {\n    let y = 2;\n}\n");
}

#[test]
fn insert_before_keeps_the_line_indentation() {
    let op = NodeOperation::InsertBefore { target: let_target(), content: "let a = 0;".to_string(), preview_only: Some(false) };
    let (message, content, range) = success(RustEditor::apply_operation(&op, SOURCE));
    assert_eq!(message, "Successfully inserted content before let_declaration node");
    assert_eq!(content, "fn main() {\n    let a = 0;\n    let x = 1;\n}\n");
    assert_eq!(range, (16, 31));
}

#[test]
fn insert_after_keeps_the_line_indentation() {
    let op = NodeOperation::InsertAfter { target: let_target(), content: "let b = 2;".to_string(), preview_only: None };
    let (message, content, range) = success(RustEditor::apply_operation(&op, SOURCE));
    assert_eq!(message, "Successfully inserted content after let_declaration node");
    assert_eq!(content, "fn main() {\n    let x = 1;\n    let b = 2;\n}\n");
    assert_eq!(range, (26, 41));
}

#[test]
fn wrap_places_the_node_in_the_template() {
    let op = NodeOperation::Wrap { target: let_target(), wrapper_template: "{ {{content}} }".to_string(), preview_only: None };
    let (message, content, range) = success(RustEditor::apply_operation(&op, SOURCE));
    assert_eq!(message, "Successfully wrapped let_declaration node");
    assert_eq!(content, "fn main() {\n    { let x = 1; }\n}\n");
    assert_eq!(range, (16, 30));
}

#[test]
fn wrap_needs_a_placeholder() {
    let op = NodeOperation::Wrap { target: let_target(), wrapper_template: "{ }".to_string(), preview_only: None };
    assert_eq!(
        RustEditor::apply_operation(&op, SOURCE).unwrap_err(),
        "Wrapper template must contain {content} placeholder"
    );
}

#[test]
fn delete_removes_the_node() {
    let op = NodeOperation::Delete { target: let_target(), preview_only: None };
    let (message, content, range) = success(RustEditor::apply_operation(&op, SOURCE));
    assert_eq!(message, "Successfully deleted let_declaration node");
    assert_eq!(content, "fn main() {\n    \n}\n");
    assert_eq!(range, (16, 16));
}

#[test]
fn function_replacement_with_attributes_replaces_the_old_ones() {
    let source = "#[test]\nfn a() {}\n";
    let target = NodeSelector {
        position: None,
        anchor_text: "fn a".to_string(),
        ancestor_node_type: Some("function_item".to_string()),
    };
    let op = NodeOperation::Replace { target: target.clone(), new_content: "#[test]\nfn b() {}".to_string(), preview_only: None };
    let (_, content, range) = success(RustEditor::apply_operation(&op, source));
    assert_eq!(content, "#[test]\nfn b() {}\n");
    assert_eq!(range, (0, 17));

    let op = NodeOperation::Replace { target, new_content: "fn b() {}".to_string(), preview_only: None };
    let (_, content, range) = success(RustEditor::apply_operation(&op, source));
    assert_eq!(content, "#[test]\nfn b() {}\n");
    assert_eq!(range, (8, 17));
}

#[test]
fn missing_anchor_is_an_error() {
    let target = NodeSelector { position: None, anchor_text: "zzz".to_string(), ancestor_node_type: Some("let_declaration".to_string()) };
    let op = NodeOperation::Delete { target, preview_only: None };
    assert_eq!(RustEditor::apply_operation(&op, SOURCE).unwrap_err(), "anchor_text \"zzz\" not found in file");
}

#[test]
fn rust_syntax_is_validated() {
    assert!(RustParser::validate_rust_syntax("fn main() {}"));
    assert!(!RustParser::validate_rust_syntax("fn main( {"));
}

#[test]
fn formatting_keeps_rust_source() {
    assert_eq!(RustEditor::format_code(SOURCE).unwrap(), SOURCE);
}

use semantic_edit_mcp::languages::LanguageName;
use semantic_edit_mcp::syntax::{parse_source, read_tree};

#[test]
fn nodes_are_found_by_type_or_by_the_word_for_it() {
    let t = read_tree(&parse_source(LanguageName::Rust, "struct A;\nfn f() {}\nfn g() {}\n").unwrap()).unwrap();
    let functions = RustParser::find_nodes_by_type(&t, "function_item");
    assert_eq!(functions.len(), 2);
    assert!(functions[0] < functions[1]);
    assert_eq!(RustParser::find_nodes_by_type_with_fallback(&t, "function"), functions);
    // The keyword itself is a node kind, so it is found without falling back.
    let keywords = RustParser::find_nodes_by_type_with_fallback(&t, "fn");
    assert_eq!(keywords.len(), 2);
    assert_eq!(t.nodes[keywords[0]].kind, "fn");
    assert!(RustParser::find_nodes_by_type_with_fallback(&t, "enum").is_empty());
    assert!(RustParser::find_nodes_by_type_with_fallback(&t, "widget").is_empty());
}

#[test]
fn a_preview_differs_only_by_its_message_prefix() {
    for preview in [None, Some(false)] {
        let plain = NodeOperation::Delete { target: let_target(), preview_only: preview };
        let shown = NodeOperation::Delete { target: let_target(), preview_only: Some(true) };
        let (m1, c1, r1) = success(RustEditor::apply_operation(&plain, SOURCE));
        let (m2, c2, r2) = success(RustEditor::apply_operation(&shown, SOURCE));
        assert_eq!(m2, format!("PREVIEW: {m1}"));
        assert_eq!((c1, r1), (c2, r2));
    }
    let bad = NodeOperation::Wrap { target: let_target(), wrapper_template: "{ }".to_string(), preview_only: Some(true) };
    assert_eq!(
        RustEditor::apply_operation(&bad, SOURCE).unwrap_err(),
        "Wrapper template must contain {content} placeholder"
    );
}

#[test]
fn a_parsable_source_is_edited() {
    let op = NodeOperation::Delete { target: let_target(), preview_only: None };
    let (message, content, _) = success(RustEditor::apply_operation(&op, "fn main() { let x = 1; }"));
    assert_eq!(message, "Successfully deleted let_declaration node");
    assert_eq!(content, "fn main() {  }");
}
