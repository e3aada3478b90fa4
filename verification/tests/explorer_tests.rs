use semantic_edit_mcp::ast_explorer::{ASTExplorer, ASTNodeInfo, EditSuitability, SelectorValue};
use semantic_edit_mcp::languages::LanguageName;
use semantic_edit_mcp::syntax::{parse_source, read_tree};
use semantic_edit_mcp::text::byte_offsets;

fn info(kind: &str, suitability: EditSuitability) -> ASTNodeInfo {
    ASTNodeInfo {
        id: 7,
        kind: kind.to_string(),
        text_preview: String::new(),
        byte_range: (0, 0),
        line_range: (1, 1),
        char_range: (0, 0),
        is_named: true,
        child_count: 0,
        selector_options: Vec::new(),
        edit_suitability: suitability,
        semantic_role: None,
    }
}

#[test]
fn exploring_a_name_token_points_to_its_function() {
    let source = "fn alpha() {}\n";
    let p = parse_source(LanguageName::Rust, source).unwrap();
    let t = read_tree(&p).unwrap();
    let r = ASTExplorer::explore_around(&p, &t, 1, 4, "rust").unwrap();
    let focus = &r.focus_node;
    assert_eq!(focus.kind, "identifier");
    assert_eq!(focus.text_preview, "alpha");
    assert_eq!(focus.byte_range, (3, 8));
    assert_eq!(focus.line_range, (1, 1));
    assert_eq!(focus.char_range, (3, 8));
    assert_eq!(focus.child_count, 0);
    assert!(matches!(focus.edit_suitability, EditSuitability::Poor { .. }));
    let types: Vec<&str> = focus.selector_options.iter().map(|o| o.selector_type.as_str()).collect();
    assert_eq!(types, vec!["type", "position", "content"]);
    assert!(matches!(focus.selector_options[1].selector_value, SelectorValue::Position { line: 1, column: 4 }));
    assert_eq!(focus.selector_options[1].confidence, 90);

    let ancestors: Vec<&str> = r.ancestors.iter().map(|a| a.kind.as_str()).collect();
    assert_eq!(ancestors, vec!["function_item", "source_file"]);
    assert!(r.children.is_empty());
    let siblings: Vec<&str> = r.siblings.iter().map(|a| a.kind.as_str()).collect();
    assert_eq!(siblings, vec!["fn", "parameters", "block"]);

    assert_eq!(r.edit_recommendations.len(), 1);
    let rec = &r.edit_recommendations[0];
    assert_eq!(rec.target_node_id, r.ancestors[0].id);
    assert_eq!(rec.operation, "replace_node");
    assert_eq!(rec.description, "Replace function_item instead of identifier");
    assert_eq!(rec.confidence, 90);
    assert_eq!(rec.example_usage, "replace_node(file, {\"type\":\"function_item\"}, new_content)");
    assert!(r.context_explanation.starts_with("🎯 Focus: identifier (structural)\n   Content: \"alpha\""));
}

#[test]
fn functions_are_recommended_by_name() {
    let source = "fn alpha() {}\n";
    let p = parse_source(LanguageName::Rust, source).unwrap();
    let t = read_tree(&p).unwrap();
    let c: Vec<char> = source.chars().collect();
    let off = byte_offsets(&c);
    let f = t.nodes.iter().position(|n| n.kind == "function_item").unwrap();
    let focus = ASTExplorer::analyze_node(&t, &c, &off, "rust", f);
    assert_eq!(focus.semantic_role.as_deref(), Some("Function Definition"));
    let types: Vec<&str> = focus.selector_options.iter().map(|o| o.selector_type.as_str()).collect();
    assert_eq!(types, vec!["type", "position", "name", "content", "query"]);
    let recs = ASTExplorer::generate_edit_recommendations(&focus, &Vec::new(), &Vec::new(), &Vec::new(), "rust");
    assert_eq!(recs.len(), 2);
    assert_eq!(recs[0].description, "Replace entire function");
    assert_eq!(recs[0].confidence, 95);
    assert_eq!(recs[1].description, "Replace function by name (safer)");
    assert_eq!(recs[1].confidence, 98);
    assert_eq!(recs[1].example_usage, "replace_node(file, {\"name\":\"alpha\"}, \"fn new_function() { ... }\")");
}

#[test]
fn long_texts_are_previewed_short() {
    let body = "x".repeat(200);
    let source = format!("fn alpha() {{ let s = \"{body}\"; }}\n");
    let p = parse_source(LanguageName::Rust, &source).unwrap();
    let t = read_tree(&p).unwrap();
    let c: Vec<char> = source.chars().collect();
    let off = byte_offsets(&c);
    let f = t.nodes.iter().position(|n| n.kind == "function_item").unwrap();
    let focus = ASTExplorer::analyze_node(&t, &c, &off, "rust", f);
    assert_eq!(focus.text_preview, format!("{}...", &source[..147]));
    let types: Vec<&str> = focus.selector_options.iter().map(|o| o.selector_type.as_str()).collect();
    assert_eq!(types, vec!["type", "position", "name", "query"]);
}

#[test]
fn markdown_and_json_kinds_have_their_recommendations() {
    let heading = info("atx_heading", EditSuitability::Excellent { reason: String::new() });
    let recs = ASTExplorer::generate_edit_recommendations(&heading, &Vec::new(), &Vec::new(), &Vec::new(), "markdown");
    let ops: Vec<&str> = recs.iter().map(|r| r.operation.as_str()).collect();
    assert_eq!(ops, vec!["replace_node", "insert_after_node"]);
    assert_eq!(recs[1].example_usage, "insert_after_node(file, {\"type\": \"atx_heading\"}, \"\\n\\nNew content\")");
    assert!(recs.iter().all(|r| r.target_node_id == 7));

    let object = info("object", EditSuitability::Excellent { reason: String::new() });
    let recs = ASTExplorer::generate_edit_recommendations(&object, &Vec::new(), &Vec::new(), &Vec::new(), "json");
    assert_eq!(recs.len(), 1);
    assert_eq!(recs[0].description, "Add property to JSON object");
    assert_eq!(recs[0].confidence, 85);

    let list = info("list", EditSuitability::Excellent { reason: String::new() });
    let recs = ASTExplorer::generate_edit_recommendations(&list, &Vec::new(), &Vec::new(), &Vec::new(), "rust");
    assert!(recs.is_empty());
}

#[test]
fn a_poor_focus_without_good_ancestors_gets_no_replacement() {
    let focus = info("identifier", ASTExplorer::assess_edit_suitability("rust", "identifier"));
    let ancestors = vec![info("(", ASTExplorer::assess_edit_suitability("rust", "("))];
    let recs = ASTExplorer::generate_edit_recommendations(&focus, &ancestors, &Vec::new(), &Vec::new(), "rust");
    assert!(recs.is_empty());
}

#[test]
fn selector_values_render_as_compact_json() {
    let name = SelectorValue::Name { name: "say \"hi\"\\\n\u{1}".to_string() };
    assert_eq!(name.to_json(), "{\"name\":\"say \\\"hi\\\"\\\\\\n\\u0001\"}");
    let position = SelectorValue::Position { line: 12, column: 4 };
    assert_eq!(position.to_json(), "{\"column\":4,\"line\":12}");
    let kind = SelectorValue::Type { kind: "function_item".to_string() };
    assert_eq!(kind.to_json(), "{\"type\":\"function_item\"}");
}
