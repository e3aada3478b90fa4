use semantic_edit_mcp::languages::rust::RustLanguage;
use semantic_edit_mcp::languages::semantic_grouping::GroupingRule;

#[test]
fn test_grouping_rule_builder() {
    let rule = GroupingRule::new("function_item")
        .with_preceding_types(vec!["attribute_item", "line_comment"])
        .with_following_types(vec!["block_comment"])
        .with_max_gap_nodes(2)
        .allow_non_consecutive();

    assert_eq!(rule.target_node_type, "function_item");
    assert_eq!(
        rule.preceding_node_types,
        vec!["attribute_item", "line_comment"]
    );
    assert_eq!(rule.following_node_types, vec!["block_comment"]);
    assert_eq!(rule.max_gap_nodes, 2);
    assert!(!rule.require_consecutive);
}

#[test]
fn test_grouping_rule_creation() {
    let rule = GroupingRule::new("function_item")
        .with_preceding_types(vec!["attribute_item", "line_comment"])
        .with_max_gap_nodes(2);

    assert_eq!(rule.target_node_type, "function_item");
    assert_eq!(
        rule.preceding_node_types,
        vec!["attribute_item", "line_comment"]
    );
    assert_eq!(rule.max_gap_nodes, 2);
    assert!(rule.require_consecutive);
}

#[test]
fn test_replacement_content_detection() {
    let rust_lang = RustLanguage::new().expect("Failed to create Rust language");

    // Test detection of attributes
    assert!(rust_lang.replacement_has_preceding_elements("#[derive(Debug)]\nfn test() {}"));
    assert!(rust_lang.replacement_has_preceding_elements("  #[test]  \nfn test() {}"));

    // Test detection of comments
    assert!(rust_lang.replacement_has_preceding_elements("// Comment\nfn test() {}"));
    assert!(rust_lang.replacement_has_preceding_elements("/* Block comment */\nfn test() {}"));

    // Test non-matching content
    assert!(!rust_lang.replacement_has_preceding_elements("fn test() {}"));
    assert!(!rust_lang.replacement_has_preceding_elements("  fn test() {}"));
    assert!(!rust_lang.replacement_has_preceding_elements("pub fn test() {}"));
}
