use semantic_edit_mcp::languages::semantic_grouping::{
    calculate_insertion_range, calculate_replacement_range, find_semantic_group, GroupingRule,
};
use semantic_edit_mcp::languages::LanguageName;
use semantic_edit_mcp::syntax::{parse_source, read_tree, SyntaxTree};

fn tree(source: &str) -> SyntaxTree {
    read_tree(&parse_source(LanguageName::Rust, source).unwrap()).unwrap()
}

fn function_index(t: &SyntaxTree) -> usize {
    t.nodes.iter().position(|n| n.kind == "function_item").unwrap()
}

#[test]
fn attributes_join_the_function_group() {
    let source = "#[test]\n// note\nfn f() {}\n";
    let t = tree(source);
    let rules = vec![GroupingRule::new("function_item")
        .with_preceding_types(vec!["attribute_item", "line_comment"])
        .with_max_gap_nodes(1)];
    let f = function_index(&t);
    let g = find_semantic_group(&t, &rules, f);
    assert_eq!(g.preceding_nodes.len(), 2);
    assert!(g.has_preceding_elements());
    assert!(!g.has_following_elements());
    assert_eq!(g.byte_range(&t), (0, source.len() - 1));

    // A replacement that brings its own attributes replaces the whole group.
    assert_eq!(calculate_replacement_range(&t, &rules, f, true), (0, source.len() - 1));
    // One that does not keeps the old attributes.
    let fs = t.nodes[f].start;
    assert_eq!(calculate_replacement_range(&t, &rules, f, false), (fs, source.len() - 1));
    // Inserting before goes before the attributes.
    assert_eq!(calculate_insertion_range(&t, &rules, f, true), (0, 0));
    assert_eq!(
        calculate_insertion_range(&t, &rules, f, false),
        (source.len() - 1, source.len() - 1)
    );
}

#[test]
fn without_a_rule_a_node_stands_alone() {
    let source = "#[test]\nfn f() {}\n";
    let t = tree(source);
    let f = function_index(&t);
    let g = find_semantic_group(&t, &Vec::new(), f);
    assert_eq!(g.all_nodes(), vec![f]);
    assert_eq!(
        calculate_insertion_range(&t, &Vec::new(), f, true),
        (t.nodes[f].start, t.nodes[f].start)
    );
}

use semantic_edit_mcp::languages::rust::RustLanguage;

#[test]
fn test_rust_semantic_grouping() {
    let rust_code = r#"
// This is a comment about the function
#[derive(Debug)]
#[cfg(test)]
fn test_function() {
    println!("Hello world");
}

fn another_function() {
    println!("Another function");
}
"#;
    let rust_lang = RustLanguage::new().expect("Failed to create Rust language");
    let t = tree(rust_code);
    let rules = vec![GroupingRule::new("function_item")
        .with_preceding_types(vec!["attribute_item", "line_comment"])
        .with_max_gap_nodes(1)];
    let function_node = function_index(&t);

    let group = find_semantic_group(&t, &rules, function_node);

    let replacement_with_attributes = "#[test]\nfn new_function() { }";
    let replacement_without_attributes = "fn new_function() { }";

    let range_with_attrs = calculate_replacement_range(
        &t,
        &rules,
        function_node,
        rust_lang.replacement_has_preceding_elements(replacement_with_attributes),
    );
    let range_without_attrs = calculate_replacement_range(
        &t,
        &rules,
        function_node,
        rust_lang.replacement_has_preceding_elements(replacement_without_attributes),
    );

    if group.has_preceding_elements() {
        let group_range = group.byte_range(&t);
        assert_eq!(range_with_attrs, group_range, "With attributes should replace whole group");
        assert_eq!(
            range_without_attrs,
            (t.nodes[function_node].start, t.nodes[function_node].end),
            "Without attributes should preserve preceding elements"
        );
    }
}
