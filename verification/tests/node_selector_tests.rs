use semantic_edit_mcp::languages::LanguageName;
use semantic_edit_mcp::operations::selector::NodeSelector;
use semantic_edit_mcp::syntax::{parse_source, read_tree, ParsedSource, SyntaxTree};

fn parsed(source: &str) -> (ParsedSource, SyntaxTree) {
    let p = parse_source(LanguageName::Rust, source).unwrap();
    let t = read_tree(&p).unwrap();
    (p, t)
}

fn selector(anchor: &str, ancestor: Option<&str>) -> NodeSelector {
    NodeSelector {
        position: None,
        anchor_text: anchor.to_string(),
        ancestor_node_type: ancestor.map(|s| s.to_string()),
    }
}

const SOURCE: &str = "fn main() {\n    let x = 1;\n}\n";

#[test]
fn the_requested_ancestor_is_selected() {
    let (p, t) = parsed(SOURCE);
    let n = selector("let x", Some("let_declaration")).find_node(&p, &t).unwrap();
    assert_eq!(t.nodes[n].kind, "let_declaration");
    assert_eq!(&SOURCE[t.nodes[n].start..t.nodes[n].end], "let x = 1;");
    let f = selector("let x", Some("function_item")).find_node_with_suggestions(&p, &t).unwrap();
    assert_eq!(t.nodes[f].kind, "function_item");
    assert_eq!(t.nodes[f].start, 0);
}

#[test]
fn a_missing_anchor_is_reported() {
    let (p, t) = parsed(SOURCE);
    let e = selector("zzz", Some("function_item")).find_node(&p, &t).unwrap_err();
    assert_eq!(e, "anchor_text \"zzz\" not found in file");
}

#[test]
fn without_a_type_the_options_are_explored() {
    let (p, t) = parsed(SOURCE);
    let e = selector("let x", None).find_node(&p, &t).unwrap_err();
    assert!(
        e.starts_with("🔍 **Exploration Mode**: Found anchor_text \"let x\" at 1 location(s)\n\n**1. Location 2:5**\n"),
        "{e}"
    );
    assert!(e.contains("   Available ancestor_node_type options:\n"), "{e}");
    assert!(e.contains("-> EXAMPLE SELECTOR: {\"anchor_text\": \"let x\", \"ancestor_node_type\": \"let_declaration\"}"), "{e}");
    assert!(e.ends_with("otherwise stage a different edit\n"), "{e}");
}

#[test]
fn a_type_no_occurrence_has_is_reported_with_a_suggestion() {
    let (p, t) = parsed(SOURCE);
    let e = selector("let x", Some("Function_Item")).find_node(&p, &t).unwrap_err();
    assert!(
        e.starts_with("Error: anchor_text \"let x\" appears 1 time(s) but no instances have ancestor \"Function_Item\"\n"),
        "{e}"
    );
    assert!(e.contains("\n- Occurence 1: "), "{e}");
    assert!(e.contains("Available ancestors: let_declaration, block, function_item, source_file"), "{e}");
    assert!(e.ends_with("\nSuggestion: Try ancestor_node_type \"function_item\" instead"), "{e}");
}

#[test]
fn several_ancestors_are_ambiguous() {
    let source = "fn a() { let x = 1; }\nfn b() { let x = 2; }\n";
    let (p, t) = parsed(source);
    let e = selector("let x", Some("function_item")).find_node(&p, &t).unwrap_err();
    assert!(
        e.starts_with("anchor_text `let x` with ancestor_node_type `function_item` matches 2 nodes\nOccurrences:\n"),
        "{e}"
    );
    assert!(e.contains("fn a() { let x = 1; }\n\n"), "{e}");
    assert!(e.ends_with("-> use the open_file tool if you have not yet done so"), "{e}");
}

#[test]
fn one_ancestor_reached_twice_is_not_ambiguous() {
    let source = "fn a() { let x = 1; let x = 2; }\n";
    let (p, t) = parsed(source);
    let f = selector("let x", Some("function_item")).find_node(&p, &t).unwrap();
    assert_eq!(t.nodes[f].kind, "function_item");
}
