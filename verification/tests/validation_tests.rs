use semantic_edit_mcp::languages::LanguageName;
use semantic_edit_mcp::operations::validation::check_structural_warning;
use semantic_edit_mcp::selector::Operation;
use semantic_edit_mcp::syntax::{parse_source, read_tree, SyntaxTree};

fn tree(source: &str) -> SyntaxTree {
    read_tree(&parse_source(LanguageName::Rust, source).unwrap()).unwrap()
}

fn index(t: &SyntaxTree, kind: &str) -> usize {
    t.nodes.iter().position(|n| n.kind == kind).unwrap()
}

#[test]
fn containers_warn_on_insert_after_and_replace() {
    let t = tree("struct S;\nimpl S {\n    fn m(&self) {}\n}\n");
    let s = index(&t, "struct_item");
    let i = index(&t, "impl_item");
    let m = index(&t, "function_item");
    assert!(check_structural_warning(Operation::InsertAfter, &t, s).unwrap().contains("OUTSIDE the container"));
    assert!(check_structural_warning(Operation::Replace, &t, i).unwrap().contains("remove all its contents"));
    // A method's parent is the impl's declaration list, not the impl itself.
    assert_eq!(t.nodes[t.nodes[m].parent.unwrap()].kind, "declaration_list");
    assert_eq!(check_structural_warning(Operation::InsertAfter, &t, m), None);
    let b = index(&t, "block");
    assert!(check_structural_warning(Operation::InsertAfter, &t, b).unwrap().contains("outside the block scope"));
    assert_eq!(check_structural_warning(Operation::InsertBefore, &t, s), None);
    assert_eq!(check_structural_warning(Operation::Replace, &t, m), None);
}
