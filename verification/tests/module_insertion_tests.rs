use semantic_edit_mcp::languages::LanguageName;
use semantic_edit_mcp::operations::module_insertion::{insert_in_module, ModuleInsertion, ModuleTarget};
use semantic_edit_mcp::syntax::{parse_source, read_tree, SyntaxTree};

fn tree(source: &str) -> SyntaxTree {
    read_tree(&parse_source(LanguageName::Rust, source).unwrap()).unwrap()
}

#[test]
fn at_the_start_content_follows_the_last_use() {
    let source = "use a::b;\nuse c::d;\n\nfn f() {}\n";
    match insert_in_module(&tree(source), source, "X", "start") {
        ModuleInsertion::InsertAfter { target: ModuleTarget::Query(q), content } => {
            assert_eq!(q, "(use_declaration) @target");
            assert_eq!(content, "\nX");
        }
        other => panic!("{other:?}"),
    }
}

#[test]
fn at_the_start_without_uses_content_precedes_the_first_item() {
    let source = "fn f() {}\nstruct S;\n";
    match insert_in_module(&tree(source), source, "X", "start") {
        ModuleInsertion::InsertBefore { target: ModuleTarget::Query(q), content } => {
            assert!(q.contains("(source_file"), "{q}");
            assert!(q.contains("(trait_item) @item"), "{q}");
            assert_eq!(content, "X\n\n");
        }
        other => panic!("{other:?}"),
    }
}

#[test]
fn at_the_end_content_follows_the_last_item_by_name() {
    let source = "use a::b;\n\nfn first() {}\n\nfn last() {}\n";
    match insert_in_module(&tree(source), source, "X", "end") {
        ModuleInsertion::InsertAfter { target: ModuleTarget::Name { node_type, name }, content } => {
            assert_eq!(node_type, "function_item");
            assert_eq!(name, "last");
            assert_eq!(content, "\nX");
        }
        other => panic!("{other:?}"),
    }
    let source = "struct S;\nimpl S {}\n";
    match insert_in_module(&tree(source), source, "X", "end") {
        ModuleInsertion::InsertAfter { target: ModuleTarget::Query(q), .. } => assert_eq!(q, "(impl_item) @target"),
        other => panic!("{other:?}"),
    }
}

#[test]
fn a_module_without_items_gets_the_content_appended() {
    let source = "// only a comment\n\n";
    match insert_in_module(&tree(source), source, "X", "end") {
        ModuleInsertion::Append { new_content } => assert_eq!(new_content, "// only a comment\n\nX"),
        other => panic!("{other:?}"),
    }
    match insert_in_module(&tree("  \n"), "  \n", "X", "end") {
        ModuleInsertion::Append { new_content } => assert_eq!(new_content, "X"),
        other => panic!("{other:?}"),
    }
    match insert_in_module(&tree(source), source, "X", "start") {
        ModuleInsertion::InsertAfter { target: ModuleTarget::Query(q), content } => {
            assert_eq!(q, "(source_file) @root");
            assert_eq!(content, "X");
        }
        other => panic!("{other:?}"),
    }
}
