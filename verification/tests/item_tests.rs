use semantic_edit_mcp::item::{resolve, ItemRef, ResolvedItem};
use semantic_edit_mcp::languages::LanguageName;
use semantic_edit_mcp::syntax::{parse_source, read_tree};
use semantic_edit_mcp::text::byte_offsets;

const SOURCE: &str = "\
fn alpha() {}

/// Prose still streams as before, and is typed as prose.
#[test]
fn prose_still_reaches_the_sink_as_text() {
    // ...
}

fn omega() {}
";

fn item(kind: &str, name: &str) -> ItemRef {
    ItemRef {
        kind: kind.into(),
        name: name.into(),
    }
}

fn resolve_in(source: &str, reference: &ItemRef) -> Result<ResolvedItem, String> {
    let parsed = parse_source(LanguageName::Rust, source).expect("parses");
    let tree = read_tree(&parsed).expect("reads");
    let chars: Vec<char> = source.chars().collect();
    let offsets = byte_offsets(&chars);
    resolve(&tree, &chars, &offsets, reference)
}

#[test]
fn an_item_resolves_together_with_its_doc_comment_and_attributes() {
    let resolved = resolve_in(SOURCE, &item("function", "prose_still_reaches_the_sink_as_text")).unwrap();
    assert_eq!(resolved.decorations, 2);
    assert!(
        SOURCE[resolved.start..].starts_with("/// Prose still streams"),
        "{:?}",
        &SOURCE[resolved.start..resolved.start + 20]
    );
    assert!(SOURCE[..resolved.end].ends_with('}'));
    assert_eq!(resolved.description, "function `prose_still_reaches_the_sink_as_text`");
    assert_eq!(resolved.lines, (3, 7));
}

#[test]
fn the_neighbors_on_each_side_are_reported() {
    let resolved = resolve_in(SOURCE, &item("function", "prose_still_reaches_the_sink_as_text")).unwrap();
    assert_eq!(resolved.previous.as_deref(), Some("function `alpha`"));
    assert_eq!(resolved.next.as_deref(), Some("function `omega`"));
}

#[test]
fn a_blank_line_ends_the_decoration_run() {
    let source = "// section header\n\n/// docs\nfn alpha() {}\n";
    let resolved = resolve_in(source, &item("function", "alpha")).unwrap();
    assert_eq!(resolved.decorations, 1);
    assert!(source[resolved.start..].starts_with("/// docs"));
}

#[test]
fn kind_spellings_are_reconciled() {
    for kind in ["function", "fn", "function_item"] {
        assert!(resolve_in(SOURCE, &item(kind, "alpha")).is_ok(), "{kind}");
    }
    assert!(resolve_in(SOURCE, &item("struct", "alpha")).is_err());
}

#[test]
fn an_unresolved_reference_lists_what_exists() {
    let error = resolve_in(SOURCE, &item("function", "nope")).unwrap_err();
    assert!(error.contains("function `alpha`"), "{error}");
    assert!(error.contains("was not modified"), "{error}");

    let error = resolve_in(SOURCE, &item("struct", "alpha")).unwrap_err();
    assert!(
        error.contains("that name is declared as: function `alpha`"),
        "{error}"
    );
}

#[test]
fn an_ambiguous_reference_refuses() {
    let source = "mod a {\n    fn dup() {}\n}\nmod b {\n    fn dup() {}\n}\n";
    let error = resolve_in(source, &item("function", "dup")).unwrap_err();
    assert!(error.contains("2 items"), "{error}");
    assert!(error.contains("anchor"), "{error}");
}

#[test]
fn items_inside_a_scope_are_reachable() {
    let source = "struct S;\nimpl S {\n    /// docs\n    fn method(&self) {}\n}\n";
    let resolved = resolve_in(source, &item("function", "method")).unwrap();
    assert_eq!(resolved.decorations, 1);
    assert_eq!(resolved.previous, None, "first item in the impl body");
}

#[test]
fn the_cli_spelling_is_kind_colon_name() {
    assert_eq!(
        "function:alpha".parse::<ItemRef>().unwrap(),
        item("function", "alpha")
    );
    assert!("alpha".parse::<ItemRef>().is_err());
    assert!(":alpha".parse::<ItemRef>().is_err());
}

#[test]
fn an_item_reference_describes_itself() {
    assert_eq!(item("function", "alpha").describe(), "function `alpha`");
}
