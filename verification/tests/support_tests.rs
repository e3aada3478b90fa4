use semantic_edit_mcp::education::{prefix_tip, EducationState, PREFIX_TIP_CADENCE, PREFIX_TIP_MAX_EMISSIONS};
use semantic_edit_mcp::indentation::Indentation;
use semantic_edit_mcp::languages::rust::{edition_walk_step, EditionWalk};
use semantic_edit_mcp::languages::{detect_language_from_path, language_with_hint, LanguageName};

#[test]
fn the_tip_comes_every_few_edits_and_stops() {
    let mut s = EducationState::new();
    let mut shown = 0;
    for _ in 0..100 {
        if s.prefix_tip_due() {
            s.record_prefix_tip_emitted();
            shown += 1;
        }
        s.record_success();
    }
    assert_eq!(shown, PREFIX_TIP_MAX_EMISSIONS);
    let mut t = EducationState::new();
    for _ in 0..(PREFIX_TIP_CADENCE - 1) {
        assert!(!t.prefix_tip_due());
        t.record_success();
    }
    assert!(t.prefix_tip_due());
}

#[test]
fn the_tip_quotes_the_shorter_anchor() {
    let tip = prefix_tip("fn a");
    assert!(tip.starts_with("===TIP==="), "{tip}");
    assert!(tip.contains("anchor: \"fn a\""), "{tip}");
}

#[test]
fn indentation_is_detected_and_applied() {
    assert_eq!(Indentation::determine("fn a() {\n    x\n}\n"), Some(Indentation::Spaces(4)));
    assert_eq!(Indentation::determine("a\n\tb\n"), Some(Indentation::Tabs));
    assert_eq!(Indentation::determine("a\nb\n"), None);
    let mut content = "x\n  y".to_string();
    Indentation::Spaces(4).reindent(1, &mut content, true);
    assert_eq!(content, "    x\n        y");
    assert_eq!(Indentation::Spaces(4).minimum("        a\n    b\n"), 1);
    assert_eq!(Indentation::Spaces(2).unit_count("     x"), 3);
}

#[test]
fn reindenting_changes_only_whitespace() {
    let mut content = "if a:\n  b\n    c".to_string();
    Indentation::Spaces(4).reindent(2, &mut content, false);
    let squeeze = |s: &str| s.chars().filter(|c| !c.is_whitespace()).collect::<String>();
    assert_eq!(squeeze(&content), squeeze("if a:\n  b\n    c"));
}

#[test]
fn languages_from_paths() {
    assert_eq!(detect_language_from_path("src/main.rs"), Some(LanguageName::Rust));
    assert_eq!(detect_language_from_path("x.pyi"), Some(LanguageName::Python));
    assert_eq!(detect_language_from_path("README"), None);
    assert_eq!(language_with_hint("notes.txt", None), LanguageName::Other);
    assert_eq!(language_with_hint("notes.txt", Some(LanguageName::Json)), LanguageName::Json);
}

#[test]
fn the_edition_walk_defers_to_the_workspace() {
    match edition_walk_step(false, Some("[package]\nedition = { workspace = true }\n")) {
        EditionWalk::Continue(true) => {}
        other => panic!("{other:?}"),
    }
    match edition_walk_step(true, Some("[workspace.package]\nedition = \"2021\"\n")) {
        EditionWalk::Found(e) => assert_eq!(e, "2021"),
        other => panic!("{other:?}"),
    }
    match edition_walk_step(true, None) {
        EditionWalk::Continue(true) => {}
        other => panic!("{other:?}"),
    }
}

#[test]
fn a_style_displays_as_its_units() {
    assert_eq!(Indentation::Spaces(2).text(1), "  ");
    assert_eq!(Indentation::Tabs.text(3), "\t\t\t");
    assert_eq!(Indentation::Spaces(4).text(0), "");
}

#[test]
fn reindenting_keeps_relative_depth() {
    let mut content = "    a\n        b\n    c\n".to_string();
    Indentation::Spaces(2).reindent(1, &mut content, true);
    assert_eq!(content, "  a\n    b\n  c\n");
}

#[test]
fn reindenting_after_the_first_line_leaves_it_alone() {
    let mut content = "if x:\n        y\n        z".to_string();
    Indentation::Tabs.reindent(1, &mut content, false);
    assert_eq!(content, "if x:\n\ty\n\tz");
    let mut single = "  only".to_string();
    Indentation::Tabs.reindent(3, &mut single, false);
    assert_eq!(single, "  only");
}

#[test]
fn the_parser_names_languages_by_extension() {
    assert_eq!(semantic_edit_mcp::parsers::detect_language_from_path("src/lib.rs"), Some("rust".to_string()));
    assert_eq!(semantic_edit_mcp::parsers::detect_language_from_path("app.tsx"), Some("typescript".to_string()));
    assert_eq!(semantic_edit_mcp::parsers::detect_language_from_path("app.jsx"), Some("javascript".to_string()));
    assert_eq!(semantic_edit_mcp::parsers::detect_language_from_path("tool.py"), Some("python".to_string()));
    assert_eq!(semantic_edit_mcp::parsers::detect_language_from_path("Cargo.toml"), None);
    assert_eq!(semantic_edit_mcp::parsers::detect_language_from_path("README"), None);
}

#[test]
fn extensions_name_languages() {
    assert_eq!(semantic_edit_mcp::languages::language_for_extension(Some("pyi")), Some(LanguageName::Python));
    assert_eq!(semantic_edit_mcp::languages::language_for_extension(Some("md")), None);
    assert_eq!(semantic_edit_mcp::languages::language_for_extension(None), None);
    assert_eq!(
        semantic_edit_mcp::parsers::parser_language_for_extension(Some("jsx")),
        Some("javascript".to_string())
    );
}
