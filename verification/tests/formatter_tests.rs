use semantic_edit_mcp::languages::formatter::formatter_command;
use semantic_edit_mcp::languages::LanguageName;

#[test]
fn each_language_has_its_formatter() {
    let rust = formatter_command(LanguageName::Rust, "fn a() {}", "a.rs", "2021").unwrap();
    assert_eq!(rust.program, "rustfmt");
    assert_eq!(rust.args, vec!["--emit", "stdout", "--edition", "2021"]);
    let py = formatter_command(LanguageName::Python, "x = 1", "a.py", "2015").unwrap();
    assert_eq!(py.program, "ruff");
    assert_eq!(py.args, vec!["format", "-"]);
    assert!(formatter_command(LanguageName::Toml, "a = 1", "a.toml", "2015").is_none());
    assert!(formatter_command(LanguageName::Other, "x", "a.txt", "2015").is_none());
}

#[test]
fn biome_keeps_the_file_indentation() {
    let js = formatter_command(LanguageName::Javascript, "if (a) {\n    b();\n}\n", "a.js", "2015").unwrap();
    assert_eq!(js.program, "biome");
    assert_eq!(
        js.args,
        vec!["format", "--stdin-file-path=a.js", "--diagnostic-level=error", "--indent-style=space", "--indent-width=4"]
    );
    let tabs = formatter_command(LanguageName::Json, "{\n\t\"a\": 1\n}\n", "a.json", "2015").unwrap();
    assert_eq!(tabs.args.last().map(String::as_str), Some("--indent-style=tab"));
    let flat = formatter_command(LanguageName::Tsx, "a", "a.tsx", "2015").unwrap();
    assert_eq!(flat.args[3..], ["--indent-style=space".to_string(), "--indent-width=2".to_string()]);
}
