use semantic_edit_mcp::languages::rust::{clamp_edition, edition_in_manifest, resolve_edition, ManifestEdition};

#[test]
fn explicit_edition() {
    assert_eq!(
        edition_in_manifest("[package]\nname = \"x\"\nedition = \"2018\"\n"),
        ManifestEdition::Edition("2018".into())
    );
}

#[test]
fn missing_edition_defaults_to_2015() {
    assert_eq!(
        edition_in_manifest("[package]\nname = \"x\"\n"),
        ManifestEdition::Edition("2015".into())
    );
}

#[test]
fn workspace_inheritance_satisfied_in_same_file() {
    let manifest = "[package]\nname = \"x\"\nedition.workspace = true\n\n\
                    [workspace.package]\nedition = \"2021\"\n";
    assert_eq!(
        edition_in_manifest(manifest),
        ManifestEdition::Edition("2021".into())
    );
}

#[test]
fn workspace_inheritance_deferred_upwards() {
    assert_eq!(
        edition_in_manifest("[package]\nname = \"x\"\nedition = { workspace = true }\n"),
        ManifestEdition::InheritFromAbove
    );
}

#[test]
fn virtual_manifest_is_unknown() {
    assert_eq!(
        edition_in_manifest("[workspace]\nmembers = []\n"),
        ManifestEdition::Unknown
    );
}

#[test]
fn clamp_rejects_unknown_editions() {
    assert_eq!(clamp_edition("2021"), Some("2021"));
    assert_eq!(clamp_edition("2030"), None);
    assert_eq!(clamp_edition(""), None);
}

#[test]
fn every_known_edition_is_kept() {
    for e in ["2015", "2018", "2021", "2024"] {
        assert_eq!(clamp_edition(e), Some(e));
    }
}

#[test]
fn the_walk_takes_the_nearest_settling_manifest() {
    let manifests = vec![
        None,
        Some("[package]\nname = \"x\"\nedition = \"2018\"\n".to_string()),
        Some("[package]\nname = \"y\"\nedition = \"2021\"\n".to_string()),
    ];
    assert_eq!(resolve_edition(&manifests), Some("2018".to_string()));
}

#[test]
fn a_deferring_walk_reads_only_workspace_editions() {
    let manifests = vec![
        Some("[package]\nname = \"x\"\nedition = { workspace = true }\n".to_string()),
        Some("[package]\nname = \"mid\"\nedition = \"2018\"\n".to_string()),
        Some("[workspace]\nmembers = []\n[workspace.package]\nedition = \"2021\"\n".to_string()),
    ];
    assert_eq!(resolve_edition(&manifests), Some("2021".to_string()));
    assert_eq!(resolve_edition(&vec![None, None]), None);
}

#[test]
fn a_file_in_a_crate_takes_its_manifest_edition() {
    let manifests = vec![
        None,
        None,
        Some("[package]\nname = \"semantic-edit-mcp\"\nversion = \"0.1.0\"\nedition = \"2024\"\n".to_string()),
    ];
    let found = resolve_edition(&manifests);
    assert_eq!(found, Some("2024".to_string()));
    assert_eq!(semantic_edit_mcp::languages::rust::rust_edition_from(found.as_deref()), "2024");
}

#[test]
fn with_no_manifest_the_default_edition_applies() {
    let found = resolve_edition(&vec![None, None, None, None]);
    assert_eq!(found, None);
    assert_eq!(semantic_edit_mcp::languages::rust::rust_edition_from(found.as_deref()), "2024");
}
