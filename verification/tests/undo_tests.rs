use semantic_edit_mcp::editor::edit::Edit;
use semantic_edit_mcp::editor::engine::{same_edit, Editor};
use semantic_edit_mcp::editor::EditPosition;
use semantic_edit_mcp::languages::LanguageName;
use semantic_edit_mcp::selector::{Operation, Selector};
use semantic_edit_mcp::state::{plan_retarget, plan_undo, repeats_last_insert, AppliedEdit, StagedOperation, UndoPlan};

fn record() -> AppliedEdit {
    let editor = Editor::from_source(
        "fn b() {}".to_string(),
        Selector { operation: Operation::InsertAfter, anchor: Some("fn a() {}".to_string()), item: None },
        LanguageName::Rust,
        "src/lib.rs".to_string(),
        "fn a() {}\n".to_string(),
    )
    .unwrap();
    editor.applied_record("fn a() {}\nfn b() {}\n".to_string())
}

#[test]
fn the_record_keeps_both_texts() {
    let r = record();
    assert_eq!(r.pre_edit_source, "fn a() {}\n");
    assert_eq!(r.post_edit_source, "fn a() {}\nfn b() {}\n");
    assert_eq!(r.operation.file_path, "src/lib.rs");
    assert_eq!(r.operation.content, "fn b() {}");
    assert_eq!(r.operation.language_name, LanguageName::Rust);
}

#[test]
fn undo_restores_the_prior_text() {
    let plan = plan_undo(&Some(record()), "fn a() {}\nfn b() {}\n");
    match &plan {
        UndoPlan::Restore { file_path, content } => {
            assert_eq!(file_path, "src/lib.rs");
            assert_eq!(content, "fn a() {}\n");
        }
        other => panic!("{other:?}"),
    }
    assert_eq!(plan.message(), "Reverted the last edit to src/lib.rs.");
}

#[test]
fn undo_leaves_a_changed_file_alone() {
    let plan = plan_undo(&Some(record()), "something else\n");
    assert!(matches!(plan, UndoPlan::FileChanged));
    assert_eq!(plan.message(), "The file has changed since the last edit, so it was not reverted.");
    let plan = plan_undo(&None, "");
    assert!(matches!(plan, UndoPlan::NothingToUndo));
    assert_eq!(plan.message(), "There is no edit to undo.");
}

#[test]
fn retargeting_runs_against_the_prior_text() {
    assert_eq!(plan_retarget(&Some(record()), "fn a() {}\nfn b() {}\n").unwrap(), "fn a() {}\n");
    assert_eq!(
        plan_retarget(&Some(record()), "x").unwrap_err(),
        "The file has changed since the last edit, so it cannot be retargeted."
    );
    assert_eq!(plan_retarget(&None, "x").unwrap_err(), "There is no previous edit to retarget.");
}

#[test]
fn a_repeated_insert_is_noticed() {
    let previous = Some(StagedOperation {
        selector: Selector { operation: Operation::InsertAfter, anchor: Some("x".to_string()), item: None },
        content: "fn b() {}".to_string(),
        file_path: "src/lib.rs".to_string(),
        language_name: LanguageName::Rust,
        edit_position: None,
    });
    assert!(repeats_last_insert(&previous, "src/lib.rs", "fn b() {}", Operation::InsertBefore));
    assert!(!repeats_last_insert(&previous, "src/lib.rs", "fn b() {}", Operation::Replace));
    assert!(!repeats_last_insert(&previous, "src/main.rs", "fn b() {}", Operation::InsertAfter));
    assert!(!repeats_last_insert(&None, "src/lib.rs", "fn b() {}", Operation::InsertAfter));
}

#[test]
fn a_shorter_anchor_must_do_the_same_edit() {
    let m = "header\n===DIFF===\n+x";
    assert!(same_edit("out", m, Some("out"), "other header\n===DIFF===\n+x"));
    assert!(!same_edit("out", m, Some("different"), m));
    assert!(!same_edit("out", m, None, m));
    assert!(!same_edit("out", m, Some("out"), "===DIFF===\n+y"));
}

#[test]
fn an_edit_can_be_given_an_end() {
    let e = Edit {
        position: EditPosition { start_byte: 3, end_byte: None },
        content: "x".to_string(),
        anchor_hit: None,
        nodes: None,
        annotation: None,
    };
    let e = e.with_end_byte(7);
    assert_eq!(e.position.start_byte, 3);
    assert_eq!(e.position.end_byte, Some(7));
    assert_eq!(e.content, "x");
}
