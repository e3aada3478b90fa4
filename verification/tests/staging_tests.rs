use semantic_edit_mcp::operations::edit_operation::EditOperation;
use semantic_edit_mcp::operations::selector::Selector;
use semantic_edit_mcp::staging::{StagedOperation, StagingStore};

fn op(content: &str) -> StagedOperation {
    StagedOperation {
        operation: EditOperation::new(Selector::Replace { anchor: "a".to_string() }, content.to_string()),
        file_path: "f.rs".to_string(),
        language_name: "rust".to_string(),
    }
}

#[test]
fn staging_replaces_and_taking_empties() {
    let mut store = StagingStore::new();
    assert!(!store.has_staged_operation());
    store.stage(op("one"));
    store.stage(op("two"));
    assert!(store.has_staged_operation());
    assert_eq!(store.get_staged_operation().unwrap().operation.content, "two");
    assert!(store.has_staged_operation());
    let taken = store.take_staged_operation().unwrap();
    assert_eq!(taken.operation.content, "two");
    assert_eq!(taken.file_path, "f.rs");
    assert!(!store.has_staged_operation());
    assert!(store.take_staged_operation().is_none());
}
