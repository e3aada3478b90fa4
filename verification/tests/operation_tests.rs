use semantic_edit_mcp::operations::edit_operation::EditOperation;
use semantic_edit_mcp::operations::selector::{InsertPosition, Selector};

#[test]
fn test_retargeting() {
    let mut operation = EditOperation::new(
        Selector::Insert {
            anchor: "fn main()".to_string(),
            position: InsertPosition::Before,
        },
        "// Comment\n".to_string(),
    );

    // Original target
    assert_eq!(operation.operation_name(), "Insert");

    // Retarget to a different location
    operation.retarget(Selector::Insert {
        anchor: "fn test()".to_string(),
        position: InsertPosition::After,
    });

    // Content stays the same, but selector changes
    assert_eq!(operation.content(), "// Comment\n");
    match &operation.selector {
        Selector::Insert { anchor, position } => {
            assert_eq!(anchor, "fn test()");
            assert!(matches!(position, InsertPosition::After));
        }
        _ => panic!("Expected insert selector"),
    }
}
