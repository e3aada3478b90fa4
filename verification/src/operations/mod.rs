//! Text-anchored edit operations and node selection.
pub mod edit_operation;
pub mod selector;
pub mod node_selector;
pub mod module_insertion;
pub mod validation;
