//! Editors that place content relative to a selected syntax node.
pub mod rust;
