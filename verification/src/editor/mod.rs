//! Running an edit: locating candidate placements, applying them, and
//! reporting what changed.
use vstd::prelude::*;

pub mod anchor;
pub mod diff;
pub mod edit;
pub mod edit_iterator;
pub mod engine;
pub mod report;

verus! {

/// Where an edit goes in the source: a byte range to replace, or a single
/// byte offset to insert at (`end_byte` is `None`).
#[derive(Debug, Clone, Copy, PartialEq, Eq, Structural)]
pub struct EditPosition {
    pub start_byte: usize,
    pub end_byte: Option<usize>,
}

} // verus!
