//! A one-slot store for the operation that is waiting to be committed.
use vstd::prelude::*;
use crate::operations::edit_operation::EditOperation;
use crate::operations::selector::Selector;

verus! {

/// An operation staged for a file in a language, to be previewed and
/// committed later.
#[derive(Debug, Clone)]
pub struct StagedOperation {
    pub operation: EditOperation,
    pub file_path: String,
    pub language_name: String,
}

impl Selector {
    /// A copy of this selector.
    pub fn copy(&self) -> (s: Selector)
        ensures
            s == *self,
    {
        match self {
            Selector::Insert { anchor, position } => Selector::Insert { anchor: anchor.clone(), position: *position },
            Selector::Replace { anchor } => Selector::Replace { anchor: anchor.clone() },
        }
    }
}

impl StagedOperation {
    /// A copy of this staged operation.
    pub fn copy(&self) -> (s: StagedOperation)
        ensures
            s == *self,
    {
        StagedOperation {
            operation: EditOperation {
                selector: self.operation.selector.copy(),
                content: self.operation.content.clone(),
            },
            file_path: self.file_path.clone(),
            language_name: self.language_name.clone(),
        }
    }
}

/// Holds at most one staged operation; staging again replaces it.
#[derive(Debug, Clone)]
pub struct StagingStore {
    staged_operation: Option<StagedOperation>,
}

impl StagingStore {
    /// What the store holds.
    pub closed spec fn staged(&self) -> Option<StagedOperation> {
        self.staged_operation
    }

    /// An empty store.
    pub fn new() -> (s: Self)
        ensures
            s.staged() is None,
    {
        StagingStore { staged_operation: None }
    }

    /// Stage an operation, replacing any that was staged.
    pub fn stage(&mut self, staged_operation: StagedOperation)
        ensures
            final(self).staged() == Some(staged_operation),
    {
        self.staged_operation = Some(staged_operation);
    }

    /// A copy of the staged operation, if any; the store keeps it.
    pub fn get_staged_operation(&self) -> (r: Option<StagedOperation>)
        ensures
            r == self.staged(),
    {
        match &self.staged_operation {
            Some(op) => Some(op.copy()),
            None => None,
        }
    }

    /// The staged operation, removed from the store.
    pub fn take_staged_operation(&mut self) -> (r: Option<StagedOperation>)
        ensures
            r == old(self).staged(),
            final(self).staged() is None,
    {
        self.staged_operation.take()
    }

    /// Whether an operation is staged.
    pub fn has_staged_operation(&self) -> (b: bool)
        ensures
            b == self.staged() is Some,
    {
        self.staged_operation.is_some()
    }
}

impl Default for StagingStore {
    fn default() -> (s: Self)
        ensures
            s.staged() is None,
    {
        Self::new()
    }
}

} // verus!
