//! The editor for languages with no rules of their own.
use vstd::prelude::*;

verus! {

/// Edits a language with the defaults: candidates exactly as the selector
/// finds them, and no formatter.
#[derive(Debug, Clone)]
pub struct DefaultEditor;

impl DefaultEditor {
    /// The default editor.
    pub fn new() -> (e: Self) {
        DefaultEditor
    }

    /// The code as it is: there is no formatter.
    pub fn format_code(&self, source: &str) -> (r: Result<String, String>)
        ensures
            r matches Ok(s) && s@ == source@,
    {
        Ok(source.to_owned())
    }
}

impl Default for DefaultEditor {
    fn default() -> (e: Self) {
        DefaultEditor::new()
    }
}

} // verus!
