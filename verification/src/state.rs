//! Per-session state: the staged edit and the teaching progress, and the
//! shared working-directory context.
use vstd::prelude::*;
use crate::editor::EditPosition;
use crate::education::EducationState;
use crate::languages::LanguageName;
use crate::selector::{Operation, Selector};
use crate::item::chars_equal;
use crate::text::{chars_of, push_str};

verus! {

/// Context shared across tools: the current working directory.
#[derive(Debug, Clone)]
pub struct SharedContextData {
    pub context_path: Option<String>,
}

impl SharedContextData {
    /// No working directory yet.
    pub fn new() -> (d: Self)
        ensures
            d.context_path is None,
    {
        SharedContextData { context_path: None }
    }

    /// Record the working directory.
    pub fn set_context_path(&mut self, path: String)
        ensures
            final(self).context_path == Some(path),
    {
        self.context_path = Some(path);
    }
}

/// An edit waiting to be committed.
#[derive(Debug, Clone)]
pub struct StagedOperation {
    pub selector: Selector,
    pub content: String,
    pub file_path: String,
    pub language_name: LanguageName,
    pub edit_position: Option<EditPosition>,
}

impl StagedOperation {
    /// Point the staged edit at a new target, keeping its content, file and
    /// language.
    pub fn retarget(&mut self, selector: Selector)
        ensures
            final(self).selector == selector,
            final(self).content == old(self).content,
            final(self).file_path == old(self).file_path,
            final(self).language_name == old(self).language_name,
            final(self).edit_position == old(self).edit_position,
    {
        self.selector = selector;
    }
}

/// The tool's complete per-session state: the staged edit and the teaching
/// progress.
#[derive(Debug, Clone)]
pub struct SemanticEditSessionData {
    pub staged_operation: Option<StagedOperation>,
    pub education: EducationState,
}

/// The session after staging `staged` (or clearing with `None`).
pub open spec fn after_preview(d: SemanticEditSessionData, staged: Option<StagedOperation>) -> SemanticEditSessionData {
    SemanticEditSessionData { staged_operation: staged, education: d.education }
}

/// The session after its staged edit is taken out.
pub open spec fn after_take(d: SemanticEditSessionData) -> SemanticEditSessionData {
    SemanticEditSessionData { staged_operation: None, education: d.education }
}

impl SemanticEditSessionData {
    /// A session that has just begun: nothing staged, nothing taught.
    pub fn new() -> (d: Self)
        ensures
            d.staged_operation is None,
            d.education.successes() == 0,
            d.education.emissions() == 0,
            d.education.last_emitted_at() == 0,
    {
        SemanticEditSessionData { staged_operation: None, education: EducationState::new() }
    }

    /// Stage an edit, replacing whatever was staged (or clear it with `None`).
    pub fn preview_edit(&mut self, staged: Option<StagedOperation>)
        ensures
            *final(self) == after_preview(*old(self), staged),
    {
        self.staged_operation = staged;
    }

    /// The staged edit, removed from the session.
    pub fn take_staged_operation(&mut self) -> (r: Option<StagedOperation>)
        ensures
            r == old(self).staged_operation,
            *final(self) == after_take(*old(self)),
    {
        self.staged_operation.take()
    }

    /// Retarget the staged edit, if there is one.
    pub fn retarget_staged(&mut self, selector: Selector)
        ensures
            final(self).education == old(self).education,
            match (old(self).staged_operation, final(self).staged_operation) {
                (Some(a), Some(b)) => b.selector == selector && b.content == a.content
                    && b.file_path == a.file_path && b.language_name == a.language_name
                    && b.edit_position == a.edit_position,
                (None, None) => true,
                _ => false,
            },
    {
        if let Some(op) = &mut self.staged_operation {
            op.retarget(selector);
        }
    }

    /// A new working directory starts a new session for teaching purposes:
    /// the education state restarts from zero, the staged edit stays.
    pub fn reset_education(&mut self)
        ensures
            final(self).staged_operation == old(self).staged_operation,
            final(self).education.successes() == 0,
            final(self).education.emissions() == 0,
            final(self).education.last_emitted_at() == 0,
    {
        self.education = EducationState::new();
    }
}

/// Taking the staged edit gives back exactly what was last staged, leaves
/// nothing staged, and leaves the teaching progress alone.
pub proof fn law_take_returns_what_was_staged(d: SemanticEditSessionData, op: Option<StagedOperation>)
    ensures
        after_preview(d, op).staged_operation == op,
        after_take(after_preview(d, op)).staged_operation is None,
        after_take(after_preview(d, op)).education == d.education,
{
}

/// An edit that was written to its file: the edit, and the file's text
/// before and after it.
#[derive(Debug, Clone)]
pub struct AppliedEdit {
    pub operation: StagedOperation,
    pub pre_edit_source: String,
    pub post_edit_source: String,
}

/// The text undoing the last written edit puts back, if any: the text from
/// before the edit, when the file still holds exactly what the edit wrote.
pub open spec fn undo_target(applied: Option<AppliedEdit>, on_disk: Seq<char>) -> Option<Seq<char>> {
    match applied {
        Some(a) => if on_disk == a.post_edit_source@ {
            Some(a.pre_edit_source@)
        } else {
            None
        },
        None => None,
    }
}

/// What undoing the last written edit comes to.
#[derive(Debug)]
pub enum UndoPlan {
    /// No edit was written in this session.
    NothingToUndo,
    /// The file no longer holds what the edit wrote, so it is left alone.
    FileChanged,
    /// Write `content` back to `file_path`.
    Restore { file_path: String, content: String },
}

fn same_text(a: &str, b: &str) -> (r: bool)
    ensures
        r == (a@ == b@),
{
    chars_equal(&chars_of(a), &chars_of(b))
}

fn owned(s: &str) -> (r: String)
    ensures
        r@ == s@,
{
    let mut r = String::new();
    push_str(&mut r, s);
    r
}

/// Plan the undo of the last written edit, given what its file holds now
/// (see [`undo_target`]).
pub fn plan_undo(applied: &Option<AppliedEdit>, on_disk: &str) -> (r: UndoPlan)
    ensures
        match applied {
            None => r is NothingToUndo,
            Some(a) => match undo_target(*applied, on_disk@) {
                Some(t) => r matches UndoPlan::Restore { file_path, content } && file_path@ == a.operation.file_path@
                    && content@ == t,
                None => r is FileChanged,
            },
        },
{
    match applied {
        None => UndoPlan::NothingToUndo,
        Some(a) => if same_text(on_disk, a.post_edit_source.as_str()) {
            UndoPlan::Restore { file_path: owned(a.operation.file_path.as_str()), content: owned(a.pre_edit_source.as_str()) }
        } else {
            UndoPlan::FileChanged
        },
    }
}

impl UndoPlan {
    /// The reply to the undo request.
    pub fn message(&self) -> (m: String)
        ensures
            m@ == (match self {
                UndoPlan::NothingToUndo => "There is no edit to undo."@,
                UndoPlan::FileChanged => "The file has changed since the last edit, so it was not reverted."@,
                UndoPlan::Restore { file_path, .. } => "Reverted the last edit to "@ + file_path@ + "."@,
            }),
    {
        match self {
            UndoPlan::NothingToUndo => owned("There is no edit to undo."),
            UndoPlan::FileChanged => owned("The file has changed since the last edit, so it was not reverted."),
            UndoPlan::Restore { file_path, .. } => {
                let mut m = String::new();
                push_str(&mut m, "Reverted the last edit to ");
                push_str(&mut m, file_path.as_str());
                push_str(&mut m, ".");
                m
            },
        }
    }
}

/// The source a retargeted edit runs against: the text from before the
/// last written edit, when the file still holds what that edit wrote; else
/// why it cannot be retargeted.
pub fn plan_retarget(applied: &Option<AppliedEdit>, on_disk: &str) -> (r: Result<String, String>)
    ensures
        match r {
            Ok(s) => undo_target(*applied, on_disk@) == Some(s@),
            Err(m) => undo_target(*applied, on_disk@) is None && m@ == (if applied is None {
                "There is no previous edit to retarget."@
            } else {
                "The file has changed since the last edit, so it cannot be retargeted."@
            }),
        },
{
    match applied {
        None => Err(owned("There is no previous edit to retarget.")),
        Some(a) => if same_text(on_disk, a.post_edit_source.as_str()) {
            Ok(owned(a.pre_edit_source.as_str()))
        } else {
            Err(owned("The file has changed since the last edit, so it cannot be retargeted."))
        },
    }
}

/// Whether an edit repeats the insertion staged before it: the same file
/// and the same, non-empty, content, and not a replacement.
pub fn repeats_last_insert(previous: &Option<StagedOperation>, file_path: &str, content: &str, operation: Operation) -> (b: bool)
    ensures
        b == (previous matches Some(p) && p.file_path@ == file_path@ && p.content@ == content@ && content@.len() > 0
            && operation != Operation::Replace),
{
    match previous {
        Some(p) => same_text(p.file_path.as_str(), file_path) && same_text(p.content.as_str(), content)
            && chars_of(content).len() > 0 && operation != Operation::Replace,
        None => false,
    }
}

/// Undoing right after an edit, while the file still holds what the edit
/// wrote, puts back exactly the text the file had before the edit; once the
/// file holds anything else, undo puts back nothing.
pub proof fn law_undo_restores_the_prior_text(a: AppliedEdit, on_disk: Seq<char>)
    ensures
        on_disk == a.post_edit_source@ ==> undo_target(Some(a), on_disk) == Some(a.pre_edit_source@),
        on_disk != a.post_edit_source@ ==> undo_target(Some(a), on_disk) is None,
{
}

} // verus!
