//! Progressive within-session teaching.
//!
//! The prefix-anchor shorthand is taught as `===TIP===` sections appended to
//! responses, only after a session has shown success with plain anchors, on a
//! cadence, and at most a fixed number of times per session. The
//! duplicate-content warning is not gated: it fires every time.
use vstd::prelude::*;
use crate::text::{debug_quote, debug_quoted, push_str};

verus! {

/// Successful edits before the first prefix-shorthand tip, and the minimum
/// number of further successes between repeat emissions.
pub const PREFIX_TIP_CADENCE: u32 = 5;

/// Hard cap on prefix-shorthand tip emissions per session.
pub const PREFIX_TIP_MAX_EMISSIONS: u32 = 3;

/// Per-session record of demonstrated proficiency and tips already emitted.
#[derive(Debug, Clone, PartialEq, Eq, Structural)]
pub struct EducationState {
    successful_edits: u32,
    prefix_tip_emissions: u32,
    prefix_tip_last_emitted_at: u32,
}

impl EducationState {
    /// Successful edits recorded so far.
    pub closed spec fn successes(&self) -> nat {
        self.successful_edits as nat
    }

    /// Prefix-shorthand tips emitted so far.
    pub closed spec fn emissions(&self) -> nat {
        self.prefix_tip_emissions as nat
    }

    /// The success count at the last tip emission (0 before any).
    pub closed spec fn last_emitted_at(&self) -> nat {
        self.prefix_tip_last_emitted_at as nat
    }

    /// Whether the tip is due for an edit that succeeds now.
    pub open spec fn tip_due(&self) -> bool {
        &&& self.emissions() < PREFIX_TIP_MAX_EMISSIONS
        &&& self.successes() + 1 >= self.last_emitted_at() + PREFIX_TIP_CADENCE
    }

    /// The state of a session that has just begun.
    pub fn new() -> (s: Self)
        ensures
            s.successes() == 0,
            s.emissions() == 0,
            s.last_emitted_at() == 0,
    {
        EducationState { successful_edits: 0, prefix_tip_emissions: 0, prefix_tip_last_emitted_at: 0 }
    }

    /// The counts as they are stored: successes, tips emitted, and the
    /// success count at the last tip.
    pub fn counts(&self) -> (r: (u32, u32, u32))
        ensures
            r.0 == self.successes(),
            r.1 == self.emissions(),
            r.2 == self.last_emitted_at(),
    {
        (self.successful_edits, self.prefix_tip_emissions, self.prefix_tip_last_emitted_at)
    }

    /// The state with the stored counts (see [`EducationState::counts`]).
    pub fn from_counts(successes: u32, emissions: u32, last_emitted_at: u32) -> (s: Self)
        ensures
            s.successes() == successes,
            s.emissions() == emissions,
            s.last_emitted_at() == last_emitted_at,
    {
        EducationState {
            successful_edits: successes,
            prefix_tip_emissions: emissions,
            prefix_tip_last_emitted_at: last_emitted_at,
        }
    }

    /// Whether the prefix-shorthand tip would be emitted for a successful edit
    /// applied right now with a multi-line anchor; asked before the success
    /// is recorded.
    pub fn prefix_tip_due(&self) -> (due: bool)
        ensures
            due == self.tip_due(),
    {
        let count_after_this_edit: u64 = self.successful_edits as u64 + 1;
        self.prefix_tip_emissions < PREFIX_TIP_MAX_EMISSIONS && count_after_this_edit
            >= self.prefix_tip_last_emitted_at as u64 + PREFIX_TIP_CADENCE as u64
    }

    /// Count one more successful edit.
    pub fn record_success(&mut self)
        requires
            old(self).successes() < u32::MAX,
        ensures
            final(self).successes() == old(self).successes() + 1,
            final(self).emissions() == old(self).emissions(),
            final(self).last_emitted_at() == old(self).last_emitted_at(),
    {
        self.successful_edits += 1;
    }

    /// Note that the tip was emitted at the current success count.
    pub fn record_prefix_tip_emitted(&mut self)
        requires
            old(self).emissions() < u32::MAX,
        ensures
            final(self).emissions() == old(self).emissions() + 1,
            final(self).last_emitted_at() == old(self).successes(),
            final(self).successes() == old(self).successes(),
    {
        self.prefix_tip_emissions += 1;
        self.prefix_tip_last_emitted_at = self.successful_edits;
    }
}

impl Default for EducationState {
    fn default() -> (s: Self)
        ensures
            s.successes() == 0,
            s.emissions() == 0,
            s.last_emitted_at() == 0,
    {
        EducationState::new()
    }
}

/// A session emits the tip at most `PREFIX_TIP_MAX_EMISSIONS` times: when
/// emissions are recorded only while the tip is due, the count never passes
/// the cap, whatever else happens.
pub proof fn law_tip_emissions_capped(s: EducationState)
    requires
        s.tip_due(),
    ensures
        s.emissions() + 1 <= PREFIX_TIP_MAX_EMISSIONS,
{
}

/// Tips are spaced: right after an emission the tip is not due again until
/// `PREFIX_TIP_CADENCE - 1` more successes have been recorded, and a fresh
/// session waits for that many successes before the first tip.
pub proof fn law_tip_cadence(s: EducationState)
    requires
        s.tip_due(),
    ensures
        s.successes() + 1 >= s.last_emitted_at() + PREFIX_TIP_CADENCE,
        s.last_emitted_at() == 0 ==> s.successes() + 1 >= PREFIX_TIP_CADENCE,
{
}

/// The opening of the prefix tip, up to the suggested anchor.
pub open spec fn tip_head() -> Seq<char> {
    "===TIP===\nThis edit would have produced the identical result with a shorter anchor:\n\n  anchor: "@
}

/// The rest of the prefix tip, after the suggested anchor.
pub open spec fn tip_tail() -> Seq<char> {
    "\n\nAn anchor only needs to be unique in the file and to cover the start of the code it targets — the rest of the target's text can be omitted. This is especially useful for deletes: a one-line anchor with `content` omitted removes the whole item it begins."@
}

/// The prefix-shorthand lesson, grounded in the edit that just succeeded;
/// `shorthand` is an anchor already checked to give the identical diff.
pub fn prefix_tip(shorthand: &str) -> (tip: String)
    ensures
        tip@ == tip_head() + debug_quoted(shorthand@) + tip_tail(),
{
    let mut tip = String::new();
    push_str(&mut tip, "===TIP===\nThis edit would have produced the identical result with a shorter anchor:\n\n  anchor: ");
    let quoted = debug_quote(shorthand);
    push_str(&mut tip, quoted.as_str());
    push_str(&mut tip, "\n\nAn anchor only needs to be unique in the file and to cover the start of the code it targets — the rest of the target's text can be omitted. This is especially useful for deletes: a one-line anchor with `content` omitted removes the whole item it begins.");
    tip
}

/// The text of the duplicate-insert warning.
pub open spec fn duplicate_warning_text() -> Seq<char> {
    "===WARNING===\nThis content is identical to the previous edit applied to this file, and that earlier placement is still present — the file now contains both. If the earlier placement was a mistake, remove it with a `replace` edit (omit `content` to delete) anchored on the misplaced copy. Next time, `retarget_edit` moves the previous edit to a corrected anchor in one step."@
}

/// Warning appended when an insert re-applied the exact content of the
/// previous, already persisted edit at another place: the file now holds both.
pub fn duplicate_insert_warning() -> (w: &'static str)
    ensures
        w@ == duplicate_warning_text(),
{
    "===WARNING===\nThis content is identical to the previous edit applied to this file, and that earlier placement is still present — the file now contains both. If the earlier placement was a mistake, remove it with a `replace` edit (omit `content` to delete) anchored on the misplaced copy. Next time, `retarget_edit` moves the previous edit to a corrected anchor in one step."
}

} // verus!
