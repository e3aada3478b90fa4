//! What an edit targets and how: the operation, plus either anchor text or a
//! named item.
use vstd::prelude::*;
use crate::item::ItemRef;
use crate::text::{chars_of, trim, trim_range};

verus! {

/// The kind of edit to perform.
#[derive(Debug, Clone, Copy, PartialEq, Eq, Structural)]
pub enum Operation {
    InsertAfter,
    InsertBefore,
    Replace,
}

/// How an operation is named in messages.
pub open spec fn operation_text(op: Operation) -> Seq<char> {
    match op {
        Operation::InsertAfter => "insert after"@,
        Operation::InsertBefore => "insert before"@,
        Operation::Replace => "replace"@,
    }
}

impl Operation {
    /// The operation as it reads in messages.
    pub fn as_str(&self) -> (s: &'static str)
        ensures
            s@ == operation_text(*self),
    {
        match self {
            Operation::InsertAfter => "insert after",
            Operation::InsertBefore => "insert before",
            Operation::Replace => "replace",
        }
    }
}

/// Where an edit goes: the operation, and the target as anchor text copied
/// from the file or as a named item (exactly one of the two).
#[derive(Debug, Clone)]
pub struct Selector {
    pub operation: Operation,
    pub anchor: Option<String>,
    pub item: Option<ItemRef>,
}

/// The complaint about a malformed selector, if any.
pub open spec fn selector_problem(anchor: Option<Seq<char>>, has_item: bool) -> Option<Seq<char>> {
    match anchor {
        Some(a) => if has_item {
            Some(
                "- supply `anchor` or `item`, not both: they name the target two different ways and could disagree"@,
            )
        } else if trim(a).len() == 0 {
            Some("- `anchor` cannot be empty"@)
        } else {
            None
        },
        None => if has_item {
            None
        } else {
            Some("- supply either `anchor` (text copied from the file) or `item` ({kind, name})"@)
        },
    }
}

/// The anchor of a selector, as characters.
pub open spec fn anchor_view(anchor: Option<String>) -> Option<Seq<char>> {
    match anchor {
        Some(a) => Some(a@),
        None => None,
    }
}

impl Selector {
    /// The operation's name as it reads in messages.
    pub fn operation_name(&self) -> (s: &str)
        ensures
            s@ == operation_text(self.operation),
    {
        self.operation.as_str()
    }

    /// The anchor text, when this selector targets text at all.
    pub fn anchor(&self) -> (a: Option<&str>)
        ensures
            match (a, self.anchor) {
                (Some(x), Some(y)) => x@ == y@,
                (None, None) => true,
                _ => false,
            },
    {
        match &self.anchor {
            Some(a) => Some(a.as_str()),
            None => None,
        }
    }

    /// Check that the selector names its target exactly one way, and that an
    /// anchor is not blank.
    pub fn validate(&self) -> (r: Result<(), String>)
        ensures
            match (r, selector_problem(anchor_view(self.anchor), self.item is Some)) {
                (Ok(()), None) => true,
                (Err(m), Some(p)) => m@ == p,
                _ => false,
            },
    {
        match (&self.anchor, &self.item) {
            (Some(anchor), None) => {
                let c = chars_of(anchor.as_str());
                let (a, b) = trim_range(&c, 0, c.len());
                assert(c@.subrange(0, c@.len() as int) =~= c@);
                if a == b {
                    Err(String::from_str("- `anchor` cannot be empty"))
                } else {
                    Ok(())
                }
            },
            (None, None) => Err(
                String::from_str(
                    "- supply either `anchor` (text copied from the file) or `item` ({kind, name})",
                ),
            ),
            (Some(_), Some(_)) => Err(
                String::from_str(
                    "- supply `anchor` or `item`, not both: they name the target two different ways and could disagree",
                ),
            ),
            (None, Some(_)) => Ok(()),
        }
    }
}

impl Selector {
    /// A copy of this selector.
    pub fn duplicate(&self) -> (s: Selector)
        ensures
            s == *self,
    {
        Selector {
            operation: self.operation,
            anchor: match &self.anchor {
                Some(a) => Some(a.clone()),
                None => None,
            },
            item: match &self.item {
                Some(i) => Some(ItemRef { kind: i.kind.clone(), name: i.name.clone() }),
                None => None,
            },
        }
    }
}

} // verus!
