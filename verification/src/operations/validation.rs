//! Warnings about edit targets whose placement surprises: inserting after a
//! container lands outside it, replacing one removes its contents.
use vstd::prelude::*;
use crate::item::chars_are;
use crate::selector::Operation;
use crate::syntax::{SyntaxNode, SyntaxTree};
use crate::text::chars_of;

verus! {

/// The kind of node `i`'s parent, if it has one in the table.
pub open spec fn parent_kind(t: Seq<SyntaxNode>, i: int) -> Option<Seq<char>> {
    match t[i].parent {
        Some(p) => if p < t.len() {
            Some(t[p as int].kind@)
        } else {
            None
        },
        None => None,
    }
}

/// The warning for operation `op` on node `i`, if its effect may surprise:
/// inserting after a container (impl, struct, enum, module), after a method
/// of an impl, or after a block places the content outside it; replacing a
/// whole impl, struct or enum removes everything in it.
pub open spec fn structural_warning(op: Operation, t: Seq<SyntaxNode>, i: int) -> Option<Seq<char>> {
    let k = t[i].kind@;
    match op {
        Operation::InsertAfter => if k == "impl_item"@ || k == "struct_item"@ || k == "enum_item"@ || k == "mod_item"@ {
            Some("You're inserting after a container block. Content will be placed OUTSIDE the container, not inside it."@)
        } else if k == "function_item"@ && parent_kind(t, i) == Some("impl_item"@) {
            Some("Inserting after this method will place content at module level, outside the impl block."@)
        } else if k == "block"@ {
            Some("Inserting after a block will place content outside the block scope."@)
        } else {
            None
        },
        Operation::Replace => if k == "impl_item"@ || k == "struct_item"@ || k == "enum_item"@ {
            Some("You're replacing an entire container definition. This will remove all its contents."@)
        } else {
            None
        },
        Operation::InsertBefore => None,
    }
}

fn owned(s: &str) -> (r: String)
    ensures
        r@ == s@,
{
    s.to_owned()
}

/// The warning for running `operation` on node `node` (see
/// [`structural_warning`]).
pub fn check_structural_warning(operation: Operation, t: &SyntaxTree, node: usize) -> (r: Option<String>)
    requires
        node < t.nodes@.len(),
    ensures
        match r {
            Some(w) => structural_warning(operation, t.nodes@, node as int) == Some(w@),
            None => structural_warning(operation, t.nodes@, node as int) is None,
        },
{
    let k = chars_of(t.nodes[node].kind.as_str());
    match operation {
        Operation::InsertAfter => {
            if chars_are(&k, "impl_item") || chars_are(&k, "struct_item") || chars_are(&k, "enum_item") || chars_are(&k, "mod_item") {
                return Some(owned("You're inserting after a container block. Content will be placed OUTSIDE the container, not inside it."));
            }
            if chars_are(&k, "function_item") {
                let in_impl = match t.nodes[node].parent {
                    Some(p) => p < t.nodes.len() && chars_are(&chars_of(t.nodes[p].kind.as_str()), "impl_item"),
                    None => false,
                };
                if in_impl {
                    return Some(owned("Inserting after this method will place content at module level, outside the impl block."));
                }
            }
            if chars_are(&k, "block") {
                Some(owned("Inserting after a block will place content outside the block scope."))
            } else {
                None
            }
        },
        Operation::Replace => {
            if chars_are(&k, "impl_item") || chars_are(&k, "struct_item") || chars_are(&k, "enum_item") {
                Some(owned("You're replacing an entire container definition. This will remove all its contents."))
            } else {
                None
            }
        },
        Operation::InsertBefore => None,
    }
}

} // verus!
