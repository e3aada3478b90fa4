//! Syntax checks on Rust source.
use vstd::prelude::*;
use crate::languages::LanguageName;
use crate::item::chars_are;
use crate::syntax::{SyntaxNode, SyntaxTree, parse_source, tree_has_error, ts_has_error, ts_parses};
use crate::text::chars_of;

verus! {

/// Checks on Rust source text.
pub struct RustParser;

/// `src` is valid Rust: tree-sitter's Rust grammar parses it, and the parse
/// holds no syntax error.
pub open spec fn valid_rust(src: Seq<char>) -> bool {
    ts_parses(0, src) && !ts_has_error(0, src)
}

impl RustParser {
    /// Whether `source_code` is valid Rust (see [`valid_rust`]).
    pub fn validate_rust_syntax(source_code: &str) -> (b: bool)
        ensures
            b == valid_rust(source_code@),
    {
        match parse_source(LanguageName::Rust, source_code) {
            Some(p) => !tree_has_error(&p),
            None => false,
        }
    }
}

/// The nodes among the first `n` of `t` whose kind is `k`, in preorder.
pub open spec fn nodes_of_kind_upto(t: Seq<SyntaxNode>, k: Seq<char>, n: int) -> Seq<usize>
    decreases n,
{
    if n <= 0 {
        seq![]
    } else {
        nodes_of_kind_upto(t, k, n - 1) + if t[n - 1].kind@ == k {
            seq![(n - 1) as usize]
        } else {
            seq![]
        }
    }
}

/// The node kind a common Rust word stands for: `struct` for
/// `struct_item`, `fn` or `function` for `function_item`, and so on.
pub open spec fn fallback_kind(user: Seq<char>) -> Option<Seq<char>> {
    if user == "struct"@ {
        Some("struct_item"@)
    } else if user == "function"@ || user == "fn"@ {
        Some("function_item"@)
    } else if user == "enum"@ {
        Some("enum_item"@)
    } else if user == "impl"@ {
        Some("impl_item"@)
    } else if user == "mod"@ || user == "module"@ {
        Some("mod_item"@)
    } else if user == "use"@ {
        Some("use_declaration"@)
    } else if user == "type"@ {
        Some("type_item"@)
    } else if user == "trait"@ {
        Some("trait_item"@)
    } else if user == "const"@ {
        Some("const_item"@)
    } else if user == "static"@ {
        Some("static_item"@)
    } else {
        None
    }
}

/// The nodes of kind `user`; when there are none, those of the kind the
/// word stands for (see [`fallback_kind`]).
pub open spec fn nodes_by_type_with_fallback(t: Seq<SyntaxNode>, user: Seq<char>) -> Seq<usize> {
    let exact = nodes_of_kind_upto(t, user, t.len() as int);
    if exact.len() == 0 {
        match fallback_kind(user) {
            Some(k) => nodes_of_kind_upto(t, k, t.len() as int),
            None => exact,
        }
    } else {
        exact
    }
}

fn fallback_kind_exec(user: &str) -> (r: Option<&'static str>)
    ensures
        match r {
            Some(k) => fallback_kind(user@) == Some(k@),
            None => fallback_kind(user@) is None,
        },
{
    let u = chars_of(user);
    if chars_are(&u, "struct") {
        Some("struct_item")
    } else if chars_are(&u, "function") || chars_are(&u, "fn") {
        Some("function_item")
    } else if chars_are(&u, "enum") {
        Some("enum_item")
    } else if chars_are(&u, "impl") {
        Some("impl_item")
    } else if chars_are(&u, "mod") || chars_are(&u, "module") {
        Some("mod_item")
    } else if chars_are(&u, "use") {
        Some("use_declaration")
    } else if chars_are(&u, "type") {
        Some("type_item")
    } else if chars_are(&u, "trait") {
        Some("trait_item")
    } else if chars_are(&u, "const") {
        Some("const_item")
    } else if chars_are(&u, "static") {
        Some("static_item")
    } else {
        None
    }
}

impl RustParser {
    /// The nodes of kind `node_type`, in preorder.
    pub fn find_nodes_by_type(t: &SyntaxTree, node_type: &str) -> (r: Vec<usize>)
        ensures
            r@ == nodes_of_kind_upto(t.nodes@, node_type@, t.nodes@.len() as int),
    {
        let k = chars_of(node_type);
        let mut r: Vec<usize> = Vec::new();
        let mut j: usize = 0;
        while j < t.nodes.len()
            invariant
                j <= t.nodes@.len(),
                k@ == node_type@,
                r@ == nodes_of_kind_upto(t.nodes@, node_type@, j as int),
            decreases t.nodes@.len() - j,
        {
            if crate::item::chars_equal(&chars_of(t.nodes[j].kind.as_str()), &k) {
                r.push(j);
            }
            j += 1;
            assert(r@ =~= nodes_of_kind_upto(t.nodes@, node_type@, j as int));
        }
        r
    }

    /// The nodes of kind `user_type`, or, when there are none, of the kind a
    /// common Rust word stands for (see [`nodes_by_type_with_fallback`]).
    pub fn find_nodes_by_type_with_fallback(t: &SyntaxTree, user_type: &str) -> (r: Vec<usize>)
        ensures
            r@ == nodes_by_type_with_fallback(t.nodes@, user_type@),
    {
        let results = Self::find_nodes_by_type(t, user_type);
        if results.len() == 0 {
            match fallback_kind_exec(user_type) {
                Some(k) => Self::find_nodes_by_type(t, k),
                None => results,
            }
        } else {
            results
        }
    }
}

} // verus!
