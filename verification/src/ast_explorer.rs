//! How suitable a syntax node is as an edit target, judged from its
//! language and node kind.
use vstd::prelude::*;
use crate::item::{chars_are, chars_contain, contains_text, join, join_strings, line_at, line_at_exec, offsets_of, opt_view};
use crate::languages::python::kind_child_upto;
use crate::operations::node_selector::{node_text, node_text_exec};
use crate::syntax::{ParsedSource, SyntaxNode, SyntaxTree, descendant_for_point, field_child_upto, tree_of, ts_point_descendant};
use crate::text::{
    byte_at, byte_len, byte_offsets, chars_of, decimal, lemma_byte_at_mono, push_decimal, push_str,
    line_spans, replace_all, replace_all_chars, slice_chars, str_byte_len, string_from_chars, trim,
    trim_range,
};
use crate::languages::markdown::{char_at_byte, char_of_byte};

verus! {

/// A verdict on a node as an edit target, with the reasoning behind it.
#[derive(Debug, Clone)]
pub enum EditSuitability {
    Excellent { reason: String },
    Good { reason: String, considerations: Vec<String> },
    Poor { reason: String, better_alternatives: Vec<String> },
    Terrible { reason: String, why_avoid: String },
}

/// An [`EditSuitability`] as text.
pub enum SuitabilityView {
    Excellent { reason: Seq<char> },
    Good { reason: Seq<char>, considerations: Seq<Seq<char>> },
    Poor { reason: Seq<char>, better_alternatives: Seq<Seq<char>> },
    Terrible { reason: Seq<char>, why_avoid: Seq<char> },
}

pub open spec fn texts(v: Seq<String>) -> Seq<Seq<char>> {
    v.map_values(|s: String| s@)
}

impl View for EditSuitability {
    type V = SuitabilityView;

    open spec fn view(&self) -> SuitabilityView {
        match self {
            EditSuitability::Excellent { reason } => SuitabilityView::Excellent { reason: reason@ },
            EditSuitability::Good { reason, considerations } => SuitabilityView::Good {
                reason: reason@,
                considerations: texts(considerations@),
            },
            EditSuitability::Poor { reason, better_alternatives } => SuitabilityView::Poor {
                reason: reason@,
                better_alternatives: texts(better_alternatives@),
            },
            EditSuitability::Terrible { reason, why_avoid } => SuitabilityView::Terrible {
                reason: reason@,
                why_avoid: why_avoid@,
            },
        }
    }
}

pub open spec fn excellent(reason: Seq<char>) -> SuitabilityView {
    SuitabilityView::Excellent { reason }
}

pub open spec fn good(reason: Seq<char>, note: Seq<char>) -> SuitabilityView {
    SuitabilityView::Good { reason, considerations: seq![note] }
}

pub open spec fn poor(reason: Seq<char>, instead: Seq<char>) -> SuitabilityView {
    SuitabilityView::Poor { reason, better_alternatives: seq![instead] }
}

pub open spec fn terrible(reason: Seq<char>, why_avoid: Seq<char>) -> SuitabilityView {
    SuitabilityView::Terrible { reason, why_avoid }
}

/// The verdict for Rust node kinds with a rule of their own.
pub open spec fn rust_verdict(kind: Seq<char>) -> Option<SuitabilityView> {
    if kind == "function_item"@ {
        Some(excellent("Complete function - perfect for replacement or modification"@))
    } else if kind == "impl_item"@ {
        Some(excellent("Complete impl block - ideal for adding methods or replacement"@))
    } else if kind == "struct_item"@ {
        Some(excellent("Complete struct definition"@))
    } else if kind == "identifier"@ {
        Some(poor("Just a name token, not the full construct"@, "Select the parent function_item, struct_item, etc."@))
    } else {
        None
    }
}

/// Whether `kind` is a Markdown heading marker (`#` through `######`).
pub open spec fn is_heading_marker(kind: Seq<char>) -> bool {
    ||| kind == "atx_h1_marker"@
    ||| kind == "atx_h2_marker"@
    ||| kind == "atx_h3_marker"@
    ||| kind == "atx_h4_marker"@
    ||| kind == "atx_h5_marker"@
    ||| kind == "atx_h6_marker"@
}

/// The verdict for Markdown node kinds with a rule of their own.
pub open spec fn markdown_verdict(kind: Seq<char>) -> Option<SuitabilityView> {
    if kind == "document"@ {
        Some(poor("Entire document - usually too broad"@, "Select specific sections, headings, or lists"@))
    } else if kind == "section"@ {
        Some(good("Document section with heading and content"@, "May include more content than intended"@))
    } else if kind == "atx_heading"@ {
        Some(excellent("Complete heading - perfect for heading changes"@))
    } else if kind == "list"@ {
        Some(excellent("Complete list - ideal for list operations"@))
    } else if kind == "list_item"@ {
        Some(good("Individual list item"@, "Good for single item changes"@))
    } else if kind == "list_marker_minus"@ || kind == "list_marker_plus"@ || kind == "list_marker_star"@ {
        Some(terrible("Just the list marker character(s)"@, "This is only the bullet point, not the content"@))
    } else if is_heading_marker(kind) {
        Some(terrible("Just the heading marker (# ## ###)"@, "This is only the hash symbols, not the heading content"@))
    } else if kind == "inline"@ {
        Some(good("Inline content within paragraph or heading"@, "Good for text content changes"@))
    } else if kind == "fenced_code_block"@ {
        Some(excellent("Complete code block with language and content"@))
    } else {
        None
    }
}

/// The verdict for JSON node kinds with a rule of their own.
pub open spec fn json_verdict(kind: Seq<char>) -> Option<SuitabilityView> {
    if kind == "object"@ {
        Some(excellent("Complete JSON object"@))
    } else if kind == "array"@ {
        Some(excellent("Complete JSON array"@))
    } else if kind == "pair"@ {
        Some(good("Key-value pair in JSON object"@, "Good for updating specific properties"@))
    } else {
        None
    }
}

/// The verdict for any other node: a whole construct by its name, a token
/// or literal, or a generic node.
pub open spec fn generic_verdict(kind: Seq<char>) -> SuitabilityView {
    if contains_text(kind, "_item"@) || contains_text(kind, "_statement"@) || contains_text(kind, "_declaration"@) {
        good("Appears to be a complete language construct"@, "Language-specific analysis not available"@)
    } else if byte_len(kind) == 1 || contains_text(kind, "token"@) || contains_text(kind, "literal"@) {
        poor("Appears to be a small token or literal"@, "Look for parent nodes with more context"@)
    } else {
        good("Generic node"@, "No specific analysis available for this language/node type"@)
    }
}

/// How suitable a node of `kind` in `language` is as an edit target.
pub open spec fn suitability(language: Seq<char>, kind: Seq<char>) -> SuitabilityView {
    let specific = if language == "rust"@ {
        rust_verdict(kind)
    } else if language == "markdown"@ {
        markdown_verdict(kind)
    } else if language == "json"@ {
        json_verdict(kind)
    } else {
        None
    };
    match specific {
        Some(v) => v,
        None => generic_verdict(kind),
    }
}

fn owned(s: &str) -> (r: String)
    ensures
        r@ == s@,
{
    s.to_owned()
}

fn excellent_exec(reason: &str) -> (r: EditSuitability)
    ensures
        r@ == excellent(reason@),
{
    EditSuitability::Excellent { reason: owned(reason) }
}

fn good_exec(reason: &str, note: &str) -> (r: EditSuitability)
    ensures
        r@ == good(reason@, note@),
{
    let v = vec![owned(note)];
    proof {
        assert(texts(v@) =~= seq![note@]);
    }
    EditSuitability::Good { reason: owned(reason), considerations: v }
}

fn poor_exec(reason: &str, instead: &str) -> (r: EditSuitability)
    ensures
        r@ == poor(reason@, instead@),
{
    let v = vec![owned(instead)];
    proof {
        assert(texts(v@) =~= seq![instead@]);
    }
    EditSuitability::Poor { reason: owned(reason), better_alternatives: v }
}

fn terrible_exec(reason: &str, why_avoid: &str) -> (r: EditSuitability)
    ensures
        r@ == terrible(reason@, why_avoid@),
{
    EditSuitability::Terrible { reason: owned(reason), why_avoid: owned(why_avoid) }
}

fn rust_verdict_exec(k: &Vec<char>) -> (r: Option<EditSuitability>)
    ensures
        match r {
            Some(v) => rust_verdict(k@) == Some(v@),
            None => rust_verdict(k@) is None,
        },
{
    if chars_are(k, "function_item") {
        Some(excellent_exec("Complete function - perfect for replacement or modification"))
    } else if chars_are(k, "impl_item") {
        Some(excellent_exec("Complete impl block - ideal for adding methods or replacement"))
    } else if chars_are(k, "struct_item") {
        Some(excellent_exec("Complete struct definition"))
    } else if chars_are(k, "identifier") {
        Some(poor_exec("Just a name token, not the full construct", "Select the parent function_item, struct_item, etc."))
    } else {
        None
    }
}

fn markdown_verdict_exec(k: &Vec<char>) -> (r: Option<EditSuitability>)
    ensures
        match r {
            Some(v) => markdown_verdict(k@) == Some(v@),
            None => markdown_verdict(k@) is None,
        },
{
    if chars_are(k, "document") {
        Some(poor_exec("Entire document - usually too broad", "Select specific sections, headings, or lists"))
    } else if chars_are(k, "section") {
        Some(good_exec("Document section with heading and content", "May include more content than intended"))
    } else if chars_are(k, "atx_heading") {
        Some(excellent_exec("Complete heading - perfect for heading changes"))
    } else if chars_are(k, "list") {
        Some(excellent_exec("Complete list - ideal for list operations"))
    } else if chars_are(k, "list_item") {
        Some(good_exec("Individual list item", "Good for single item changes"))
    } else if chars_are(k, "list_marker_minus") || chars_are(k, "list_marker_plus") || chars_are(k, "list_marker_star") {
        Some(terrible_exec("Just the list marker character(s)", "This is only the bullet point, not the content"))
    } else if chars_are(k, "atx_h1_marker") || chars_are(k, "atx_h2_marker") || chars_are(k, "atx_h3_marker")
        || chars_are(k, "atx_h4_marker") || chars_are(k, "atx_h5_marker") || chars_are(k, "atx_h6_marker") {
        Some(terrible_exec("Just the heading marker (# ## ###)", "This is only the hash symbols, not the heading content"))
    } else if chars_are(k, "inline") {
        Some(good_exec("Inline content within paragraph or heading", "Good for text content changes"))
    } else if chars_are(k, "fenced_code_block") {
        Some(excellent_exec("Complete code block with language and content"))
    } else {
        None
    }
}

fn json_verdict_exec(k: &Vec<char>) -> (r: Option<EditSuitability>)
    ensures
        match r {
            Some(v) => json_verdict(k@) == Some(v@),
            None => json_verdict(k@) is None,
        },
{
    if chars_are(k, "object") {
        Some(excellent_exec("Complete JSON object"))
    } else if chars_are(k, "array") {
        Some(excellent_exec("Complete JSON array"))
    } else if chars_are(k, "pair") {
        Some(good_exec("Key-value pair in JSON object", "Good for updating specific properties"))
    } else {
        None
    }
}

fn contains_str(k: &Vec<char>, n: &str) -> (r: bool)
    ensures
        r == contains_text(k@, n@),
{
    let nc = chars_of(n);
    chars_contain(k, &nc)
}

fn generic_verdict_exec(kind: &str, k: &Vec<char>) -> (r: EditSuitability)
    requires
        k@ == kind@,
    ensures
        r@ == generic_verdict(k@),
{
    if contains_str(k, "_item") || contains_str(k, "_statement") || contains_str(k, "_declaration") {
        good_exec("Appears to be a complete language construct", "Language-specific analysis not available")
    } else if str_byte_len(kind) == 1 || contains_str(k, "token") || contains_str(k, "literal") {
        poor_exec("Appears to be a small token or literal", "Look for parent nodes with more context")
    } else {
        good_exec("Generic node", "No specific analysis available for this language/node type")
    }
}

/// Explains syntax nodes as edit targets.
pub struct ASTExplorer;

impl ASTExplorer {
    /// How suitable a node of kind `kind` in `language` is as an edit target:
    /// whole constructs (functions, impls, structs, headings, lists, code
    /// blocks, JSON objects and arrays) are excellent, bare markers terrible,
    /// names and small tokens poor, and the rest judged by their kind's name.
    pub fn assess_edit_suitability(language: &str, kind: &str) -> (r: EditSuitability)
        ensures
            r@ == suitability(language@, kind@),
    {
        let l = chars_of(language);
        let k = chars_of(kind);
        let specific = if chars_are(&l, "rust") {
            rust_verdict_exec(&k)
        } else if chars_are(&l, "markdown") {
            markdown_verdict_exec(&k)
        } else if chars_are(&l, "json") {
            json_verdict_exec(&k)
        } else {
            None
        };
        match specific {
            Some(v) => v,
            None => generic_verdict_exec(kind, &k),
        }
    }
}

/// The first child of `node` among the first `n` nodes.
pub open spec fn first_child_upto(t: Seq<SyntaxNode>, node: int, n: int) -> Option<int>
    decreases n,
{
    if n <= 0 {
        None
    } else {
        match first_child_upto(t, node, n - 1) {
            Some(b) => Some(b),
            None => if t[n - 1].parent == Some(node as usize) {
                Some(n - 1)
            } else {
                None
            },
        }
    }
}

/// The first child of `node` among the first `n` nodes that is an
/// `identifier` or a `type_identifier`.
pub open spec fn ident_child_upto(t: Seq<SyntaxNode>, node: int, n: int) -> Option<int>
    decreases n,
{
    if n <= 0 {
        None
    } else {
        match ident_child_upto(t, node, n - 1) {
            Some(b) => Some(b),
            None => if t[n - 1].parent == Some(node as usize) && (t[n - 1].kind@ == "identifier"@
                || t[n - 1].kind@ == "type_identifier"@) {
                Some(n - 1)
            } else {
                None
            },
        }
    }
}

/// The level of a Markdown heading, from its first child's marker.
pub open spec fn heading_level(t: Seq<SyntaxNode>, i: int) -> Seq<char> {
    match first_child_upto(t, i, t.len() as int) {
        Some(c) => if t[c].kind@ == "atx_h1_marker"@ {
            "1"@
        } else if t[c].kind@ == "atx_h2_marker"@ {
            "2"@
        } else if t[c].kind@ == "atx_h3_marker"@ {
            "3"@
        } else {
            "N"@
        },
        None => "N"@,
    }
}

/// The language named in a fenced code block's info string, or `unknown`.
pub open spec fn code_language(t: Seq<SyntaxNode>, s: Seq<char>, i: int) -> Seq<char> {
    match kind_child_upto(t, i, "info_string"@, t.len() as int) {
        Some(info) => match kind_child_upto(t, info, "language"@, t.len() as int) {
            Some(l) => trim(node_text(t, s, l)),
            None => "unknown"@,
        },
        None => "unknown"@,
    }
}

/// What node `i` is, in words, for the constructs that have a role.
pub open spec fn semantic_role(t: Seq<SyntaxNode>, s: Seq<char>, language: Seq<char>, i: int) -> Option<Seq<char>> {
    let k = t[i].kind@;
    if language == "rust"@ {
        if k == "function_item"@ {
            Some("Function Definition"@)
        } else if k == "impl_item"@ {
            Some("Implementation Block"@)
        } else if k == "struct_item"@ {
            Some("Struct Definition"@)
        } else if k == "enum_item"@ {
            Some("Enum Definition"@)
        } else if k == "mod_item"@ {
            Some("Module Definition"@)
        } else if k == "use_declaration"@ {
            Some("Import Statement"@)
        } else {
            None
        }
    } else if language == "markdown"@ {
        if k == "atx_heading"@ {
            Some("Heading Level "@ + heading_level(t, i))
        } else if k == "list"@ {
            Some("List"@)
        } else if k == "list_item"@ {
            Some("List Item"@)
        } else if k == "fenced_code_block"@ {
            Some("Code Block ("@ + code_language(t, s, i) + ")"@)
        } else if k == "block_quote"@ {
            Some("Block Quote"@)
        } else if k == "section"@ {
            Some("Document Section"@)
        } else {
            None
        }
    } else if language == "json"@ {
        if k == "object"@ {
            Some("JSON Object"@)
        } else if k == "array"@ {
            Some("JSON Array"@)
        } else if k == "pair"@ {
            Some("Key-Value Pair"@)
        } else {
            None
        }
    } else {
        None
    }
}

/// The name of node `i`: its `name` field's text, else the text of its
/// first identifier child, trimmed.
pub open spec fn node_name(t: Seq<SyntaxNode>, s: Seq<char>, i: int) -> Option<Seq<char>> {
    match field_child_upto(t, i, "name"@, t.len() as int) {
        Some(f) => Some(trim(node_text(t, s, f))),
        None => match ident_child_upto(t, i, t.len() as int) {
            Some(c) => Some(trim(node_text(t, s, c))),
            None => None,
        },
    }
}

/// A tree-sitter query that finds node `i` again: functions and structs by
/// name, short headings by kind.
pub open spec fn query_selector(t: Seq<SyntaxNode>, s: Seq<char>, i: int) -> Option<Seq<char>> {
    let k = t[i].kind@;
    if k == "function_item"@ {
        match node_name(t, s, i) {
            Some(n) => Some("(function_item name: (identifier) @name (#eq? @name \""@ + n + "\"))"@),
            None => None,
        }
    } else if k == "struct_item"@ {
        match node_name(t, s, i) {
            Some(n) => Some("(struct_item name: (type_identifier) @name (#eq? @name \""@ + n + "\"))"@),
            None => None,
        }
    } else if k == "atx_heading"@ {
        if byte_len(trim(node_text(t, s, i))) < 100 {
            Some("(atx_heading) @heading"@)
        } else {
            None
        }
    } else {
        None
    }
}

fn first_child_exec(t: &SyntaxTree, node: usize) -> (r: Option<usize>)
    ensures
        match r {
            Some(b) => b < t.nodes@.len() && first_child_upto(t.nodes@, node as int, t.nodes@.len() as int) == Some(b as int),
            None => first_child_upto(t.nodes@, node as int, t.nodes@.len() as int) is None,
        },
{
    let mut j: usize = 0;
    while j < t.nodes.len()
        invariant
            j <= t.nodes@.len(),
            first_child_upto(t.nodes@, node as int, j as int) is None,
        decreases t.nodes@.len() - j,
    {
        if t.nodes[j].parent == Some(node) {
            proof {
                lemma_first_child_stable(t.nodes@, node as int, j + 1, t.nodes@.len() as int);
            }
            return Some(j);
        }
        j += 1;
    }
    None
}

proof fn lemma_first_child_stable(t: Seq<SyntaxNode>, node: int, n: int, m: int)
    requires
        n <= m,
        first_child_upto(t, node, n) is Some,
    ensures
        first_child_upto(t, node, m) == first_child_upto(t, node, n),
    decreases m - n,
{
    if n < m {
        lemma_first_child_stable(t, node, n, m - 1);
    }
}

proof fn lemma_ident_child_stable(t: Seq<SyntaxNode>, node: int, n: int, m: int)
    requires
        n <= m,
        ident_child_upto(t, node, n) is Some,
    ensures
        ident_child_upto(t, node, m) == ident_child_upto(t, node, n),
    decreases m - n,
{
    if n < m {
        lemma_ident_child_stable(t, node, n, m - 1);
    }
}

proof fn lemma_kind_child_stable(t: Seq<SyntaxNode>, node: int, k: Seq<char>, n: int, m: int)
    requires
        n <= m,
        kind_child_upto(t, node, k, n) is Some,
    ensures
        kind_child_upto(t, node, k, m) == kind_child_upto(t, node, k, n),
    decreases m - n,
{
    if n < m {
        lemma_kind_child_stable(t, node, k, n, m - 1);
    }
}

fn ident_child_exec(t: &SyntaxTree, node: usize) -> (r: Option<usize>)
    ensures
        match r {
            Some(b) => b < t.nodes@.len() && ident_child_upto(t.nodes@, node as int, t.nodes@.len() as int) == Some(b as int),
            None => ident_child_upto(t.nodes@, node as int, t.nodes@.len() as int) is None,
        },
{
    let mut j: usize = 0;
    while j < t.nodes.len()
        invariant
            j <= t.nodes@.len(),
            ident_child_upto(t.nodes@, node as int, j as int) is None,
        decreases t.nodes@.len() - j,
    {
        if t.nodes[j].parent == Some(node) {
            let k = chars_of(t.nodes[j].kind.as_str());
            if chars_are(&k, "identifier") || chars_are(&k, "type_identifier") {
                proof {
                    lemma_ident_child_stable(t.nodes@, node as int, j + 1, t.nodes@.len() as int);
                }
                return Some(j);
            }
        }
        j += 1;
    }
    None
}

fn kind_child_exec(t: &SyntaxTree, node: usize, kind: &str) -> (r: Option<usize>)
    ensures
        match r {
            Some(b) => b < t.nodes@.len() && kind_child_upto(t.nodes@, node as int, kind@, t.nodes@.len() as int) == Some(b as int),
            None => kind_child_upto(t.nodes@, node as int, kind@, t.nodes@.len() as int) is None,
        },
{
    let kc = chars_of(kind);
    let mut j: usize = 0;
    while j < t.nodes.len()
        invariant
            j <= t.nodes@.len(),
            kc@ == kind@,
            kind_child_upto(t.nodes@, node as int, kind@, j as int) is None,
        decreases t.nodes@.len() - j,
    {
        if t.nodes[j].parent == Some(node) && crate::item::chars_equal(&chars_of(t.nodes[j].kind.as_str()), &kc) {
            proof {
                lemma_kind_child_stable(t.nodes@, node as int, kind@, j + 1, t.nodes@.len() as int);
            }
            return Some(j);
        }
        j += 1;
    }
    None
}

fn trimmed_text(t: &SyntaxTree, c: &Vec<char>, off: &Vec<usize>, i: usize) -> (r: Vec<char>)
    requires
        offsets_of(c@, off@),
        i < t.nodes@.len(),
    ensures
        r@ == trim(node_text(t.nodes@, c@, i as int)),
{
    let x = node_text_exec(t, c, off, i);
    let (a, b) = trim_range(x.as_slice(), 0, x.len());
    proof {
        assert(x@.subrange(0, x@.len() as int) =~= x@);
    }
    slice_chars(&x, a, b)
}

fn text_of(v: &Vec<char>) -> (s: String)
    ensures
        s@ == v@,
{
    crate::text::string_from_chars(v.as_slice())
}

impl ASTExplorer {
    /// What node `i` is, in words (see [`semantic_role`]).
    pub fn identify_semantic_role(t: &SyntaxTree, c: &Vec<char>, off: &Vec<usize>, language: &str, i: usize) -> (r: Option<String>)
        requires
            offsets_of(c@, off@),
            i < t.nodes@.len(),
        ensures
            match r {
                Some(x) => semantic_role(t.nodes@, c@, language@, i as int) == Some(x@),
                None => semantic_role(t.nodes@, c@, language@, i as int) is None,
            },
    {
        let l = chars_of(language);
        let k = chars_of(t.nodes[i].kind.as_str());
        if chars_are(&l, "rust") {
            if chars_are(&k, "function_item") {
                Some(owned("Function Definition"))
            } else if chars_are(&k, "impl_item") {
                Some(owned("Implementation Block"))
            } else if chars_are(&k, "struct_item") {
                Some(owned("Struct Definition"))
            } else if chars_are(&k, "enum_item") {
                Some(owned("Enum Definition"))
            } else if chars_are(&k, "mod_item") {
                Some(owned("Module Definition"))
            } else if chars_are(&k, "use_declaration") {
                Some(owned("Import Statement"))
            } else {
                None
            }
        } else if chars_are(&l, "markdown") {
            if chars_are(&k, "atx_heading") {
                let level = match first_child_exec(t, i) {
                    Some(ch) => {
                        let ck = chars_of(t.nodes[ch].kind.as_str());
                        if chars_are(&ck, "atx_h1_marker") {
                            "1"
                        } else if chars_are(&ck, "atx_h2_marker") {
                            "2"
                        } else if chars_are(&ck, "atx_h3_marker") {
                            "3"
                        } else {
                            "N"
                        }
                    },
                    None => "N",
                };
                let mut r = String::new();
                push_str(&mut r, "Heading Level ");
                push_str(&mut r, level);
                Some(r)
            } else if chars_are(&k, "list") {
                Some(owned("List"))
            } else if chars_are(&k, "list_item") {
                Some(owned("List Item"))
            } else if chars_are(&k, "fenced_code_block") {
                let lang = match kind_child_exec(t, i, "info_string") {
                    Some(info) => match kind_child_exec(t, info, "language") {
                        Some(ln) => text_of(&trimmed_text(t, c, off, ln)),
                        None => owned("unknown"),
                    },
                    None => owned("unknown"),
                };
                let mut r = String::new();
                push_str(&mut r, "Code Block (");
                push_str(&mut r, lang.as_str());
                push_str(&mut r, ")");
                Some(r)
            } else if chars_are(&k, "block_quote") {
                Some(owned("Block Quote"))
            } else if chars_are(&k, "section") {
                Some(owned("Document Section"))
            } else {
                None
            }
        } else if chars_are(&l, "json") {
            if chars_are(&k, "object") {
                Some(owned("JSON Object"))
            } else if chars_are(&k, "array") {
                Some(owned("JSON Array"))
            } else if chars_are(&k, "pair") {
                Some(owned("Key-Value Pair"))
            } else {
                None
            }
        } else {
            None
        }
    }

    /// The name of node `i` (see [`node_name`]).
    pub fn extract_node_name(t: &SyntaxTree, c: &Vec<char>, off: &Vec<usize>, i: usize) -> (r: Option<String>)
        requires
            offsets_of(c@, off@),
        ensures
            match r {
                Some(x) => node_name(t.nodes@, c@, i as int) == Some(x@),
                None => node_name(t.nodes@, c@, i as int) is None,
            },
    {
        match t.field_child(i, "name") {
            Some(f) => Some(text_of(&trimmed_text(t, c, off, f))),
            None => match ident_child_exec(t, i) {
                Some(ch) => Some(text_of(&trimmed_text(t, c, off, ch))),
                None => None,
            },
        }
    }

    /// A query that finds node `i` again (see [`query_selector`]).
    pub fn generate_query_selector(t: &SyntaxTree, c: &Vec<char>, off: &Vec<usize>, i: usize) -> (r: Option<String>)
        requires
            offsets_of(c@, off@),
            i < t.nodes@.len(),
        ensures
            match r {
                Some(x) => query_selector(t.nodes@, c@, i as int) == Some(x@),
                None => query_selector(t.nodes@, c@, i as int) is None,
            },
    {
        let k = chars_of(t.nodes[i].kind.as_str());
        if chars_are(&k, "function_item") {
            match Self::extract_node_name(t, c, off, i) {
                Some(n) => {
                    let mut q = String::new();
                    push_str(&mut q, "(function_item name: (identifier) @name (#eq? @name \"");
                    push_str(&mut q, n.as_str());
                    push_str(&mut q, "\"))");
                    Some(q)
                },
                None => None,
            }
        } else if chars_are(&k, "struct_item") {
            match Self::extract_node_name(t, c, off, i) {
                Some(n) => {
                    let mut q = String::new();
                    push_str(&mut q, "(struct_item name: (type_identifier) @name (#eq? @name \"");
                    push_str(&mut q, n.as_str());
                    push_str(&mut q, "\"))");
                    Some(q)
                },
                None => None,
            }
        } else if chars_are(&k, "atx_heading") {
            let content = text_of(&trimmed_text(t, c, off, i));
            if str_byte_len(content.as_str()) < 100 {
                Some(owned("(atx_heading) @heading"))
            } else {
                None
            }
        } else {
            None
        }
    }
}

/// The JSON object a selector option stands for: `{"type": kind}`,
/// `{"line": l, "column": c}`, `{"name": n}`, `{"content": text}` or
/// `{"query": q}`.
#[derive(Debug)]
pub enum SelectorValue {
    Type { kind: String },
    Position { line: usize, column: usize },
    Name { name: String },
    Content { content: String },
    Query { query: String },
}

/// A [`SelectorValue`] as plain values.
pub enum SelectorValueView {
    Type(Seq<char>),
    Position(int, int),
    Name(Seq<char>),
    Content(Seq<char>),
    Query(Seq<char>),
}

impl View for SelectorValue {
    type V = SelectorValueView;

    open spec fn view(&self) -> SelectorValueView {
        match self {
            SelectorValue::Type { kind } => SelectorValueView::Type(kind@),
            SelectorValue::Position { line, column } => SelectorValueView::Position(*line as int, *column as int),
            SelectorValue::Name { name } => SelectorValueView::Name(name@),
            SelectorValue::Content { content } => SelectorValueView::Content(content@),
            SelectorValue::Query { query } => SelectorValueView::Query(query@),
        }
    }
}

/// One way to select a node: its type, a description, the value it
/// selects by, and how far to trust it, in hundredths.
#[derive(Debug)]
pub struct NodeSelector {
    pub selector_type: String,
    pub selector_value: SelectorValue,
    pub description: String,
    pub confidence: u8,
}

/// An edit worth making at a node: the operation, what it does, the
/// selector value to use, the confidence in hundredths, and an example call.
#[derive(Debug)]
pub struct EditRecommendation {
    pub target_node_id: usize,
    pub operation: String,
    pub description: String,
    pub selector: SelectorValue,
    pub confidence: u8,
    pub example_usage: String,
}

/// What the explorer reads of a node: its index in the tree, kind, a
/// preview of its text, its byte, line and character ranges, whether it is
/// named, how many children it has, the ways to select it, how suitable it
/// is as an edit target, and its role.
#[derive(Debug)]
pub struct ASTNodeInfo {
    pub id: usize,
    pub kind: String,
    pub text_preview: String,
    pub byte_range: (usize, usize),
    pub line_range: (usize, usize),
    pub char_range: (usize, usize),
    pub is_named: bool,
    pub child_count: usize,
    pub selector_options: Vec<NodeSelector>,
    pub edit_suitability: EditSuitability,
    pub semantic_role: Option<String>,
}

/// The node at a position, its surroundings, an explanation of its context
/// and the edits recommended there.
#[derive(Debug)]
pub struct ASTExplorationResult {
    pub focus_node: ASTNodeInfo,
    pub ancestors: Vec<ASTNodeInfo>,
    pub children: Vec<ASTNodeInfo>,
    pub siblings: Vec<ASTNodeInfo>,
    pub context_explanation: String,
    pub edit_recommendations: Vec<EditRecommendation>,
}

/// A role, or `structural` for nodes without one.
pub open spec fn role_text(r: Option<String>) -> Seq<char> {
    match r {
        Some(x) => x@,
        None => "structural"@,
    }
}

/// The `depth`-th line of the ancestry.
pub open spec fn ancestry_line(a: ASTNodeInfo, depth: nat) -> Seq<char> {
    "\n"@ + Seq::new(2 * depth, |_i: int| ' ') + a.kind@ + " ("@ + role_text(a.semantic_role) + ")"@
        + if a.text_preview@.len() > 0 && byte_len(a.text_preview@) < 50 {
        " - \""@ + a.text_preview@ + "\""@
    } else {
        seq![]
    }
}

pub open spec fn ancestry_lines(xs: Seq<ASTNodeInfo>, n: int) -> Seq<char>
    decreases n,
{
    if n <= 0 {
        seq![]
    } else {
        ancestry_lines(xs, n - 1) + ancestry_line(xs[n - 1], n as nat)
    }
}

/// The verdict on the focus node as an edit target.
pub open spec fn verdict_text(v: SuitabilityView) -> Seq<char> {
    match v {
        SuitabilityView::Excellent { reason } => "\n\n✅ Excellent edit target: "@ + reason,
        SuitabilityView::Good { reason, considerations } => "\n\n✓ Good edit target: "@ + reason + if considerations.len() > 0 {
            "\n   💡 Consider: "@ + join(considerations, ", "@)
        } else {
            seq![]
        },
        SuitabilityView::Poor { reason, better_alternatives } => "\n\n⚠️ Poor edit target: "@ + reason + if better_alternatives.len() > 0 {
            "\n   💡 Try instead: "@ + join(better_alternatives, ", "@)
        } else {
            seq![]
        },
        SuitabilityView::Terrible { reason, why_avoid } => "\n\n❌ Avoid editing this: "@ + reason + "\n   🚫 "@ + why_avoid,
    }
}

/// An explanation of the focus node: what it is, where, the ancestry from
/// the inside out, and how good an edit target it is.
pub open spec fn context_explanation(focus: ASTNodeInfo, ancestors: Seq<ASTNodeInfo>) -> Seq<char> {
    "🎯 Focus: "@ + focus.kind@ + " ("@ + role_text(focus.semantic_role) + ")"@ + (if focus.text_preview@.len() > 0 {
        "\n   Content: \""@ + focus.text_preview@ + "\""@
    } else {
        seq![]
    }) + "\n   Position: lines "@ + decimal(focus.line_range.0 as nat) + "-"@ + decimal(focus.line_range.1 as nat)
        + ", chars "@ + decimal(focus.char_range.0 as nat) + "-"@ + decimal(focus.char_range.1 as nat) + (if ancestors.len() > 0 {
        "\n\n📍 Context hierarchy (inner → outer):"@ + ancestry_lines(ancestors, ancestors.len() as int)
    } else {
        seq![]
    }) + verdict_text(focus.edit_suitability@)
}

fn push_role(out: &mut String, r: &Option<String>)
    ensures
        final(out)@ == old(out)@ + role_text(*r),
{
    match r {
        Some(x) => push_str(out, x.as_str()),
        None => push_str(out, "structural"),
    }
}

fn push_ancestry_line(out: &mut String, a: &ASTNodeInfo, depth: usize)
    ensures
        final(out)@ == old(out)@ + ancestry_line(*a, depth as nat),
{
    let ghost start = out@;
    push_str(out, "\n");
    let mut k: usize = 0;
    while k < depth
        invariant
            k <= depth,
            out@ == start + "\n"@ + Seq::new(2 * k as nat, |_i: int| ' '),
        decreases depth - k,
    {
        push_str(out, "  ");
        proof {
            reveal_strlit("  ");
            assert(out@ =~= start + "\n"@ + Seq::new(2 * (k + 1) as nat, |_i: int| ' '));
        }
        k += 1;
    }
    push_str(out, a.kind.as_str());
    push_str(out, " (");
    push_role(out, &a.semantic_role);
    push_str(out, ")");
    let pc = chars_of(a.text_preview.as_str());
    if pc.len() > 0 && str_byte_len(a.text_preview.as_str()) < 50 {
        push_str(out, " - \"");
        push_str(out, a.text_preview.as_str());
        push_str(out, "\"");
    }
    proof {
        assert(out@ =~= start + ancestry_line(*a, depth as nat));
    }
}

fn push_verdict(out: &mut String, v: &EditSuitability)
    ensures
        final(out)@ == old(out)@ + verdict_text(v@),
{
    let ghost start = out@;
    match v {
        EditSuitability::Excellent { reason } => {
            push_str(out, "\n\n✅ Excellent edit target: ");
            push_str(out, reason.as_str());
        },
        EditSuitability::Good { reason, considerations } => {
            push_str(out, "\n\n✓ Good edit target: ");
            push_str(out, reason.as_str());
            if considerations.len() > 0 {
                push_str(out, "\n   💡 Consider: ");
                push_str(out, join_strings(considerations, ", ").as_str());
            }
        },
        EditSuitability::Poor { reason, better_alternatives } => {
            push_str(out, "\n\n⚠️ Poor edit target: ");
            push_str(out, reason.as_str());
            if better_alternatives.len() > 0 {
                push_str(out, "\n   💡 Try instead: ");
                push_str(out, join_strings(better_alternatives, ", ").as_str());
            }
        },
        EditSuitability::Terrible { reason, why_avoid } => {
            push_str(out, "\n\n❌ Avoid editing this: ");
            push_str(out, reason.as_str());
            push_str(out, "\n   🚫 ");
            push_str(out, why_avoid.as_str());
        },
    }
    proof {
        assert(out@ =~= start + verdict_text(v@));
    }
}

impl ASTExplorer {
    /// An explanation of the focus node in its context (see
    /// [`context_explanation`]).
    pub fn generate_context_explanation(focus: &ASTNodeInfo, ancestors: &Vec<ASTNodeInfo>, _language: &str) -> (r: String)
        ensures
            r@ == context_explanation(*focus, ancestors@),
    {
        let mut out = String::new();
        push_str(&mut out, "🎯 Focus: ");
        push_str(&mut out, focus.kind.as_str());
        push_str(&mut out, " (");
        push_role(&mut out, &focus.semantic_role);
        push_str(&mut out, ")");
        if chars_of(focus.text_preview.as_str()).len() > 0 {
            push_str(&mut out, "\n   Content: \"");
            push_str(&mut out, focus.text_preview.as_str());
            push_str(&mut out, "\"");
        }
        push_str(&mut out, "\n   Position: lines ");
        push_decimal(&mut out, focus.line_range.0);
        push_str(&mut out, "-");
        push_decimal(&mut out, focus.line_range.1);
        push_str(&mut out, ", chars ");
        push_decimal(&mut out, focus.char_range.0);
        push_str(&mut out, "-");
        push_decimal(&mut out, focus.char_range.1);
        let ghost head = out@;
        if ancestors.len() > 0 {
            push_str(&mut out, "\n\n📍 Context hierarchy (inner → outer):");
            let ghost lines_start = out@;
            let mut i: usize = 0;
            while i < ancestors.len()
                invariant
                    i <= ancestors@.len(),
                    out@ == lines_start + ancestry_lines(ancestors@, i as int),
                decreases ancestors@.len() - i,
            {
                push_ancestry_line(&mut out, &ancestors[i], i + 1);
                i += 1;
            }
        }
        push_verdict(&mut out, &focus.edit_suitability);
        proof {
            assert(out@ =~= context_explanation(*focus, ancestors@));
        }
        out
    }
}

/// A lowercase hexadecimal digit.
pub open spec fn hex_digit(d: int) -> char {
    if d < 10 {
        ('0' as int + d) as char
    } else {
        ('a' as int + d - 10) as char
    }
}

/// How serde_json writes one character inside a JSON string: `"` and `\`
/// behind a backslash, the control characters with a short escape as that
/// escape, the other control characters as `\u00` and two hex digits, and
/// every other character as itself.
pub open spec fn json_char(c: char) -> Seq<char> {
    if c == '"' {
        seq!['\\', '"']
    } else if c == '\\' {
        seq!['\\', '\\']
    } else if c == '\u{8}' {
        seq!['\\', 'b']
    } else if c == '\t' {
        seq!['\\', 't']
    } else if c == '\n' {
        seq!['\\', 'n']
    } else if c == '\u{c}' {
        seq!['\\', 'f']
    } else if c == '\r' {
        seq!['\\', 'r']
    } else if (c as int) < 0x20 {
        seq!['\\', 'u', '0', '0', hex_digit((c as int) / 16), hex_digit((c as int) % 16)]
    } else {
        seq![c]
    }
}

/// The characters of `s` as serde_json escapes them inside a string.
pub open spec fn json_escaped(s: Seq<char>) -> Seq<char>
    decreases s.len(),
{
    if s.len() == 0 {
        seq![]
    } else {
        json_escaped(s.drop_last()) + json_char(s.last())
    }
}

/// A JSON string literal of `s`.
pub open spec fn json_string(s: Seq<char>) -> Seq<char> {
    seq!['"'] + json_escaped(s) + seq!['"']
}

/// The compact JSON text serde_json writes for the object `{key: value}`
/// whose value is the string `value`.
pub open spec fn json_pair_text(key: Seq<char>, value: Seq<char>) -> Seq<char> {
    seq!['{'] + json_string(key) + seq![':'] + json_string(value) + seq!['}']
}

/// The compact JSON text serde_json writes for the object with the numbers
/// `line` and `column`: its map orders keys (as it is built here, without the
/// `preserve_order` feature), so `column` comes first.
pub open spec fn json_position_text(line: nat, column: nat) -> Seq<char> {
    "{\"column\":"@ + decimal(column) + ",\"line\":"@ + decimal(line) + seq!['}']
}

/// `Value::to_string` of a one-entry JSON object with a string value: the
/// compact text, with both strings escaped as serde_json escapes them.
#[verifier::external_body]
fn json_pair(key: &str, value: &str) -> (r: String)
    ensures
        r@ == json_pair_text(key@, value@),
{
    let mut m = serde_json::Map::new();
    m.insert(key.to_string(), serde_json::Value::String(value.to_string()));
    serde_json::Value::Object(m).to_string()
}

/// `Value::to_string` of the JSON object `{"line": line, "column": column}`:
/// the compact text with the keys in serde_json's map order.
#[verifier::external_body]
fn json_position(line: usize, column: usize) -> (r: String)
    ensures
        r@ == json_position_text(line as nat, column as nat),
{
    let mut m = serde_json::Map::new();
    m.insert("line".to_string(), serde_json::Value::from(line));
    m.insert("column".to_string(), serde_json::Value::from(column));
    serde_json::Value::Object(m).to_string()
}

/// The JSON text of a selector value.
pub open spec fn value_json(v: SelectorValueView) -> Seq<char> {
    match v {
        SelectorValueView::Type(k) => json_pair_text("type"@, k),
        SelectorValueView::Position(l, c) => json_position_text(l as nat, c as nat),
        SelectorValueView::Name(n) => json_pair_text("name"@, n),
        SelectorValueView::Content(x) => json_pair_text("content"@, x),
        SelectorValueView::Query(q) => json_pair_text("query"@, q),
    }
}

impl SelectorValue {
    /// The same value.
    pub fn copy(&self) -> (v: SelectorValue)
        ensures
            v@ == self@,
    {
        match self {
            SelectorValue::Type { kind } => SelectorValue::Type { kind: owned(kind.as_str()) },
            SelectorValue::Position { line, column } => SelectorValue::Position { line: *line, column: *column },
            SelectorValue::Name { name } => SelectorValue::Name { name: owned(name.as_str()) },
            SelectorValue::Content { content } => SelectorValue::Content { content: owned(content.as_str()) },
            SelectorValue::Query { query } => SelectorValue::Query { query: owned(query.as_str()) },
        }
    }

    /// The value as JSON text (see [`value_json`]).
    pub fn to_json(&self) -> (r: String)
        ensures
            r@ == value_json(self@),
    {
        match self {
            SelectorValue::Type { kind } => json_pair("type", kind.as_str()),
            SelectorValue::Position { line, column } => json_position(*line, *column),
            SelectorValue::Name { name } => json_pair("name", name.as_str()),
            SelectorValue::Content { content } => json_pair("content", content.as_str()),
            SelectorValue::Query { query } => json_pair("query", query.as_str()),
        }
    }
}

/// The row of byte `b` among the first `n` characters of `s` (the line
/// breaks before it) and the byte after the last of those breaks.
pub open spec fn row_and_line_start(s: Seq<char>, b: int, n: int) -> (int, int)
    decreases n,
{
    if n <= 0 {
        (0, 0)
    } else {
        let (r, ls) = row_and_line_start(s, b, n - 1);
        if s[n - 1] == '\n' && byte_at(s, n - 1) < b {
            (r + 1, byte_at(s, n) as int)
        } else {
            (r, ls)
        }
    }
}

/// The 1-based line and byte column tree-sitter gives byte `b` of `s` (a
/// byte past the end counts as the end).
pub open spec fn start_point(s: Seq<char>, b: int) -> (int, int) {
    let (r, ls) = row_and_line_start(s, b, s.len() as int);
    let e = if b <= byte_len(s) {
        b
    } else {
        byte_len(s) as int
    };
    (r + 1, e - ls + 1)
}

fn start_point_exec(c: &Vec<char>, off: &Vec<usize>, b: usize) -> (r: (usize, usize))
    requires
        offsets_of(c@, off@),
        c@.len() < usize::MAX,
        byte_len(c@) < usize::MAX,
    ensures
        (r.0 as int, r.1 as int) == start_point(c@, b as int),
{
    let mut row: usize = 0;
    let mut ls: usize = 0;
    let mut i: usize = 0;
    while i < c.len()
        invariant
            i <= c@.len() < usize::MAX,
            offsets_of(c@, off@),
            (row as int, ls as int) == row_and_line_start(c@, b as int, i as int),
            row <= i,
            ls <= byte_len(c@),
            ls == 0 || ls <= b,
        decreases c@.len() - i,
    {
        if c[i] == '\n' && off[i] < b {
            proof {
                lemma_byte_at_mono(c@, i + 1, c@.len() as int);
                assert(byte_at(c@, i + 1) == byte_at(c@, i as int) + 1) by {
                    assert(c@.take(i + 1) =~= c@.take(i as int).push(c@[i as int]));
                    crate::text::lemma_byte_len_push(c@.take(i as int), c@[i as int]);
                }
            }
            row = row + 1;
            ls = off[i + 1];
        }
        i += 1;
    }
    let total = off[c.len()];
    assert(c@.take(c@.len() as int) =~= c@);
    assert(total == byte_len(c@));
    let e = if b <= total {
        b
    } else {
        total
    };
    (row + 1, e - ls + 1)
}

/// The text a node shows: up to byte 147 and `...` when its text is longer
/// than 150 bytes, else the whole text with line feeds written `\n`.
pub open spec fn text_preview(text: Seq<char>) -> Seq<char> {
    if byte_len(text) > 150 {
        text.take(char_at_byte(text, 147, text.len() as int)) + "..."@
    } else {
        replace_all(text, "\n"@, "\\n"@)
    }
}

fn text_preview_exec(text: &Vec<char>) -> (r: String)
    ensures
        r@ == text_preview(text@),
{
    let s = string_from_chars(text.as_slice());
    let n = str_byte_len(s.as_str());
    if n > 150 {
        let off = byte_offsets(text.as_slice());
        let k = char_of_byte(text, &off, 147);
        let head = slice_chars(text, 0, k);
        let mut r = string_from_chars(head.as_slice());
        push_str(&mut r, "...");
        assert(head@ =~= text@.take(k as int));
        r
    } else {
        let nl = chars_of("\n");
        let esc = chars_of("\\n");
        proof {
            reveal_strlit("\n");
        }
        let w = replace_all_chars(text, &nl, &esc);
        string_from_chars(w.as_slice())
    }
}

/// The children of node `p` among the first `n` nodes, in order, leaving
/// out node `skip`.
pub open spec fn children_upto(t: Seq<SyntaxNode>, p: int, skip: int, n: int) -> Seq<usize>
    decreases n,
{
    if n <= 0 {
        seq![]
    } else {
        children_upto(t, p, skip, n - 1) + if t[n - 1].parent == Some(p as usize) && n - 1 != skip {
            seq![(n - 1) as usize]
        } else {
            seq![]
        }
    }
}

/// The children of node `p`, in order.
pub open spec fn children_of(t: Seq<SyntaxNode>, p: int) -> Seq<usize> {
    children_upto(t, p, -1, t.len() as int)
}

proof fn lemma_children_bound(t: Seq<SyntaxNode>, p: int, skip: int, n: int)
    requires
        n <= t.len(),
    ensures
        forall|k: int| 0 <= k < children_upto(t, p, skip, n).len() ==> #[trigger] children_upto(t, p, skip, n)[k] < n,
    decreases n,
{
    if n > 0 {
        lemma_children_bound(t, p, skip, n - 1);
        let before = children_upto(t, p, skip, n - 1);
        assert forall|k: int| 0 <= k < children_upto(t, p, skip, n).len() implies #[trigger] children_upto(t, p, skip, n)[k] < n by {
            if k < before.len() {
                assert(children_upto(t, p, skip, n)[k] == before[k]);
            }
        }
    }
}

fn children_exec(t: &SyntaxTree, p: usize, skip: Option<usize>) -> (r: Vec<usize>)
    ensures
        r@ == children_upto(t.nodes@, p as int, match skip {
            Some(x) => x as int,
            None => -1,
        }, t.nodes@.len() as int),
        forall|k: int| 0 <= k < r@.len() ==> #[trigger] r@[k] < t.nodes@.len(),
{
    let ghost sk: int = match skip {
        Some(x) => x as int,
        None => -1,
    };
    let mut r: Vec<usize> = Vec::new();
    let mut j: usize = 0;
    while j < t.nodes.len()
        invariant
            j <= t.nodes@.len(),
            r@ == children_upto(t.nodes@, p as int, sk, j as int),
            sk == (match skip {
                Some(x) => x as int,
                None => -1,
            }),
        decreases t.nodes@.len() - j,
    {
        let skipped = match skip {
            Some(x) => x == j,
            None => false,
        };
        if t.nodes[j].parent == Some(p) && !skipped {
            r.push(j);
        }
        j += 1;
        proof {
            assert(r@ =~= children_upto(t.nodes@, p as int, sk, j as int));
        }
    }
    proof {
        lemma_children_bound(t.nodes@, p as int, sk, t.nodes@.len() as int);
    }
    r
}

/// The ancestors of node `j`, from its parent outward, at most `n` of them.
pub open spec fn ancestors_from(t: Seq<SyntaxNode>, j: int, n: nat) -> Seq<usize>
    decreases n,
{
    if n == 0 || !(0 <= j < t.len()) {
        seq![]
    } else {
        match t[j].parent {
            Some(p) => seq![p] + ancestors_from(t, p as int, (n - 1) as nat),
            None => seq![],
        }
    }
}

/// A selector option as plain values: its type, value, description and
/// confidence.
pub open spec fn option_view(o: NodeSelector) -> (Seq<char>, SelectorValueView, Seq<char>, int) {
    (o.selector_type@, o.selector_value@, o.description@, o.confidence as int)
}

pub open spec fn options_view(v: Seq<NodeSelector>) -> Seq<(Seq<char>, SelectorValueView, Seq<char>, int)> {
    v.map_values(|o: NodeSelector| option_view(o))
}

/// The ways to select node `i`: by type, by position, by name where it has
/// one, by content where its text is short (under 100 bytes, not blank, at
/// most three lines), and by query where one can be written.
pub open spec fn selector_options(t: Seq<SyntaxNode>, c: Seq<char>, i: int) -> Seq<(Seq<char>, SelectorValueView, Seq<char>, int)> {
    let k = t[i].kind@;
    let pt = start_point(c, t[i].start as int);
    let base = seq![
        ("type"@, SelectorValueView::Type(k), "Select by node type: "@ + k, 70int),
        ("position"@, SelectorValueView::Position(pt.0, pt.1), "Select by exact position (fragile to edits)"@, 90int),
    ];
    let named = match node_name(t, c, i) {
        Some(n) => base.push(("name"@, SelectorValueView::Name(n), "Select by name: "@ + n, 95int)),
        None => base,
    };
    let text = node_text(t, c, i);
    let with_content = if byte_len(text) < 100 && trim(text).len() > 0 && line_spans(text, 0).len() <= 3 {
        named.push(("content"@, SelectorValueView::Content(trim(text)), "Select by exact content match"@, 80int))
    } else {
        named
    };
    match query_selector(t, c, i) {
        Some(q) => with_content.push(("query"@, SelectorValueView::Query(q), "Select using tree-sitter query"@, 85int)),
        None => with_content,
    }
}

fn option(selector_type: &str, selector_value: SelectorValue, description: String, confidence: u8) -> (o: NodeSelector)
    ensures
        option_view(o) == (selector_type@, selector_value@, description@, confidence as int),
{
    NodeSelector { selector_type: owned(selector_type), selector_value, description, confidence }
}

fn prefixed(head: &str, tail: &str) -> (r: String)
    ensures
        r@ == head@ + tail@,
{
    let mut r = String::new();
    push_str(&mut r, head);
    push_str(&mut r, tail);
    r
}

/// What node `i` is, as the explorer reads it.
pub open spec fn analyzed_as(r: ASTNodeInfo, t: Seq<SyntaxNode>, c: Seq<char>, language: Seq<char>, i: int) -> bool {
    let n = t[i];
    &&& r.id == i
    &&& r.kind@ == n.kind@
    &&& r.text_preview@ == text_preview(node_text(t, c, i))
    &&& r.byte_range == (n.start, n.end)
    &&& r.line_range.0 == line_at(c, n.start as int)
    &&& r.line_range.1 == line_at(c, n.end as int)
    &&& r.char_range.0 == char_at_byte(c, n.start as int, c.len() as int)
    &&& r.char_range.1 == char_at_byte(c, n.end as int, c.len() as int)
    &&& r.is_named == n.named
    &&& r.child_count == children_of(t, i).len()
    &&& options_view(r.selector_options@) == selector_options(t, c, i)
    &&& r.edit_suitability@ == suitability(language, n.kind@)
    &&& opt_view(r.semantic_role) == semantic_role(t, c, language, i)
}

/// Each of `r` is what the explorer reads of the node of `ids` at its place.
pub open spec fn analyzed_all(r: Seq<ASTNodeInfo>, t: Seq<SyntaxNode>, c: Seq<char>, language: Seq<char>, ids: Seq<usize>) -> bool {
    &&& r.len() == ids.len()
    &&& forall|k: int| 0 <= k < r.len() ==> analyzed_as(#[trigger] r[k], t, c, language, ids[k] as int)
}

impl ASTExplorer {
    /// The ways to select node `i` (see [`selector_options`]).
    pub fn generate_selector_options(t: &SyntaxTree, c: &Vec<char>, off: &Vec<usize>, i: usize) -> (r: Vec<NodeSelector>)
        requires
            offsets_of(c@, off@),
            i < t.nodes@.len(),
            c@.len() < usize::MAX,
            byte_len(c@) < usize::MAX,
        ensures
            options_view(r@) == selector_options(t.nodes@, c@, i as int),
    {
        let kind = t.nodes[i].kind.as_str();
        let mut r: Vec<NodeSelector> = Vec::new();
        r.push(option("type", SelectorValue::Type { kind: owned(kind) }, prefixed("Select by node type: ", kind), 70));
        let pt = start_point_exec(c, off, t.nodes[i].start);
        r.push(
            option(
                "position",
                SelectorValue::Position { line: pt.0, column: pt.1 },
                owned("Select by exact position (fragile to edits)"),
                90,
            ),
        );
        let ghost k = t.nodes@[i as int].kind@;
        let ghost p = start_point(c@, t.nodes@[i as int].start as int);
        let ghost base = seq![
            ("type"@, SelectorValueView::Type(k), "Select by node type: "@ + k, 70int),
            ("position"@, SelectorValueView::Position(p.0, p.1), "Select by exact position (fragile to edits)"@, 90int),
        ];
        assert(options_view(r@) =~= base);
        match Self::extract_node_name(t, c, off, i) {
            Some(n) => {
                let d = prefixed("Select by name: ", n.as_str());
                r.push(option("name", SelectorValue::Name { name: n }, d, 95));
            },
            None => {},
        }
        let ghost named = match node_name(t.nodes@, c@, i as int) {
            Some(n) => base.push(("name"@, SelectorValueView::Name(n), "Select by name: "@ + n, 95int)),
            None => base,
        };
        assert(options_view(r@) =~= named);
        let text = node_text_exec(t, c, off, i);
        let bytes = str_byte_len(string_from_chars(text.as_slice()).as_str());
        let (a, b) = trim_range(text.as_slice(), 0, text.len());
        assert(text@.subrange(0, text@.len() as int) =~= text@);
        let lines = crate::text::line_spans_of(text.as_slice()).len();
        if bytes < 100 && a < b && lines <= 3 {
            let trimmed = string_from_chars(slice_chars(&text, a, b).as_slice());
            r.push(
                option(
                    "content",
                    SelectorValue::Content { content: trimmed },
                    owned("Select by exact content match"),
                    80,
                ),
            );
        }
        let ghost text_v = node_text(t.nodes@, c@, i as int);
        let ghost with_content = if byte_len(text_v) < 100 && trim(text_v).len() > 0 && line_spans(text_v, 0).len() <= 3 {
            named.push(("content"@, SelectorValueView::Content(trim(text_v)), "Select by exact content match"@, 80int))
        } else {
            named
        };
        assert(options_view(r@) =~= with_content);
        match Self::generate_query_selector(t, c, off, i) {
            Some(q) => {
                r.push(option("query", SelectorValue::Query { query: q }, owned("Select using tree-sitter query"), 85));
            },
            None => {},
        }
        assert(options_view(r@) =~= selector_options(t.nodes@, c@, i as int));
        r
    }

    /// What the explorer reads of node `i` (see [`analyzed_as`]).
    pub fn analyze_node(t: &SyntaxTree, c: &Vec<char>, off: &Vec<usize>, language: &str, i: usize) -> (r: ASTNodeInfo)
        requires
            offsets_of(c@, off@),
            i < t.nodes@.len(),
            c@.len() < usize::MAX,
            byte_len(c@) < usize::MAX,
        ensures
            analyzed_as(r, t.nodes@, c@, language@, i as int),
    {
        let text = node_text_exec(t, c, off, i);
        let text_preview = text_preview_exec(&text);
        let selector_options = Self::generate_selector_options(t, c, off, i);
        let edit_suitability = Self::assess_edit_suitability(language, t.nodes[i].kind.as_str());
        let semantic_role = Self::identify_semantic_role(t, c, off, language, i);
        let start = t.nodes[i].start;
        let end = t.nodes[i].end;
        let start_char = char_of_byte(c, off, start);
        let end_char = char_of_byte(c, off, end);
        let line_range = (line_at_exec(c, off, start), line_at_exec(c, off, end));
        let child_count = children_exec(t, i, None).len();
        ASTNodeInfo {
            id: i,
            kind: owned(t.nodes[i].kind.as_str()),
            text_preview,
            byte_range: (start, end),
            line_range,
            char_range: (start_char, end_char),
            is_named: t.nodes[i].named,
            child_count,
            selector_options,
            edit_suitability,
            semantic_role,
        }
    }
}

impl ASTExplorer {
    fn analyze_all(t: &SyntaxTree, c: &Vec<char>, off: &Vec<usize>, language: &str, ids: &Vec<usize>) -> (r: Vec<ASTNodeInfo>)
        requires
            offsets_of(c@, off@),
            c@.len() < usize::MAX,
            byte_len(c@) < usize::MAX,
            forall|k: int| 0 <= k < ids@.len() ==> #[trigger] ids@[k] < t.nodes@.len(),
        ensures
            analyzed_all(r@, t.nodes@, c@, language@, ids@),
    {
        let mut r: Vec<ASTNodeInfo> = Vec::new();
        let mut k: usize = 0;
        while k < ids.len()
            invariant
                k <= ids@.len(),
                offsets_of(c@, off@),
                c@.len() < usize::MAX,
                byte_len(c@) < usize::MAX,
                forall|q: int| 0 <= q < ids@.len() ==> #[trigger] ids@[q] < t.nodes@.len(),
                analyzed_all(r@, t.nodes@, c@, language@, ids@.take(k as int)),
            decreases ids@.len() - k,
        {
            let x = Self::analyze_node(t, c, off, language, ids[k]);
            r.push(x);
            k += 1;
            proof {
                let taken = ids@.take(k as int);
                assert forall|q: int| 0 <= q < r@.len() implies analyzed_as(#[trigger] r@[q], t.nodes@, c@, language@, taken[q] as int) by {
                    assert(taken[q] == ids@[q]);
                    if q < r@.len() - 1 {
                        assert(ids@.take(k - 1)[q] == ids@[q]);
                    }
                }
            }
        }
        assert(ids@.take(ids@.len() as int) =~= ids@);
        r
    }

    /// What the explorer reads of the ancestors of node `i`, from its parent
    /// outward, at most 21 of them (see [`ancestors_from`]).
    pub fn collect_ancestors(t: &SyntaxTree, c: &Vec<char>, off: &Vec<usize>, language: &str, i: usize) -> (r: Vec<ASTNodeInfo>)
        requires
            t.wf(),
            offsets_of(c@, off@),
            i < t.nodes@.len(),
            c@.len() < usize::MAX,
            byte_len(c@) < usize::MAX,
        ensures
            analyzed_all(r@, t.nodes@, c@, language@, ancestors_from(t.nodes@, i as int, 21)),
    {
        let mut ids: Vec<usize> = Vec::new();
        let mut cur = i;
        let mut left: usize = 21;
        while left > 0
            invariant
                t.wf(),
                cur < t.nodes@.len(),
                left <= 21,
                forall|k: int| 0 <= k < ids@.len() ==> #[trigger] ids@[k] < t.nodes@.len(),
                ids@ + ancestors_from(t.nodes@, cur as int, left as nat) == ancestors_from(t.nodes@, i as int, 21),
            ensures
                forall|k: int| 0 <= k < ids@.len() ==> #[trigger] ids@[k] < t.nodes@.len(),
                ids@ == ancestors_from(t.nodes@, i as int, 21),
            decreases left,
        {
            match t.nodes[cur].parent {
                Some(p) => {
                    assert(ancestors_from(t.nodes@, cur as int, left as nat) == seq![p] + ancestors_from(
                        t.nodes@,
                        p as int,
                        (left - 1) as nat,
                    ));
                    let ghost before = ids@;
                    ids.push(p);
                    assert(before + (seq![p] + ancestors_from(t.nodes@, p as int, (left - 1) as nat)) =~= ids@
                        + ancestors_from(t.nodes@, p as int, (left - 1) as nat));
                    cur = p;
                    left = left - 1;
                    proof {
                        if left == 0 {
                            assert(ids@ + Seq::<usize>::empty() =~= ids@);
                        }
                    }
                },
                None => {
                    assert(ancestors_from(t.nodes@, cur as int, left as nat) == Seq::<usize>::empty());
                    assert(ids@ + Seq::<usize>::empty() =~= ids@);
                    break;
                },
            }
        }
        Self::analyze_all(t, c, off, language, &ids)
    }

    /// What the explorer reads of the children of node `i`, in order.
    pub fn collect_children(t: &SyntaxTree, c: &Vec<char>, off: &Vec<usize>, language: &str, i: usize) -> (r: Vec<ASTNodeInfo>)
        requires
            offsets_of(c@, off@),
            c@.len() < usize::MAX,
            byte_len(c@) < usize::MAX,
        ensures
            analyzed_all(r@, t.nodes@, c@, language@, children_of(t.nodes@, i as int)),
    {
        let ids = children_exec(t, i, None);
        Self::analyze_all(t, c, off, language, &ids)
    }

    /// What the explorer reads of the other children of node `i`'s parent,
    /// in order; none for the root.
    pub fn collect_siblings(t: &SyntaxTree, c: &Vec<char>, off: &Vec<usize>, language: &str, i: usize) -> (r: Vec<ASTNodeInfo>)
        requires
            offsets_of(c@, off@),
            i < t.nodes@.len(),
            c@.len() < usize::MAX,
            byte_len(c@) < usize::MAX,
        ensures
            analyzed_all(r@, t.nodes@, c@, language@, match t.nodes@[i as int].parent {
                Some(p) => children_upto(t.nodes@, p as int, i as int, t.nodes@.len() as int),
                None => seq![],
            }),
    {
        match t.nodes[i].parent {
            Some(p) => {
                let ids = children_exec(t, p, Some(i));
                Self::analyze_all(t, c, off, language, &ids)
            },
            None => Vec::new(),
        }
    }
}

/// A recommendation as plain values: target, operation, description,
/// selector value, confidence and example.
pub open spec fn rec_view(r: EditRecommendation) -> (int, Seq<char>, Seq<char>, SelectorValueView, int, Seq<char>) {
    (r.target_node_id as int, r.operation@, r.description@, r.selector@, r.confidence as int, r.example_usage@)
}

pub open spec fn recs_view(v: Seq<EditRecommendation>) -> Seq<(int, Seq<char>, Seq<char>, SelectorValueView, int, Seq<char>)> {
    v.map_values(|r: EditRecommendation| rec_view(r))
}

/// A recommendation that selects by node type.
pub open spec fn type_rec(id: int, op: Seq<char>, desc: Seq<char>, kind: Seq<char>, confidence: int, example: Seq<char>) -> (
    int,
    Seq<char>,
    Seq<char>,
    SelectorValueView,
    int,
    Seq<char>,
) {
    (id, op, desc, SelectorValueView::Type(kind), confidence, example)
}

/// The first of `xs` from `k` on that is an excellent or good edit target.
pub open spec fn first_strong(xs: Seq<ASTNodeInfo>, k: int) -> Option<int>
    decreases xs.len() - k,
{
    if k < 0 || k >= xs.len() {
        None
    } else if xs[k].edit_suitability@ is Excellent || xs[k].edit_suitability@ is Good {
        Some(k)
    } else {
        first_strong(xs, k + 1)
    }
}

/// The value of a node's first selector option, or its type when it has none.
pub open spec fn first_value(a: ASTNodeInfo) -> SelectorValueView {
    if a.selector_options@.len() > 0 {
        a.selector_options@[0].selector_value@
    } else {
        SelectorValueView::Type(a.kind@)
    }
}

/// For a poor or terrible focus, replacing its nearest good ancestor.
pub open spec fn ancestor_recommendations(focus: ASTNodeInfo, ancestors: Seq<ASTNodeInfo>) -> Seq<(int, Seq<char>, Seq<char>, SelectorValueView, int, Seq<char>)> {
    if focus.edit_suitability@ is Terrible || focus.edit_suitability@ is Poor {
        match first_strong(ancestors, 0) {
            Some(k) => {
                let a = ancestors[k];
                seq![(
                    a.id as int,
                    "replace_node"@,
                    "Replace "@ + a.kind@ + " instead of "@ + focus.kind@,
                    first_value(a),
                    90int,
                    "replace_node(file, "@ + value_json(first_value(a)) + ", new_content)"@,
                )]
            },
            None => seq![],
        }
    } else {
        seq![]
    }
}

/// The recommendations for a Markdown focus, by its kind.
pub open spec fn markdown_recommendations(focus: ASTNodeInfo) -> Seq<(int, Seq<char>, Seq<char>, SelectorValueView, int, Seq<char>)> {
    let id = focus.id as int;
    let k = focus.kind@;
    if k == "atx_heading"@ {
        seq![
            type_rec(id, "replace_node"@, "Replace heading text"@, "atx_heading"@, 95, "replace_node(file, {\"type\": \"atx_heading\"}, \"# New Heading\")"@),
            type_rec(id, "insert_after_node"@, "Add content after this heading"@, "atx_heading"@, 90, "insert_after_node(file, {\"type\": \"atx_heading\"}, \"\\n\\nNew content\")"@),
        ]
    } else if k == "list"@ {
        seq![type_rec(id, "insert_after_node"@, "Add new item to this list"@, "list"@, 90, "insert_after_node(file, {\"type\": \"list\"}, \"\\n- New item\")"@)]
    } else if k == "list_item"@ {
        seq![type_rec(id, "replace_node"@, "Replace this list item"@, "list_item"@, 85, "replace_node(file, {\"type\": \"list_item\"}, \"- Updated item\")"@)]
    } else if k == "section"@ {
        seq![type_rec(id, "insert_after_node"@, "Add new section after this one"@, "section"@, 80, "insert_after_node(file, {\"type\": \"section\"}, \"\\n\\n## New Section\\n\\nContent\")"@)]
    } else {
        seq![]
    }
}

/// The first of a node's selector options, from `k` on, that selects by name.
pub open spec fn first_named(opts: Seq<NodeSelector>, k: int) -> Option<int>
    decreases opts.len() - k,
{
    if k < 0 || k >= opts.len() {
        None
    } else if opts[k].selector_type@ == "name"@ {
        Some(k)
    } else {
        first_named(opts, k + 1)
    }
}

/// The recommendations for a Rust focus, by its kind.
pub open spec fn rust_recommendations(focus: ASTNodeInfo) -> Seq<(int, Seq<char>, Seq<char>, SelectorValueView, int, Seq<char>)> {
    let id = focus.id as int;
    let k = focus.kind@;
    if k == "function_item"@ {
        let whole = seq![type_rec(id, "replace_node"@, "Replace entire function"@, "function_item"@, 95, "replace_node(file, {\"type\": \"function_item\"}, \"fn new_function() { ... }\")"@)];
        match first_named(focus.selector_options@, 0) {
            Some(j) => {
                let v = focus.selector_options@[j].selector_value@;
                whole.push((id, "replace_node"@, "Replace function by name (safer)"@, v, 98int, "replace_node(file, "@ + value_json(v) + ", \"fn new_function() { ... }\")"@))
            },
            None => whole,
        }
    } else if k == "impl_item"@ {
        seq![type_rec(id, "insert_after_impl"@, "Add method to impl block"@, "impl_item"@, 90, "insert_after_impl(file, impl_type, \"fn new_method(&self) { ... }\")"@)]
    } else {
        seq![]
    }
}

/// The recommendations for a JSON focus, by its kind.
pub open spec fn json_recommendations(focus: ASTNodeInfo) -> Seq<(int, Seq<char>, Seq<char>, SelectorValueView, int, Seq<char>)> {
    let id = focus.id as int;
    let k = focus.kind@;
    if k == "object"@ {
        seq![type_rec(id, "insert_after_node"@, "Add property to JSON object"@, "object"@, 85, "insert_after_node(file, {\"type\": \"object\"}, \", \\\"new_key\\\": \\\"value\\\"\")"@)]
    } else if k == "array"@ {
        seq![type_rec(id, "insert_after_node"@, "Add item to JSON array"@, "array"@, 85, "insert_after_node(file, {\"type\": \"array\"}, \", \\\"new_item\\\"\")"@)]
    } else {
        seq![]
    }
}

/// The edits recommended at a focus: its nearest good ancestor when the
/// focus is a poor target, then those for its language and kind.
pub open spec fn edit_recommendations(focus: ASTNodeInfo, ancestors: Seq<ASTNodeInfo>, language: Seq<char>) -> Seq<(int, Seq<char>, Seq<char>, SelectorValueView, int, Seq<char>)> {
    ancestor_recommendations(focus, ancestors) + if language == "markdown"@ {
        markdown_recommendations(focus)
    } else if language == "rust"@ {
        rust_recommendations(focus)
    } else if language == "json"@ {
        json_recommendations(focus)
    } else {
        seq![]
    }
}

fn type_recommendation(id: usize, op: &str, desc: &str, kind: &str, confidence: u8, example: &str) -> (r: EditRecommendation)
    ensures
        rec_view(r) == type_rec(id as int, op@, desc@, kind@, confidence as int, example@),
{
    EditRecommendation {
        target_node_id: id,
        operation: owned(op),
        description: owned(desc),
        selector: SelectorValue::Type { kind: owned(kind) },
        confidence,
        example_usage: owned(example),
    }
}

fn push_rec(v: &mut Vec<EditRecommendation>, r: EditRecommendation)
    ensures
        recs_view(final(v)@) == recs_view(old(v)@).push(rec_view(r)),
{
    v.push(r);
    assert(recs_view(v@) =~= recs_view(old(v)@).push(rec_view(r)));
}

impl ASTExplorer {
    /// Append the recommendations for a Markdown focus (see
    /// [`markdown_recommendations`]).
    pub fn generate_markdown_recommendations(focus: &ASTNodeInfo, _ancestors: &Vec<ASTNodeInfo>, recommendations: &mut Vec<EditRecommendation>)
        ensures
            recs_view(final(recommendations)@) == recs_view(old(recommendations)@) + markdown_recommendations(*focus),
    {
        let ghost start = recs_view(recommendations@);
        let k = chars_of(focus.kind.as_str());
        let id = focus.id;
        if chars_are(&k, "atx_heading") {
            push_rec(recommendations, type_recommendation(id, "replace_node", "Replace heading text", "atx_heading", 95, "replace_node(file, {\"type\": \"atx_heading\"}, \"# New Heading\")"));
            push_rec(recommendations, type_recommendation(id, "insert_after_node", "Add content after this heading", "atx_heading", 90, "insert_after_node(file, {\"type\": \"atx_heading\"}, \"\\n\\nNew content\")"));
        } else if chars_are(&k, "list") {
            push_rec(recommendations, type_recommendation(id, "insert_after_node", "Add new item to this list", "list", 90, "insert_after_node(file, {\"type\": \"list\"}, \"\\n- New item\")"));
        } else if chars_are(&k, "list_item") {
            push_rec(recommendations, type_recommendation(id, "replace_node", "Replace this list item", "list_item", 85, "replace_node(file, {\"type\": \"list_item\"}, \"- Updated item\")"));
        } else if chars_are(&k, "section") {
            push_rec(recommendations, type_recommendation(id, "insert_after_node", "Add new section after this one", "section", 80, "insert_after_node(file, {\"type\": \"section\"}, \"\\n\\n## New Section\\n\\nContent\")"));
        }
        assert(recs_view(recommendations@) =~= start + markdown_recommendations(*focus));
    }

    /// Append the recommendations for a Rust focus (see
    /// [`rust_recommendations`]).
    pub fn generate_rust_recommendations(focus: &ASTNodeInfo, _ancestors: &Vec<ASTNodeInfo>, recommendations: &mut Vec<EditRecommendation>)
        ensures
            recs_view(final(recommendations)@) == recs_view(old(recommendations)@) + rust_recommendations(*focus),
    {
        let ghost start = recs_view(recommendations@);
        let k = chars_of(focus.kind.as_str());
        let id = focus.id;
        if chars_are(&k, "function_item") {
            push_rec(recommendations, type_recommendation(id, "replace_node", "Replace entire function", "function_item", 95, "replace_node(file, {\"type\": \"function_item\"}, \"fn new_function() { ... }\")"));
            let mut j: usize = 0;
            while j < focus.selector_options.len()
                invariant
                    j <= focus.selector_options@.len(),
                    first_named(focus.selector_options@, 0) == first_named(focus.selector_options@, j as int),
                ensures
                    j <= focus.selector_options@.len(),
                    j < focus.selector_options@.len() ==> first_named(focus.selector_options@, 0) == Some(j as int),
                    j == focus.selector_options@.len() ==> first_named(focus.selector_options@, 0) is None,
                decreases focus.selector_options@.len() - j,
            {
                if chars_are(&chars_of(focus.selector_options[j].selector_type.as_str()), "name") {
                    break;
                }
                j += 1;
            }
            if j < focus.selector_options.len() {
                let v = &focus.selector_options[j].selector_value;
                let mut example = String::new();
                push_str(&mut example, "replace_node(file, ");
                push_str(&mut example, v.to_json().as_str());
                push_str(&mut example, ", \"fn new_function() { ... }\")");
                push_rec(
                    recommendations,
                    EditRecommendation {
                        target_node_id: id,
                        operation: owned("replace_node"),
                        description: owned("Replace function by name (safer)"),
                        selector: v.copy(),
                        confidence: 98,
                        example_usage: example,
                    },
                );
            }
        } else if chars_are(&k, "impl_item") {
            push_rec(recommendations, type_recommendation(id, "insert_after_impl", "Add method to impl block", "impl_item", 90, "insert_after_impl(file, impl_type, \"fn new_method(&self) { ... }\")"));
        }
        assert(recs_view(recommendations@) =~= start + rust_recommendations(*focus));
    }

    /// Append the recommendations for a JSON focus (see
    /// [`json_recommendations`]).
    pub fn generate_json_recommendations(focus: &ASTNodeInfo, _ancestors: &Vec<ASTNodeInfo>, recommendations: &mut Vec<EditRecommendation>)
        ensures
            recs_view(final(recommendations)@) == recs_view(old(recommendations)@) + json_recommendations(*focus),
    {
        let ghost start = recs_view(recommendations@);
        let k = chars_of(focus.kind.as_str());
        let id = focus.id;
        if chars_are(&k, "object") {
            push_rec(recommendations, type_recommendation(id, "insert_after_node", "Add property to JSON object", "object", 85, "insert_after_node(file, {\"type\": \"object\"}, \", \\\"new_key\\\": \\\"value\\\"\")"));
        } else if chars_are(&k, "array") {
            push_rec(recommendations, type_recommendation(id, "insert_after_node", "Add item to JSON array", "array", 85, "insert_after_node(file, {\"type\": \"array\"}, \", \\\"new_item\\\"\")"));
        }
        assert(recs_view(recommendations@) =~= start + json_recommendations(*focus));
    }

    /// The edits recommended at a focus (see [`edit_recommendations`]).
    pub fn generate_edit_recommendations(
        focus: &ASTNodeInfo,
        ancestors: &Vec<ASTNodeInfo>,
        _children: &Vec<ASTNodeInfo>,
        _siblings: &Vec<ASTNodeInfo>,
        language: &str,
    ) -> (r: Vec<EditRecommendation>)
        ensures
            recs_view(r@) == edit_recommendations(*focus, ancestors@, language@),
    {
        let mut recommendations: Vec<EditRecommendation> = Vec::new();
        let weak = match &focus.edit_suitability {
            EditSuitability::Terrible { .. } => true,
            EditSuitability::Poor { .. } => true,
            _ => false,
        };
        if weak {
            let mut k: usize = 0;
            while k < ancestors.len()
                invariant
                    k <= ancestors@.len(),
                    first_strong(ancestors@, 0) == first_strong(ancestors@, k as int),
                ensures
                    k <= ancestors@.len(),
                    k < ancestors@.len() ==> first_strong(ancestors@, 0) == Some(k as int),
                    k == ancestors@.len() ==> first_strong(ancestors@, 0) is None,
                decreases ancestors@.len() - k,
            {
                let strong = match &ancestors[k].edit_suitability {
                    EditSuitability::Excellent { .. } => true,
                    EditSuitability::Good { .. } => true,
                    _ => false,
                };
                if strong {
                    break;
                }
                k += 1;
            }
            if k < ancestors.len() {
                let a = &ancestors[k];
                let value = if a.selector_options.len() > 0 {
                    a.selector_options[0].selector_value.copy()
                } else {
                    SelectorValue::Type { kind: owned(a.kind.as_str()) }
                };
                let mut description = String::new();
                push_str(&mut description, "Replace ");
                push_str(&mut description, a.kind.as_str());
                push_str(&mut description, " instead of ");
                push_str(&mut description, focus.kind.as_str());
                let mut example = String::new();
                push_str(&mut example, "replace_node(file, ");
                push_str(&mut example, value.to_json().as_str());
                push_str(&mut example, ", new_content)");
                push_rec(
                    &mut recommendations,
                    EditRecommendation {
                        target_node_id: a.id,
                        operation: owned("replace_node"),
                        description,
                        selector: value,
                        confidence: 90,
                        example_usage: example,
                    },
                );
            }
        }
        assert(recs_view(recommendations@) =~= ancestor_recommendations(*focus, ancestors@));
        let l = chars_of(language);
        if chars_are(&l, "markdown") {
            Self::generate_markdown_recommendations(focus, ancestors, &mut recommendations);
        } else if chars_are(&l, "rust") {
            Self::generate_rust_recommendations(focus, ancestors, &mut recommendations);
        } else if chars_are(&l, "json") {
            Self::generate_json_recommendations(focus, ancestors, &mut recommendations);
        }
        assert(recs_view(recommendations@) =~= edit_recommendations(*focus, ancestors@, language@));
        recommendations
    }
}

/// The message when no node sits at a position.
pub open spec fn no_node_message(line: nat, column: nat) -> Seq<char> {
    "No node found at position "@ + decimal(line) + ":"@ + decimal(column)
}

impl ASTExplorer {
    /// Explore the parse around the 1-based `line` and byte `column`: the
    /// node tree-sitter finds there, its ancestors (at most 21), children
    /// and siblings as the explorer reads them, an explanation of its
    /// context, and the edits recommended there.
    pub fn explore_around(p: &ParsedSource, t: &SyntaxTree, line: usize, column: usize, language: &str) -> (r: Result<ASTExplorationResult, String>)
        requires
            tree_of(*t, *p),
            p.src().len() < usize::MAX,
            byte_len(p.src()) < usize::MAX,
        ensures
            ({
                let row = if line >= 1 { line - 1 } else { 0 };
                let col = if column >= 1 { column - 1 } else { 0 };
                match r {
                    Err(m) => m@ == no_node_message(line as nat, column as nat) && forall|i: int|
                        0 <= i < t.nodes@.len() ==> ts_point_descendant(p.lang(), p.src(), row, col) != Some(i),
                    Ok(x) => {
                        let f = x.focus_node.id as int;
                        let c = p.src();
                        &&& f < t.nodes@.len()
                        &&& ts_point_descendant(p.lang(), c, row, col) == Some(f)
                        &&& analyzed_as(x.focus_node, t.nodes@, c, language@, f)
                        &&& analyzed_all(x.ancestors@, t.nodes@, c, language@, ancestors_from(t.nodes@, f, 21))
                        &&& analyzed_all(x.children@, t.nodes@, c, language@, children_of(t.nodes@, f))
                        &&& analyzed_all(x.siblings@, t.nodes@, c, language@, match t.nodes@[f].parent {
                            Some(q) => children_upto(t.nodes@, q as int, f, t.nodes@.len() as int),
                            None => seq![],
                        })
                        &&& x.context_explanation@ == context_explanation(x.focus_node, x.ancestors@)
                        &&& recs_view(x.edit_recommendations@) == edit_recommendations(x.focus_node, x.ancestors@, language@)
                    },
                }
            }),
    {
        let row = line.saturating_sub(1);
        let col = column.saturating_sub(1);
        let focus = match descendant_for_point(p, t, row, col) {
            Some(f) => f,
            None => {
                let mut m = String::new();
                push_str(&mut m, "No node found at position ");
                push_decimal(&mut m, line);
                push_str(&mut m, ":");
                push_decimal(&mut m, column);
                return Err(m);
            },
        };
        let text = p.text();
        let c = chars_of(text);
        let _n = str_byte_len(text);
        let off = byte_offsets(c.as_slice());
        let focus_node = Self::analyze_node(t, &c, &off, language, focus);
        let ancestors = Self::collect_ancestors(t, &c, &off, language, focus);
        let children = Self::collect_children(t, &c, &off, language, focus);
        let siblings = Self::collect_siblings(t, &c, &off, language, focus);
        let context_explanation = Self::generate_context_explanation(&focus_node, &ancestors, language);
        let edit_recommendations = Self::generate_edit_recommendations(&focus_node, &ancestors, &children, &siblings, language);
        Ok(ASTExplorationResult { focus_node, ancestors, children, siblings, context_explanation, edit_recommendations })
    }
}

} // verus!
