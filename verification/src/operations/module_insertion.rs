//! Where content added to a Rust module goes: at its start, after the last
//! `use` (or before the first item); at its end, after the last item. The
//! plan names the target the way the edit will look it up again.
use vstd::prelude::*;
use crate::item::chars_are;
use crate::operations::node_selector::node_text;
use crate::syntax::{SyntaxNode, SyntaxTree, field_child_upto};
use crate::text::{all_ws, byte_offsets, chars_of, count_ws_suffix, is_blank, push_chars, push_str, str_byte_len, ws_suffix};

verus! {

/// How the target of a module insertion is named: by a tree-sitter query,
/// or by a node type and the item's name.
#[derive(Debug, Clone)]
pub enum ModuleTarget {
    Query(String),
    Name { node_type: String, name: String },
}

/// The plan for adding content to a module: insert after or before a
/// target, or, with no item to anchor to, the file's new content outright.
#[derive(Debug, Clone)]
pub enum ModuleInsertion {
    InsertAfter { target: ModuleTarget, content: String },
    InsertBefore { target: ModuleTarget, content: String },
    Append { new_content: String },
}

pub enum TargetView {
    Query(Seq<char>),
    Name { node_type: Seq<char>, name: Seq<char> },
}

pub enum InsertionView {
    InsertAfter { target: TargetView, content: Seq<char> },
    InsertBefore { target: TargetView, content: Seq<char> },
    Append { new_content: Seq<char> },
}

impl View for ModuleTarget {
    type V = TargetView;

    open spec fn view(&self) -> TargetView {
        match self {
            ModuleTarget::Query(q) => TargetView::Query(q@),
            ModuleTarget::Name { node_type, name } => TargetView::Name { node_type: node_type@, name: name@ },
        }
    }
}

impl View for ModuleInsertion {
    type V = InsertionView;

    open spec fn view(&self) -> InsertionView {
        match self {
            ModuleInsertion::InsertAfter { target, content } => InsertionView::InsertAfter { target: target@, content: content@ },
            ModuleInsertion::InsertBefore { target, content } => InsertionView::InsertBefore { target: target@, content: content@ },
            ModuleInsertion::Append { new_content } => InsertionView::Append { new_content: new_content@ },
        }
    }
}

/// The kinds of a module's items.
pub open spec fn is_module_item_kind(k: Seq<char>) -> bool {
    ||| k == "function_item"@
    ||| k == "struct_item"@
    ||| k == "enum_item"@
    ||| k == "impl_item"@
    ||| k == "mod_item"@
    ||| k == "const_item"@
    ||| k == "static_item"@
    ||| k == "type_item"@
    ||| k == "trait_item"@
}

/// Whether node `j` is a top-level node of a kind the search takes: an
/// item, a `use` declaration, or (with `items`) either.
pub open spec fn takes(t: Seq<SyntaxNode>, j: int, items: bool, uses: bool) -> bool {
    &&& t[j].parent == Some(0usize)
    &&& ((items && is_module_item_kind(t[j].kind@)) || (uses && t[j].kind@ == "use_declaration"@))
}

/// The last top-level node among the first `n` that the search takes.
pub open spec fn last_taken(t: Seq<SyntaxNode>, n: int, items: bool, uses: bool) -> Option<int>
    decreases n,
{
    if n <= 0 {
        None
    } else if takes(t, n - 1, items, uses) {
        Some(n - 1)
    } else {
        last_taken(t, n - 1, items, uses)
    }
}

/// The first top-level item among the nodes from `j` on.
pub open spec fn first_item_from(t: Seq<SyntaxNode>, j: int) -> Option<int>
    decreases t.len() - j,
{
    if j < 0 || j >= t.len() {
        None
    } else if takes(t, j, true, false) {
        Some(j)
    } else {
        first_item_from(t, j + 1)
    }
}

/// The query that finds a module's items.
pub open spec fn item_query() -> Seq<char> {
    "\n                    (source_file \n                        [\n                            (function_item) @item\n                            (struct_item) @item\n                            (enum_item) @item\n                            (impl_item) @item\n                            (mod_item) @item\n                            (const_item) @item\n                            (static_item) @item\n                            (type_item) @item\n                            (trait_item) @item\n                        ])\n                "@
}

/// `s` without trailing whitespace.
pub open spec fn trim_end(s: Seq<char>) -> Seq<char> {
    s.take(s.len() - ws_suffix(s))
}

/// How the last item is targeted: functions, structs and enums by their
/// name when they have one, anything else by a query for its kind.
pub open spec fn item_target(t: Seq<SyntaxNode>, s: Seq<char>, j: int) -> TargetView {
    let k = t[j].kind@;
    if k == "function_item"@ || k == "struct_item"@ || k == "enum_item"@ {
        match field_child_upto(t, j, "name"@, t.len() as int) {
            Some(nm) => TargetView::Name { node_type: k, name: node_text(t, s, nm) },
            None => TargetView::Query("("@ + k + ") @target"@),
        }
    } else {
        TargetView::Query("("@ + k + ") @target"@)
    }
}

/// The plan for adding `content` to the module parsed as `t` from `s`.
/// At the start: after the last top-level `use` (on a new line), else
/// before the first item (with a blank line after it), else after the
/// root. At the end: after the last top-level item or `use` (on a new
/// line); with none, the content is appended to the trimmed file after a
/// blank line (or is the whole file when the file is blank).
pub open spec fn module_insertion(t: Seq<SyntaxNode>, s: Seq<char>, at_start: bool, content: Seq<char>) -> InsertionView {
    if at_start {
        match last_taken(t, t.len() as int, false, true) {
            Some(_) => InsertionView::InsertAfter {
                target: TargetView::Query("(use_declaration) @target"@),
                content: "\n"@ + content,
            },
            None => match first_item_from(t, 0) {
                Some(_) => InsertionView::InsertBefore { target: TargetView::Query(item_query()), content: content + "\n\n"@ },
                None => InsertionView::InsertAfter { target: TargetView::Query("(source_file) @root"@), content },
            },
        }
    } else {
        match last_taken(t, t.len() as int, true, true) {
            Some(j) => InsertionView::InsertAfter { target: item_target(t, s, j), content: "\n"@ + content },
            None => InsertionView::Append {
                new_content: if all_ws(s) {
                    content
                } else {
                    trim_end(s) + "\n\n"@ + content
                },
            },
        }
    }
}

fn is_item_kind(k: &Vec<char>) -> (b: bool)
    ensures
        b == is_module_item_kind(k@),
{
    chars_are(k, "function_item") || chars_are(k, "struct_item") || chars_are(k, "enum_item")
        || chars_are(k, "impl_item") || chars_are(k, "mod_item") || chars_are(k, "const_item")
        || chars_are(k, "static_item") || chars_are(k, "type_item") || chars_are(k, "trait_item")
}

fn takes_exec(t: &SyntaxTree, j: usize, items: bool, uses: bool) -> (b: bool)
    requires
        j < t.nodes@.len(),
    ensures
        b == takes(t.nodes@, j as int, items, uses),
{
    if t.nodes[j].parent != Some(0) {
        return false;
    }
    let k = chars_of(t.nodes[j].kind.as_str());
    (items && is_item_kind(&k)) || (uses && chars_are(&k, "use_declaration"))
}

fn last_taken_exec(t: &SyntaxTree, items: bool, uses: bool) -> (r: Option<usize>)
    ensures
        match r {
            Some(j) => j < t.nodes@.len() && last_taken(t.nodes@, t.nodes@.len() as int, items, uses) == Some(j as int),
            None => last_taken(t.nodes@, t.nodes@.len() as int, items, uses) is None,
        },
{
    let mut n = t.nodes.len();
    while n > 0
        invariant
            n <= t.nodes@.len(),
            last_taken(t.nodes@, t.nodes@.len() as int, items, uses) == last_taken(t.nodes@, n as int, items, uses),
        decreases n,
    {
        if takes_exec(t, n - 1, items, uses) {
            return Some(n - 1);
        }
        n -= 1;
    }
    None
}

fn has_first_item(t: &SyntaxTree) -> (b: bool)
    ensures
        b == (first_item_from(t.nodes@, 0) is Some),
{
    let mut j: usize = 0;
    while j < t.nodes.len()
        invariant
            j <= t.nodes@.len(),
            first_item_from(t.nodes@, 0) == first_item_from(t.nodes@, j as int),
        decreases t.nodes@.len() - j,
    {
        if takes_exec(t, j, true, false) {
            return true;
        }
        j += 1;
    }
    false
}

fn owned(s: &str) -> (r: String)
    ensures
        r@ == s@,
{
    s.to_owned()
}

fn kind_query(k: &str) -> (r: String)
    ensures
        r@ == "("@ + k@ + ") @target"@,
{
    let mut q = String::new();
    push_str(&mut q, "(");
    push_str(&mut q, k);
    push_str(&mut q, ") @target");
    q
}

fn item_target_exec(t: &SyntaxTree, c: &Vec<char>, off: &Vec<usize>, j: usize) -> (r: ModuleTarget)
    requires
        crate::item::offsets_of(c@, off@),
        j < t.nodes@.len(),
    ensures
        r@ == item_target(t.nodes@, c@, j as int),
{
    let kind = t.nodes[j].kind.as_str();
    let k = chars_of(kind);
    if chars_are(&k, "function_item") || chars_are(&k, "struct_item") || chars_are(&k, "enum_item") {
        match t.field_child(j, "name") {
            Some(nm) => {
                let name = crate::operations::node_selector::node_text_exec(t, c, off, nm);
                let mut ns = String::new();
                push_chars(&mut ns, name.as_slice());
                ModuleTarget::Name { node_type: owned(kind), name: ns }
            },
            None => ModuleTarget::Query(kind_query(kind)),
        }
    } else {
        ModuleTarget::Query(kind_query(kind))
    }
}

fn item_query_exec() -> (s: &'static str)
    ensures
        s@ == item_query(),
{
    "\n                    (source_file \n                        [\n                            (function_item) @item\n                            (struct_item) @item\n                            (enum_item) @item\n                            (impl_item) @item\n                            (mod_item) @item\n                            (const_item) @item\n                            (static_item) @item\n                            (type_item) @item\n                            (trait_item) @item\n                        ])\n                "
}

/// The plan for adding `content` to a Rust module (see
/// [`module_insertion`]); `position` `"start"` puts it at the start, any
/// other value at the end.
pub fn insert_in_module(t: &SyntaxTree, source: &str, content: &str, position: &str) -> (r: ModuleInsertion)
    ensures
        r@ == module_insertion(t.nodes@, source@, position@ == "start"@, content@),
{
    let at_start = chars_are(&chars_of(position), "start");
    if at_start {
        match last_taken_exec(t, false, true) {
            Some(_) => {
                let mut c2 = String::new();
                push_str(&mut c2, "\n");
                push_str(&mut c2, content);
                ModuleInsertion::InsertAfter { target: ModuleTarget::Query(owned("(use_declaration) @target")), content: c2 }
            },
            None => {
                if has_first_item(t) {
                    let mut c2 = String::new();
                    push_str(&mut c2, content);
                    push_str(&mut c2, "\n\n");
                    ModuleInsertion::InsertBefore { target: ModuleTarget::Query(owned(item_query_exec())), content: c2 }
                } else {
                    ModuleInsertion::InsertAfter { target: ModuleTarget::Query(owned("(source_file) @root")), content: owned(content) }
                }
            },
        }
    } else {
        let c = chars_of(source);
        let _n = str_byte_len(source);
        let off = byte_offsets(c.as_slice());
        match last_taken_exec(t, true, true) {
            Some(j) => {
                let target = item_target_exec(t, &c, &off, j);
                let mut c2 = String::new();
                push_str(&mut c2, "\n");
                push_str(&mut c2, content);
                ModuleInsertion::InsertAfter { target, content: c2 }
            },
            None => {
                proof {
                    assert(c@.subrange(0, c@.len() as int) =~= c@);
                }
                if is_blank(c.as_slice(), 0, c.len()) {
                    ModuleInsertion::Append { new_content: owned(content) }
                } else {
                    let k = count_ws_suffix(c.as_slice(), 0, c.len());
                    let mut nc = String::new();
                    push_chars(&mut nc, crate::text::slice_chars(&c, 0, c.len() - k).as_slice());
                    push_str(&mut nc, "\n\n");
                    push_str(&mut nc, content);
                    proof {
                        assert(c@.subrange(0, c@.len() - k) =~= trim_end(c@));
                    }
                    ModuleInsertion::Append { new_content: nc }
                }
            },
        }
    }
}

} // verus!
