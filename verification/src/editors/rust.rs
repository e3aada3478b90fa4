//! Node-targeted edits of Rust source: a selector picks a syntax node, and
//! the node is replaced, wrapped or deleted, or content is put before or
//! after it. Positions are character indices into the source, found from
//! the node's byte offsets the way a rope finds them.
use vstd::prelude::*;
use crate::item::{offsets_of, contains_text, chars_contain, chars_are, opt_view};
use crate::languages::LanguageName;
use crate::languages::markdown::{char_at_byte, char_of_byte};
use crate::operations::node_selector::{node_text, node_text_exec, selection};
use crate::operations::selector::NodeSelector;
use crate::parsers::rust::{RustParser, valid_rust};
use crate::syntax::{ParsedSource, SyntaxNode, SyntaxTree, parse_source, parses_as_tree, read_tree, tree_of, ts_parses};
use crate::text::{
    all_ws, byte_len, byte_offsets, chars_of, count_ws_prefix, is_blank, lemma_byte_len_add, push_chars,
    push_str, region, replace_all, replace_all_chars, slice_chars, str_byte_len, string_from_chars,
    text_between, trim_start, ws_prefix,
};

verus! {

/// Edits a Rust file at the syntax node a selector picks.
pub struct RustEditor;

/// A node-targeted edit: the node the `target` selector picks is replaced,
/// has content put before or after it, is wrapped in a template (whose
/// `{{content}}` placeholders stand for the node's text), or is deleted.
/// With `preview_only` set, the result's message says it is a preview.
#[derive(Debug, Clone)]
pub enum NodeOperation {
    Replace { target: NodeSelector, new_content: String, preview_only: Option<bool> },
    InsertBefore { target: NodeSelector, content: String, preview_only: Option<bool> },
    InsertAfter { target: NodeSelector, content: String, preview_only: Option<bool> },
    Wrap { target: NodeSelector, wrapper_template: String, preview_only: Option<bool> },
    Delete { target: NodeSelector, preview_only: Option<bool> },
}

/// The outcome of a node-targeted edit: the new file content with a message
/// and the character range the edit touched, or why it was refused.
#[derive(Debug)]
pub enum NodeEditResult {
    Success { message: String, new_content: String, affected_range: (usize, usize) },
    Error(String),
}

/// A [`NodeEditResult`] as plain values.
pub enum NodeEditView {
    Success { message: Seq<char>, new_content: Seq<char>, affected_range: (int, int) },
    Error(Seq<char>),
}

impl View for NodeEditResult {
    type V = NodeEditView;

    open spec fn view(&self) -> NodeEditView {
        match self {
            NodeEditResult::Success { message, new_content, affected_range } => NodeEditView::Success {
                message: message@,
                new_content: new_content@,
                affected_range: (affected_range.0 as int, affected_range.1 as int),
            },
            NodeEditResult::Error(m) => NodeEditView::Error(m@),
        }
    }
}

/// The selector of an operation.
pub open spec fn target_of(op: NodeOperation) -> NodeSelector {
    match op {
        NodeOperation::Replace { target, .. } => target,
        NodeOperation::InsertBefore { target, .. } => target,
        NodeOperation::InsertAfter { target, .. } => target,
        NodeOperation::Wrap { target, .. } => target,
        NodeOperation::Delete { target, .. } => target,
    }
}

/// The message of a result: the success message or the refusal.
pub open spec fn message_of(v: NodeEditView) -> Seq<char> {
    match v {
        NodeEditView::Success { message, .. } => message,
        NodeEditView::Error(m) => m,
    }
}

/// A result with its message replaced by `m`.
pub open spec fn with_message(v: NodeEditView, m: Seq<char>) -> NodeEditView {
    match v {
        NodeEditView::Success { new_content, affected_range, .. } => NodeEditView::Success {
            message: m,
            new_content,
            affected_range,
        },
        NodeEditView::Error(_) => NodeEditView::Error(m),
    }
}

/// A result as a preview reports it: its message behind `PREVIEW: ` when
/// `preview_only` is set.
pub open spec fn previewed(v: NodeEditView, preview_only: Option<bool>) -> NodeEditView {
    if preview_only == Some(true) {
        with_message(v, "PREVIEW: "@ + message_of(v))
    } else {
        v
    }
}

/// The preview flag of an operation.
pub open spec fn preview_flag(op: NodeOperation) -> Option<bool> {
    match op {
        NodeOperation::Replace { preview_only, .. } => preview_only,
        NodeOperation::InsertBefore { preview_only, .. } => preview_only,
        NodeOperation::InsertAfter { preview_only, .. } => preview_only,
        NodeOperation::Wrap { preview_only, .. } => preview_only,
        NodeOperation::Delete { preview_only, .. } => preview_only,
    }
}

/// The same operation with its preview flag set to `flag`.
pub open spec fn with_preview(op: NodeOperation, flag: Option<bool>) -> NodeOperation {
    match op {
        NodeOperation::Replace { target, new_content, .. } => NodeOperation::Replace { target, new_content, preview_only: flag },
        NodeOperation::InsertBefore { target, content, .. } => NodeOperation::InsertBefore { target, content, preview_only: flag },
        NodeOperation::InsertAfter { target, content, .. } => NodeOperation::InsertAfter { target, content, preview_only: flag },
        NodeOperation::Wrap { target, wrapper_template, .. } => NodeOperation::Wrap { target, wrapper_template, preview_only: flag },
        NodeOperation::Delete { target, .. } => NodeOperation::Delete { target, preview_only: flag },
    }
}

/// A preview differs from the edit itself only in its message, which is the
/// edit's message behind `PREVIEW: `; an edit that is refused is refused the
/// same way as a preview.
pub proof fn law_preview_only_prefixes_the_message(op: NodeOperation, t: Seq<SyntaxNode>, lang: int, c: Seq<char>)
    requires
        preview_flag(op) != Some(true),
    ensures
        node_edit(with_preview(op, Some(true)), t, lang, c) == match node_edit(op, t, lang, c) {
            Ok(v) => Ok::<NodeEditView, Seq<char>>(with_message(v, "PREVIEW: "@ + message_of(v))),
            Err(m) => Err::<NodeEditView, Seq<char>>(m),
        },
{
    assert(target_of(with_preview(op, Some(true))) == target_of(op));
}

proof fn lemma_agree_attr_run(t1: Seq<SyntaxNode>, t2: Seq<SyntaxNode>, j: int)
    requires
        crate::syntax::tables_agree(t1, t2),
    ensures
        attr_run(t1, j) == attr_run(t2, j),
    decreases j,
{
    if 0 <= j < t1.len() {
        assert(crate::syntax::nodes_agree(t1[j], t2[j]));
        match t1[j].prev_sibling {
            Some(q) => if (q as int) < j {
                lemma_agree_attr_run(t1, t2, q as int);
            },
            None => {},
        }
    }
}

/// Two tables that read the same give the same node-targeted edit.
pub proof fn lemma_agree_node_edit(op: NodeOperation, t1: Seq<SyntaxNode>, t2: Seq<SyntaxNode>, lang: int, c: Seq<char>)
    requires
        crate::syntax::tables_agree(t1, t2),
        t1.len() > 0,
    ensures
        node_edit(op, t1, lang, c) == node_edit(op, t2, lang, c),
{
    let target = target_of(op);
    let k = opt_view(target.ancestor_node_type);
    crate::operations::node_selector::lemma_agree_selection(t1, t2, lang, c, target.anchor_text@, k);
    crate::operations::node_selector::lemma_selection_bound(t1, lang, c, target.anchor_text@, k);
    if let Ok(i) = selection(t1, lang, c, target.anchor_text@, k) {
        assert(crate::syntax::nodes_agree(t1[i], t2[i]));
        if let Some(q) = t1[i].prev_sibling {
            lemma_agree_attr_run(t1, t2, q as int);
            lemma_attr_run_bound(t1, q as int);
            let run = attr_run(t1, q as int);
            if run.len() > 0 {
                assert(0 <= run[0] < t1.len());
                assert(crate::syntax::nodes_agree(t1[run[0] as int], t2[run[0] as int]));
                assert(0 <= q < t1.len()) by {
                    assert(run.last() == q);
                }
                assert(crate::syntax::nodes_agree(t1[q as int], t2[q as int]));
            }
            assert(function_attributes_range(t1, c, i) == function_attributes_range(t2, c, i));
        } else {
            assert(function_attributes_range(t1, c, i) == function_attributes_range(t2, c, i));
        }
    }
}

impl NodeEditResult {
    /// The result's message.
    pub fn message(&self) -> (m: &str)
        ensures
            m@ == message_of(self@),
    {
        match self {
            NodeEditResult::Success { message, .. } => message.as_str(),
            NodeEditResult::Error(m) => m.as_str(),
        }
    }

    /// Replace the result's message.
    pub fn set_message(&mut self, message: String)
        ensures
            final(self)@ == with_message(old(self)@, message@),
    {
        match self {
            NodeEditResult::Success { message: m, .. } => {
                *m = message;
            },
            NodeEditResult::Error(m) => {
                *m = message;
            },
        }
    }
}

/// The character holding byte `b` of `c`, as `Rope::byte_to_char` finds it
/// (`c.len()` at or past the end).
pub open spec fn char_index(c: Seq<char>, b: int) -> int {
    char_at_byte(c, b, c.len() as int)
}

/// A line break ends just before position `j` of `c` (`0 < j`): a line
/// feed, vertical tab, form feed, next-line, line or paragraph separator,
/// or a carriage return that no line feed follows.
pub open spec fn break_before(c: Seq<char>, j: int) -> bool {
    let p = c[j - 1];
    ||| p == '\n'
    ||| p == '\u{b}'
    ||| p == '\u{c}'
    ||| p == '\u{85}'
    ||| p == '\u{2028}'
    ||| p == '\u{2029}'
    ||| p == '\r' && !(j < c.len() && c[j] == '\n')
}

/// The first character of the line that holds character `k`
/// (`rope.line_to_char(rope.char_to_line(k))`).
pub open spec fn line_start_at(c: Seq<char>, k: int) -> int
    decreases k,
{
    if k <= 0 {
        0
    } else if break_before(c, k) {
        k
    } else {
        line_start_at(c, k - 1)
    }
}

proof fn lemma_line_start_bound(c: Seq<char>, k: int)
    ensures
        k >= 0 ==> 0 <= line_start_at(c, k) <= k,
    decreases k,
{
    if k > 0 && !break_before(c, k) {
        lemma_line_start_bound(c, k - 1);
    }
}

/// The whitespace that opens the line of character `k`, up to `k`.
pub open spec fn indentation_at(c: Seq<char>, k: int) -> Seq<char> {
    let ls = line_start_at(c, k);
    c.subrange(ls, ls + ws_prefix(c.subrange(ls, k)))
}

/// `c` with its characters `a..b` replaced by `x` (nothing removed when
/// `b < a`).
pub open spec fn splice_at(c: Seq<char>, a: int, b: int, x: Seq<char>) -> Seq<char> {
    c.take(a) + x + c.skip(
        if b < a {
            a
        } else {
            b
        },
    )
}

/// The first character of the line holding character `k`.
fn line_start_exec(c: &Vec<char>, k: usize) -> (r: usize)
    requires
        k <= c@.len(),
    ensures
        r == line_start_at(c@, k as int),
        r <= k,
{
    let mut j: usize = k;
    while j > 0
        invariant
            j <= k <= c@.len(),
            line_start_at(c@, k as int) == line_start_at(c@, j as int),
        decreases j,
    {
        let p = c[j - 1];
        if p == '\n' || p == '\u{b}' || p == '\u{c}' || p == '\u{85}' || p == '\u{2028}' || p == '\u{2029}'
            || (p == '\r' && !(j < c.len() && c[j] == '\n')) {
            return j;
        }
        j -= 1;
    }
    0
}

/// The indentation of the line of character `k` (see [`indentation_at`]).
fn indentation_exec(c: &Vec<char>, k: usize) -> (r: Vec<char>)
    requires
        k <= c@.len(),
    ensures
        r@ == indentation_at(c@, k as int),
{
    let ls = line_start_exec(c, k);
    let n = count_ws_prefix(c.as_slice(), ls, k);
    slice_chars(c, ls, ls + n)
}

/// The text of `c` with characters `a..b` replaced by `x`.
fn splice_exec(c: &Vec<char>, a: usize, b: usize, x: &Vec<char>) -> (s: String)
    requires
        a <= c@.len(),
        b <= c@.len(),
    ensures
        s@ == splice_at(c@, a as int, b as int, x@),
{
    let e = if b < a {
        a
    } else {
        b
    };
    let head = slice_chars(c, 0, a);
    let tail = slice_chars(c, e, c.len());
    let mut s = string_from_chars(head.as_slice());
    push_chars(&mut s, x.as_slice());
    push_chars(&mut s, tail.as_slice());
    assert(head@ =~= c@.take(a as int));
    assert(tail@ =~= c@.skip(e as int));
    s
}

/// The attribute items running back from sibling `j` (while the siblings
/// are attribute items), in source order.
pub open spec fn attr_run(t: Seq<SyntaxNode>, j: int) -> Seq<usize>
    decreases j,
{
    if 0 <= j < t.len() && t[j].kind@ == "attribute_item"@ {
        match t[j].prev_sibling {
            Some(q) => if (q as int) < j {
                attr_run(t, q as int).push(j as usize)
            } else {
                seq![j as usize]
            },
            None => seq![j as usize],
        }
    } else {
        seq![]
    }
}

proof fn lemma_attr_run_bound(t: Seq<SyntaxNode>, j: int)
    ensures
        forall|k: int| 0 <= k < attr_run(t, j).len() ==> 0 <= #[trigger] attr_run(t, j)[k] <= j && attr_run(t, j)[k] < t.len(),
    decreases j,
{
    if 0 <= j < t.len() && t[j].kind@ == "attribute_item"@ {
        match t[j].prev_sibling {
            Some(q) => if (q as int) < j {
                lemma_attr_run_bound(t, q as int);
                let inner = attr_run(t, q as int);
                assert(attr_run(t, j) == inner.push(j as usize));
                assert forall|k: int| 0 <= k < attr_run(t, j).len() implies 0 <= #[trigger] attr_run(t, j)[k] <= j
                    && attr_run(t, j)[k] < t.len() by {
                    if k < inner.len() {
                        assert(attr_run(t, j)[k] == inner[k]);
                    }
                }
            },
            None => {},
        }
    }
}

/// For a top-level function `f`, the range from the first of the attribute
/// items right before it to its end, when only whitespace separates the
/// last of them from the function; `None` otherwise.
pub open spec fn function_attributes_range(t: Seq<SyntaxNode>, c: Seq<char>, f: int) -> Option<(int, int)> {
    if t[f].parent == Some(0usize) {
        match t[f].prev_sibling {
            Some(q) => {
                let run = attr_run(t, q as int);
                if run.len() == 0 {
                    None
                } else {
                    match region(c, t[q as int].end as int, t[f].start as int) {
                        Some(between) => if all_ws(between) {
                            Some((t[run[0] as int].start as int, t[f].end as int))
                        } else {
                            None
                        },
                        None => None,
                    }
                }
            },
            None => None,
        }
    } else {
        None
    }
}

/// The content opens, after any whitespace, with an attribute (`#`).
pub open spec fn starts_with_attribute(x: Seq<char>) -> bool {
    trim_start(x).len() > 0 && trim_start(x)[0] == '#'
}

/// The byte range a replacement of node `i` by `x` covers: the node, or for
/// a function whose replacement opens with an attribute, also the
/// attributes right before it, so that they are not left doubled.
pub open spec fn replacement_range(t: Seq<SyntaxNode>, c: Seq<char>, i: int, x: Seq<char>) -> (int, int) {
    let whole = (t[i].start as int, t[i].end as int);
    if t[i].kind@ == "function_item"@ && starts_with_attribute(x) {
        match function_attributes_range(t, c, i) {
            Some(r) => r,
            None => whole,
        }
    } else {
        whole
    }
}

fn attr_run_exec(t: &SyntaxTree, j: usize) -> (r: Vec<usize>)
    ensures
        r@ == attr_run(t.nodes@, j as int),
    decreases j,
{
    if j < t.nodes.len() && chars_are(chars_of(t.nodes[j].kind.as_str()).as_slice(), "attribute_item") {
        match t.nodes[j].prev_sibling {
            Some(q) => if q < j {
                let mut r = attr_run_exec(t, q);
                r.push(j);
                r
            } else {
                let mut r: Vec<usize> = Vec::new();
                r.push(j);
                assert(r@ =~= seq![j]);
                r
            },
            None => {
                let mut r: Vec<usize> = Vec::new();
                r.push(j);
                assert(r@ =~= seq![j]);
                r
            },
        }
    } else {
        Vec::new()
    }
}

fn function_attributes_range_exec(t: &SyntaxTree, c: &Vec<char>, off: &Vec<usize>, f: usize) -> (r: Option<(usize, usize)>)
    requires
        offsets_of(c@, off@),
        t.wf(),
        f < t.nodes@.len(),
    ensures
        match r {
            Some((a, b)) => function_attributes_range(t.nodes@, c@, f as int) == Some((a as int, b as int)),
            None => function_attributes_range(t.nodes@, c@, f as int) is None,
        },
{
    match t.nodes[f].parent {
        Some(z) => if z != 0 {
            return None;
        },
        None => {
            return None;
        },
    }
    match t.nodes[f].prev_sibling {
        None => None,
        Some(q) => {
            let run = attr_run_exec(t, q);
            if run.len() == 0 {
                return None;
            }
            proof {
                lemma_attr_run_bound(t.nodes@, q as int);
                assert(run@[0] < t.nodes@.len());
            }
            match text_between(c, off, t.nodes[q].end, t.nodes[f].start) {
                Some(between) => {
                    let blank = is_blank(between.as_slice(), 0, between.len());
                    assert(between@.subrange(0, between@.len() as int) =~= between@);
                    if blank {
                        Some((t.nodes[run[0]].start, t.nodes[f].end))
                    } else {
                        None
                    }
                },
                None => None,
            }
        },
    }
}

fn replacement_range_exec(t: &SyntaxTree, c: &Vec<char>, off: &Vec<usize>, i: usize, x: &Vec<char>) -> (r: (usize, usize))
    requires
        offsets_of(c@, off@),
        t.wf(),
        i < t.nodes@.len(),
    ensures
        (r.0 as int, r.1 as int) == replacement_range(t.nodes@, c@, i as int, x@),
{
    let whole = (t.nodes[i].start, t.nodes[i].end);
    if !chars_are(chars_of(t.nodes[i].kind.as_str()).as_slice(), "function_item") {
        return whole;
    }
    let n = count_ws_prefix(x.as_slice(), 0, x.len());
    assert(x@.subrange(0, x@.len() as int) =~= x@);
    if n < x.len() && x[n] == '#' {
        match function_attributes_range_exec(t, c, off, i) {
            Some(r) => r,
            None => whole,
        }
    } else {
        whole
    }
}

/// Replacing node `i` by `x`: the covered range (see
/// [`replacement_range`]) gives way to `x`, when the result is valid Rust.
pub open spec fn replaced(t: Seq<SyntaxNode>, c: Seq<char>, i: int, x: Seq<char>) -> NodeEditView {
    let range = replacement_range(t, c, i, x);
    let a = char_index(c, range.0);
    let text = splice_at(c, a, char_index(c, range.1), x);
    if valid_rust(text) {
        NodeEditView::Success {
            message: "Successfully replaced "@ + t[i].kind@ + " node"@,
            new_content: text,
            affected_range: (a, a + byte_len(x)),
        }
    } else {
        NodeEditView::Error("Replacement would create invalid syntax"@)
    }
}

/// Putting `x` before node `i`: `x`, a line break and the indentation of
/// the node's line go in at the node's start.
pub open spec fn inserted_before(t: Seq<SyntaxNode>, c: Seq<char>, i: int, x: Seq<char>) -> NodeEditView {
    let k = char_index(c, t[i].start as int);
    let w = x + "\n"@ + indentation_at(c, k);
    NodeEditView::Success {
        message: "Successfully inserted content before "@ + t[i].kind@ + " node"@,
        new_content: splice_at(c, k, k, w),
        affected_range: (k, k + byte_len(w)),
    }
}

/// Putting `x` after node `i`: a line break, the indentation of the node's
/// first line and `x` go in at the node's end.
pub open spec fn inserted_after(t: Seq<SyntaxNode>, c: Seq<char>, i: int, x: Seq<char>) -> NodeEditView {
    let k = char_index(c, t[i].end as int);
    let w = "\n"@ + indentation_at(c, char_index(c, t[i].start as int)) + x;
    NodeEditView::Success {
        message: "Successfully inserted content after "@ + t[i].kind@ + " node"@,
        new_content: splice_at(c, k, k, w),
        affected_range: (k, k + byte_len(w)),
    }
}

/// Wrapping node `i` in `template`: the node gives way to the template with
/// each `{{content}}` replaced by the node's text, when the result is valid
/// Rust.
pub open spec fn wrapped(t: Seq<SyntaxNode>, c: Seq<char>, i: int, template: Seq<char>) -> NodeEditView {
    let w = replace_all(template, "{{content}}"@, node_text(t, c, i));
    let a = char_index(c, t[i].start as int);
    let text = splice_at(c, a, char_index(c, t[i].end as int), w);
    if valid_rust(text) {
        NodeEditView::Success {
            message: "Successfully wrapped "@ + t[i].kind@ + " node"@,
            new_content: text,
            affected_range: (a, a + byte_len(w)),
        }
    } else {
        NodeEditView::Error("Wrapping would create invalid syntax"@)
    }
}

/// Deleting node `i`.
pub open spec fn deleted(t: Seq<SyntaxNode>, c: Seq<char>, i: int) -> NodeEditView {
    let a = char_index(c, t[i].start as int);
    NodeEditView::Success {
        message: "Successfully deleted "@ + t[i].kind@ + " node"@,
        new_content: splice_at(c, a, char_index(c, t[i].end as int), seq![]),
        affected_range: (a, a),
    }
}

/// What a node-targeted edit of `c` gives, in its parse `t` with grammar
/// `lang`: the selector's error, the template's, or the outcome for the
/// selected node, as a preview reports it when asked.
pub open spec fn node_edit(op: NodeOperation, t: Seq<SyntaxNode>, lang: int, c: Seq<char>) -> Result<NodeEditView, Seq<char>> {
    let target = target_of(op);
    match selection(t, lang, c, target.anchor_text@, opt_view(target.ancestor_node_type)) {
        Err(m) => Err(m),
        Ok(i) => match op {
            NodeOperation::Replace { new_content, preview_only, .. } => Ok(
                previewed(replaced(t, c, i, new_content@), preview_only),
            ),
            NodeOperation::InsertBefore { content, preview_only, .. } => Ok(
                previewed(inserted_before(t, c, i, content@), preview_only),
            ),
            NodeOperation::InsertAfter { content, preview_only, .. } => Ok(
                previewed(inserted_after(t, c, i, content@), preview_only),
            ),
            NodeOperation::Wrap { wrapper_template, preview_only, .. } => if contains_text(
                wrapper_template@,
                "{{content}}"@,
            ) {
                Ok(previewed(wrapped(t, c, i, wrapper_template@), preview_only))
            } else {
                Err("Wrapper template must contain {content} placeholder"@)
            },
            NodeOperation::Delete { preview_only, .. } => Ok(previewed(deleted(t, c, i), preview_only)),
        },
    }
}

/// A string of `n` characters takes at least `n` bytes.
proof fn lemma_len_le_byte_len(s: Seq<char>)
    ensures
        s.len() <= byte_len(s),
    decreases s.len(),
{
    if s.len() > 0 {
        lemma_len_le_byte_len(s.drop_first());
    }
}

/// The range an edit reports fits in a `usize` when its result does.
proof fn lemma_affected_fits(c: Seq<char>, a: int, b: int, x: Seq<char>)
    requires
        0 <= a <= c.len(),
        0 <= b <= c.len(),
        byte_len(splice_at(c, a, b, x)) <= usize::MAX,
    ensures
        a + byte_len(x) <= usize::MAX,
{
    let e = if b < a {
        a
    } else {
        b
    };
    lemma_byte_len_add(c.take(a) + x, c.skip(e));
    lemma_byte_len_add(c.take(a), x);
    lemma_len_le_byte_len(c.take(a));
}

fn owned(s: &str) -> (r: String)
    ensures
        r@ == s@,
{
    let mut r = String::new();
    push_str(&mut r, s);
    r
}

fn kind_message(head: &str, kind: &str) -> (m: String)
    ensures
        m@ == head@ + kind@ + " node"@,
{
    let mut m = String::new();
    push_str(&mut m, head);
    push_str(&mut m, kind);
    push_str(&mut m, " node");
    m
}

/// Splice `x` into `c` in place of characters `a..b` and report the result
/// as a success with `message`, the range starting at `a`.
fn spliced_success(c: &Vec<char>, a: usize, b: usize, x: &str, message: String) -> (r: NodeEditResult)
    requires
        a <= c@.len(),
        b <= c@.len(),
    ensures
        r@ == (NodeEditView::Success {
            message: message@,
            new_content: splice_at(c@, a as int, b as int, x@),
            affected_range: (a as int, a + byte_len(x@)),
        }),
{
    let xc = chars_of(x);
    let text = splice_exec(c, a, b, &xc);
    let total = str_byte_len(text.as_str());
    let xl = str_byte_len(x);
    proof {
        lemma_affected_fits(c@, a as int, b as int, x@);
    }
    NodeEditResult::Success { message, new_content: text, affected_range: (a, a + xl) }
}

/// Splice `x` into `c` in place of characters `a..b`, and report it as a
/// success with `message` when the result is valid Rust, else as `refusal`.
fn checked_splice(c: &Vec<char>, a: usize, b: usize, x: &str, message: String, refusal: &str) -> (r: NodeEditResult)
    requires
        a <= c@.len(),
        b <= c@.len(),
    ensures
        r@ == (if valid_rust(splice_at(c@, a as int, b as int, x@)) {
            NodeEditView::Success {
                message: message@,
                new_content: splice_at(c@, a as int, b as int, x@),
                affected_range: (a as int, a + byte_len(x@)),
            }
        } else {
            NodeEditView::Error(refusal@)
        }),
{
    let xc = chars_of(x);
    let text = splice_exec(c, a, b, &xc);
    if RustParser::validate_rust_syntax(text.as_str()) {
        let total = str_byte_len(text.as_str());
        let xl = str_byte_len(x);
        proof {
            lemma_affected_fits(c@, a as int, b as int, x@);
        }
        NodeEditResult::Success { message, new_content: text, affected_range: (a, a + xl) }
    } else {
        NodeEditResult::Error(owned(refusal))
    }
}

fn replaced_exec(t: &SyntaxTree, c: &Vec<char>, off: &Vec<usize>, i: usize, x: &str) -> (r: NodeEditResult)
    requires
        offsets_of(c@, off@),
        t.wf(),
        i < t.nodes@.len(),
    ensures
        r@ == replaced(t.nodes@, c@, i as int, x@),
{
    let xc = chars_of(x);
    let (s, e) = replacement_range_exec(t, c, off, i, &xc);
    let a = char_of_byte(c, off, s);
    let b = char_of_byte(c, off, e);
    let m = kind_message("Successfully replaced ", t.nodes[i].kind.as_str());
    checked_splice(c, a, b, x, m, "Replacement would create invalid syntax")
}

fn inserted_before_exec(t: &SyntaxTree, c: &Vec<char>, off: &Vec<usize>, i: usize, x: &str) -> (r: NodeEditResult)
    requires
        offsets_of(c@, off@),
        i < t.nodes@.len(),
    ensures
        r@ == inserted_before(t.nodes@, c@, i as int, x@),
{
    let k = char_of_byte(c, off, t.nodes[i].start);
    let ind = indentation_exec(c, k);
    let mut w = String::new();
    push_str(&mut w, x);
    push_str(&mut w, "\n");
    push_chars(&mut w, ind.as_slice());
    let m = kind_message("Successfully inserted content before ", t.nodes[i].kind.as_str());
    spliced_success(c, k, k, w.as_str(), m)
}

fn inserted_after_exec(t: &SyntaxTree, c: &Vec<char>, off: &Vec<usize>, i: usize, x: &str) -> (r: NodeEditResult)
    requires
        offsets_of(c@, off@),
        i < t.nodes@.len(),
    ensures
        r@ == inserted_after(t.nodes@, c@, i as int, x@),
{
    let k = char_of_byte(c, off, t.nodes[i].end);
    let ks = char_of_byte(c, off, t.nodes[i].start);
    let ind = indentation_exec(c, ks);
    let mut w = String::new();
    push_str(&mut w, "\n");
    push_chars(&mut w, ind.as_slice());
    push_str(&mut w, x);
    let m = kind_message("Successfully inserted content after ", t.nodes[i].kind.as_str());
    spliced_success(c, k, k, w.as_str(), m)
}

fn wrapped_exec(t: &SyntaxTree, c: &Vec<char>, off: &Vec<usize>, i: usize, template: &str) -> (r: NodeEditResult)
    requires
        offsets_of(c@, off@),
        i < t.nodes@.len(),
    ensures
        r@ == wrapped(t.nodes@, c@, i as int, template@),
{
    let text = node_text_exec(t, c, off, i);
    let placeholder = chars_of("{{content}}");
    proof {
        reveal_strlit("{{content}}");
    }
    let w = replace_all_chars(&chars_of(template), &placeholder, &text);
    let ws = string_from_chars(w.as_slice());
    let a = char_of_byte(c, off, t.nodes[i].start);
    let b = char_of_byte(c, off, t.nodes[i].end);
    let m = kind_message("Successfully wrapped ", t.nodes[i].kind.as_str());
    checked_splice(c, a, b, ws.as_str(), m, "Wrapping would create invalid syntax")
}

fn deleted_exec(t: &SyntaxTree, c: &Vec<char>, off: &Vec<usize>, i: usize) -> (r: NodeEditResult)
    requires
        offsets_of(c@, off@),
        i < t.nodes@.len(),
    ensures
        r@ == deleted(t.nodes@, c@, i as int),
{
    let a = char_of_byte(c, off, t.nodes[i].start);
    let b = char_of_byte(c, off, t.nodes[i].end);
    let empty: Vec<char> = Vec::new();
    let text = splice_exec(c, a, b, &empty);
    let m = kind_message("Successfully deleted ", t.nodes[i].kind.as_str());
    NodeEditResult::Success { message: m, new_content: text, affected_range: (a, a) }
}

/// The result as a preview reports it (see [`previewed`]).
fn preview(r: NodeEditResult, preview_only: &Option<bool>) -> (o: NodeEditResult)
    ensures
        o@ == previewed(r@, *preview_only),
{
    let mut r = r;
    match preview_only {
        Some(true) => {
            let mut m = String::new();
            push_str(&mut m, "PREVIEW: ");
            push_str(&mut m, r.message());
            r.set_message(m);
            r
        },
        _ => r,
    }
}

/// `t` is the node table of the Rust parse of `src`.
pub open spec fn rust_reading(t: SyntaxTree, src: Seq<char>) -> bool {
    &&& t.wf()
    &&& t.nodes@.len() == crate::syntax::ts_node_count(0, src)
    &&& forall|i: int| 0 <= i < t.nodes@.len() ==> #[trigger] t.reads(0, src, i)
}

/// A result as plain values.
pub open spec fn edit_result_view(r: Result<NodeEditResult, String>) -> Result<NodeEditView, Seq<char>> {
    match r {
        Ok(v) => Ok(v@),
        Err(m) => Err(m@),
    }
}

/// What a node-targeted edit of the Rust source `src` gives: when the source
/// parses as a tree, the edit of [`node_edit`] on its node table (all tables
/// of one parse give the same, see [`lemma_agree_node_edit`]); otherwise the
/// parse failure.
pub open spec fn rust_edit_outcome(op: NodeOperation, src: Seq<char>, r: Result<NodeEditView, Seq<char>>) -> bool {
    if parses_as_tree(0, src) {
        forall|t: SyntaxTree| rust_reading(t, src) ==> r == node_edit(op, t.nodes@, 0, src)
    } else {
        r == Err::<NodeEditView, Seq<char>>("Failed to parse rust code"@)
    }
}

/// Running an edit as a preview and running it for real give the same
/// result on the same source, but for the preview's message, which is the
/// real run's message behind `PREVIEW: `; a refused edit, or a source that
/// does not parse, is refused the same way in both.
pub proof fn law_preview_run_differs_only_in_message(
    op: NodeOperation,
    src: Seq<char>,
    actual: Result<NodeEditView, Seq<char>>,
    preview: Result<NodeEditView, Seq<char>>,
)
    requires
        preview_flag(op) != Some(true),
        rust_edit_outcome(op, src, actual),
        rust_edit_outcome(with_preview(op, Some(true)), src, preview),
    ensures
        preview == match actual {
            Ok(v) => Ok::<NodeEditView, Seq<char>>(with_message(v, "PREVIEW: "@ + message_of(v))),
            Err(m) => Err::<NodeEditView, Seq<char>>(m),
        },
{
    if parses_as_tree(0, src) {
        let t = choose|t: SyntaxTree| crate::syntax::reading_of(t, 0, src);
        assert(rust_reading(t, src));
        law_preview_only_prefixes_the_message(op, t.nodes@, 0, src);
    }
}

impl RustEditor {
    /// Run a node-targeted edit on a parsed file (see [`node_edit`]).
    pub fn apply_to_tree(operation: &NodeOperation, p: &ParsedSource, t: &SyntaxTree) -> (r: Result<NodeEditResult, String>)
        requires
            tree_of(*t, *p),
            p.src().len() < usize::MAX,
        ensures
            match (r, node_edit(*operation, t.nodes@, p.lang(), p.src())) {
                (Ok(v), Ok(w)) => v@ == w,
                (Err(m), Err(w)) => m@ == w,
                _ => false,
            },
    {
        let target = match operation {
            NodeOperation::Replace { target, .. } => target,
            NodeOperation::InsertBefore { target, .. } => target,
            NodeOperation::InsertAfter { target, .. } => target,
            NodeOperation::Wrap { target, .. } => target,
            NodeOperation::Delete { target, .. } => target,
        };
        let i = match target.find_node_with_suggestions(p, t) {
            Ok(i) => i,
            Err(m) => {
                return Err(m);
            },
        };
        let text = p.text();
        let c = chars_of(text);
        let _n = str_byte_len(text);
        let off = byte_offsets(c.as_slice());
        match operation {
            NodeOperation::Replace { new_content, preview_only, .. } => Ok(
                preview(replaced_exec(t, &c, &off, i, new_content.as_str()), preview_only),
            ),
            NodeOperation::InsertBefore { content, preview_only, .. } => Ok(
                preview(inserted_before_exec(t, &c, &off, i, content.as_str()), preview_only),
            ),
            NodeOperation::InsertAfter { content, preview_only, .. } => Ok(
                preview(inserted_after_exec(t, &c, &off, i, content.as_str()), preview_only),
            ),
            NodeOperation::Wrap { wrapper_template, preview_only, .. } => {
                let placeholder = chars_of("{{content}}");
                if !chars_contain(chars_of(wrapper_template.as_str()).as_slice(), placeholder.as_slice()) {
                    return Err(owned("Wrapper template must contain {content} placeholder"));
                }
                Ok(preview(wrapped_exec(t, &c, &off, i, wrapper_template.as_str()), preview_only))
            },
            NodeOperation::Delete { preview_only, .. } => Ok(preview(deleted_exec(t, &c, &off, i), preview_only)),
        }
    }

    /// Parse `source_code` as Rust and run a node-targeted edit on it (see
    /// [`rust_edit_outcome`]): the edit of [`node_edit`] on the parse's node
    /// table, or an error when the source does not parse as a tree.
    pub fn apply_operation(operation: &NodeOperation, source_code: &str) -> (r: Result<NodeEditResult, String>)
        requires
            source_code@.len() < usize::MAX,
        ensures
            rust_edit_outcome(*operation, source_code@, edit_result_view(r)),
    {
        let p = match parse_source(LanguageName::Rust, source_code) {
            Some(p) => p,
            None => {
                return Err(owned("Failed to parse rust code"));
            },
        };
        let t = match read_tree(&p) {
            Some(t) => t,
            None => {
                return Err(owned("Failed to parse rust code"));
            },
        };
        let r = Self::apply_to_tree(operation, &p, &t);
        proof {
            assert(crate::syntax::reading_of(t, 0, source_code@));
            assert forall|t2: SyntaxTree| rust_reading(t2, source_code@) implies edit_result_view(r) == node_edit(
                *operation,
                t2.nodes@,
                0,
                source_code@,
            ) by {
                assert(crate::syntax::reading_of(t2, 0, source_code@));
                crate::syntax::lemma_reading_tables_agree(t, t2, 0, source_code@);
                lemma_agree_node_edit(*operation, t.nodes@, t2.nodes@, 0, source_code@);
            }
        }
        r
    }

    /// Format Rust source; the text is returned as it is.
    pub fn format_code(source_code: &str) -> (r: Result<String, String>)
        ensures
            r matches Ok(s) && s@ == source_code@,
    {
        Ok(owned(source_code))
    }
}

} // verus!
