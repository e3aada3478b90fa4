//! Markdown placements: blank lines around block elements, and deleting a
//! heading or list item whole when its text is emptied.
use vstd::prelude::*;
use crate::item::chars_are;
use crate::operations::edit_operation::EditResult;
use crate::syntax::{SyntaxNode, SyntaxTree};
use crate::text::{byte_at, byte_len, chars_of, push_chars, push_str, slice_chars, string_from_chars};

verus! {

/// Edits Markdown documents.
pub struct MarkdownEditor;

/// Block elements that take a blank line on each side.
pub open spec fn is_spaced_block(kind: Seq<char>) -> bool {
    kind == "atx_heading"@ || kind == "section"@ || kind == "paragraph"@ || kind == "fenced_code_block"@
}

/// Content placed beside a node of `kind`, with the line breaks that keep it
/// a separate element: block elements get a blank line between them and the
/// content, list items a single line break. `before` places the content
/// before the node. Other nodes take the content as it is.
pub open spec fn spaced(content: Seq<char>, kind: Seq<char>, before: bool) -> Seq<char> {
    if is_spaced_block(kind) {
        if before {
            if content.len() > 0 && content.last() == '\n' {
                content + "\n"@
            } else {
                content + "\n\n"@
            }
        } else if content.len() > 0 && content[0] == '\n' {
            "\n"@ + content
        } else {
            "\n\n"@ + content
        }
    } else if kind == "list_item"@ {
        if before {
            if content.len() > 0 && content.last() == '\n' {
                content
            } else {
                content + "\n"@
            }
        } else if content.len() > 0 && content[0] == '\n' {
            content
        } else {
            "\n"@ + content
        }
    } else {
        content
    }
}

/// A deletion of characters `start..end` of `s` widened over the line breaks
/// that follow a block element: two when there is a blank line after it, else
/// one. Other nodes keep their range.
pub open spec fn deletion_range(s: Seq<char>, start: int, end: int, kind: Seq<char>) -> (int, int) {
    if (kind == "atx_heading"@ || kind == "paragraph"@ || kind == "fenced_code_block"@ || kind == "section"@)
        && 0 <= end < s.len() && s[end] == '\n' {
        if end + 1 < s.len() && s[end + 1] == '\n' {
            (start, end + 2)
        } else {
            (start, end + 1)
        }
    } else {
        (start, end)
    }
}

/// The heading whose text node `i` is: its parent, when `i` is `inline`
/// content of an `atx_heading`.
pub open spec fn parent_heading(t: Seq<SyntaxNode>, i: int) -> Option<int> {
    if 0 <= i < t.len() && t[i].kind@ == "inline"@ {
        match t[i].parent {
            Some(p) => if p < t.len() && t[p as int].kind@ == "atx_heading"@ {
                Some(p as int)
            } else {
                None
            },
            None => None,
        }
    } else {
        None
    }
}

/// The kind of node `i`, if it exists.
pub open spec fn kind_at(t: Seq<SyntaxNode>, i: int) -> Option<Seq<char>> {
    if 0 <= i < t.len() {
        Some(t[i].kind@)
    } else {
        None
    }
}

/// The parent of node `i`, if both exist.
pub open spec fn parent_at(t: Seq<SyntaxNode>, i: int) -> Option<int> {
    if 0 <= i < t.len() {
        match t[i].parent {
            Some(p) => if p < t.len() {
                Some(p as int)
            } else {
                None
            },
            None => None,
        }
    } else {
        None
    }
}

/// The list item whose text node `i` is: the parent of a `paragraph`, or the
/// grandparent of the `inline` content of one, when that is a `list_item`.
pub open spec fn parent_list_item(t: Seq<SyntaxNode>, i: int) -> Option<int> {
    if kind_at(t, i) == Some("paragraph"@) {
        match parent_at(t, i) {
            Some(p) => if kind_at(t, p) == Some("list_item"@) {
                Some(p)
            } else {
                None
            },
            None => None,
        }
    } else if kind_at(t, i) == Some("inline"@) {
        match parent_at(t, i) {
            Some(p) => if kind_at(t, p) == Some("paragraph"@) {
                match parent_at(t, p) {
                    Some(g) => if kind_at(t, g) == Some("list_item"@) {
                        Some(g)
                    } else {
                        None
                    },
                    None => None,
                }
            } else {
                None
            },
            None => None,
        }
    } else {
        None
    }
}

/// The index of the character holding byte `b` of `s` (`s.len()` at or past
/// the end): the number of characters that end at or before `b`.
pub open spec fn char_at_byte(s: Seq<char>, b: int, n: int) -> int
    decreases n,
{
    if n <= 0 {
        0
    } else {
        char_at_byte(s, b, n - 1) + if byte_at(s, n) <= b {
            1int
        } else {
            0int
        }
    }
}

/// `s` without its characters `a..b`.
pub open spec fn without(s: Seq<char>, a: int, b: int) -> Seq<char> {
    s.take(a) + s.skip(b)
}

/// The source after deleting the heading `h` whole, with the blank line
/// after it.
pub open spec fn heading_deleted(t: Seq<SyntaxNode>, s: Seq<char>, h: int) -> Seq<char> {
    let a = char_at_byte(s, t[h].start as int, s.len() as int);
    let b = char_at_byte(s, t[h].end as int, s.len() as int);
    let r = deletion_range(s, a, b, "atx_heading"@);
    without(s, r.0, r.1)
}

/// The source after deleting the list item `l` whole, with the line break
/// after it.
pub open spec fn list_item_deleted(t: Seq<SyntaxNode>, s: Seq<char>, l: int) -> Seq<char> {
    let a = char_at_byte(s, t[l].start as int, s.len() as int);
    let b = char_at_byte(s, t[l].end as int, s.len() as int);
    let e = if b < s.len() && s[b] == '\n' {
        b + 1
    } else {
        b
    };
    without(s, a, e)
}

pub open spec fn heading_message() -> Seq<char> {
    "Smart deletion: removed entire heading instead of creating empty heading"@
}

pub open spec fn list_item_message() -> Seq<char> {
    "Smart deletion: removed entire list item instead of creating empty bullet point"@
}

/// What emptying node `i` does instead: the text of a heading or of a list
/// item deletes the whole heading or item; anything else has no special
/// handling.
pub open spec fn smart_deletion(t: Seq<SyntaxNode>, s: Seq<char>, i: int) -> Option<(Seq<char>, Seq<char>)> {
    match parent_heading(t, i) {
        Some(h) => Some((heading_message(), heading_deleted(t, s, h))),
        None => match parent_list_item(t, i) {
            Some(l) => Some((list_item_message(), list_item_deleted(t, s, l))),
            None => None,
        },
    }
}

fn kind_is(t: &SyntaxTree, i: usize, k: &str) -> (b: bool)
    requires
        i < t.nodes@.len(),
    ensures
        b == (t.nodes@[i as int].kind@ == k@),
{
    chars_are(&chars_of(t.nodes[i].kind.as_str()), k)
}

fn parent_of(t: &SyntaxTree, i: usize) -> (r: Option<usize>)
    requires
        i < t.nodes@.len(),
    ensures
        match r {
            Some(p) => p < t.nodes@.len() && parent_at(t.nodes@, i as int) == Some(p as int),
            None => parent_at(t.nodes@, i as int) is None,
        },
{
    match t.nodes[i].parent {
        Some(p) => if p < t.nodes.len() {
            Some(p)
        } else {
            None
        },
        None => None,
    }
}

pub(crate) fn char_of_byte(c: &Vec<char>, off: &Vec<usize>, b: usize) -> (k: usize)
    requires
        crate::item::offsets_of(c@, off@),
    ensures
        k == char_at_byte(c@, b as int, c@.len() as int),
        k <= c@.len(),
{
    let mut k: usize = 0;
    let mut n: usize = 0;
    while n < c.len()
        invariant
            n <= c@.len(),
            crate::item::offsets_of(c@, off@),
            k == char_at_byte(c@, b as int, n as int),
            k <= n,
        decreases c@.len() - n,
    {
        if off[n + 1] <= b {
            k += 1;
        }
        n += 1;
    }
    k
}

pub proof fn lemma_char_at_byte_mono(s: Seq<char>, b1: int, b2: int, n: int)
    requires
        b1 <= b2,
    ensures
        char_at_byte(s, b1, n) <= char_at_byte(s, b2, n),
    decreases n,
{
    if n > 0 {
        lemma_char_at_byte_mono(s, b1, b2, n - 1);
    }
}

fn remove_chars(c: &Vec<char>, a: usize, b: usize) -> (s: String)
    requires
        a <= b <= c@.len(),
    ensures
        s@ == without(c@, a as int, b as int),
{
    let mut s = string_from_chars(slice_chars(c, 0, a).as_slice());
    let rest = slice_chars(c, b, c.len());
    push_chars(&mut s, rest.as_slice());
    proof {
        assert(s@ =~= without(c@, a as int, b as int));
    }
    s
}

fn widen_deletion(c: &Vec<char>, a: usize, b: usize, kind: &str) -> (r: (usize, usize))
    requires
        b <= c@.len(),
    ensures
        (r.0 as int, r.1 as int) == deletion_range(c@, a as int, b as int, kind@),
        r.1 <= c@.len(),
        r.0 == a,
{
    let k = chars_of(kind);
    let block = chars_are(&k, "atx_heading") || chars_are(&k, "paragraph") || chars_are(&k, "fenced_code_block")
        || chars_are(&k, "section");
    if block && b < c.len() && c[b] == '\n' {
        if b + 1 < c.len() && c[b + 1] == '\n' {
            (a, b + 2)
        } else {
            (a, b + 1)
        }
    } else {
        (a, b)
    }
}

impl MarkdownEditor {
    /// A Markdown editor.
    pub fn new() -> (e: Self) {
        MarkdownEditor
    }

    /// Content placed beside a node of kind `kind`, with the line breaks that
    /// keep it a separate element (see [`spaced`]).
    pub fn ensure_proper_markdown_spacing(content: &str, kind: &str, before: bool) -> (r: String)
        ensures
            r@ == spaced(content@, kind@, before),
    {
        let c = chars_of(content);
        let k = chars_of(kind);
        let ends_nl = c.len() > 0 && c[c.len() - 1] == '\n';
        let starts_nl = c.len() > 0 && c[0] == '\n';
        let block = chars_are(&k, "atx_heading") || chars_are(&k, "section") || chars_are(&k, "paragraph")
            || chars_are(&k, "fenced_code_block");
        let mut r = String::new();
        proof {
            reveal_strlit("\n");
            reveal_strlit("\n\n");
        }
        if block {
            if before {
                push_str(&mut r, content);
                if ends_nl {
                    push_str(&mut r, "\n");
                } else {
                    push_str(&mut r, "\n\n");
                }
            } else {
                if starts_nl {
                    push_str(&mut r, "\n");
                } else {
                    push_str(&mut r, "\n\n");
                }
                push_str(&mut r, content);
            }
        } else if chars_are(&k, "list_item") {
            if before {
                push_str(&mut r, content);
                if !ends_nl {
                    push_str(&mut r, "\n");
                }
            } else {
                if !starts_nl {
                    push_str(&mut r, "\n");
                }
                push_str(&mut r, content);
            }
        } else {
            push_str(&mut r, content);
        }
        proof {
            assert(r@ =~= spaced(content@, kind@, before));
        }
        r
    }

    /// The deletion of characters `start..end` of `text` widened over the line
    /// breaks after a block element of kind `kind` (see [`deletion_range`]).
    pub fn adjust_deletion_range_for_spacing(text: &str, start: usize, end: usize, kind: &str) -> (r: (usize, usize))
        requires
            end <= text@.len(),
        ensures
            (r.0 as int, r.1 as int) == deletion_range(text@, start as int, end as int, kind@),
    {
        let c = chars_of(text);
        widen_deletion(&c, start, end, kind)
    }

    /// The heading node `i` is the text of, if any.
    pub fn find_parent_heading(t: &SyntaxTree, i: usize) -> (r: Option<usize>)
        ensures
            match r {
                Some(h) => parent_heading(t.nodes@, i as int) == Some(h as int),
                None => parent_heading(t.nodes@, i as int) is None,
            },
    {
        if i >= t.nodes.len() || !kind_is(t, i, "inline") {
            return None;
        }
        match parent_of(t, i) {
            Some(p) => if kind_is(t, p, "atx_heading") {
                Some(p)
            } else {
                None
            },
            None => {
                None
            },
        }
    }

    /// The list item node `i` is the text of, if any.
    pub fn find_parent_list_item(t: &SyntaxTree, i: usize) -> (r: Option<usize>)
        ensures
            match r {
                Some(l) => parent_list_item(t.nodes@, i as int) == Some(l as int),
                None => parent_list_item(t.nodes@, i as int) is None,
            },
    {
        if i >= t.nodes.len() {
            return None;
        }
        if kind_is(t, i, "paragraph") {
            match parent_of(t, i) {
                Some(p) => if kind_is(t, p, "list_item") {
                    Some(p)
                } else {
                    None
                },
                None => None,
            }
        } else if kind_is(t, i, "inline") {
            match parent_of(t, i) {
                Some(p) => if kind_is(t, p, "paragraph") {
                    match parent_of(t, p) {
                        Some(g) => if kind_is(t, g, "list_item") {
                            Some(g)
                        } else {
                            None
                        },
                        None => None,
                    }
                } else {
                    None
                },
                None => None,
            }
        } else {
            None
        }
    }

    /// Delete heading `h` whole, with the blank line after it.
    pub fn delete_heading_with_spacing(t: &SyntaxTree, h: usize, source_code: &str) -> (r: EditResult)
        requires
            t.wf(),
            h < t.nodes@.len(),
            byte_len(source_code@) <= usize::MAX,
        ensures
            r.message@ == heading_message(),
            r.new_content@ == heading_deleted(t.nodes@, source_code@, h as int),
    {
        let c = chars_of(source_code);
        let off = crate::text::byte_offsets(&c);
        let a = char_of_byte(&c, &off, t.nodes[h].start);
        let b = char_of_byte(&c, &off, t.nodes[h].end);
        proof {
            lemma_char_at_byte_mono(c@, t.nodes@[h as int].start as int, t.nodes@[h as int].end as int, c@.len() as int);
        }
        let (fa, fb) = widen_deletion(&c, a, b, "atx_heading");
        let new_content = remove_chars(&c, fa, fb);
        proof {
            reveal_strlit("atx_heading");
        }
        EditResult { message: "Smart deletion: removed entire heading instead of creating empty heading".to_owned(), new_content }
    }

    /// Delete list item `l` whole, with the line break after it.
    pub fn delete_list_item_with_spacing(t: &SyntaxTree, l: usize, source_code: &str) -> (r: EditResult)
        requires
            t.wf(),
            l < t.nodes@.len(),
            byte_len(source_code@) <= usize::MAX,
        ensures
            r.message@ == list_item_message(),
            r.new_content@ == list_item_deleted(t.nodes@, source_code@, l as int),
    {
        let c = chars_of(source_code);
        let off = crate::text::byte_offsets(&c);
        let a = char_of_byte(&c, &off, t.nodes[l].start);
        let b = char_of_byte(&c, &off, t.nodes[l].end);
        proof {
            lemma_char_at_byte_mono(c@, t.nodes@[l as int].start as int, t.nodes@[l as int].end as int, c@.len() as int);
        }
        let e = if b < c.len() && c[b] == '\n' { b + 1 } else { b };
        let new_content = remove_chars(&c, a, e);
        EditResult {
            message: "Smart deletion: removed entire list item instead of creating empty bullet point".to_owned(),
            new_content,
        }
    }

    /// What emptying node `i` does instead (see [`smart_deletion`]): the
    /// text of a heading or of a list item deletes it whole.
    pub fn try_smart_deletion(t: &SyntaxTree, i: usize, source_code: &str) -> (r: Option<EditResult>)
        requires
            t.wf(),
            byte_len(source_code@) <= usize::MAX,
        ensures
            match (r, smart_deletion(t.nodes@, source_code@, i as int)) {
                (Some(e), Some((m, c))) => e.message@ == m && e.new_content@ == c,
                (None, None) => true,
                _ => false,
            },
    {
        if let Some(h) = Self::find_parent_heading(t, i) {
            return Some(Self::delete_heading_with_spacing(t, h, source_code));
        }
        if let Some(l) = Self::find_parent_list_item(t, i) {
            return Some(Self::delete_list_item_with_spacing(t, l, source_code));
        }
        None
    }
}

} // verus!
