//! Targeting an edit at a named item instead of at anchor text.
//!
//! An item reference names `{kind, name}`; it resolves to the item together
//! with its leading outer attributes and doc comments, so `insert_before` is
//! above the whole decorated unit and `insert_after` below it.
use vstd::prelude::*;
use crate::syntax::{SyntaxNode, SyntaxTree, field_child_upto, next_sibling_from};
use crate::text::{
    region, text_between, decimal, push_decimal, push_chars, chars_of, debug_quote, debug_quoted,
    find_char, find_from, lemma_find_from, push_str, trim, trim_range, string_from_chars, slice_chars,
    byte_at, byte_len,
};

verus! {

/// How many items an unresolved reference lists back before saying how many
/// more there were.
pub const MAX_LISTED: usize = 30;

/// A named item to target: `{ "kind": "function", "name": "handle_frame" }`.
///
/// `kind` is matched loosely against the grammar's node kind (see
/// [`kinds_match`]); `name` is the item's own name, exactly as declared.
#[derive(Debug, Clone)]
pub struct ItemRef {
    pub kind: String,
    pub name: String,
}

impl PartialEq for ItemRef {
    fn eq(&self, other: &Self) -> (r: bool) {
        self.kind == other.kind && self.name == other.name
    }
}

impl vstd::std_specs::cmp::PartialEqSpecImpl for ItemRef {
    open spec fn obeys_eq_spec() -> bool {
        true
    }

    open spec fn eq_spec(&self, other: &Self) -> bool {
        self.kind@ == other.kind@ && self.name@ == other.name@
    }
}

impl Eq for ItemRef {}

/// The message for a malformed `kind:name` spelling.
pub open spec fn item_ref_error(s: Seq<char>) -> Seq<char> {
    "expected `kind:name`, got "@ + debug_quoted(s)
}

/// What the command-line spelling `kind:name` parses to: both sides of the
/// first `:`, trimmed, when neither is blank.
pub open spec fn parse_item_ref_spec(s: Seq<char>) -> Result<(Seq<char>, Seq<char>), Seq<char>> {
    match find_from(s, ':', 0) {
        None => Err(item_ref_error(s)),
        Some(i) => {
            let kind = trim(s.take(i));
            let name = trim(s.skip(i + 1));
            if kind.len() == 0 || name.len() == 0 {
                Err(item_ref_error(s))
            } else {
                Ok((kind, name))
            }
        },
    }
}

fn item_ref_error_message(s: &str) -> (m: String)
    ensures
        m@ == item_ref_error(s@),
{
    let mut m = String::new();
    push_str(&mut m, "expected `kind:name`, got ");
    let q = debug_quote(s);
    push_str(&mut m, q.as_str());
    m
}

impl ItemRef {
    /// Parse the command-line spelling `kind:name` (`--item function:handle_frame`).
    pub fn parse(s: &str) -> (r: Result<ItemRef, String>)
        ensures
            match (r, parse_item_ref_spec(s@)) {
                (Ok(item), Ok((kind, name))) => item.kind@ == kind && item.name@ == name,
                (Err(m), Err(e)) => m@ == e,
                _ => false,
            },
    {
        let c = chars_of(s);
        proof {
            lemma_find_from(c@, ':', 0);
        }
        match find_char(&c, ':', 0) {
            None => Err(item_ref_error_message(s)),
            Some(i) => {
                let (ka, kb) = trim_range(&c, 0, i);
                let (na, nb) = trim_range(&c, i + 1, c.len());
                proof {
                    assert(c@.take(i as int) =~= c@.subrange(0, i as int));
                    assert(c@.skip(i + 1) =~= c@.subrange(i + 1, c@.len() as int));
                }
                if ka == kb || na == nb {
                    Err(item_ref_error_message(s))
                } else {
                    let kind = string_from_chars(&slice_chars(&c, ka, kb));
                    let name = string_from_chars(&slice_chars(&c, na, nb));
                    Ok(ItemRef { kind, name })
                }
            },
        }
    }

    /// How the reference reads back to the caller: kind, then the name in
    /// backticks.
    pub fn describe(&self) -> (d: String)
        ensures
            d@ == self.kind@ + " `"@ + self.name@ + "`"@,
    {
        let mut d = String::new();
        push_str(&mut d, self.kind.as_str());
        push_str(&mut d, " `");
        push_str(&mut d, self.name.as_str());
        push_str(&mut d, "`");
        d
    }
}

impl core::str::FromStr for ItemRef {
    type Err = String;

    /// Parse the command-line spelling `kind:name` (see [`ItemRef::parse`]).
    fn from_str(s: &str) -> (r: Result<Self, String>)
        ensures
            match (r, parse_item_ref_spec(s@)) {
                (Ok(item), Ok((kind, name))) => item.kind@ == kind && item.name@ == name,
                (Err(m), Err(e)) => m@ == e,
                _ => false,
            },
    {
        ItemRef::parse(s)
    }
}

/// Whether `s` ends with `suffix`.
pub open spec fn ends_with(s: Seq<char>, suffix: Seq<char>) -> bool {
    s.len() >= suffix.len() && s.skip(s.len() - suffix.len()) == suffix
}

/// A kind with its grammar suffix (`_item`, `_definition`, `_declaration`,
/// `_specifier`, the first that applies) taken off.
pub open spec fn kind_base(k: Seq<char>) -> Seq<char> {
    if ends_with(k, "_item"@) {
        k.take(k.len() - 5)
    } else if ends_with(k, "_definition"@) {
        k.take(k.len() - 11)
    } else if ends_with(k, "_declaration"@) {
        k.take(k.len() - 12)
    } else if ends_with(k, "_specifier"@) {
        k.take(k.len() - 10)
    } else {
        k
    }
}

/// The word a kind stands for: its base, with `fn`, `func`, `method` and
/// `function` read as `function`, and `mod` and `module` as `mod`.
pub open spec fn canonical_kind(k: Seq<char>) -> Seq<char> {
    let b = kind_base(k);
    if b == "fn"@ || b == "func"@ || b == "method"@ || b == "function"@ {
        "function"@
    } else if b == "mod"@ || b == "module"@ {
        "mod"@
    } else {
        b
    }
}

/// A requested kind matches a node kind when they are equal or name the same
/// word.
pub open spec fn kinds_match_spec(requested: Seq<char>, node_kind: Seq<char>) -> bool {
    requested == node_kind || canonical_kind(requested) == canonical_kind(node_kind)
}

/// Whether two character sequences are equal.
pub fn chars_equal(a: &[char], b: &[char]) -> (r: bool)
    ensures
        r == (a@ == b@),
{
    if a.len() != b.len() {
        return false;
    }
    let mut i: usize = 0;
    while i < a.len()
        invariant
            i <= a.len() == b.len(),
            forall|k: int| 0 <= k < i ==> a@[k] == b@[k],
        decreases a.len() - i,
    {
        if a[i] != b[i] {
            return false;
        }
        i += 1;
    }
    assert(a@ =~= b@);
    true
}

/// Whether the characters `a` spell the string `b`.
pub fn chars_are(a: &[char], b: &str) -> (r: bool)
    ensures
        r == (a@ == b@),
{
    let bc = chars_of(b);
    chars_equal(a, &bc)
}

/// Whether `s` ends with `suffix`.
pub fn chars_end_with(s: &[char], suffix: &str) -> (r: bool)
    ensures
        r == ends_with(s@, suffix@),
{
    let t = chars_of(suffix);
    if s.len() < t.len() {
        return false;
    }
    let tail = slice_chars(s, s.len() - t.len(), s.len());
    assert(tail@ =~= s@.skip(s@.len() - t@.len()));
    chars_equal(&tail, &t)
}

/// The canonical word for a kind (see [`canonical_kind`]).
pub fn canonical(kind: &str) -> (c: String)
    ensures
        c@ == canonical_kind(kind@),
{
    let k = chars_of(kind);
    proof {
        reveal_strlit("_item");
        reveal_strlit("_definition");
        reveal_strlit("_declaration");
        reveal_strlit("_specifier");
    }
    let base: Vec<char> = if chars_end_with(&k, "_item") {
        slice_chars(&k, 0, k.len() - 5)
    } else if chars_end_with(&k, "_definition") {
        slice_chars(&k, 0, k.len() - 11)
    } else if chars_end_with(&k, "_declaration") {
        slice_chars(&k, 0, k.len() - 12)
    } else if chars_end_with(&k, "_specifier") {
        slice_chars(&k, 0, k.len() - 10)
    } else {
        k
    };
    assert(base@ =~= kind_base(kind@));
    if chars_are(&base, "fn") || chars_are(&base, "func") || chars_are(&base, "method") || chars_are(
        &base,
        "function",
    ) {
        String::from_str("function")
    } else if chars_are(&base, "mod") || chars_are(&base, "module") {
        String::from_str("mod")
    } else {
        string_from_chars(&base)
    }
}

/// Whether a requested kind matches a grammar's node kind: `function` matches
/// `function_item`, `function_definition`, `function_declaration` and
/// `method_definition`; `mod` matches `module`.
pub fn kinds_match(requested: &str, node_kind: &str) -> (r: bool)
    ensures
        r == kinds_match_spec(requested@, node_kind@),
{
    let a = chars_of(requested);
    let b = chars_of(node_kind);
    if chars_equal(&a, &b) {
        return true;
    }
    let ca = canonical(requested);
    let cb = canonical(node_kind);
    let x = chars_of(ca.as_str());
    let y = chars_of(cb.as_str());
    chars_equal(&x, &y)
}

/// Number of line breaks among the first `n` characters of `s` that start
/// before byte `b`.
pub open spec fn newlines_before(s: Seq<char>, b: int, n: int) -> nat
    decreases n,
{
    if n <= 0 {
        0
    } else {
        newlines_before(s, b, n - 1) + if s[n - 1] == '\n' && byte_at(s, n - 1) < b {
            1nat
        } else {
            0nat
        }
    }
}

/// `b` is a byte offset at which `s` can be split: a character boundary, or
/// past the end.
pub open spec fn splittable_at(s: Seq<char>, b: int) -> bool {
    b >= byte_len(s) || exists|k: int| 0 <= k <= s.len() && byte_at(s, k) == b
}

/// The 1-based line containing byte `byte` of `source` (the last line for a
/// byte past the end).
pub fn line_of(source: &str, byte: usize) -> (line: usize)
    requires
        splittable_at(source@, byte as int),
        source@.len() < usize::MAX,
    ensures
        line == newlines_before(source@, byte as int, source@.len() as int) + 1,
{
    let c = chars_of(source);
    let total = crate::text::str_byte_len(source);
    let offsets = crate::text::byte_offsets(&c);
    let mut count: usize = 0;
    let mut i: usize = 0;
    while i < c.len()
        invariant
            i <= c@.len(),
            c@ == source@,
            offsets@.len() == c@.len() + 1,
            forall|k: int| 0 <= k <= c@.len() ==> offsets@[k] == byte_at(c@, k),
            count == newlines_before(c@, byte as int, i as int),
            count <= i,
        decreases c.len() - i,
    {
        if c[i] == '\n' && offsets[i] < byte {
            count += 1;
        }
        i += 1;
    }
    count + 1
}

/// Whether `n` occurs in `h`.
pub open spec fn contains_text(h: Seq<char>, n: Seq<char>) -> bool {
    exists|k: int| 0 <= k && k + n.len() <= h.len() && #[trigger] h.subrange(k, k + n.len()) == n
}

/// Whether `n` occurs in `h`, by scanning.
pub fn chars_contain(h: &[char], n: &[char]) -> (r: bool)
    ensures
        r == contains_text(h@, n@),
{
    if n.len() > h.len() {
        return false;
    }
    let hl = h.len();
    let nl = n.len();
    let last = hl - nl;
    let mut k: usize = 0;
    loop
        invariant_except_break
            n@.len() <= h@.len(),
            last == h@.len() - n@.len(),
            hl == h@.len(),
            nl == n@.len(),
            k <= last,
            forall|j: int| 0 <= j < k ==> #[trigger] h@.subrange(j, j + n@.len()) != n@,
        ensures
            forall|j: int| 0 <= j <= last ==> #[trigger] h@.subrange(j, j + n@.len()) != n@,
        decreases last - k,
    {
        assert(k + n@.len() <= h@.len());
        let w = slice_chars(h, k, k + nl);
        if chars_equal(&w, n) {
            return true;
        }
        if k == last {
            break;
        }
        k += 1;
    }
    proof {
        assert forall|j: int| 0 <= j && j + n@.len() <= h@.len() implies #[trigger] h@.subrange(j, j + n@.len()) != n@ by {
            assert(j <= last);
        }
    }
    false
}

/// Comments and attributes decorate the item below them, across grammars.
pub open spec fn is_decoration_kind(k: Seq<char>) -> bool {
    contains_text(k, "comment"@) || contains_text(k, "attribute"@) || contains_text(k, "decorator"@)
}

fn is_decoration(kind: &str) -> (b: bool)
    ensures
        b == is_decoration_kind(kind@),
{
    let k = chars_of(kind);
    chars_contain(&k, &chars_of("comment")) || chars_contain(&k, &chars_of("attribute"))
        || chars_contain(&k, &chars_of("decorator"))
}

/// A node's declared name: the trimmed text of its `name` child, unless blank.
pub open spec fn name_of(t: Seq<SyntaxNode>, src: Seq<char>, i: int) -> Option<Seq<char>> {
    match field_child_upto(t, i, "name"@, t.len() as int) {
        None => None,
        Some(c) => match region(src, t[c].start as int, t[c].end as int) {
            None => None,
            Some(text) => if trim(text).len() > 0 {
                Some(trim(text))
            } else {
                None
            },
        },
    }
}

/// How a node is described to the caller: its canonical kind, and its name
/// in backticks when it has one.
pub open spec fn describe_node(t: Seq<SyntaxNode>, src: Seq<char>, i: int) -> Seq<char> {
    match name_of(t, src, i) {
        Some(name) => canonical_kind(t[i].kind@) + " `"@ + name + "`"@,
        None => canonical_kind(t[i].kind@),
    }
}

/// The named nodes below the root, among the first `n`, that declare a name,
/// in preorder.
pub open spec fn named_items_upto(t: Seq<SyntaxNode>, src: Seq<char>, n: int) -> Seq<usize>
    decreases n,
{
    if n <= 1 {
        seq![]
    } else {
        let before = named_items_upto(t, src, n - 1);
        if t[n - 1].named && name_of(t, src, n - 1) is Some {
            before.push((n - 1) as usize)
        } else {
            before
        }
    }
}

/// The named items of the tree (see [`named_items_upto`]).
pub open spec fn named_items(t: Seq<SyntaxNode>, src: Seq<char>) -> Seq<usize> {
    named_items_upto(t, src, t.len() as int)
}

/// Number of occurrences of `c` in `s`.
pub open spec fn count_char(s: Seq<char>, c: char) -> nat
    decreases s.len(),
{
    if s.len() == 0 {
        0
    } else {
        count_char(s.drop_last(), c) + if s.last() == c {
            1nat
        } else {
            0nat
        }
    }
}

/// The decorations directly above `cur`, in source order: its previous
/// siblings while they are comments or attributes separated by at most one
/// line break.
pub open spec fn leading(t: Seq<SyntaxNode>, src: Seq<char>, cur: int) -> Seq<usize>
    decreases cur,
{
    if 0 <= cur < t.len() {
        match t[cur].prev_sibling {
            None => seq![],
            Some(p) => if p < cur && is_decoration_kind(t[p as int].kind@) {
                let between = match region(src, t[p as int].end as int, t[cur].start as int) {
                    Some(b) => b,
                    None => seq![],
                };
                if count_char(between, '\n') > 1 {
                    seq![]
                } else {
                    leading(t, src, p as int).push(p)
                }
            } else {
                seq![]
            },
        }
    } else {
        seq![]
    }
}

/// The nearest previous sibling of `cur` that is named and not a decoration,
/// described.
pub open spec fn prev_description(t: Seq<SyntaxNode>, src: Seq<char>, cur: int) -> Option<Seq<char>>
    decreases cur,
{
    if 0 <= cur < t.len() {
        match t[cur].prev_sibling {
            None => None,
            Some(p) => if p >= cur {
                None
            } else if !is_decoration_kind(t[p as int].kind@) && t[p as int].named {
                Some(describe_node(t, src, p as int))
            } else {
                prev_description(t, src, p as int)
            },
        }
    } else {
        None
    }
}

/// The nearest next sibling of `cur` that is named and not a decoration,
/// described.
pub open spec fn next_description(t: Seq<SyntaxNode>, src: Seq<char>, cur: int) -> Option<Seq<char>>
    decreases t.len() - cur,
{
    if 0 <= cur < t.len() {
        match next_sibling_from(t, cur, cur + 1) {
            None => None,
            Some(j) => if j <= cur || j >= t.len() {
                None
            } else if !is_decoration_kind(t[j].kind@) && t[j].named {
                Some(describe_node(t, src, j))
            } else {
                next_description(t, src, j)
            },
        }
    } else {
        None
    }
}

/// `xs` joined with `sep` between consecutive elements.
pub open spec fn join(xs: Seq<Seq<char>>, sep: Seq<char>) -> Seq<char>
    decreases xs.len(),
{
    if xs.len() == 0 {
        seq![]
    } else if xs.len() == 1 {
        xs[0]
    } else {
        join(xs.drop_last(), sep) + sep + xs.last()
    }
}

/// The items of `xs` whose name is `name`.
pub open spec fn with_name(t: Seq<SyntaxNode>, src: Seq<char>, xs: Seq<usize>, name: Seq<char>) -> Seq<usize>
    decreases xs.len(),
{
    if xs.len() == 0 {
        seq![]
    } else {
        let before = with_name(t, src, xs.drop_last(), name);
        if name_of(t, src, xs.last() as int) == Some(name) {
            before.push(xs.last())
        } else {
            before
        }
    }
}

/// The items of `xs` whose kind matches `kind`.
pub open spec fn with_kind(t: Seq<SyntaxNode>, xs: Seq<usize>, kind: Seq<char>) -> Seq<usize>
    decreases xs.len(),
{
    if xs.len() == 0 {
        seq![]
    } else {
        let before = with_kind(t, xs.drop_last(), kind);
        if kinds_match_spec(kind, t[xs.last() as int].kind@) {
            before.push(xs.last())
        } else {
            before
        }
    }
}

/// The descriptions of the nodes `xs`.
pub open spec fn describe_all(t: Seq<SyntaxNode>, src: Seq<char>, xs: Seq<usize>) -> Seq<Seq<char>> {
    xs.map_values(|i: usize| describe_node(t, src, i as int))
}

/// How an item reference reads back: `kind \`name\``.
pub open spec fn reference_text(kind: Seq<char>, name: Seq<char>) -> Seq<char> {
    kind + " `"@ + name + "`"@
}

/// What an unresolved reference gets back: the same name under other kinds,
/// else the items of that kind (or all named items), at most
/// `MAX_LISTED` of them with a count of the rest.
pub open spec fn not_found_text(t: Seq<SyntaxNode>, src: Seq<char>, kind: Seq<char>, name: Seq<char>) -> Seq<char> {
    let all = named_items(t, src);
    let r = reference_text(kind, name);
    let same = with_name(t, src, all, name);
    if same.len() > 0 {
        "No "@ + r + " in this file, but that name is declared as: "@ + join(describe_all(t, src, same), ", "@)
            + ". The file was not modified."@
    } else {
        let by_kind = with_kind(t, all, kind);
        let listed = if by_kind.len() == 0 {
            describe_all(t, src, all)
        } else {
            describe_all(t, src, by_kind)
        };
        let label = if by_kind.len() == 0 {
            "named items"@
        } else {
            "items of that kind"@
        };
        if listed.len() == 0 {
            "No "@ + r + " in this file, which declares no named items at all — use a text `anchor`. The file was not modified."@
        } else {
            let shown = if listed.len() < MAX_LISTED {
                listed.len()
            } else {
                MAX_LISTED as nat
            };
            let more = if listed.len() > shown {
                " (and "@ + decimal((listed.len() - shown) as nat) + " more)"@
            } else {
                ""@
            };
            "No "@ + r + " in this file. Its "@ + label + ": "@ + join(listed.take(shown as int), ", "@) + more
                + ". The file was not modified."@
        }
    }
}

/// The 1-based line of byte `b`: one more than the line breaks before it.
pub open spec fn line_at(src: Seq<char>, b: int) -> nat {
    newlines_before(src, b, src.len() as int) + 1
}

/// What an item reference resolves to.
#[derive(Debug)]
pub struct ResolvedItem {
    /// The decorations and the item itself, in source order.
    pub nodes: Vec<usize>,
    /// First byte of the first decoration (or of the item, undecorated).
    pub start: usize,
    /// Last byte of the item.
    pub end: usize,
    /// How the item is described back to the caller.
    pub description: String,
    /// 1-based line span of `start..end`.
    pub lines: (usize, usize),
    /// How many leading attributes and doc comments were taken in.
    pub decorations: usize,
    /// The items before and after this one in the same scope.
    pub previous: Option<String>,
    pub next: Option<String>,
}

/// Optional text as characters.
pub open spec fn opt_view(o: Option<String>) -> Option<Seq<char>> {
    match o {
        Some(s) => Some(s@),
        None => None,
    }
}

/// The resolution of the single item `node`.
pub open spec fn resolved_as(r: ResolvedItem, t: Seq<SyntaxNode>, src: Seq<char>, node: int) -> bool {
    let decs = leading(t, src, node);
    let start = if decs.len() > 0 {
        t[decs[0] as int].start as int
    } else {
        t[node].start as int
    };
    let end = t[node].end as int;
    &&& r.nodes@ == decs.push(node as usize)
    &&& r.start == start
    &&& r.end == end
    &&& r.description@ == describe_node(t, src, node)
    &&& r.lines.0 == line_at(src, start)
    &&& r.lines.1 == line_at(src, if end >= 1 {
        end - 1
    } else {
        0
    })
    &&& r.decorations == decs.len()
    &&& opt_view(r.previous) == prev_description(t, src, if decs.len() > 0 {
        decs[0] as int
    } else {
        node
    })
    &&& opt_view(r.next) == next_description(t, src, node)
}

/// The refusal for a reference that names several items.
pub open spec fn ambiguous_text(t: Seq<SyntaxNode>, src: Seq<char>, kind: Seq<char>, name: Seq<char>, found: Seq<usize>) -> Seq<char> {
    reference_text(kind, name) + " names "@ + decimal(found.len()) + " items in this file (lines "@
        + join(found.map_values(|i: usize| decimal(line_at(src, t[i as int].start as int))), ", "@)
        + "); an item reference cannot say which. Use a text `anchor` that covers the one you mean. The file was not modified."@
}

/// The requirements on a source text and its byte-offset table.
pub open spec fn offsets_of(c: Seq<char>, off: Seq<usize>) -> bool {
    &&& off.len() == c.len() + 1
    &&& forall|q: int| 0 <= q <= c.len() ==> off[q] == byte_at(c, q)
}

/// The declared name of node `i`, computed.
pub fn node_name(t: &SyntaxTree, c: &Vec<char>, off: &Vec<usize>, i: usize) -> (r: Option<Vec<char>>)
    requires
        offsets_of(c@, off@),
    ensures
        match r {
            Some(x) => name_of(t.nodes@, c@, i as int) == Some(x@),
            None => name_of(t.nodes@, c@, i as int) is None,
        },
{
    match t.field_child(i, "name") {
        None => {
            proof {
                reveal_strlit("name");
            }
            None
        },
        Some(k) => {
            proof {
                reveal_strlit("name");
            }
            match text_between(c, off, t.nodes[k].start, t.nodes[k].end) {
                None => None,
                Some(text) => {
                    let (a, b) = trim_range(&text, 0, text.len());
                    assert(text@.subrange(0, text@.len() as int) =~= text@);
                    if a < b {
                        Some(slice_chars(&text, a, b))
                    } else {
                        None
                    }
                },
            }
        },
    }
}

/// The description of node `i`, computed.
pub fn describe_node_exec(t: &SyntaxTree, c: &Vec<char>, off: &Vec<usize>, i: usize) -> (d: String)
    requires
        offsets_of(c@, off@),
        i < t.nodes@.len(),
    ensures
        d@ == describe_node(t.nodes@, c@, i as int),
{
    let mut d = canonical(t.nodes[i].kind.as_str());
    match node_name(t, c, off, i) {
        Some(name) => {
            push_str(&mut d, " `");
            push_chars(&mut d, &name);
            push_str(&mut d, "`");
        },
        None => {},
    }
    d
}

/// The named items of the tree, computed.
pub fn named_items_exec(t: &SyntaxTree, c: &Vec<char>, off: &Vec<usize>) -> (v: Vec<usize>)
    requires
        offsets_of(c@, off@),
    ensures
        v@ == named_items(t.nodes@, c@),
        forall|k: int| 0 <= k < v@.len() ==> (#[trigger] v@[k]) < t.nodes@.len(),
{
    let mut v: Vec<usize> = Vec::new();
    if t.nodes.len() <= 1 {
        return v;
    }
    let mut j: usize = 1;
    while j < t.nodes.len()
        invariant
            1 <= j <= t.nodes@.len(),
            offsets_of(c@, off@),
            v@ == named_items_upto(t.nodes@, c@, j as int),
            forall|k: int| 0 <= k < v@.len() ==> (#[trigger] v@[k]) < j,
        decreases t.nodes@.len() - j,
    {
        if t.nodes[j].named {
            if let Some(_) = node_name(t, c, off, j) {
                v.push(j);
            }
        }
        j += 1;
    }
    v
}

/// Number of line breaks in `s`.
pub fn count_newlines(s: &Vec<char>) -> (n: usize)
    ensures
        n == count_char(s@, '\n'),
{
    let mut n: usize = 0;
    let mut i: usize = 0;
    while i < s.len()
        invariant
            i <= s@.len(),
            n == count_char(s@.take(i as int), '\n'),
            n <= i,
        decreases s@.len() - i,
    {
        assert(s@.take(i + 1).drop_last() =~= s@.take(i as int));
        if s[i] == '\n' {
            n += 1;
        }
        i += 1;
    }
    assert(s@.take(i as int) =~= s@);
    n
}

/// The decorations directly above `cur`, computed.
pub fn leading_exec(t: &SyntaxTree, c: &Vec<char>, off: &Vec<usize>, cur: usize) -> (v: Vec<usize>)
    requires
        offsets_of(c@, off@),
        t.wf(),
    ensures
        v@ == leading(t.nodes@, c@, cur as int),
        forall|k: int| 0 <= k < v@.len() ==> (#[trigger] v@[k]) < t.nodes@.len(),
    decreases cur,
{
    if cur >= t.nodes.len() {
        return Vec::new();
    }
    match t.nodes[cur].prev_sibling {
        None => Vec::new(),
        Some(p) => {
            if p < cur && is_decoration(t.nodes[p].kind.as_str()) {
                let nl = match text_between(c, off, t.nodes[p].end, t.nodes[cur].start) {
                    Some(b) => count_newlines(&b),
                    None => {
                        proof {
                            assert(count_char(Seq::<char>::empty(), '\n') == 0);
                        }
                        0
                    },
                };
                if nl > 1 {
                    Vec::new()
                } else {
                    let mut v = leading_exec(t, c, off, p);
                    v.push(p);
                    v
                }
            } else {
                Vec::new()
            }
        },
    }
}

/// The previous named, non-decoration sibling of `cur`, described.
pub fn prev_description_exec(t: &SyntaxTree, c: &Vec<char>, off: &Vec<usize>, cur: usize) -> (r: Option<String>)
    requires
        offsets_of(c@, off@),
        t.wf(),
    ensures
        opt_view(r) == prev_description(t.nodes@, c@, cur as int),
    decreases cur,
{
    if cur >= t.nodes.len() {
        return None;
    }
    match t.nodes[cur].prev_sibling {
        None => None,
        Some(p) => {
            if p >= cur {
                None
            } else if !is_decoration(t.nodes[p].kind.as_str()) && t.nodes[p].named {
                Some(describe_node_exec(t, c, off, p))
            } else {
                prev_description_exec(t, c, off, p)
            }
        },
    }
}

/// The next named, non-decoration sibling of `cur`, described.
pub fn next_description_exec(t: &SyntaxTree, c: &Vec<char>, off: &Vec<usize>, cur: usize) -> (r: Option<String>)
    requires
        offsets_of(c@, off@),
        t.wf(),
    ensures
        opt_view(r) == next_description(t.nodes@, c@, cur as int),
    decreases t.nodes@.len() - cur,
{
    if cur >= t.nodes.len() {
        return None;
    }
    match t.next_sibling(cur) {
        None => None,
        Some(j) => {
            if j <= cur || j >= t.nodes.len() {
                None
            } else if !is_decoration(t.nodes[j].kind.as_str()) && t.nodes[j].named {
                Some(describe_node_exec(t, c, off, j))
            } else {
                next_description_exec(t, c, off, j)
            }
        },
    }
}

/// The strings `xs` joined with `sep`.
pub fn join_strings(xs: &Vec<String>, sep: &str) -> (s: String)
    ensures
        s@ == join(xs@.map_values(|x: String| x@), sep@),
{
    let ghost v = xs@.map_values(|x: String| x@);
    let mut s = String::new();
    let mut i: usize = 0;
    while i < xs.len()
        invariant
            i <= xs@.len(),
            v == xs@.map_values(|x: String| x@),
            s@ == join(v.take(i as int), sep@),
        decreases xs@.len() - i,
    {
        assert(v.take(i + 1).drop_last() =~= v.take(i as int));
        if i > 0 {
            push_str(&mut s, sep);
        } else {
            assert(v.take(0) =~= Seq::<Seq<char>>::empty());
        }
        push_str(&mut s, xs[i].as_str());
        i += 1;
    }
    assert(v.take(i as int) =~= v);
    s
}

/// The 1-based line of byte `b` of the source (a byte inside a character
/// counts the line breaks before that character's start).
pub fn line_at_exec(c: &Vec<char>, off: &Vec<usize>, b: usize) -> (line: usize)
    requires
        offsets_of(c@, off@),
        c@.len() < usize::MAX,
    ensures
        line == line_at(c@, b as int),
{
    let mut count: usize = 0;
    let mut i: usize = 0;
    while i < c.len()
        invariant
            i <= c@.len() < usize::MAX,
            offsets_of(c@, off@),
            count == newlines_before(c@, b as int, i as int),
            count <= i,
        decreases c@.len() - i,
    {
        if c[i] == '\n' && off[i] < b {
            count += 1;
        }
        i += 1;
    }
    count + 1
}

/// The items of `xs` named `name`, computed.
fn with_name_exec(t: &SyntaxTree, c: &Vec<char>, off: &Vec<usize>, xs: &Vec<usize>, name: &Vec<char>) -> (v: Vec<usize>)
    requires
        offsets_of(c@, off@),
        forall|k: int| 0 <= k < xs@.len() ==> (#[trigger] xs@[k]) < t.nodes@.len(),
    ensures
        v@ == with_name(t.nodes@, c@, xs@, name@),
        forall|k: int| 0 <= k < v@.len() ==> (#[trigger] v@[k]) < t.nodes@.len(),
{
    let mut v: Vec<usize> = Vec::new();
    let mut i: usize = 0;
    while i < xs.len()
        invariant
            i <= xs@.len(),
            offsets_of(c@, off@),
            forall|k: int| 0 <= k < xs@.len() ==> (#[trigger] xs@[k]) < t.nodes@.len(),
            v@ == with_name(t.nodes@, c@, xs@.take(i as int), name@),
            forall|k: int| 0 <= k < v@.len() ==> (#[trigger] v@[k]) < t.nodes@.len(),
        decreases xs@.len() - i,
    {
        assert(xs@.take(i + 1).drop_last() =~= xs@.take(i as int));
        let same = match node_name(t, c, off, xs[i]) {
            Some(n) => chars_equal(&n, name),
            None => false,
        };
        if same {
            v.push(xs[i]);
        }
        i += 1;
    }
    assert(xs@.take(i as int) =~= xs@);
    v
}

/// The items of `xs` of kind `kind`, computed.
fn with_kind_exec(t: &SyntaxTree, xs: &Vec<usize>, kind: &str) -> (v: Vec<usize>)
    requires
        forall|k: int| 0 <= k < xs@.len() ==> (#[trigger] xs@[k]) < t.nodes@.len(),
    ensures
        v@ == with_kind(t.nodes@, xs@, kind@),
        forall|k: int| 0 <= k < v@.len() ==> (#[trigger] v@[k]) < t.nodes@.len(),
{
    let mut v: Vec<usize> = Vec::new();
    let mut i: usize = 0;
    while i < xs.len()
        invariant
            i <= xs@.len(),
            forall|k: int| 0 <= k < xs@.len() ==> (#[trigger] xs@[k]) < t.nodes@.len(),
            v@ == with_kind(t.nodes@, xs@.take(i as int), kind@),
            forall|k: int| 0 <= k < v@.len() ==> (#[trigger] v@[k]) < t.nodes@.len(),
        decreases xs@.len() - i,
    {
        assert(xs@.take(i + 1).drop_last() =~= xs@.take(i as int));
        if kinds_match(kind, t.nodes[xs[i]].kind.as_str()) {
            v.push(xs[i]);
        }
        i += 1;
    }
    assert(xs@.take(i as int) =~= xs@);
    v
}

/// The descriptions of the first `n` nodes of `xs`.
fn describe_first(t: &SyntaxTree, c: &Vec<char>, off: &Vec<usize>, xs: &Vec<usize>, n: usize) -> (v: Vec<String>)
    requires
        offsets_of(c@, off@),
        n <= xs@.len(),
        forall|k: int| 0 <= k < xs@.len() ==> (#[trigger] xs@[k]) < t.nodes@.len(),
    ensures
        v@.map_values(|x: String| x@) == describe_all(t.nodes@, c@, xs@).take(n as int),
{
    let mut v: Vec<String> = Vec::new();
    let mut i: usize = 0;
    while i < n
        invariant
            i <= n <= xs@.len(),
            offsets_of(c@, off@),
            forall|k: int| 0 <= k < xs@.len() ==> (#[trigger] xs@[k]) < t.nodes@.len(),
            v@.map_values(|x: String| x@) == describe_all(t.nodes@, c@, xs@).take(i as int),
        decreases n - i,
    {
        let d = describe_node_exec(t, c, off, xs[i]);
        let ghost vb = v@;
        v.push(d);
        assert(v@.map_values(|x: String| x@) =~= vb.map_values(|x: String| x@).push(d@));
        assert(describe_all(t.nodes@, c@, xs@).take(i + 1) =~= describe_all(t.nodes@, c@, xs@).take(i as int).push(describe_node(t.nodes@, c@, xs@[i as int] as int)));
        i += 1;
    }
    v
}

/// The explanation for a reference that resolves to nothing (see
/// [`not_found_text`]).
pub fn not_found(t: &SyntaxTree, c: &Vec<char>, off: &Vec<usize>, reference: &ItemRef) -> (m: String)
    requires
        offsets_of(c@, off@),
    ensures
        m@ == not_found_text(t.nodes@, c@, reference.kind@, reference.name@),
{
    let all = named_items_exec(t, c, off);
    let name = chars_of(reference.name.as_str());
    let r = reference.describe();
    let same = with_name_exec(t, c, off, &all, &name);
    let mut m = String::new();
    push_str(&mut m, "No ");
    push_str(&mut m, r.as_str());
    if same.len() > 0 {
        let ds = describe_first(t, c, off, &same, same.len());
        assert(describe_all(t.nodes@, c@, same@).take(same@.len() as int) =~= describe_all(t.nodes@, c@, same@));
        push_str(&mut m, " in this file, but that name is declared as: ");
        let j = join_strings(&ds, ", ");
        push_str(&mut m, j.as_str());
        push_str(&mut m, ". The file was not modified.");
        return m;
    }
    let by_kind = with_kind_exec(t, &all, reference.kind.as_str());
    let source: &Vec<usize> = if by_kind.len() == 0 {
        &all
    } else {
        &by_kind
    };
    if source.len() == 0 {
        push_str(&mut m, " in this file, which declares no named items at all — use a text `anchor`. The file was not modified.");
        return m;
    }
    let shown = if source.len() < MAX_LISTED {
        source.len()
    } else {
        MAX_LISTED
    };
    let ds = describe_first(t, c, off, source, shown);
    proof {
        let listed = describe_all(t.nodes@, c@, source@);
        assert(listed.len() == source@.len());
        if by_kind@.len() == 0 {
            assert(source@ == all@);
        } else {
            assert(source@ == by_kind@);
        }
    }
    push_str(&mut m, " in this file. Its ");
    if by_kind.len() == 0 {
        push_str(&mut m, "named items");
    } else {
        push_str(&mut m, "items of that kind");
    }
    push_str(&mut m, ": ");
    let j = join_strings(&ds, ", ");
    push_str(&mut m, j.as_str());
    let mut more = String::new();
    if source.len() > shown {
        push_str(&mut more, " (and ");
        push_decimal(&mut more, source.len() - shown);
        push_str(&mut more, " more)");
    }
    proof {
        reveal_strlit("");
        if source@.len() <= shown {
            assert(more@ =~= ""@);
        }
    }
    push_str(&mut m, more.as_str());
    push_str(&mut m, ". The file was not modified.");
    m
}

/// Locate the item `reference` names in the tree of `c`: exactly one item
/// of that name and a matching kind, with its leading decorations; or an
/// explanation of what the file declares instead, or of the ambiguity.
pub fn resolve(t: &SyntaxTree, c: &Vec<char>, off: &Vec<usize>, reference: &ItemRef) -> (r: Result<ResolvedItem, String>)
    requires
        offsets_of(c@, off@),
        t.wf(),
        c@.len() < usize::MAX,
    ensures
        ({
            let found = with_kind(t.nodes@, with_name(t.nodes@, c@, named_items(t.nodes@, c@), reference.name@), reference.kind@);
            match r {
                Ok(x) => found.len() == 1 && resolved_as(x, t.nodes@, c@, found[0] as int),
                Err(m) => if found.len() == 0 {
                    m@ == not_found_text(t.nodes@, c@, reference.kind@, reference.name@)
                } else {
                    found.len() > 1 && m@ == ambiguous_text(t.nodes@, c@, reference.kind@, reference.name@, found)
                },
            }
        }),
{
    let all = named_items_exec(t, c, off);
    let name = chars_of(reference.name.as_str());
    let same = with_name_exec(t, c, off, &all, &name);
    let found = with_kind_exec(t, &same, reference.kind.as_str());
    if found.len() == 0 {
        return Err(not_found(t, c, off, reference));
    }
    if found.len() > 1 {
        let mut lines: Vec<String> = Vec::new();
        let mut i: usize = 0;
        let ghost f = found@;
        while i < found.len()
            invariant
                i <= found@.len(),
                f == found@,
                offsets_of(c@, off@),
                c@.len() < usize::MAX,
                forall|k: int| 0 <= k < found@.len() ==> (#[trigger] found@[k]) < t.nodes@.len(),
                lines@.map_values(|x: String| x@) == f.map_values(|j: usize| decimal(line_at(c@, t.nodes@[j as int].start as int))).take(i as int),
            decreases found@.len() - i,
        {
            let l = line_at_exec(c, off, t.nodes[found[i]].start);
            let ghost lb = lines@;
            let ds = crate::text::decimal_string(l);
            lines.push(ds);
            assert(lines@.map_values(|x: String| x@) =~= lb.map_values(|x: String| x@).push(ds@));
            assert(lines@.map_values(|x: String| x@) =~= f.map_values(|j: usize| decimal(line_at(c@, t.nodes@[j as int].start as int))).take(i + 1));
            i += 1;
        }
        assert(f.map_values(|j: usize| decimal(line_at(c@, t.nodes@[j as int].start as int))).take(i as int) =~= f.map_values(|j: usize| decimal(line_at(c@, t.nodes@[j as int].start as int))));
        let mut m = reference.describe();
        push_str(&mut m, " names ");
        push_decimal(&mut m, found.len());
        push_str(&mut m, " items in this file (lines ");
        let j = join_strings(&lines, ", ");
        push_str(&mut m, j.as_str());
        push_str(&mut m, "); an item reference cannot say which. Use a text `anchor` that covers the one you mean. The file was not modified.");
        return Err(m);
    }
    let node = found[0];
    let decorations = leading_exec(t, c, off, node);
    let start = if decorations.len() > 0 {
        t.nodes[decorations[0]].start
    } else {
        t.nodes[node].start
    };
    let end = t.nodes[node].end;
    let first = if decorations.len() > 0 {
        decorations[0]
    } else {
        node
    };
    let previous = prev_description_exec(t, c, off, first);
    let next = next_description_exec(t, c, off, node);
    let description = describe_node_exec(t, c, off, node);
    let first_line = line_at_exec(c, off, start);
    let last_line = line_at_exec(c, off, if end >= 1 {
        end - 1
    } else {
        0
    });
    let count = decorations.len();
    let mut nodes = decorations;
    nodes.push(node);
    Ok(
        ResolvedItem {
            nodes,
            start,
            end,
            description,
            lines: (first_line, last_line),
            decorations: count,
            previous,
            next,
        },
    )
}

/// A text does not end with `suffix` when they differ at the `k`-th
/// character from the end.
proof fn lemma_not_ends_with(s: Seq<char>, suffix: Seq<char>, k: int)
    requires
        0 <= k < suffix.len(),
        k < s.len(),
        s[s.len() - 1 - k] != suffix[suffix.len() - 1 - k],
    ensures
        !ends_with(s, suffix),
{
    if ends_with(s, suffix) {
        assert(s.skip(s.len() - suffix.len())[suffix.len() - 1 - k] == s[s.len() - 1 - k]);
    }
}

/// `b` followed by `x` ends with `x`, and what comes before it is `b`.
proof fn lemma_ends_with_appended(b: Seq<char>, x: Seq<char>)
    ensures
        ends_with(b + x, x),
        (b + x).take((b + x).len() - x.len()) == b,
{
    assert((b + x).skip((b + x).len() - x.len()) =~= x);
    assert((b + x).take((b + x).len() - x.len()) =~= b);
}

/// The grammar suffixes of node kinds.
pub open spec fn is_grammar_suffix(x: Seq<char>) -> bool {
    x == "_item"@ || x == "_definition"@ || x == "_declaration"@ || x == "_specifier"@
}

/// A node kind spelled with any grammar suffix (`_item`, `_definition`,
/// `_declaration`, `_specifier`) stands for the same word as its base: a
/// requested kind `b` matches a node of kind `b` plus a suffix, in every
/// grammar, and so `function` matches `function_item`,
/// `function_definition` and `function_declaration` alike.
pub proof fn law_grammar_suffixes_name_their_base(b: Seq<char>, x: Seq<char>)
    requires
        is_grammar_suffix(x),
        forall|y: Seq<char>| is_grammar_suffix(y) ==> !#[trigger] ends_with(b, y),
    ensures
        kind_base(b + x) == b,
        canonical_kind(b + x) == canonical_kind(b),
        kinds_match_spec(b, b + x),
        kinds_match_spec(b + x, b),
{
    reveal_strlit("_item");
    reveal_strlit("_definition");
    reveal_strlit("_declaration");
    reveal_strlit("_specifier");
    let s = b + x;
    let n = s.len();
    lemma_ends_with_appended(b, x);
    assert(!ends_with(b, "_item"@));
    assert(!ends_with(b, "_definition"@));
    assert(!ends_with(b, "_declaration"@));
    assert(!ends_with(b, "_specifier"@));
    assert(kind_base(b) == b);
    assert(s[n - 1] == x[x.len() - 1]);
    if x == "_definition"@ {
        lemma_not_ends_with(s, "_item"@, 0);
    } else if x == "_declaration"@ {
        lemma_not_ends_with(s, "_item"@, 0);
        assert(s[n - 1 - 10] == x[x.len() - 1 - 10]);
        lemma_not_ends_with(s, "_definition"@, 10);
    } else if x == "_specifier"@ {
        lemma_not_ends_with(s, "_item"@, 0);
        lemma_not_ends_with(s, "_definition"@, 0);
        lemma_not_ends_with(s, "_declaration"@, 0);
    }
}

/// `function` matches the function kinds of each grammar: Rust's
/// `function_item`, Python's `function_definition`, TypeScript's
/// `function_declaration` and `method_definition`; `class` matches Python's
/// `class_definition`.
pub proof fn law_function_and_class_kinds_match_across_grammars()
    ensures
        kinds_match_spec("function"@, "function_item"@),
        kinds_match_spec("function"@, "function_definition"@),
        kinds_match_spec("function"@, "function_declaration"@),
        kinds_match_spec("function"@, "method_definition"@),
        kinds_match_spec("class"@, "class_definition"@),
{
    reveal_strlit("function");
    reveal_strlit("method");
    reveal_strlit("class");
    reveal_strlit("function_item");
    reveal_strlit("function_definition");
    reveal_strlit("function_declaration");
    reveal_strlit("method_definition");
    reveal_strlit("class_definition");
    reveal_strlit("_item");
    reveal_strlit("_definition");
    reveal_strlit("_declaration");
    reveal_strlit("_specifier");
    assert("function_item"@ =~= "function"@ + "_item"@);
    assert("function_definition"@ =~= "function"@ + "_definition"@);
    assert("function_declaration"@ =~= "function"@ + "_declaration"@);
    assert("method_definition"@ =~= "method"@ + "_definition"@);
    assert("class_definition"@ =~= "class"@ + "_definition"@);
    lemma_not_ends_with("function"@, "_item"@, 0);
    lemma_not_ends_with("method"@, "_item"@, 0);
    lemma_not_ends_with("class"@, "_item"@, 0);
    lemma_not_ends_with("function"@, "_specifier"@, 0);
    law_grammar_suffixes_name_their_base("function"@, "_item"@);
    law_grammar_suffixes_name_their_base("function"@, "_definition"@);
    law_grammar_suffixes_name_their_base("function"@, "_declaration"@);
    law_grammar_suffixes_name_their_base("method"@, "_definition"@);
    law_grammar_suffixes_name_their_base("class"@, "_definition"@);
}

} // verus!
