//! Text-anchored node selection: every exact occurrence of the anchor text is
//! taken down to the smallest node that covers it, then up to the requested
//! ancestor type; exactly one such ancestor is the target. Without a type,
//! or when the selection fails, the caller gets a report of what is there.
use vstd::prelude::*;
use crate::operations::selector::NodeSelector;
use crate::syntax::{SyntaxNode, SyntaxTree};
use crate::text::{byte_at, byte_len, chars_of, slice_chars};
use crate::item::{chars_equal, join, join_strings, offsets_of, opt_view};
use crate::operations::selector::{line_column_upto, byte_position_to_line_column, suggest_ancestor_type, suggestion, views};
use crate::syntax::{ParsedSource, node_sexp, ts_sexp, tree_of};
use crate::text::{debug_quote, debug_quoted, decimal, push_decimal, str_byte_len};
use crate::languages::markdown::{char_at_byte, char_of_byte, parent_at};
use crate::operations::selector::{escape_breaks, last_non_ws, push_escaped};
use crate::editor::engine::{find_text, find_text_from, lemma_find_text_bound};
use crate::text::{
    byte_offsets, is_whitespace, lemma_char_index_bound, push_chars, push_str, region,
    string_from_chars, text_between, trim, trim_range,
};

verus! {

/// The exact occurrences of `p` in `s` at or after character `i`, leftmost
/// first and without overlap, as `str::match_indices` finds them; an empty
/// `p` occurs at every character boundary.
pub open spec fn occurrences(s: Seq<char>, p: Seq<char>, i: int) -> Seq<int>
    decreases s.len() + 1 - i,
{
    if i < 0 || i > s.len() {
        seq![]
    } else if p.len() == 0 {
        seq![i] + occurrences(s, p, i + 1)
    } else if i + p.len() > s.len() {
        seq![]
    } else if s.subrange(i, i + p.len()) == p {
        seq![i] + occurrences(s, p, i + p.len())
    } else {
        occurrences(s, p, i + 1)
    }
}

/// The first child of `cur`, among the first `n` nodes, whose byte range
/// covers `b..e`.
pub open spec fn covering_child_upto(t: Seq<SyntaxNode>, cur: int, b: int, e: int, n: int) -> Option<int>
    decreases n,
{
    if n <= 0 {
        None
    } else {
        match covering_child_upto(t, cur, b, e, n - 1) {
            Some(j) => Some(j),
            None => if t[n - 1].parent == Some(cur as usize) && t[n - 1].start <= b && e <= t[n - 1].end {
                Some(n - 1)
            } else {
                None
            },
        }
    }
}

/// The node reached from `cur` by stepping into the first child that covers
/// `b..e` for as long as there is one.
pub open spec fn descend(t: Seq<SyntaxNode>, cur: int, b: int, e: int) -> int
    decreases t.len() - cur,
{
    if cur < 0 || cur >= t.len() {
        cur
    } else {
        match covering_child_upto(t, cur, b, e, t.len() as int) {
            Some(j) => if cur < j < t.len() {
                descend(t, j, b, e)
            } else {
                cur
            },
            None => cur,
        }
    }
}

/// The nearest node of kind `k` among `i` and its ancestors.
pub open spec fn ancestor_of_type(t: Seq<SyntaxNode>, i: int, k: Seq<char>) -> Option<int>
    decreases i,
{
    if i < 0 || i >= t.len() {
        None
    } else if t[i].kind@ == k {
        Some(i)
    } else {
        match t[i].parent {
            Some(p) => if p < i {
                ancestor_of_type(t, p as int, k)
            } else {
                None
            },
            None => None,
        }
    }
}

/// Node `i` and its ancestors, nearest first.
pub open spec fn chain(t: Seq<SyntaxNode>, i: int) -> Seq<int>
    decreases i,
{
    if i < 0 || i >= t.len() {
        seq![]
    } else {
        seq![i] + match t[i].parent {
            Some(p) => if p < i {
                chain(t, p as int)
            } else {
                seq![]
            },
            None => seq![],
        }
    }
}

proof fn lemma_occurrences_bounds(s: Seq<char>, p: Seq<char>, i: int)
    requires
        0 <= i,
    ensures
        forall|j: int| 0 <= j < occurrences(s, p, i).len() ==> i <= #[trigger] occurrences(s, p, i)[j]
            && occurrences(s, p, i)[j] + p.len() <= s.len()
            && s.subrange(occurrences(s, p, i)[j], occurrences(s, p, i)[j] + p.len()) == p,
    decreases s.len() + 1 - i,
{
    let o = occurrences(s, p, i);
    if i > s.len() {
    } else if p.len() == 0 {
        lemma_occurrences_bounds(s, p, i + 1);
        assert(o == seq![i] + occurrences(s, p, i + 1));
        assert forall|j: int| 0 <= j < o.len() implies i <= #[trigger] o[j] && o[j] + p.len() <= s.len()
            && s.subrange(o[j], o[j] + p.len()) == p by {
            if j > 0 {
                assert(o[j] == occurrences(s, p, i + 1)[j - 1]);
            }
        }
    } else if i + p.len() > s.len() {
    } else if s.subrange(i, i + p.len()) == p {
        lemma_occurrences_bounds(s, p, i + p.len());
        assert forall|j: int| 0 <= j < o.len() implies i <= #[trigger] o[j] && o[j] + p.len() <= s.len()
            && s.subrange(o[j], o[j] + p.len()) == p by {
            if j > 0 {
                assert(o[j] == occurrences(s, p, i + p.len())[j - 1]);
            }
        }
    } else {
        lemma_occurrences_bounds(s, p, i + 1);
        assert(o == occurrences(s, p, i + 1));
    }
}

/// The exact occurrences of `p` in `s`, as character indices.
pub fn find_occurrences(s: &Vec<char>, p: &Vec<char>) -> (v: Vec<usize>)
    requires
        s@.len() < usize::MAX,
    ensures
        v@.len() == occurrences(s@, p@, 0).len(),
        forall|j: int| 0 <= j < v@.len() ==> v@[j] as int == occurrences(s@, p@, 0)[j],
        forall|j: int| 0 <= j < v@.len() ==> v@[j] + p@.len() <= s@.len(),
        forall|j: int| 0 <= j < v@.len() ==> s@.subrange(v@[j] as int, v@[j] + p@.len()) == p@,
{
    let mut v: Vec<usize> = Vec::new();
    let mut i: usize = 0;
    proof {
        lemma_occurrences_bounds(s@, p@, 0);
    }
    while i <= s.len() && (p.len() == 0 || p.len() <= s.len() - i)
        invariant
            i <= s@.len() + 1,
            s@.len() < usize::MAX,
            occurrences(s@, p@, 0) == v@.map_values(|x: usize| x as int) + occurrences(s@, p@, i as int),
            forall|j: int| 0 <= j < v@.len() ==> v@[j] + p@.len() <= s@.len(),
        decreases s@.len() + 1 - i,
    {
        let ghost before = v@;
        if p.len() == 0 {
            v.push(i);
            proof {
                assert(v@.map_values(|x: usize| x as int) =~= before.map_values(|x: usize| x as int).push(i as int));
            }
            i += 1;
        } else if chars_equal(&slice_chars(s, i, i + p.len()), p) {
            v.push(i);
            proof {
                assert(v@.map_values(|x: usize| x as int) =~= before.map_values(|x: usize| x as int).push(i as int));
            }
            i += p.len();
        } else {
            i += 1;
        }
    }
    proof {
        assert(occurrences(s@, p@, i as int) =~= Seq::<int>::empty());
        assert(occurrences(s@, p@, 0) =~= v@.map_values(|x: usize| x as int));
        assert forall|j: int| 0 <= j < v@.len() implies v@[j] as int == occurrences(s@, p@, 0)[j] by {
            assert(v@.map_values(|x: usize| x as int)[j] == v@[j] as int);
        }
        assert forall|j: int| 0 <= j < v@.len() implies s@.subrange(v@[j] as int, v@[j] + p@.len()) == p@ by {
            assert(v@.map_values(|x: usize| x as int)[j] == v@[j] as int);
            assert(v@[j] as int == occurrences(s@, p@, 0)[j]);
        }
    }
    v
}

proof fn lemma_covering_stable(t: Seq<SyntaxNode>, cur: int, b: int, e: int, n: int, m: int)
    requires
        n <= m,
        covering_child_upto(t, cur, b, e, n) is Some,
    ensures
        covering_child_upto(t, cur, b, e, m) == covering_child_upto(t, cur, b, e, n),
    decreases m - n,
{
    if n < m {
        lemma_covering_stable(t, cur, b, e, n, m - 1);
    }
}

fn covering_child(t: &SyntaxTree, cur: usize, b: usize, e: usize) -> (r: Option<usize>)
    ensures
        match r {
            Some(j) => j < t.nodes@.len() && covering_child_upto(t.nodes@, cur as int, b as int, e as int, t.nodes@.len() as int) == Some(j as int),
            None => covering_child_upto(t.nodes@, cur as int, b as int, e as int, t.nodes@.len() as int) is None,
        },
{
    let mut j: usize = 0;
    while j < t.nodes.len()
        invariant
            j <= t.nodes@.len(),
            covering_child_upto(t.nodes@, cur as int, b as int, e as int, j as int) is None,
        decreases t.nodes@.len() - j,
    {
        let x = &t.nodes[j];
        if x.parent == Some(cur) && x.start <= b && e <= x.end {
            proof {
                lemma_covering_stable(t.nodes@, cur as int, b as int, e as int, j + 1, t.nodes@.len() as int);
            }
            return Some(j);
        }
        j += 1;
    }
    None
}

/// The smallest node covering `byte_start..byte_start + anchor_len`, found
/// by descending from the root through the first covering child each time.
pub fn find_node_at_byte_position(t: &SyntaxTree, byte_start: usize, anchor_len: usize) -> (n: usize)
    requires
        byte_start + anchor_len <= usize::MAX,
    ensures
        n == descend(t.nodes@, 0, byte_start as int, byte_start + anchor_len),
{
    let e = byte_start + anchor_len;
    let mut cur: usize = 0;
    loop
        invariant
            e == byte_start + anchor_len,
            descend(t.nodes@, 0, byte_start as int, e as int) == descend(t.nodes@, cur as int, byte_start as int, e as int),
        decreases t.nodes@.len() - cur,
    {
        if cur >= t.nodes.len() {
            return cur;
        }
        match covering_child(t, cur, byte_start, e) {
            Some(j) => {
                if cur < j {
                    cur = j;
                } else {
                    return cur;
                }
            },
            None => {
                return cur;
            },
        }
    }
}

/// The nearest node of kind `target_type` among `node` and its ancestors.
pub fn find_ancestor_of_type(t: &SyntaxTree, node: usize, target_type: &str) -> (r: Option<usize>)
    ensures
        match r {
            Some(a) => a < t.nodes@.len() && ancestor_of_type(t.nodes@, node as int, target_type@) == Some(a as int),
            None => ancestor_of_type(t.nodes@, node as int, target_type@) is None,
        },
{
    let k = chars_of(target_type);
    let mut cur = node;
    loop
        invariant
            k@ == target_type@,
            ancestor_of_type(t.nodes@, node as int, k@) == ancestor_of_type(t.nodes@, cur as int, k@),
        decreases cur,
    {
        if cur >= t.nodes.len() {
            return None;
        }
        if chars_equal(&chars_of(t.nodes[cur].kind.as_str()), &k) {
            return Some(cur);
        }
        match t.nodes[cur].parent {
            Some(p) => {
                if p < cur {
                    cur = p;
                } else {
                    return None;
                }
            },
            None => {
                return None;
            },
        }
    }
}

/// Node `node` and its ancestors, nearest first.
pub fn ancestor_chain(t: &SyntaxTree, node: usize) -> (v: Vec<usize>)
    ensures
        v@.map_values(|x: usize| x as int) == chain(t.nodes@, node as int),
        forall|j: int| 0 <= j < v@.len() ==> v@[j] < t.nodes@.len(),
{
    let mut v: Vec<usize> = Vec::new();
    let mut cur = node;
    loop
        invariant
            chain(t.nodes@, node as int) == v@.map_values(|x: usize| x as int) + chain(t.nodes@, cur as int),
            forall|j: int| 0 <= j < v@.len() ==> v@[j] < t.nodes@.len(),
        decreases cur,
    {
        if cur >= t.nodes.len() {
            proof {
                assert(chain(t.nodes@, cur as int) =~= Seq::<int>::empty());
                assert(v@.map_values(|x: usize| x as int) + Seq::<int>::empty() =~= v@.map_values(|x: usize| x as int));
            }
            return v;
        }
        let ghost before = v@;
        v.push(cur);
        proof {
            assert(v@.map_values(|x: usize| x as int) =~= before.map_values(|x: usize| x as int).push(cur as int));
        }
        match t.nodes[cur].parent {
            Some(p) => {
                if p < cur {
                    proof {
                        assert(chain(t.nodes@, cur as int) == seq![cur as int] + chain(t.nodes@, p as int));
                        assert(before.map_values(|x: usize| x as int) + chain(t.nodes@, cur as int)
                            =~= v@.map_values(|x: usize| x as int) + chain(t.nodes@, p as int));
                    }
                    cur = p;
                } else {
                    proof {
                        assert(chain(t.nodes@, cur as int) =~= seq![cur as int]);
                        assert(before.map_values(|x: usize| x as int) + chain(t.nodes@, cur as int)
                            =~= v@.map_values(|x: usize| x as int));
                    }
                    return v;
                }
            },
            None => {
                proof {
                    assert(chain(t.nodes@, cur as int) =~= seq![cur as int]);
                    assert(before.map_values(|x: usize| x as int) + chain(t.nodes@, cur as int)
                        =~= v@.map_values(|x: usize| x as int));
                }
                return v;
            },
        }
    }
}

/// `s` cut to about `len` bytes for display, marked with `...`: the text
/// before the last non-whitespace character among those that fit in `len`
/// bytes (all of them when they are blank). Text that fits is kept whole.
pub open spec fn shortened(s: Seq<char>, len: int) -> Seq<char> {
    if byte_len(s) <= len {
        s
    } else {
        let k = char_at_byte(s, len, s.len() as int);
        let cut = match last_non_ws(s, k) {
            Some(p) => p,
            None => k,
        };
        s.take(cut) + "..."@
    }
}

proof fn lemma_char_at_byte_bound(s: Seq<char>, b: int, n: int)
    requires
        0 <= n,
    ensures
        0 <= char_at_byte(s, b, n) <= n,
    decreases n,
{
    if n > 0 {
        lemma_char_at_byte_bound(s, b, n - 1);
    }
}

/// `s` cut for display (see [`shortened`]).
fn shorten(c: &Vec<char>, len: usize) -> (r: Vec<char>)
    requires
        byte_len(c@) <= usize::MAX,
    ensures
        r@ == shortened(c@, len as int),
{
    let off = byte_offsets(c.as_slice());
    if off[c.len()] <= len {
        proof {
            assert(c@.take(c@.len() as int) =~= c@);
        }
        return slice_chars(c, 0, c.len());
    }
    let k = char_of_byte(c, &off, len);
    let mut p = k;
    while p > 0 && is_whitespace(c[p - 1])
        invariant
            p <= k <= c@.len(),
            last_non_ws(c@, k as int) == last_non_ws(c@, p as int),
        decreases p,
    {
        p -= 1;
    }
    let cut = if p > 0 { p - 1 } else { k };
    let mut r = slice_chars(c, 0, cut);
    r.push('.');
    r.push('.');
    r.push('.');
    proof {
        assert(c@.take(c@.len() as int) =~= c@);
        reveal_strlit("...");
        assert(r@ =~= c@.take(cut as int) + "..."@);
    }
    r
}

/// `s` with each line break written as `\\n`.
pub open spec fn escape_newlines(s: Seq<char>) -> Seq<char>
    decreases s.len(),
{
    if s.len() == 0 {
        seq![]
    } else {
        escape_newlines(s.drop_last()) + if s.last() == '\n' {
            seq!['\\', 'n']
        } else {
            seq![s.last()]
        }
    }
}

fn escape_newlines_exec(s: &Vec<char>) -> (r: Vec<char>)
    ensures
        r@ == escape_newlines(s@),
{
    let mut r: Vec<char> = Vec::new();
    let mut i: usize = 0;
    while i < s.len()
        invariant
            i <= s@.len(),
            r@ == escape_newlines(s@.take(i as int)),
        decreases s@.len() - i,
    {
        proof {
            assert(s@.take(i + 1).drop_last() =~= s@.take(i as int));
        }
        if s[i] == '\n' {
            r.push('\\');
            r.push('n');
        } else {
            r.push(s[i]);
        }
        i += 1;
        proof {
            assert(r@ =~= escape_newlines(s@.take(i as int)));
        }
    }
    proof {
        assert(s@.take(s@.len() as int) =~= s@);
    }
    r
}

/// The text of node `i` (empty where its range is not a pair of character
/// boundaries in order).
pub open spec fn node_text(t: Seq<SyntaxNode>, s: Seq<char>, i: int) -> Seq<char> {
    match region(s, t[i].start as int, t[i].end as int) {
        Some(r) => r,
        None => seq![],
    }
}

pub(crate) fn node_text_exec(t: &SyntaxTree, c: &Vec<char>, off: &Vec<usize>, i: usize) -> (r: Vec<char>)
    requires
        offsets_of(c@, off@),
        i < t.nodes@.len(),
    ensures
        r@ == node_text(t.nodes@, c@, i as int),
{
    match text_between(c, off, t.nodes[i].start, t.nodes[i].end) {
        Some(x) => x,
        None => Vec::new(),
    }
}

/// The last index at or before `k` at which `n` occurs in `h`.
pub open spec fn rfind_text_from(h: Seq<char>, n: Seq<char>, k: int) -> Option<int>
    decreases k + 1,
{
    if k < 0 {
        None
    } else if k + n.len() <= h.len() && h.subrange(k, k + n.len()) == n {
        Some(k)
    } else {
        rfind_text_from(h, n, k - 1)
    }
}

fn rfind_text(h: &Vec<char>, n: &Vec<char>) -> (r: Option<usize>)
    ensures
        match r {
            Some(k) => rfind_text_from(h@, n@, h@.len() as int) == Some(k as int) && k + n@.len() <= h@.len(),
            None => rfind_text_from(h@, n@, h@.len() as int) is None,
        },
{
    let mut k: usize = h.len();
    loop
        invariant
            k <= h@.len(),
            rfind_text_from(h@, n@, h@.len() as int) == rfind_text_from(h@, n@, k as int),
        decreases k,
    {
        if n.len() <= h.len() - k && chars_equal(&slice_chars(h, k, k + n.len()), n) {
            return Some(k);
        }
        if k == 0 {
            assert(rfind_text_from(h@, n@, -1) is None);
            return None;
        }
        k -= 1;
    }
}

/// The bytes of a region of `s` are at most those of `s`.
proof fn lemma_region_bytes(s: Seq<char>, a: int, b: int)
    requires
        0 <= a <= b <= s.len(),
    ensures
        byte_len(s.subrange(a, b)) <= byte_len(s),
{
    assert(s =~= (s.take(a) + s.subrange(a, b)) + s.skip(b));
    crate::text::lemma_byte_len_add(s.take(a) + s.subrange(a, b), s.skip(b));
    crate::text::lemma_byte_len_add(s.take(a), s.subrange(a, b));
}

/// A region of `s`, when there is one, has at most the bytes of `s`.
proof fn lemma_region_fits(s: Seq<char>, a: int, b: int)
    ensures
        region(s, a, b) matches Some(r) ==> byte_len(r) <= byte_len(s),
{
    lemma_char_index_bound(s, a, 0);
    lemma_char_index_bound(s, b, 0);
    match (crate::text::char_index_from(s, a, 0), crate::text::char_index_from(s, b, 0)) {
        (Some(x), Some(y)) => if x <= y {
            lemma_region_bytes(s, x, y);
        },
        _ => {},
    }
}

/// The context shown for an anchor in a window around byte `bp`: up to
/// `ctx` bytes each side, stopped short of any other occurrence of the
/// anchor, trimmed and with line breaks and tabs escaped. `None` when the
/// window falls outside the source or its ends are not character
/// boundaries.
pub open spec fn window_context(s: Seq<char>, bp: int, a: Seq<char>, ctx: int) -> Option<Seq<char>> {
    let alen = byte_len(a) as int;
    let total = byte_len(s) as int;
    let start0 = if bp >= ctx { bp - ctx } else { 0 };
    let end0 = if bp + alen + ctx <= total { bp + alen + ctx } else { total };
    let m = if bp + alen <= end0 { bp + alen } else { end0 };
    match region(s, m, end0) {
        None => None,
        Some(w) => {
            let end1 = match find_text_from(w, a, 0) {
                Some(x) => bp + alen + byte_len(w.take(x)),
                None => end0,
            };
            match region(s, start0, bp) {
                None => None,
                Some(before) => {
                    let start1 = match rfind_text_from(before, a, before.len() as int) {
                        Some(y) => start0 + byte_len(before.take(y)) + alen,
                        None => start0,
                    };
                    if start1 < total && end1 <= total {
                        match region(s, start1, end1) {
                            Some(x) => Some(escape_breaks(trim(x))),
                            None => None,
                        }
                    } else {
                        None
                    }
                },
            }
        },
    }
}

/// The context shown for an anchor found in node `i`: the node's own text
/// when it is longer than the anchor, else its parent's text (trimmed and
/// escaped) when that is shorter than `ctx` bytes, else a window around the
/// node (see [`window_context`]). `None` where the node's range is not a
/// pair of character boundaries in order.
pub open spec fn context_around(t: Seq<SyntaxNode>, s: Seq<char>, i: int, a: Seq<char>, ctx: int) -> Option<Seq<char>> {
    match region(s, t[i].start as int, t[i].end as int) {
        None => None,
        Some(text) => if byte_len(text) > byte_len(a) {
            Some(text)
        } else {
            match parent_at(t, i) {
                Some(p) => if t[p].end - t[p].start < ctx {
                    match region(s, t[p].start as int, t[p].end as int) {
                        Some(x) => Some(escape_breaks(trim(x))),
                        None => None,
                    }
                } else {
                    window_context(s, t[i].start as int, a, ctx)
                },
                None => window_context(s, t[i].start as int, a, ctx),
            }
        },
    }
}

fn push_trimmed_escaped(out: &mut String, x: &Vec<char>)
    ensures
        final(out)@ == old(out)@ + escape_breaks(trim(x@)),
{
    let (a, b) = trim_range(x.as_slice(), 0, x.len());
    proof {
        assert(x@.subrange(0, x@.len() as int) =~= x@);
    }
    push_escaped(out, x, a, b);
}

fn escaped_trimmed(x: &Vec<char>) -> (r: Vec<char>)
    ensures
        r@ == escape_breaks(trim(x@)),
{
    let mut s = String::new();
    push_trimmed_escaped(&mut s, x);
    proof {
        assert(s@ =~= Seq::<char>::empty() + escape_breaks(trim(x@)));
    }
    chars_of(s.as_str())
}

fn window_context_exec(c: &Vec<char>, off: &Vec<usize>, bp: usize, a: &Vec<char>, alen: usize, ctx: usize) -> (r: Option<Vec<char>>)
    requires
        offsets_of(c@, off@),
        alen == byte_len(a@),
    ensures
        match r {
            Some(x) => window_context(c@, bp as int, a@, ctx as int) == Some(x@),
            None => window_context(c@, bp as int, a@, ctx as int) is None,
        },
{
    let total = off[c.len()];
    assert(total == byte_len(c@)) by {
        assert(c@.take(c@.len() as int) =~= c@);
    }
    let start0 = if bp >= ctx { bp - ctx } else { 0 };
    let end0 = if bp <= total && alen <= total - bp && ctx <= total - bp - alen { bp + alen + ctx } else { total };
    let m = if bp <= end0 && alen <= end0 - bp { bp + alen } else { end0 };
    let w = match text_between(c, off, m, end0) {
        Some(w) => w,
        None => {
            return None;
        },
    };
    proof {
        lemma_region_fits(c@, m as int, end0 as int);
    }
    let ghost spec_end1: int = match find_text_from(w@, a@, 0) {
        Some(x) => bp + alen + byte_len(w@.take(x)),
        None => end0 as int,
    };
    let end1: Option<usize> = match find_text(&w, a) {
        Some(x) => {
            proof {
                lemma_find_text_bound(w@, a@, 0);
            }
            let woff = byte_offsets(w.as_slice());
            match bp.checked_add(alen) {
                Some(q) => q.checked_add(woff[x]),
                None => None,
            }
        },
        None => Some(end0),
    };
    assert(match end1 {
        Some(v) => v == spec_end1,
        None => spec_end1 > usize::MAX,
    });
    let before = match text_between(c, off, start0, bp) {
        Some(b) => b,
        None => {
            return None;
        },
    };
    proof {
        lemma_region_fits(c@, start0 as int, bp as int);
    }
    let ghost spec_start1: int = match rfind_text_from(before@, a@, before@.len() as int) {
        Some(y) => start0 + byte_len(before@.take(y)) + alen,
        None => start0 as int,
    };
    let start1: Option<usize> = match rfind_text(&before, a) {
        Some(y) => {
            let boff = byte_offsets(before.as_slice());
            match start0.checked_add(boff[y]) {
                Some(q) => q.checked_add(alen),
                None => None,
            }
        },
        None => Some(start0),
    };
    assert(match start1 {
        Some(v) => v == spec_start1,
        None => spec_start1 > usize::MAX,
    });
    match (start1, end1) {
        (Some(s1), Some(e1)) => {
            if s1 < total && e1 <= total {
                match text_between(c, off, s1, e1) {
                    Some(x) => Some(escaped_trimmed(&x)),
                    None => None,
                }
            } else {
                None
            }
        },
        _ => None,
    }
}

fn context_around_exec(t: &SyntaxTree, c: &Vec<char>, off: &Vec<usize>, i: usize, a: &Vec<char>, alen: usize, ctx: usize) -> (r: Option<Vec<char>>)
    requires
        offsets_of(c@, off@),
        alen == byte_len(a@),
        i < t.nodes@.len(),
    ensures
        match r {
            Some(x) => context_around(t.nodes@, c@, i as int, a@, ctx as int) == Some(x@),
            None => context_around(t.nodes@, c@, i as int, a@, ctx as int) is None,
        },
{
    proof {
        assert(c@.take(c@.len() as int) =~= c@);
        assert(off@[c@.len() as int] == byte_len(c@));
    }
    let text = match text_between(c, off, t.nodes[i].start, t.nodes[i].end) {
        Some(x) => x,
        None => {
            return None;
        },
    };
    proof {
        lemma_region_fits(c@, t.nodes@[i as int].start as int, t.nodes@[i as int].end as int);
    }
    let toff = byte_offsets(text.as_slice());
    proof {
        assert(text@.take(text@.len() as int) =~= text@);
    }
    if toff[text.len()] > alen {
        return Some(text);
    }
    let bp = t.nodes[i].start;
    match t.nodes[i].parent {
        Some(p) => {
            if p < t.nodes.len() {
                let ps = t.nodes[p].start;
                let pe = t.nodes[p].end;
                if pe < ps || pe - ps < ctx {
                    return match text_between(c, off, ps, pe) {
                        Some(x) => Some(escaped_trimmed(&x)),
                        None => None,
                    };
                }
            }
            window_context_exec(c, off, bp, a, alen, ctx)
        },
        None => window_context_exec(c, off, bp, a, alen, ctx),
    }
}

proof fn lemma_descend_bound(t: Seq<SyntaxNode>, cur: int, b: int, e: int)
    requires
        0 <= cur < t.len(),
    ensures
        cur <= descend(t, cur, b, e) < t.len(),
    decreases t.len() - cur,
{
    match covering_child_upto(t, cur, b, e, t.len() as int) {
        Some(j) => if cur < j < t.len() {
            lemma_descend_bound(t, j, b, e);
        },
        None => {},
    }
}

proof fn lemma_ancestor_bound(t: Seq<SyntaxNode>, i: int, k: Seq<char>)
    ensures
        ancestor_of_type(t, i, k) matches Some(a) ==> 0 <= a < t.len(),
    decreases i,
{
    if 0 <= i < t.len() && t[i].kind@ != k {
        match t[i].parent {
            Some(p) => if p < i {
                lemma_ancestor_bound(t, p as int, k);
            },
            None => {},
        }
    }
}

/// Where occurrence `o` of anchor `a` lands: the smallest node covering it,
/// and that node's nearest ancestor of kind `k`.
pub open spec fn located(t: Seq<SyntaxNode>, s: Seq<char>, a: Seq<char>, k: Seq<char>, o: int) -> (int, Option<int>) {
    let b = byte_at(s, o) as int;
    let n = descend(t, 0, b, b + byte_len(a));
    (n, ancestor_of_type(t, n, k))
}

/// Every occurrence located, in order.
pub open spec fn locate_all(t: Seq<SyntaxNode>, s: Seq<char>, a: Seq<char>, k: Seq<char>, occ: Seq<int>) -> Seq<(int, Option<int>)>
    decreases occ.len(),
{
    if occ.len() == 0 {
        seq![]
    } else {
        locate_all(t, s, a, k, occ.drop_last()).push(located(t, s, a, k, occ.last()))
    }
}

/// What identifies a located occurrence: its ancestor, or its own node.
pub open spec fn info_key(x: (int, Option<int>)) -> int {
    match x.1 {
        Some(g) => g,
        None => x.0,
    }
}

/// `xs` with runs of equal keys reduced to their first element.
pub open spec fn dedup_infos(xs: Seq<(int, Option<int>)>) -> Seq<(int, Option<int>)>
    decreases xs.len(),
{
    if xs.len() == 0 {
        seq![]
    } else {
        let r = dedup_infos(xs.drop_last());
        if r.len() > 0 && info_key(r.last()) == info_key(xs.last()) {
            r
        } else {
            r.push(xs.last())
        }
    }
}

/// The ancestors found, in order.
pub open spec fn found_targets(xs: Seq<(int, Option<int>)>) -> Seq<int>
    decreases xs.len(),
{
    if xs.len() == 0 {
        seq![]
    } else {
        found_targets(xs.drop_last()) + match xs.last().1 {
            Some(g) => seq![g],
            None => seq![],
        }
    }
}

/// `xs` with runs of equal elements reduced to one.
pub open spec fn dedup_ints(xs: Seq<int>) -> Seq<int>
    decreases xs.len(),
{
    if xs.len() == 0 {
        seq![]
    } else {
        let r = dedup_ints(xs.drop_last());
        if r.len() > 0 && r.last() == xs.last() {
            r
        } else {
            r.push(xs.last())
        }
    }
}

pub open spec fn info_views(v: Seq<(usize, Option<usize>)>) -> Seq<(int, Option<int>)> {
    v.map_values(|x: (usize, Option<usize>)| (x.0 as int, match x.1 { Some(g) => Some(g as int), None => None }))
}

pub open spec fn int_views(v: Seq<usize>) -> Seq<int> {
    v.map_values(|x: usize| x as int)
}

fn dedup_infos_exec(xs: &Vec<(usize, Option<usize>)>, bound: usize) -> (r: Vec<(usize, Option<usize>)>)
    requires
        forall|q: int| 0 <= q < xs@.len() ==> (#[trigger] xs@[q]).0 < bound && (xs@[q].1 matches Some(g) ==> g < bound),
    ensures
        info_views(r@) == dedup_infos(info_views(xs@)),
        forall|q: int| 0 <= q < r@.len() ==> (#[trigger] r@[q]).0 < bound && (r@[q].1 matches Some(g) ==> g < bound),
{
    let mut r: Vec<(usize, Option<usize>)> = Vec::new();
    let mut i: usize = 0;
    while i < xs.len()
        invariant
            i <= xs@.len(),
            info_views(r@) == dedup_infos(info_views(xs@).take(i as int)),
            forall|q: int| 0 <= q < xs@.len() ==> (#[trigger] xs@[q]).0 < bound && (xs@[q].1 matches Some(g) ==> g < bound),
            forall|q: int| 0 <= q < r@.len() ==> (#[trigger] r@[q]).0 < bound && (r@[q].1 matches Some(g) ==> g < bound),
        decreases xs@.len() - i,
    {
        let x = xs[i];
        let key = match x.1 { Some(g) => g, None => x.0 };
        let ghost before = r@;
        proof {
            assert(info_views(xs@).take(i + 1).drop_last() =~= info_views(xs@).take(i as int));
            assert(info_views(xs@).take(i + 1).last() == info_views(xs@)[i as int]);
        }
        let same = if r.len() > 0 {
            let last = r[r.len() - 1];
            let lk = match last.1 { Some(g) => g, None => last.0 };
            proof {
                assert(info_views(r@).last() == info_views(r@)[r@.len() - 1]);
            }
            lk == key
        } else {
            false
        };
        if !same {
            r.push(x);
            proof {
                assert(info_views(r@) =~= info_views(before).push(info_views(xs@)[i as int]));
                assert forall|q: int| 0 <= q < r@.len() implies (#[trigger] r@[q]).0 < bound && (r@[q].1 matches Some(g) ==> g < bound) by {
                    if q == r@.len() - 1 {
                        assert(r@[q] == xs@[i as int]);
                    } else {
                        assert(r@[q] == before[q]);
                    }
                }
            }
        }
        i += 1;
    }
    proof {
        assert(info_views(xs@).take(xs@.len() as int) =~= info_views(xs@));
    }
    r
}

fn dedup_ints_exec(xs: &Vec<usize>, bound: usize) -> (r: Vec<usize>)
    requires
        forall|q: int| 0 <= q < xs@.len() ==> #[trigger] xs@[q] < bound,
    ensures
        int_views(r@) == dedup_ints(int_views(xs@)),
        forall|q: int| 0 <= q < r@.len() ==> #[trigger] r@[q] < bound,
{
    let mut r: Vec<usize> = Vec::new();
    let mut i: usize = 0;
    while i < xs.len()
        invariant
            i <= xs@.len(),
            int_views(r@) == dedup_ints(int_views(xs@).take(i as int)),
            forall|q: int| 0 <= q < xs@.len() ==> #[trigger] xs@[q] < bound,
            forall|q: int| 0 <= q < r@.len() ==> #[trigger] r@[q] < bound,
        decreases xs@.len() - i,
    {
        let ghost before = r@;
        proof {
            assert(int_views(xs@).take(i + 1).drop_last() =~= int_views(xs@).take(i as int));
            assert(int_views(xs@).take(i + 1).last() == int_views(xs@)[i as int]);
        }
        let same = r.len() > 0 && r[r.len() - 1] == xs[i];
        proof {
            if r@.len() > 0 {
                assert(int_views(r@).last() == int_views(r@)[r@.len() - 1]);
            }
        }
        if !same {
            r.push(xs[i]);
            proof {
                assert(int_views(r@) =~= int_views(before).push(int_views(xs@)[i as int]));
                assert forall|q: int| 0 <= q < r@.len() implies #[trigger] r@[q] < bound by {
                    if q == r@.len() - 1 {
                        assert(r@[q] == xs@[i as int]);
                    } else {
                        assert(r@[q] == before[q]);
                    }
                }
            }
        }
        i += 1;
    }
    proof {
        assert(int_views(xs@).take(xs@.len() as int) =~= int_views(xs@));
    }
    r
}

/// The message for an anchor that occurs nowhere.
pub open spec fn anchor_absent_message(a: Seq<char>) -> Seq<char> {
    "anchor_text "@ + debug_quoted(a) + " not found in file"@
}

/// One ancestor in the exploration report, with a sample selector for the
/// first three.
pub open spec fn ancestor_entry(t: Seq<SyntaxNode>, lang: int, s: Seq<char>, a: Seq<char>, j: int, x: int) -> Seq<char> {
    "\n   • `"@ + t[x].kind@ + "`\n      -> AST: "@ + shortened(ts_sexp(lang, s, x), 150) + "\n      -> SOURCE: `"@
        + shortened(escape_newlines(node_text(t, s, x)), 150) + "`\n"@ + if j < 3 {
        "      -> EXAMPLE SELECTOR: {\"anchor_text\": \""@ + a + "\", \"ancestor_node_type\": \""@ + t[x].kind@ + "\"}\n"@
    } else {
        seq![]
    }
}

/// The first `n` entries of an ancestor chain.
pub open spec fn ancestor_entries(t: Seq<SyntaxNode>, lang: int, s: Seq<char>, a: Seq<char>, ch: Seq<int>, n: int) -> Seq<char>
    decreases n,
{
    if n <= 0 {
        seq![]
    } else {
        ancestor_entries(t, lang, s, a, ch, n - 1) + ancestor_entry(t, lang, s, a, n - 1, ch[n - 1])
    }
}

/// The exploration report's block for the `idx`-th occurrence, at character
/// `o`: its line and column, context, node, and the ancestors to choose
/// from.
pub open spec fn location_block(t: Seq<SyntaxNode>, lang: int, s: Seq<char>, a: Seq<char>, idx: int, o: int) -> Seq<char> {
    let b = byte_at(s, o) as int;
    let n = descend(t, 0, b, b + byte_len(a));
    location_head(idx, line_column_upto(s, b, s.len() as int)) + location_focus(t, s, a, n)
        + location_options(t, lang, s, a, chain(t, n))
}

/// The blocks of the first `n` occurrences.
pub open spec fn location_blocks(t: Seq<SyntaxNode>, lang: int, s: Seq<char>, a: Seq<char>, occ: Seq<int>, n: int) -> Seq<char>
    decreases n,
{
    if n <= 0 {
        seq![]
    } else {
        location_blocks(t, lang, s, a, occ, n - 1) + location_block(t, lang, s, a, n - 1, occ[n - 1])
    }
}

/// How to go on from the exploration report.
pub open spec fn next_steps(a: Seq<char>) -> Seq<char> {
    "**Next Steps**:\n"@ + "1. Use the open_file tool to see the ast structure of this document if you have not yet done so\n"@
        + "2. If one of the above ancestor types looks like the correct syntax node, use it with `"@ + a
        + "` to stage an edit operation.\n"@ + "3. Review the diff\n"@
        + "4. Commit the edit to disk if it looks good, otherwise stage a different edit\n"@
}

/// The exploration report: every occurrence with the ancestor types it
/// offers.
pub open spec fn exploration_report(t: Seq<SyntaxNode>, lang: int, s: Seq<char>, a: Seq<char>, occ: Seq<int>) -> Seq<char> {
    "🔍 **Exploration Mode**: Found anchor_text "@ + debug_quoted(a) + " at "@ + decimal(occ.len()) + " location(s)\n\n"@
        + location_blocks(t, lang, s, a, occ, occ.len() as int) + next_steps(a)
}

/// The kinds of the nodes `ch`.
pub open spec fn chain_kinds(t: Seq<SyntaxNode>, ch: Seq<int>) -> Seq<Seq<char>> {
    ch.map_values(|x: int| t[x].kind@)
}

/// `xs` with runs of equal texts reduced to one.
pub open spec fn dedup_texts(xs: Seq<Seq<char>>) -> Seq<Seq<char>>
    decreases xs.len(),
{
    if xs.len() == 0 {
        seq![]
    } else {
        let r = dedup_texts(xs.drop_last());
        if r.len() > 0 && r.last() == xs.last() {
            r
        } else {
            r.push(xs.last())
        }
    }
}

/// One occurrence in the no-ancestor report: its context and the ancestor
/// kinds it does have.
pub open spec fn occurrence_entry(t: Seq<SyntaxNode>, s: Seq<char>, a: Seq<char>, i: int, x: (int, Option<int>)) -> Seq<char> {
    let ch = chain(t, x.0);
    "\n- Occurence "@ + decimal((i + 1) as nat) + ": "@ + (match context_around(t, s, x.0, a, 40) {
        Some(c) => "`"@ + c + "`"@,
        None => seq![],
    }) + if ch.len() > 0 {
        "\n   Available ancestors: "@ + join(dedup_texts(chain_kinds(t, ch)), ", "@)
    } else {
        seq![]
    }
}

pub open spec fn occurrence_entries(t: Seq<SyntaxNode>, s: Seq<char>, a: Seq<char>, xs: Seq<(int, Option<int>)>, n: int) -> Seq<char>
    decreases n,
{
    if n <= 0 {
        seq![]
    } else {
        occurrence_entries(t, s, a, xs, n - 1) + occurrence_entry(t, s, a, n - 1, xs[n - 1])
    }
}

/// Every ancestor kind of the first `n` occurrences, in order.
pub open spec fn all_kinds(t: Seq<SyntaxNode>, xs: Seq<(int, Option<int>)>, n: int) -> Seq<Seq<char>>
    decreases n,
{
    if n <= 0 {
        seq![]
    } else {
        all_kinds(t, xs, n - 1) + chain_kinds(t, chain(t, xs[n - 1].0))
    }
}

/// The report when no occurrence has an ancestor of kind `k`: where each
/// occurrence is and what it does have, with a suggested kind when one is
/// close.
pub open spec fn no_ancestor_message(t: Seq<SyntaxNode>, s: Seq<char>, a: Seq<char>, k: Seq<char>, xs: Seq<(int, Option<int>)>) -> Seq<char> {
    if found_targets(xs).len() == 0 && xs.len() > 0 {
        "Error: anchor_text "@ + debug_quoted(a) + " appears "@ + decimal(xs.len()) + " time(s) but no instances have ancestor "@
            + debug_quoted(k) + "\nSuggestion: use the open_file tool if you have not yet done so for this file\n"@
            + occurrence_entries(t, s, a, xs, xs.len() as int) + match suggestion(all_kinds(t, xs, xs.len() as int), k) {
            Some(g) => "\nSuggestion: Try ancestor_node_type "@ + debug_quoted(g) + " instead"@,
            None => seq![],
        }
    } else {
        anchor_absent_message(a)
    }
}

pub open spec fn ambiguous_entries(t: Seq<SyntaxNode>, s: Seq<char>, xs: Seq<(int, Option<int>)>, n: int) -> Seq<char>
    decreases n,
{
    if n <= 0 {
        seq![]
    } else {
        ambiguous_entries(t, s, xs, n - 1) + match xs[n - 1].1 {
            Some(g) => escape_breaks(shortened(node_text(t, s, g), 50)) + "\n\n"@,
            None => seq![],
        }
    }
}

/// The report when several nodes of kind `k` hold the anchor: each of them,
/// shortened.
pub open spec fn ambiguous_message(t: Seq<SyntaxNode>, s: Seq<char>, a: Seq<char>, k: Seq<char>, xs: Seq<(int, Option<int>)>) -> Seq<char> {
    "anchor_text `"@ + a + "` with ancestor_node_type `"@ + k + "` matches "@ + decimal(found_targets(xs).len())
        + " nodes\nOccurrences:\n"@ + ambiguous_entries(t, s, xs, xs.len() as int)
        + "Suggestions: \n-> Use more specific anchor text to distinguish between matches\n-> use the open_file tool if you have not yet done so"@
}

/// What selecting by anchor `a` and ancestor kind `k` gives: the one
/// ancestor node when exactly one is found; otherwise the report that says
/// why not (no occurrence, no type asked for, none or several found).
pub open spec fn selection(t: Seq<SyntaxNode>, lang: int, s: Seq<char>, a: Seq<char>, k: Option<Seq<char>>) -> Result<int, Seq<char>> {
    let occ = occurrences(s, a, 0);
    if occ.len() == 0 {
        Err(anchor_absent_message(a))
    } else {
        match k {
            None => Err(exploration_report(t, lang, s, a, occ)),
            Some(k) => {
                let xs = locate_all(t, s, a, k, occ);
                let valid = dedup_ints(found_targets(xs));
                let di = dedup_infos(xs);
                if valid.len() == 0 {
                    Err(no_ancestor_message(t, s, a, k, di))
                } else if valid.len() == 1 {
                    Ok(valid[0])
                } else {
                    Err(ambiguous_message(t, s, a, k, di))
                }
            },
        }
    }
}

proof fn lemma_occurrence_bytes(s: Seq<char>, a: Seq<char>, o: int)
    requires
        0 <= o,
        o + a.len() <= s.len(),
        s.subrange(o, o + a.len()) == a,
    ensures
        byte_at(s, o) + byte_len(a) <= byte_len(s),
{
    assert(s.take(o + a.len()) =~= s.take(o) + s.subrange(o, o + a.len()));
    crate::text::lemma_byte_len_add(s.take(o), s.subrange(o, o + a.len()));
    crate::text::lemma_byte_at_mono(s, o + a.len(), s.len() as int);
}

/// Text whose byte length is known to fit in memory.
fn fitted_chars(v: Vec<char>) -> (r: Vec<char>)
    ensures
        r@ == v@,
        byte_len(r@) <= usize::MAX,
{
    let st = string_from_chars(v.as_slice());
    let _n = str_byte_len(st.as_str());
    v
}

fn push_ancestor_entry(
    out: &mut String,
    p: &ParsedSource,
    t: &SyntaxTree,
    c: &Vec<char>,
    off: &Vec<usize>,
    a: &str,
    j: usize,
    x: usize,
)
    requires
        tree_of(*t, *p),
        p.src() == c@,
        offsets_of(c@, off@),
        x < t.nodes@.len(),
    ensures
        final(out)@ == old(out)@ + ancestor_entry(t.nodes@, p.lang(), c@, a@, j as int, x as int),
{
    let ghost start = out@;
    let kind = t.nodes[x].kind.as_str();
    push_str(out, "\n   • `");
    push_str(out, kind);
    push_str(out, "`\n      -> AST: ");
    let sx = node_sexp(p, x);
    let _sb = str_byte_len(sx.as_str());
    let sc = chars_of(sx.as_str());
    let ast = shorten(&sc, 150);
    push_chars(out, ast.as_slice());
    push_str(out, "\n      -> SOURCE: `");
    let nt = node_text_exec(t, c, off, x);
    let esc = fitted_chars(escape_newlines_exec(&nt));
    let src = shorten(&esc, 150);
    push_chars(out, src.as_slice());
    push_str(out, "`\n");
    if j < 3 {
        push_str(out, "      -> EXAMPLE SELECTOR: {\"anchor_text\": \"");
        push_str(out, a);
        push_str(out, "\", \"ancestor_node_type\": \"");
        push_str(out, kind);
        push_str(out, "\"}\n");
    }
    proof {
        assert(out@ =~= start + ancestor_entry(t.nodes@, p.lang(), c@, a@, j as int, x as int));
    }
}

fn push_ancestor_entries(
    out: &mut String,
    p: &ParsedSource,
    t: &SyntaxTree,
    c: &Vec<char>,
    off: &Vec<usize>,
    a: &str,
    ch: &Vec<usize>,
)
    requires
        tree_of(*t, *p),
        p.src() == c@,
        offsets_of(c@, off@),
        forall|q: int| 0 <= q < ch@.len() ==> ch@[q] < t.nodes@.len(),
    ensures
        final(out)@ == old(out)@ + ancestor_entries(t.nodes@, p.lang(), c@, a@, int_views(ch@), ch@.len() as int),
{
    let ghost start = out@;
    let mut j: usize = 0;
    while j < ch.len()
        invariant
            j <= ch@.len(),
            tree_of(*t, *p),
            p.src() == c@,
            offsets_of(c@, off@),
            forall|q: int| 0 <= q < ch@.len() ==> ch@[q] < t.nodes@.len(),
            out@ == start + ancestor_entries(t.nodes@, p.lang(), c@, a@, int_views(ch@), j as int),
        decreases ch@.len() - j,
    {
        push_ancestor_entry(out, p, t, c, off, a, j, ch[j]);
        proof {
            assert(int_views(ch@)[j as int] == ch@[j as int] as int);
        }
        j += 1;
    }
}

/// The head of a location block: its number, line and column.
pub open spec fn location_head(idx: int, lc: (int, int)) -> Seq<char> {
    "**"@ + decimal((idx + 1) as nat) + ". Location "@ + decimal(lc.0 as nat) + ":"@ + decimal(lc.1 as nat) + "**\n"@
}

/// The middle of a location block: the context and the focus node.
pub open spec fn location_focus(t: Seq<SyntaxNode>, s: Seq<char>, a: Seq<char>, n: int) -> Seq<char> {
    (match context_around(t, s, n, a, 50) {
        Some(x) => "   Context: `"@ + x + "`\n"@,
        None => seq![],
    }) + "   Focus node: `"@ + t[n].kind@ + "`\n"@
}

/// The tail of a location block: the ancestors to choose from.
pub open spec fn location_options(t: Seq<SyntaxNode>, lang: int, s: Seq<char>, a: Seq<char>, ch: Seq<int>) -> Seq<char> {
    (if ch.len() > 0 {
        "   Available ancestor_node_type options:\n"@ + ancestor_entries(t, lang, s, a, ch, ch.len() as int)
    } else {
        seq![]
    }) + "\n"@
}

fn push_location_head(out: &mut String, idx: usize, lc: (usize, usize))
    requires
        idx < usize::MAX,
    ensures
        final(out)@ == old(out)@ + location_head(idx as int, (lc.0 as int, lc.1 as int)),
{
    let ghost start = out@;
    push_str(out, "**");
    push_decimal(out, idx + 1);
    push_str(out, ". Location ");
    push_decimal(out, lc.0);
    push_str(out, ":");
    push_decimal(out, lc.1);
    push_str(out, "**\n");
    assert(out@ =~= start + location_head(idx as int, (lc.0 as int, lc.1 as int)));
}

fn push_location_focus(out: &mut String, t: &SyntaxTree, c: &Vec<char>, off: &Vec<usize>, ac: &Vec<char>, alen: usize, n: usize)
    requires
        offsets_of(c@, off@),
        alen == byte_len(ac@),
        n < t.nodes@.len(),
    ensures
        final(out)@ == old(out)@ + location_focus(t.nodes@, c@, ac@, n as int),
{
    let ghost start = out@;
    match context_around_exec(t, c, off, n, ac, alen, 50) {
        Some(x) => {
            push_str(out, "   Context: `");
            push_chars(out, x.as_slice());
            push_str(out, "`\n");
        },
        None => {},
    }
    push_str(out, "   Focus node: `");
    push_str(out, t.nodes[n].kind.as_str());
    push_str(out, "`\n");
    assert(out@ =~= start + location_focus(t.nodes@, c@, ac@, n as int));
}

fn push_location_options(out: &mut String, p: &ParsedSource, t: &SyntaxTree, c: &Vec<char>, off: &Vec<usize>, a: &str, n: usize)
    requires
        tree_of(*t, *p),
        p.src() == c@,
        offsets_of(c@, off@),
    ensures
        final(out)@ == old(out)@ + location_options(t.nodes@, p.lang(), c@, a@, chain(t.nodes@, n as int)),
{
    let ghost start = out@;
    let ch = ancestor_chain(t, n);
    if ch.len() > 0 {
        push_str(out, "   Available ancestor_node_type options:\n");
        push_ancestor_entries(out, p, t, c, off, a, &ch);
    }
    push_str(out, "\n");
    proof {
        assert(int_views(ch@) =~= ch@.map_values(|x: usize| x as int));
        assert(out@ =~= start + location_options(t.nodes@, p.lang(), c@, a@, int_views(ch@)));
    }
}

fn push_location_block(
    out: &mut String,
    p: &ParsedSource,
    t: &SyntaxTree,
    c: &Vec<char>,
    off: &Vec<usize>,
    a: &str,
    ac: &Vec<char>,
    alen: usize,
    idx: usize,
    o: usize,
)
    requires
        tree_of(*t, *p),
        p.src() == c@,
        offsets_of(c@, off@),
        c@.len() < usize::MAX,
        ac@ == a@,
        alen == byte_len(a@),
        idx < usize::MAX,
        o + ac@.len() <= c@.len(),
        c@.subrange(o as int, o + ac@.len()) == ac@,
    ensures
        final(out)@ == old(out)@ + location_block(t.nodes@, p.lang(), c@, a@, idx as int, o as int),
{
    let ghost start = out@;
    let b = off[o];
    proof {
        lemma_occurrence_bytes(c@, ac@, o as int);
        assert(c@.take(c@.len() as int) =~= c@);
        assert(off@[c@.len() as int] == byte_len(c@));
        assert(b == byte_at(c@, o as int));
    }
    let lc = byte_position_to_line_column(p.text(), b);
    let n = find_node_at_byte_position(t, b, alen);
    proof {
        lemma_descend_bound(t.nodes@, 0, b as int, b + alen);
    }
    push_location_head(out, idx, lc);
    push_location_focus(out, t, c, off, ac, alen, n);
    push_location_options(out, p, t, c, off, a, n);
    proof {
        assert(out@ =~= start + location_block(t.nodes@, p.lang(), c@, a@, idx as int, o as int));
    }
}

fn exploration_report_exec(
    p: &ParsedSource,
    t: &SyntaxTree,
    c: &Vec<char>,
    off: &Vec<usize>,
    a: &str,
    ac: &Vec<char>,
    alen: usize,
    occ: &Vec<usize>,
) -> (r: String)
    requires
        tree_of(*t, *p),
        p.src() == c@,
        offsets_of(c@, off@),
        c@.len() < usize::MAX,
        ac@ == a@,
        alen == byte_len(a@),
        int_views(occ@) == occurrences(c@, ac@, 0),
        forall|j: int| 0 <= j < occ@.len() ==> occ@[j] + ac@.len() <= c@.len(),
        forall|j: int| 0 <= j < occ@.len() ==> c@.subrange(occ@[j] as int, occ@[j] + ac@.len()) == ac@,
    ensures
        r@ == exploration_report(t.nodes@, p.lang(), c@, a@, occurrences(c@, ac@, 0)),
{
    let mut out = String::new();
    push_str(&mut out, "🔍 **Exploration Mode**: Found anchor_text ");
    let q = debug_quote(a);
    push_str(&mut out, q.as_str());
    push_str(&mut out, " at ");
    push_decimal(&mut out, occ.len());
    push_str(&mut out, " location(s)\n\n");
    let ghost head = out@;
    let ghost os = int_views(occ@);
    let mut i: usize = 0;
    while i < occ.len()
        invariant
            i <= occ@.len(),
            tree_of(*t, *p),
            p.src() == c@,
            offsets_of(c@, off@),
            c@.len() < usize::MAX,
            ac@ == a@,
            alen == byte_len(a@),
            os == int_views(occ@),
            forall|j: int| 0 <= j < occ@.len() ==> occ@[j] + ac@.len() <= c@.len(),
            forall|j: int| 0 <= j < occ@.len() ==> c@.subrange(occ@[j] as int, occ@[j] + ac@.len()) == ac@,
            out@ == head + location_blocks(t.nodes@, p.lang(), c@, a@, os, i as int),
        decreases occ@.len() - i,
    {
        push_location_block(&mut out, p, t, c, off, a, ac, alen, i, occ[i]);
        proof {
            assert(os[i as int] == occ@[i as int] as int);
        }
        i += 1;
    }
    let ghost body = out@;
    push_str(&mut out, "**Next Steps**:\n");
    push_str(&mut out, "1. Use the open_file tool to see the ast structure of this document if you have not yet done so\n");
    push_str(&mut out, "2. If one of the above ancestor types looks like the correct syntax node, use it with `");
    push_str(&mut out, a);
    push_str(&mut out, "` to stage an edit operation.\n");
    push_str(&mut out, "3. Review the diff\n");
    push_str(&mut out, "4. Commit the edit to disk if it looks good, otherwise stage a different edit\n");
    proof {
        assert(out@ =~= body + next_steps(a@));
        assert(os.len() == occ@.len());
        assert(out@ =~= exploration_report(t.nodes@, p.lang(), c@, a@, os));
    }
    out
}

fn kinds_of_chain(t: &SyntaxTree, ch: &Vec<usize>) -> (v: Vec<String>)
    requires
        forall|q: int| 0 <= q < ch@.len() ==> ch@[q] < t.nodes@.len(),
    ensures
        views(v@) == chain_kinds(t.nodes@, int_views(ch@)),
{
    let mut v: Vec<String> = Vec::new();
    let mut i: usize = 0;
    while i < ch.len()
        invariant
            i <= ch@.len(),
            forall|q: int| 0 <= q < ch@.len() ==> ch@[q] < t.nodes@.len(),
            views(v@) == chain_kinds(t.nodes@, int_views(ch@)).take(i as int),
        decreases ch@.len() - i,
    {
        let ghost before = v@;
        v.push(t.nodes[ch[i]].kind.clone());
        proof {
            assert(views(v@) =~= views(before).push(t.nodes@[ch@[i as int] as int].kind@));
            assert(chain_kinds(t.nodes@, int_views(ch@)).take(i + 1) =~= chain_kinds(t.nodes@, int_views(ch@)).take(i as int).push(
                chain_kinds(t.nodes@, int_views(ch@))[i as int],
            ));
        }
        i += 1;
    }
    proof {
        assert(chain_kinds(t.nodes@, int_views(ch@)).take(i as int) =~= chain_kinds(t.nodes@, int_views(ch@)));
    }
    v
}

fn dedup_texts_exec(xs: &Vec<String>) -> (r: Vec<String>)
    ensures
        views(r@) == dedup_texts(views(xs@)),
{
    let mut r: Vec<String> = Vec::new();
    let mut i: usize = 0;
    while i < xs.len()
        invariant
            i <= xs@.len(),
            views(r@) == dedup_texts(views(xs@).take(i as int)),
        decreases xs@.len() - i,
    {
        let ghost before = r@;
        proof {
            assert(views(xs@).take(i + 1).drop_last() =~= views(xs@).take(i as int));
        }
        let same = r.len() > 0 && chars_equal(&chars_of(r[r.len() - 1].as_str()), &chars_of(xs[i].as_str()));
        if !same {
            r.push(xs[i].clone());
            proof {
                assert(views(r@) =~= views(before).push(views(xs@)[i as int]));
            }
        }
        i += 1;
    }
    proof {
        assert(views(xs@).take(xs@.len() as int) =~= views(xs@));
    }
    r
}

fn push_occurrence_entry(
    out: &mut String,
    t: &SyntaxTree,
    c: &Vec<char>,
    off: &Vec<usize>,
    ac: &Vec<char>,
    alen: usize,
    i: usize,
    x: (usize, Option<usize>),
)
    requires
        offsets_of(c@, off@),
        alen == byte_len(ac@),
        x.0 < t.nodes@.len(),
        i < usize::MAX,
    ensures
        final(out)@ == old(out)@ + occurrence_entry(t.nodes@, c@, ac@, i as int, (x.0 as int, match x.1 { Some(g) => Some(g as int), None => None })),
{
    let ghost start = out@;
    push_str(out, "\n- Occurence ");
    push_decimal(out, i + 1);
    push_str(out, ": ");
    match context_around_exec(t, c, off, x.0, ac, alen, 40) {
        Some(ctx) => {
            push_str(out, "`");
            push_chars(out, ctx.as_slice());
            push_str(out, "`");
        },
        None => {},
    }
    let ch = ancestor_chain(t, x.0);
    if ch.len() > 0 {
        push_str(out, "\n   Available ancestors: ");
        let kinds = dedup_texts_exec(&kinds_of_chain(t, &ch));
        let joined = join_strings(&kinds, ", ");
        push_str(out, joined.as_str());
    }
    proof {
        assert(int_views(ch@) =~= ch@.map_values(|x: usize| x as int));
        assert(out@ =~= start + occurrence_entry(t.nodes@, c@, ac@, i as int, (x.0 as int, match x.1 { Some(g) => Some(g as int), None => None })));
    }
}

fn no_ancestor_message_exec(
    t: &SyntaxTree,
    c: &Vec<char>,
    off: &Vec<usize>,
    a: &str,
    ac: &Vec<char>,
    alen: usize,
    k: &str,
    xs: &Vec<(usize, Option<usize>)>,
) -> (r: String)
    requires
        offsets_of(c@, off@),
        ac@ == a@,
        alen == byte_len(a@),
        forall|q: int| 0 <= q < xs@.len() ==> (#[trigger] xs@[q]).0 < t.nodes@.len(),
    ensures
        r@ == no_ancestor_message(t.nodes@, c@, a@, k@, info_views(xs@)),
{
    let mut found: usize = 0;
    let mut j: usize = 0;
    while j < xs.len()
        invariant
            j <= xs@.len(),
            found <= j,
            found == found_targets(info_views(xs@).take(j as int)).len(),
        decreases xs@.len() - j,
    {
        proof {
            assert(info_views(xs@).take(j + 1).drop_last() =~= info_views(xs@).take(j as int));
        }
        if xs[j].1.is_some() {
            found += 1;
        }
        j += 1;
    }
    proof {
        assert(info_views(xs@).take(xs@.len() as int) =~= info_views(xs@));
    }
    if !(found == 0 && xs.len() > 0) {
        let mut m = String::new();
        push_str(&mut m, "anchor_text ");
        push_str(&mut m, debug_quote(a).as_str());
        push_str(&mut m, " not found in file");
        return m;
    }
    let mut m = String::new();
    push_str(&mut m, "Error: anchor_text ");
    push_str(&mut m, debug_quote(a).as_str());
    push_str(&mut m, " appears ");
    push_decimal(&mut m, xs.len());
    push_str(&mut m, " time(s) but no instances have ancestor ");
    push_str(&mut m, debug_quote(k).as_str());
    push_str(&mut m, "\nSuggestion: use the open_file tool if you have not yet done so for this file\n");
    let ghost head = m@;
    let ghost xv = info_views(xs@);
    let mut all: Vec<String> = Vec::new();
    let mut i: usize = 0;
    while i < xs.len()
        invariant
            i <= xs@.len(),
            offsets_of(c@, off@),
            ac@ == a@,
            alen == byte_len(a@),
            xv == info_views(xs@),
            forall|q: int| 0 <= q < xs@.len() ==> (#[trigger] xs@[q]).0 < t.nodes@.len(),
            m@ == head + occurrence_entries(t.nodes@, c@, a@, xv, i as int),
            views(all@) == all_kinds(t.nodes@, xv, i as int),
        decreases xs@.len() - i,
    {
        let x = xs[i];
        push_occurrence_entry(&mut m, t, c, off, ac, alen, i, x);
        let ch = ancestor_chain(t, x.0);
        let mut ks = kinds_of_chain(t, &ch);
        let ghost before = all@;
        all.append(&mut ks);
        proof {
            assert(xv[i as int] == (x.0 as int, match x.1 { Some(g) => Some(g as int), None => None }));
            assert(int_views(ch@) =~= ch@.map_values(|x: usize| x as int));
            assert(views(all@) =~= views(before) + chain_kinds(t.nodes@, chain(t.nodes@, x.0 as int)));
        }
        i += 1;
    }
    let ghost body = m@;
    match suggest_ancestor_type(&all, k) {
        Some(g) => {
            push_str(&mut m, "\nSuggestion: Try ancestor_node_type ");
            push_str(&mut m, debug_quote(g.as_str()).as_str());
            push_str(&mut m, " instead");
        },
        None => {},
    }
    proof {
        assert(m@ =~= no_ancestor_message(t.nodes@, c@, a@, k@, xv));
    }
    m
}

fn ambiguous_message_exec(t: &SyntaxTree, c: &Vec<char>, off: &Vec<usize>, a: &str, k: &str, xs: &Vec<(usize, Option<usize>)>) -> (r: String)
    requires
        offsets_of(c@, off@),
        forall|q: int| 0 <= q < xs@.len() ==> ((#[trigger] xs@[q]).1 matches Some(g) ==> g < t.nodes@.len()),
    ensures
        r@ == ambiguous_message(t.nodes@, c@, a@, k@, info_views(xs@)),
{
    let ghost xv = info_views(xs@);
    let mut found: usize = 0;
    let mut entries = String::new();
    let mut j: usize = 0;
    while j < xs.len()
        invariant
            j <= xs@.len(),
            found <= j,
            offsets_of(c@, off@),
            xv == info_views(xs@),
            forall|q: int| 0 <= q < xs@.len() ==> ((#[trigger] xs@[q]).1 matches Some(g) ==> g < t.nodes@.len()),
            found == found_targets(xv.take(j as int)).len(),
            entries@ == ambiguous_entries(t.nodes@, c@, xv, j as int),
        decreases xs@.len() - j,
    {
        proof {
            assert(xv.take(j + 1).drop_last() =~= xv.take(j as int));
            assert(xv[j as int] == (xs@[j as int].0 as int, match xs@[j as int].1 { Some(g) => Some(g as int), None => None }));
        }
        match xs[j].1 {
            Some(g) => {
                found += 1;
                let text = fitted_chars(node_text_exec(t, c, off, g));
                let short = shorten(&text, 50);
                push_escaped(&mut entries, &short, 0, short.len());
                push_str(&mut entries, "\n\n");
                proof {
                    assert(short@.subrange(0, short@.len() as int) =~= short@);
                }
            },
            None => {},
        }
        j += 1;
    }
    proof {
        assert(xv.take(xs@.len() as int) =~= xv);
    }
    let mut m = String::new();
    push_str(&mut m, "anchor_text `");
    push_str(&mut m, a);
    push_str(&mut m, "` with ancestor_node_type `");
    push_str(&mut m, k);
    push_str(&mut m, "` matches ");
    push_decimal(&mut m, found);
    push_str(&mut m, " nodes\nOccurrences:\n");
    push_str(&mut m, entries.as_str());
    push_str(&mut m, "Suggestions: \n-> Use more specific anchor text to distinguish between matches\n-> use the open_file tool if you have not yet done so");
    proof {
        assert(m@ =~= ambiguous_message(t.nodes@, c@, a@, k@, xv));
    }
    m
}

fn locate_occurrences(
    t: &SyntaxTree,
    c: &Vec<char>,
    off: &Vec<usize>,
    ac: &Vec<char>,
    alen: usize,
    k: &str,
    occ: &Vec<usize>,
) -> (r: (Vec<(usize, Option<usize>)>, Vec<usize>))
    requires
        t.wf(),
        offsets_of(c@, off@),
        alen == byte_len(ac@),
        forall|j: int| 0 <= j < occ@.len() ==> occ@[j] + ac@.len() <= c@.len(),
        forall|j: int| 0 <= j < occ@.len() ==> c@.subrange(occ@[j] as int, occ@[j] + ac@.len()) == ac@,
    ensures
        info_views(r.0@) == locate_all(t.nodes@, c@, ac@, k@, int_views(occ@)),
        int_views(r.1@) == found_targets(info_views(r.0@)),
        forall|q: int| 0 <= q < r.0@.len() ==> (#[trigger] r.0@[q]).0 < t.nodes@.len() && (r.0@[q].1 matches Some(g) ==> g < t.nodes@.len()),
        forall|q: int| 0 <= q < r.1@.len() ==> #[trigger] r.1@[q] < t.nodes@.len(),
{
    let mut infos: Vec<(usize, Option<usize>)> = Vec::new();
    let mut targets: Vec<usize> = Vec::new();
    let ghost ov = int_views(occ@);
    proof {
        assert(c@.take(c@.len() as int) =~= c@);
        assert(off@[c@.len() as int] == byte_len(c@));
    }
    let mut i: usize = 0;
    while i < occ.len()
        invariant
            i <= occ@.len(),
            t.wf(),
            offsets_of(c@, off@),
            off@[c@.len() as int] == byte_len(c@),
            alen == byte_len(ac@),
            ov == int_views(occ@),
            forall|j: int| 0 <= j < occ@.len() ==> occ@[j] + ac@.len() <= c@.len(),
            forall|j: int| 0 <= j < occ@.len() ==> c@.subrange(occ@[j] as int, occ@[j] + ac@.len()) == ac@,
            info_views(infos@) == locate_all(t.nodes@, c@, ac@, k@, ov.take(i as int)),
            int_views(targets@) == found_targets(info_views(infos@)),
            forall|q: int| 0 <= q < infos@.len() ==> (#[trigger] infos@[q]).0 < t.nodes@.len() && (infos@[q].1 matches Some(g) ==> g < t.nodes@.len()),
            forall|q: int| 0 <= q < targets@.len() ==> #[trigger] targets@[q] < t.nodes@.len(),
        decreases occ@.len() - i,
    {
        let o = occ[i];
        let b = off[o];
        proof {
            lemma_occurrence_bytes(c@, ac@, o as int);
            crate::text::lemma_byte_at_mono(c@, o as int, c@.len() as int);
        }
        let n = find_node_at_byte_position(t, b, alen);
        proof {
            lemma_descend_bound(t.nodes@, 0, b as int, b + alen);
        }
        let g = find_ancestor_of_type(t, n, k);
        let ghost before_infos = infos@;
        let ghost before_targets = targets@;
        infos.push((n, g));
        match g {
            Some(x) => {
                targets.push(x);
            },
            None => {},
        }
        proof {
            assert(ov.take(i + 1).drop_last() =~= ov.take(i as int));
            assert(ov.take(i + 1).last() == o as int);
            assert(info_views(infos@) =~= info_views(before_infos).push((n as int, match g { Some(x) => Some(x as int), None => None })));
            assert(info_views(infos@).drop_last() =~= info_views(before_infos));
            assert(int_views(targets@) =~= int_views(before_targets) + match g {
                Some(x) => seq![x as int],
                None => Seq::<int>::empty(),
            });
        }
        i += 1;
    }
    proof {
        assert(ov.take(occ@.len() as int) =~= ov);
    }
    (infos, targets)
}

impl NodeSelector {
    /// The node the selector picks in a parsed file (see [`selection`]):
    /// the one ancestor of the requested type that an exact occurrence of
    /// the anchor text sits in. Without a type, the error is an exploration
    /// report of every occurrence and the ancestor types it offers; when no
    /// occurrence, or several distinct ancestors, are found, it says so with
    /// the context of each occurrence.
    pub fn find_node(&self, p: &ParsedSource, t: &SyntaxTree) -> (r: Result<usize, String>)
        requires
            tree_of(*t, *p),
            p.src().len() < usize::MAX,
        ensures
            match (r, selection(t.nodes@, p.lang(), p.src(), self.anchor_text@, opt_view(self.ancestor_node_type))) {
                (Ok(n), Ok(m)) => n == m,
                (Err(e), Err(m)) => e@ == m,
                _ => false,
            },
            r matches Ok(n) ==> n < t.nodes@.len(),
    {
        let text = p.text();
        let c = chars_of(text);
        let _n = str_byte_len(text);
        let off = byte_offsets(c.as_slice());
        let a = self.anchor_text.as_str();
        let ac = chars_of(a);
        let alen = str_byte_len(a);
        let occ = find_occurrences(&c, &ac);
        proof {
            assert(int_views(occ@) =~= occurrences(c@, ac@, 0));
        }
        if occ.len() == 0 {
            let mut m = String::new();
            push_str(&mut m, "anchor_text ");
            push_str(&mut m, debug_quote(a).as_str());
            push_str(&mut m, " not found in file");
            return Err(m);
        }
        match &self.ancestor_node_type {
            None => Err(exploration_report_exec(p, t, &c, &off, a, &ac, alen, &occ)),
            Some(k) => {
                let (infos, targets) = locate_occurrences(t, &c, &off, &ac, alen, k.as_str(), &occ);
                let count = t.nodes.len();
                let valid = dedup_ints_exec(&targets, count);
                let di = dedup_infos_exec(&infos, count);
                if valid.len() == 0 {
                    Err(no_ancestor_message_exec(t, &c, &off, a, &ac, alen, k.as_str(), &di))
                } else if valid.len() == 1 {
                    proof {
                        assert(int_views(valid@)[0] == valid@[0] as int);
                    }
                    Ok(valid[0])
                } else {
                    Err(ambiguous_message_exec(t, &c, &off, a, k.as_str(), &di))
                }
            },
        }
    }

    /// The same selection (see [`NodeSelector::find_node`]).
    pub fn find_node_with_suggestions(&self, p: &ParsedSource, t: &SyntaxTree) -> (r: Result<usize, String>)
        requires
            tree_of(*t, *p),
            p.src().len() < usize::MAX,
        ensures
            match (r, selection(t.nodes@, p.lang(), p.src(), self.anchor_text@, opt_view(self.ancestor_node_type))) {
                (Ok(n), Ok(m)) => n == m,
                (Err(e), Err(m)) => e@ == m,
                _ => false,
            },
            r matches Ok(n) ==> n < t.nodes@.len(),
    {
        self.find_node(p, t)
    }
}

/// Every index in a chain of parents is a node of the table.
proof fn lemma_chain_bound(t: Seq<SyntaxNode>, i: int)
    ensures
        forall|k: int| 0 <= k < chain(t, i).len() ==> 0 <= #[trigger] chain(t, i)[k] < t.len(),
    decreases i,
{
    if 0 <= i < t.len() {
        match t[i].parent {
            Some(p) => if p < i {
                lemma_chain_bound(t, p as int);
                let inner = chain(t, p as int);
                assert forall|k: int| 0 <= k < chain(t, i).len() implies 0 <= #[trigger] chain(t, i)[k] < t.len() by {
                    if k > 0 {
                        assert(chain(t, i)[k] == inner[k - 1]);
                    }
                }
            },
            None => {},
        }
    }
}

/// A located occurrence names nodes of the table.
pub open spec fn info_in(x: (int, Option<int>), n: int) -> bool {
    &&& 0 <= x.0 < n
    &&& x.1 matches Some(g) ==> 0 <= g < n
}

proof fn lemma_locate_all_bound(t: Seq<SyntaxNode>, s: Seq<char>, a: Seq<char>, k: Seq<char>, occ: Seq<int>)
    requires
        t.len() > 0,
    ensures
        forall|j: int| 0 <= j < locate_all(t, s, a, k, occ).len() ==> #[trigger] info_in(locate_all(t, s, a, k, occ)[j], t.len() as int),
        locate_all(t, s, a, k, occ).len() == occ.len(),
    decreases occ.len(),
{
    if occ.len() > 0 {
        lemma_locate_all_bound(t, s, a, k, occ.drop_last());
        let b = byte_at(s, occ.last()) as int;
        lemma_descend_bound(t, 0, b, b + byte_len(a));
        lemma_ancestor_bound(t, descend(t, 0, b, b + byte_len(a)), k);
        let xs = locate_all(t, s, a, k, occ);
        let ys = locate_all(t, s, a, k, occ.drop_last());
        assert forall|j: int| 0 <= j < xs.len() implies #[trigger] info_in(xs[j], t.len() as int) by {
            if j < ys.len() {
                assert(xs[j] == ys[j]);
            }
        }
    }
}

proof fn lemma_dedup_infos_bound(xs: Seq<(int, Option<int>)>, n: int)
    requires
        forall|j: int| 0 <= j < xs.len() ==> #[trigger] info_in(xs[j], n),
    ensures
        forall|j: int| 0 <= j < dedup_infos(xs).len() ==> #[trigger] info_in(dedup_infos(xs)[j], n),
    decreases xs.len(),
{
    if xs.len() > 0 {
        let d = xs.drop_last();
        assert forall|j: int| 0 <= j < d.len() implies #[trigger] info_in(d[j], n) by {
            assert(d[j] == xs[j]);
        }
        lemma_dedup_infos_bound(d, n);
        let r = dedup_infos(d);
        assert(info_in(xs[xs.len() - 1], n));
        assert forall|j: int| 0 <= j < dedup_infos(xs).len() implies #[trigger] info_in(dedup_infos(xs)[j], n) by {
            if j < r.len() {
                assert(dedup_infos(xs)[j] == r[j]);
            }
        }
    }
}

proof fn lemma_found_targets_bound(xs: Seq<(int, Option<int>)>, n: int)
    requires
        forall|j: int| 0 <= j < xs.len() ==> #[trigger] info_in(xs[j], n),
    ensures
        forall|j: int| 0 <= j < found_targets(xs).len() ==> 0 <= #[trigger] found_targets(xs)[j] < n,
    decreases xs.len(),
{
    if xs.len() > 0 {
        let d = xs.drop_last();
        assert forall|j: int| 0 <= j < d.len() implies #[trigger] info_in(d[j], n) by {
            assert(d[j] == xs[j]);
        }
        lemma_found_targets_bound(d, n);
        assert(info_in(xs[xs.len() - 1], n));
        let r = found_targets(d);
        assert forall|j: int| 0 <= j < found_targets(xs).len() implies 0 <= #[trigger] found_targets(xs)[j] < n by {
            if j < r.len() {
                assert(found_targets(xs)[j] == r[j]);
            }
        }
    }
}

proof fn lemma_dedup_ints_bound(xs: Seq<int>, n: int)
    requires
        forall|j: int| 0 <= j < xs.len() ==> 0 <= #[trigger] xs[j] < n,
    ensures
        forall|j: int| 0 <= j < dedup_ints(xs).len() ==> 0 <= #[trigger] dedup_ints(xs)[j] < n,
    decreases xs.len(),
{
    if xs.len() > 0 {
        let d = xs.drop_last();
        assert forall|j: int| 0 <= j < d.len() implies 0 <= #[trigger] d[j] < n by {
            assert(d[j] == xs[j]);
        }
        lemma_dedup_ints_bound(d, n);
        let r = dedup_ints(d);
        assert(0 <= xs[xs.len() - 1] < n);
        assert forall|j: int| 0 <= j < dedup_ints(xs).len() implies 0 <= #[trigger] dedup_ints(xs)[j] < n by {
            if j < r.len() {
                assert(dedup_ints(xs)[j] == r[j]);
            }
        }
    }
}

/// A node the selection picks is a node of the table.
pub proof fn lemma_selection_bound(t: Seq<SyntaxNode>, lang: int, s: Seq<char>, a: Seq<char>, k: Option<Seq<char>>)
    requires
        t.len() > 0,
    ensures
        selection(t, lang, s, a, k) matches Ok(i) ==> 0 <= i < t.len(),
{
    if let Some(k) = k {
        let occ = occurrences(s, a, 0);
        let xs = locate_all(t, s, a, k, occ);
        lemma_locate_all_bound(t, s, a, k, occ);
        lemma_found_targets_bound(xs, t.len() as int);
        lemma_dedup_ints_bound(found_targets(xs), t.len() as int);
    }
}

proof fn lemma_agree_ancestor_of_type(t1: Seq<SyntaxNode>, t2: Seq<SyntaxNode>, i: int, k: Seq<char>)
    requires
        crate::syntax::tables_agree(t1, t2),
    ensures
        ancestor_of_type(t1, i, k) == ancestor_of_type(t2, i, k),
    decreases i,
{
    if 0 <= i < t1.len() {
        match t1[i].parent {
            Some(p) => if p < i {
                lemma_agree_ancestor_of_type(t1, t2, p as int, k);
            },
            None => {},
        }
    }
}

proof fn lemma_agree_chain(t1: Seq<SyntaxNode>, t2: Seq<SyntaxNode>, i: int)
    requires
        crate::syntax::tables_agree(t1, t2),
    ensures
        chain(t1, i) == chain(t2, i),
    decreases i,
{
    if 0 <= i < t1.len() {
        match t1[i].parent {
            Some(p) => if p < i {
                lemma_agree_chain(t1, t2, p as int);
            },
            None => {},
        }
    }
}

proof fn lemma_agree_covering(t1: Seq<SyntaxNode>, t2: Seq<SyntaxNode>, cur: int, b: int, e: int, n: int)
    requires
        crate::syntax::tables_agree(t1, t2),
        n <= t1.len(),
    ensures
        covering_child_upto(t1, cur, b, e, n) == covering_child_upto(t2, cur, b, e, n),
    decreases n,
{
    if n > 0 {
        lemma_agree_covering(t1, t2, cur, b, e, n - 1);
        assert(crate::syntax::nodes_agree(t1[n - 1], t2[n - 1]));
    }
}

proof fn lemma_agree_descend(t1: Seq<SyntaxNode>, t2: Seq<SyntaxNode>, cur: int, b: int, e: int)
    requires
        crate::syntax::tables_agree(t1, t2),
    ensures
        descend(t1, cur, b, e) == descend(t2, cur, b, e),
    decreases t1.len() - cur,
{
    if 0 <= cur < t1.len() {
        lemma_agree_covering(t1, t2, cur, b, e, t1.len() as int);
        match covering_child_upto(t1, cur, b, e, t1.len() as int) {
            Some(j) => if cur < j < t1.len() {
                lemma_agree_descend(t1, t2, j, b, e);
            },
            None => {},
        }
    }
}

proof fn lemma_agree_locate_all(t1: Seq<SyntaxNode>, t2: Seq<SyntaxNode>, s: Seq<char>, a: Seq<char>, k: Seq<char>, occ: Seq<int>)
    requires
        crate::syntax::tables_agree(t1, t2),
    ensures
        locate_all(t1, s, a, k, occ) == locate_all(t2, s, a, k, occ),
    decreases occ.len(),
{
    if occ.len() > 0 {
        lemma_agree_locate_all(t1, t2, s, a, k, occ.drop_last());
        let b = byte_at(s, occ.last()) as int;
        lemma_agree_descend(t1, t2, 0, b, b + byte_len(a));
        lemma_agree_ancestor_of_type(t1, t2, descend(t1, 0, b, b + byte_len(a)), k);
    }
}

proof fn lemma_agree_context_around(t1: Seq<SyntaxNode>, t2: Seq<SyntaxNode>, s: Seq<char>, i: int, a: Seq<char>, ctx: int)
    requires
        crate::syntax::tables_agree(t1, t2),
        0 <= i < t1.len(),
    ensures
        context_around(t1, s, i, a, ctx) == context_around(t2, s, i, a, ctx),
{
    assert(crate::syntax::nodes_agree(t1[i], t2[i]));
    match parent_at(t1, i) {
        Some(p) => {
            assert(crate::syntax::nodes_agree(t1[p], t2[p]));
        },
        None => {},
    }
}

proof fn lemma_agree_chain_kinds(t1: Seq<SyntaxNode>, t2: Seq<SyntaxNode>, ch: Seq<int>)
    requires
        crate::syntax::tables_agree(t1, t2),
        forall|k: int| 0 <= k < ch.len() ==> 0 <= #[trigger] ch[k] < t1.len(),
    ensures
        chain_kinds(t1, ch) == chain_kinds(t2, ch),
{
    assert forall|k: int| 0 <= k < ch.len() implies #[trigger] chain_kinds(t1, ch)[k] == chain_kinds(t2, ch)[k] by {
        assert(crate::syntax::nodes_agree(t1[ch[k]], t2[ch[k]]));
    }
    assert(chain_kinds(t1, ch) =~= chain_kinds(t2, ch));
}

proof fn lemma_agree_all_kinds(t1: Seq<SyntaxNode>, t2: Seq<SyntaxNode>, xs: Seq<(int, Option<int>)>, n: int)
    requires
        crate::syntax::tables_agree(t1, t2),
    ensures
        all_kinds(t1, xs, n) == all_kinds(t2, xs, n),
    decreases n,
{
    if n > 0 {
        lemma_agree_all_kinds(t1, t2, xs, n - 1);
        lemma_agree_chain(t1, t2, xs[n - 1].0);
        lemma_chain_bound(t1, xs[n - 1].0);
        lemma_agree_chain_kinds(t1, t2, chain(t1, xs[n - 1].0));
    }
}

proof fn lemma_agree_occurrence_entries(t1: Seq<SyntaxNode>, t2: Seq<SyntaxNode>, s: Seq<char>, a: Seq<char>, xs: Seq<(int, Option<int>)>, n: int)
    requires
        crate::syntax::tables_agree(t1, t2),
        n <= xs.len(),
        forall|j: int| 0 <= j < xs.len() ==> #[trigger] info_in(xs[j], t1.len() as int),
    ensures
        occurrence_entries(t1, s, a, xs, n) == occurrence_entries(t2, s, a, xs, n),
    decreases n,
{
    if n > 0 {
        lemma_agree_occurrence_entries(t1, t2, s, a, xs, n - 1);
        let x = xs[n - 1];
        assert(info_in(x, t1.len() as int));
        lemma_agree_chain(t1, t2, x.0);
        lemma_chain_bound(t1, x.0);
        lemma_agree_chain_kinds(t1, t2, chain(t1, x.0));
        lemma_agree_context_around(t1, t2, s, x.0, a, 40);
    }
}

proof fn lemma_agree_ambiguous_entries(t1: Seq<SyntaxNode>, t2: Seq<SyntaxNode>, s: Seq<char>, xs: Seq<(int, Option<int>)>, n: int)
    requires
        crate::syntax::tables_agree(t1, t2),
        n <= xs.len(),
        forall|j: int| 0 <= j < xs.len() ==> #[trigger] info_in(xs[j], t1.len() as int),
    ensures
        ambiguous_entries(t1, s, xs, n) == ambiguous_entries(t2, s, xs, n),
    decreases n,
{
    if n > 0 {
        lemma_agree_ambiguous_entries(t1, t2, s, xs, n - 1);
        assert(info_in(xs[n - 1], t1.len() as int));
        if let Some(g) = xs[n - 1].1 {
            assert(crate::syntax::nodes_agree(t1[g], t2[g]));
        }
    }
}

proof fn lemma_agree_ancestor_entries(t1: Seq<SyntaxNode>, t2: Seq<SyntaxNode>, lang: int, s: Seq<char>, a: Seq<char>, ch: Seq<int>, n: int)
    requires
        crate::syntax::tables_agree(t1, t2),
        n <= ch.len(),
        forall|k: int| 0 <= k < ch.len() ==> 0 <= #[trigger] ch[k] < t1.len(),
    ensures
        ancestor_entries(t1, lang, s, a, ch, n) == ancestor_entries(t2, lang, s, a, ch, n),
    decreases n,
{
    if n > 0 {
        lemma_agree_ancestor_entries(t1, t2, lang, s, a, ch, n - 1);
        assert(0 <= ch[n - 1] < t1.len());
        assert(crate::syntax::nodes_agree(t1[ch[n - 1]], t2[ch[n - 1]]));
    }
}

proof fn lemma_agree_location_blocks(t1: Seq<SyntaxNode>, t2: Seq<SyntaxNode>, lang: int, s: Seq<char>, a: Seq<char>, occ: Seq<int>, n: int)
    requires
        crate::syntax::tables_agree(t1, t2),
        t1.len() > 0,
    ensures
        location_blocks(t1, lang, s, a, occ, n) == location_blocks(t2, lang, s, a, occ, n),
    decreases n,
{
    if n > 0 {
        lemma_agree_location_blocks(t1, t2, lang, s, a, occ, n - 1);
        let b = byte_at(s, occ[n - 1]) as int;
        let e = b + byte_len(a);
        lemma_agree_descend(t1, t2, 0, b, e);
        let m = descend(t1, 0, b, e);
        lemma_descend_bound(t1, 0, b, e);
        lemma_agree_context_around(t1, t2, s, m, a, 50);
        assert(crate::syntax::nodes_agree(t1[m], t2[m]));
        lemma_agree_chain(t1, t2, m);
        lemma_chain_bound(t1, m);
        let ch = chain(t1, m);
        lemma_agree_ancestor_entries(t1, t2, lang, s, a, ch, ch.len() as int);
        assert(location_focus(t1, s, a, m) == location_focus(t2, s, a, m));
        assert(location_options(t1, lang, s, a, ch) == location_options(t2, lang, s, a, ch));
    }
}

/// Two tables that read the same select the same node, or fail the same way.
pub proof fn lemma_agree_selection(t1: Seq<SyntaxNode>, t2: Seq<SyntaxNode>, lang: int, s: Seq<char>, a: Seq<char>, k: Option<Seq<char>>)
    requires
        crate::syntax::tables_agree(t1, t2),
        t1.len() > 0,
    ensures
        selection(t1, lang, s, a, k) == selection(t2, lang, s, a, k),
{
    let occ = occurrences(s, a, 0);
    match k {
        None => {
            lemma_agree_location_blocks(t1, t2, lang, s, a, occ, occ.len() as int);
        },
        Some(k) => {
            lemma_agree_locate_all(t1, t2, s, a, k, occ);
            let xs = locate_all(t1, s, a, k, occ);
            lemma_locate_all_bound(t1, s, a, k, occ);
            lemma_dedup_infos_bound(xs, t1.len() as int);
            let di = dedup_infos(xs);
            lemma_agree_occurrence_entries(t1, t2, s, a, di, di.len() as int);
            lemma_agree_all_kinds(t1, t2, di, di.len() as int);
            lemma_agree_ambiguous_entries(t1, t2, s, di, di.len() as int);
        },
    }
}

} // verus!
