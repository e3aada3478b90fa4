//! Python placements: candidates inside a compound statement's block, and
//! content re-indented to where it lands.
use vstd::prelude::*;
use crate::editor::EditPosition;
use crate::editor::edit::{Edit, EditView, edit_views};
use crate::indentation::{Indentation, has_votes, is_detected, lines_in, min_units, rank, reindented, votes};
use crate::item::{chars_are, offsets_of};
use crate::syntax::{SyntaxNode, SyntaxTree};
use crate::text::{
    all_ws, byte_at, char_index_from, char_index_of_byte, chars_of, find_from, is_blank, is_whitespace,
    is_ws, lemma_char_index_bound, push_str, slice_chars, string_from_chars,
};

verus! {

/// The first child of `node` among the first `n` nodes whose kind is `kind`.
pub open spec fn kind_child_upto(t: Seq<SyntaxNode>, node: int, kind: Seq<char>, n: int) -> Option<int>
    decreases n,
{
    if n <= 0 {
        None
    } else {
        match kind_child_upto(t, node, kind, n - 1) {
            Some(b) => Some(b),
            None => if t[n - 1].parent == Some(node as usize) && t[n - 1].kind@ == kind {
                Some(n - 1)
            } else {
                None
            },
        }
    }
}

/// The `block` child of the first of `ns` that has one.
pub open spec fn first_block(t: Seq<SyntaxNode>, ns: Seq<usize>) -> Option<int>
    decreases ns.len(),
{
    if ns.len() == 0 {
        None
    } else {
        match kind_child_upto(t, ns[0] as int, "block"@, t.len() as int) {
            Some(b) => Some(b),
            None => first_block(t, ns.drop_first()),
        }
    }
}

/// The two extra candidates for a placement whose nodes include a compound
/// statement: the same placement moved to the start of its block, with the
/// content as it is and with a line break after it.
pub open spec fn block_pair(t: Seq<SyntaxNode>, x: EditView) -> Seq<EditView> {
    match x.nodes {
        Some(ns) => match first_block(t, ns) {
            Some(b) => seq![
                EditView { start: t[b].start as int, nodes: Some(seq![b as usize]), annotation: Some("python: inside block"@), ..x },
                EditView {
                    start: t[b].start as int,
                    content: x.content + "\n"@,
                    nodes: Some(seq![b as usize]),
                    annotation: Some("python: inside block with newline"@),
                    ..x
                },
            ],
            None => seq![],
        },
        None => seq![],
    }
}

/// The block candidates of the first `n` placements.
pub open spec fn block_variants(t: Seq<SyntaxNode>, xs: Seq<EditView>, n: int) -> Seq<EditView>
    decreases n,
{
    if n <= 0 {
        seq![]
    } else {
        block_variants(t, xs, n - 1) + block_pair(t, xs[n - 1])
    }
}

/// The index of the last line break before character `k`.
pub open spec fn last_break_before(s: Seq<char>, k: int) -> Option<int>
    decreases k,
{
    if k <= 0 {
        None
    } else if s[k - 1] == '\n' {
        Some(k - 1)
    } else {
        last_break_before(s, k - 1)
    }
}

/// The first character of the line holding character `k`.
pub open spec fn line_start_of(s: Seq<char>, k: int) -> int {
    match last_break_before(s, k) {
        Some(p) => p + 1,
        None => 0,
    }
}

/// The first character at or after `k` that is a line break or not
/// whitespace (or the end).
pub open spec fn line_end_from(s: Seq<char>, k: int) -> int
    decreases s.len() - k,
{
    if k < 0 || k >= s.len() {
        s.len() as int
    } else if !is_ws(s[k]) || s[k] == '\n' {
        k
    } else {
        line_end_from(s, k + 1)
    }
}

/// The file's indentation style, four spaces when none is detected.
pub open spec fn style_of(s: Seq<char>) -> Indentation {
    if has_votes(s) {
        choose|k: Indentation| is_detected(s, k)
    } else {
        Indentation::Spaces(4)
    }
}

/// The text whose indentation the content takes: from the start of the
/// first covered node's line to the end of the last covered node, or, with
/// no nodes, from the start of the insertion's line to its first
/// non-whitespace character. `None` where those are not character
/// boundaries in order.
pub open spec fn reference_text(t: Seq<SyntaxNode>, s: Seq<char>, x: EditView, k: int) -> Option<Seq<char>> {
    match x.nodes {
        Some(ns) => if ns.len() > 0 {
            let f = ns[0] as int;
            let l = ns.last() as int;
            if f >= t.len() || l >= t.len() {
                None
            } else {
                match (char_index_from(s, t[f].start as int, 0), char_index_from(s, t[l].end as int, 0)) {
                    (Some(kf), Some(ke)) => if line_start_of(s, kf) <= ke {
                        Some(s.subrange(line_start_of(s, kf), ke))
                    } else {
                        None
                    },
                    _ => None,
                }
            }
        } else {
            Some(s.subrange(line_start_of(s, k), line_end_from(s, k)))
        },
        None => Some(s.subrange(line_start_of(s, k), line_end_from(s, k))),
    }
}

/// Whether `kind` holds statements.
pub open spec fn is_statement_container(kind: Seq<char>) -> bool {
    kind == "block"@ || kind == "module"@
}

/// Climbing from node `i` through ancestors that end at byte `e`, one of
/// them is a direct child of a statement container.
pub open spec fn ends_statement(t: Seq<SyntaxNode>, i: int, e: int) -> bool
    decreases i,
{
    if i < 0 || i >= t.len() || t[i].end != e {
        false
    } else {
        match t[i].parent {
            Some(p) => if p >= i {
                false
            } else if is_statement_container(t[p as int].kind@) {
                true
            } else {
                ends_statement(t, p as int, e)
            },
            None => false,
        }
    }
}

/// The rest of the line from character `k`.
pub open spec fn line_tail(s: Seq<char>, k: int) -> Seq<char> {
    match find_from(s, '\n', k) {
        Some(p) => s.subrange(k, p),
        None => s.subrange(k, s.len() as int),
    }
}

/// An insertion at the end of a complete statement, with only whitespace
/// left on its line: the content must become a statement of its own.
pub open spec fn after_statement(t: Seq<SyntaxNode>, s: Seq<char>, x: EditView, k: int) -> bool {
    &&& x.end is None
    &&& all_ws(line_tail(s, k))
    &&& x.nodes matches Some(ns)
    &&& ns.len() > 0
    &&& ends_statement(t, ns.last() as int, x.start)
}

/// A Python placement re-indented: the content takes the indentation of its
/// reference text in the file's style. After a complete statement it goes on
/// a new line of its own; otherwise an insertion with only whitespace before
/// it on its line moves to the line's start and is indented from its first
/// line. Placements that do not start on a character boundary, or whose
/// reference text is not one, stay as they are.
pub open spec fn python_adjusted(t: Seq<SyntaxNode>, s: Seq<char>, x: EditView) -> EditView {
    match char_index_from(s, x.start, 0) {
        None => x,
        Some(k) => match reference_text(t, s, x, k) {
            None => x,
            Some(r) => {
                let style = style_of(s);
                let target = match min_units(style, lines_in(r)) {
                    Some(m) => m,
                    None => 0,
                };
                if target + x.content.len() > usize::MAX {
                    x
                } else if after_statement(t, s, x, k) {
                    EditView { content: seq!['\n'] + reindented(style, target, x.content, true), ..x }
                } else {
                    let ls = line_start_of(s, k);
                    let moved = all_ws(s.subrange(ls, k));
                    EditView {
                        start: if moved { byte_at(s, ls) as int } else { x.start },
                        content: reindented(style, target, x.content, moved),
                        ..x
                    }
                }
            },
        },
    }
}

/// The Python candidates: the selector's candidates followed by their block
/// variants, each re-indented.
pub open spec fn python_candidates(t: Seq<SyntaxNode>, s: Seq<char>, xs: Seq<EditView>) -> Seq<EditView> {
    (xs + block_variants(t, xs, xs.len() as int)).map_values(|x: EditView| python_adjusted(t, s, x))
}

pub proof fn lemma_detected_unique(s: Seq<char>, a: Indentation, b: Indentation)
    requires
        is_detected(s, a),
        is_detected(s, b),
    ensures
        a == b,
{
    assert(votes(s, a) >= votes(s, b));
    assert(votes(s, b) >= votes(s, a));
    assert(rank(a) == rank(b));
}

/// The file's indentation style, four spaces when none is detected.
fn detect_style(c: &Vec<char>) -> (style: Indentation)
    ensures
        style == style_of(c@),
{
    match Indentation::determine_chars(c.as_slice()) {
        Some(k) => {
            proof {
                assert(has_votes(c@));
                let w = choose|w: Indentation| is_detected(c@, w);
                lemma_detected_unique(c@, k, w);
            }
            k
        },
        None => Indentation::Spaces(4),
    }
}

fn kind_child(t: &SyntaxTree, node: usize) -> (r: Option<usize>)
    ensures
        match r {
            Some(b) => b < t.nodes@.len() && kind_child_upto(t.nodes@, node as int, "block"@, t.nodes@.len() as int) == Some(b as int),
            None => kind_child_upto(t.nodes@, node as int, "block"@, t.nodes@.len() as int) is None,
        },
{
    let mut j: usize = 0;
    while j < t.nodes.len()
        invariant
            j <= t.nodes@.len(),
            kind_child_upto(t.nodes@, node as int, "block"@, j as int) is None,
        decreases t.nodes@.len() - j,
    {
        if t.nodes[j].parent == Some(node) && chars_are(&chars_of(t.nodes[j].kind.as_str()), "block") {
            proof {
                lemma_kind_child_stable(t.nodes@, node as int, "block"@, j + 1, t.nodes@.len() as int);
            }
            return Some(j);
        }
        j += 1;
    }
    None
}

pub proof fn lemma_kind_child_stable(t: Seq<SyntaxNode>, node: int, kind: Seq<char>, n: int, m: int)
    requires
        n <= m,
        kind_child_upto(t, node, kind, n) is Some,
    ensures
        kind_child_upto(t, node, kind, m) == kind_child_upto(t, node, kind, n),
    decreases m - n,
{
    if n < m {
        lemma_kind_child_stable(t, node, kind, n, m - 1);
    }
}

fn find_first_block(t: &SyntaxTree, ns: &Vec<usize>) -> (r: Option<usize>)
    ensures
        match r {
            Some(b) => b < t.nodes@.len() && first_block(t.nodes@, ns@) == Some(b as int),
            None => first_block(t.nodes@, ns@) is None,
        },
{
    let mut i: usize = 0;
    proof {
        assert(ns@.skip(0) =~= ns@);
    }
    while i < ns.len()
        invariant
            i <= ns@.len(),
            first_block(t.nodes@, ns@) == first_block(t.nodes@, ns@.skip(i as int)),
        decreases ns@.len() - i,
    {
        proof {
            assert(ns@.skip(i as int).drop_first() =~= ns@.skip(i + 1));
        }
        match kind_child(t, ns[i]) {
            Some(b) => {
                return Some(b);
            },
            None => {},
        }
        i += 1;
    }
    proof {
        assert(ns@.skip(i as int).len() == 0);
    }
    None
}

/// Append the block candidates of `xs` to `out`.
fn push_block_variants(out: &mut Vec<Edit>, xs: &Vec<Edit>, t: &SyntaxTree)
    ensures
        edit_views(final(out)@) == edit_views(old(out)@) + block_variants(t.nodes@, edit_views(xs@), xs@.len() as int),
{
    let ghost start = edit_views(out@);
    let mut i: usize = 0;
    while i < xs.len()
        invariant
            i <= xs@.len(),
            edit_views(out@) == start + block_variants(t.nodes@, edit_views(xs@), i as int),
        decreases xs@.len() - i,
    {
        let x = &xs[i];
        let ghost before = edit_views(out@);
        match &x.nodes {
            Some(ns) => match find_first_block(t, ns) {
                Some(b) => {
                    let bs = t.nodes[b].start;
                    let e1 = Edit {
                        position: EditPosition { start_byte: bs, end_byte: x.position.end_byte },
                        content: x.content.clone(),
                        anchor_hit: x.anchor_hit,
                        nodes: Some(vec![b]),
                        annotation: Some("python: inside block"),
                    };
                    let mut c2 = x.content.clone();
                    push_str(&mut c2, "\n");
                    let e2 = Edit {
                        position: EditPosition { start_byte: bs, end_byte: x.position.end_byte },
                        content: c2,
                        anchor_hit: x.anchor_hit,
                        nodes: Some(vec![b]),
                        annotation: Some("python: inside block with newline"),
                    };
                    out.push(e1);
                    out.push(e2);
                    proof {
                        assert(e1@.nodes == Some(seq![b]));
                        assert(edit_views(out@) =~= before + block_pair(t.nodes@, x@));
                    }
                },
                None => {
                    proof {
                        assert(block_pair(t.nodes@, x@) =~= Seq::<EditView>::empty());
                        assert(edit_views(out@) =~= before + block_pair(t.nodes@, x@));
                    }
                },
            },
            None => {
                proof {
                    assert(edit_views(out@) =~= before + block_pair(t.nodes@, x@));
                }
            },
        }
        proof {
            assert(edit_views(xs@)[i as int] == x@);
        }
        i += 1;
    }
}

fn line_start_exec(c: &Vec<char>, k: usize) -> (r: usize)
    requires
        k <= c@.len(),
    ensures
        r == line_start_of(c@, k as int),
        r <= k,
{
    let mut i = k;
    while i > 0 && c[i - 1] != '\n'
        invariant
            i <= k <= c@.len(),
            last_break_before(c@, k as int) == last_break_before(c@, i as int),
        decreases i,
    {
        i -= 1;
    }
    i
}

fn line_end_exec(c: &Vec<char>, k: usize) -> (r: usize)
    requires
        k <= c@.len(),
    ensures
        r == line_end_from(c@, k as int),
        k <= r <= c@.len(),
{
    let mut i = k;
    while i < c.len() && is_whitespace(c[i]) && c[i] != '\n'
        invariant
            k <= i <= c@.len(),
            line_end_from(c@, k as int) == line_end_from(c@, i as int),
        decreases c@.len() - i,
    {
        i += 1;
    }
    i
}

fn reference_range(t: &SyntaxTree, c: &Vec<char>, off: &Vec<usize>, x: &Edit, k: usize) -> (r: Option<(usize, usize)>)
    requires
        offsets_of(c@, off@),
        k <= c@.len(),
    ensures
        match r {
            Some((a, b)) => a <= b <= c@.len() && reference_text(t.nodes@, c@, x@, k as int) == Some(c@.subrange(a as int, b as int)),
            None => reference_text(t.nodes@, c@, x@, k as int) is None,
        },
{
    let whole_line = match &x.nodes {
        Some(ns) => ns.len() == 0,
        None => true,
    };
    if whole_line {
        let a = line_start_exec(c, k);
        let b = line_end_exec(c, k);
        return Some((a, b));
    }
    let ns = x.nodes.as_ref().unwrap();
    let f = ns[0];
    let l = ns[ns.len() - 1];
    if f >= t.nodes.len() || l >= t.nodes.len() {
        return None;
    }
    let kf = char_index_of_byte(off, Ghost(c@), t.nodes[f].start);
    let ke = char_index_of_byte(off, Ghost(c@), t.nodes[l].end);
    match (kf, ke) {
        (Some(kf), Some(ke)) => {
            proof {
                lemma_char_index_bound(c@, t.nodes@[f as int].start as int, 0);
                lemma_char_index_bound(c@, t.nodes@[l as int].end as int, 0);
            }
            let a = line_start_exec(c, kf);
            if a <= ke {
                Some((a, ke))
            } else {
                None
            }
        },
        _ => None,
    }
}

fn ends_statement_exec(t: &SyntaxTree, i: usize, e: usize) -> (b: bool)
    ensures
        b == ends_statement(t.nodes@, i as int, e as int),
{
    let mut cur = i;
    loop
        invariant
            ends_statement(t.nodes@, i as int, e as int) == ends_statement(t.nodes@, cur as int, e as int),
        decreases cur,
    {
        if cur >= t.nodes.len() || t.nodes[cur].end != e {
            return false;
        }
        match t.nodes[cur].parent {
            Some(p) => {
                if p >= cur {
                    return false;
                }
                let pk = chars_of(t.nodes[p].kind.as_str());
                if chars_are(&pk, "block") || chars_are(&pk, "module") {
                    return true;
                }
                cur = p;
            },
            None => {
                return false;
            },
        }
    }
}

fn after_statement_exec(t: &SyntaxTree, c: &Vec<char>, x: &Edit, k: usize) -> (b: bool)
    requires
        k <= c@.len(),
    ensures
        b == after_statement(t.nodes@, c@, x@, k as int),
{
    if x.position.end_byte.is_some() {
        return false;
    }
    let cs = c.as_slice();
    let mut tail_end = k;
    while tail_end < c.len() && c[tail_end] != '\n'
        invariant
            k <= tail_end <= c@.len(),
            cs@ == c@,
            find_from(c@, '\n', k as int) == find_from(c@, '\n', tail_end as int),
        decreases c@.len() - tail_end,
    {
        tail_end += 1;
    }
    proof {
        assert(line_tail(c@, k as int) == c@.subrange(k as int, tail_end as int));
    }
    if !is_blank(cs, k, tail_end) {
        return false;
    }
    match &x.nodes {
        Some(ns) => {
            if ns.len() == 0 {
                return false;
            }
            ends_statement_exec(t, ns[ns.len() - 1], x.position.start_byte)
        },
        None => false,
    }
}

/// A Python placement re-indented to where it lands (see [`python_adjusted`]).
fn python_adjust(x: Edit, t: &SyntaxTree, c: &Vec<char>, off: &Vec<usize>, style: Indentation) -> (e: Edit)
    requires
        offsets_of(c@, off@),
        style == style_of(c@),
    ensures
        e@ == python_adjusted(t.nodes@, c@, x@),
{
    let k = match char_index_of_byte(off, Ghost(c@), x.position.start_byte) {
        Some(k) => k,
        None => {
            return x;
        },
    };
    proof {
        lemma_char_index_bound(c@, x@.start, 0);
    }
    let (a, b) = match reference_range(t, c, off, &x, k) {
        Some(r) => r,
        None => {
            return x;
        },
    };
    let reference = string_from_chars(slice_chars(c, a, b).as_slice());
    let target = style.minimum(reference.as_str());
    let cl = chars_of(x.content.as_str()).len();
    if cl > usize::MAX - target {
        return x;
    }
    if after_statement_exec(t, c, &x, k) {
        let mut body = x.content.clone();
        style.reindent(target, &mut body, true);
        let mut content = String::new();
        push_str(&mut content, "\n");
        push_str(&mut content, body.as_str());
        proof {
            reveal_strlit("\n");
            assert("\n"@ =~= seq!['\n']);
        }
        return Edit { content, ..x };
    }
    let ls = line_start_exec(c, k);
    let moved = is_blank(c.as_slice(), ls, k);
    let start = if moved { off[ls] } else { x.position.start_byte };
    let mut content = x.content.clone();
    style.reindent(target, &mut content, moved);
    Edit { position: EditPosition { start_byte: start, end_byte: x.position.end_byte }, content, ..x }
}

/// The Python candidates (see [`python_candidates`]): the selector's
/// candidates and their block variants, each re-indented.
pub fn python_adjust_edits(xs: Vec<Edit>, t: &SyntaxTree, c: &Vec<char>, off: &Vec<usize>) -> (v: Vec<Edit>)
    requires
        offsets_of(c@, off@),
    ensures
        edit_views(v@) == python_candidates(t.nodes@, c@, edit_views(xs@)),
{
    let style = detect_style(c);
    let mut all: Vec<Edit> = Vec::new();
    let mut i: usize = 0;
    while i < xs.len()
        invariant
            i <= xs@.len(),
            edit_views(all@) == edit_views(xs@).take(i as int),
        decreases xs@.len() - i,
    {
        let ghost before = edit_views(all@);
        let d = xs[i].duplicate();
        all.push(d);
        proof {
            assert(edit_views(all@) =~= before.push(d@));
            assert(edit_views(xs@).take(i + 1) =~= edit_views(xs@).take(i as int).push(edit_views(xs@)[i as int]));
        }
        i += 1;
    }
    push_block_variants(&mut all, &xs, t);
    proof {
        assert(edit_views(xs@).take(xs@.len() as int) =~= edit_views(xs@));
    }
    let ghost base = edit_views(all@);
    let mut v: Vec<Edit> = Vec::new();
    let mut j: usize = 0;
    while j < all.len()
        invariant
            j <= all@.len(),
            base == edit_views(all@),
            offsets_of(c@, off@),
            style == style_of(c@),
            edit_views(v@) == base.take(j as int).map_values(|x: EditView| python_adjusted(t.nodes@, c@, x)),
        decreases all@.len() - j,
    {
        let ghost before = edit_views(v@);
        let d = all[j].duplicate();
        assert(d@ == base[j as int]);
        let e = python_adjust(d, t, c, off, style);
        v.push(e);
        proof {
            assert(edit_views(v@) =~= before.push(e@));
            assert(base.take(j + 1) =~= base.take(j as int).push(base[j as int]));
            assert(base.take(j + 1).map_values(|x: EditView| python_adjusted(t.nodes@, c@, x))
                =~= base.take(j as int).map_values(|x: EditView| python_adjusted(t.nodes@, c@, x)).push(python_adjusted(t.nodes@, c@, base[j as int])));
        }
        j += 1;
    }
    proof {
        assert(base.take(j as int) =~= base);
    }
    v
}

} // verus!
