//! Finding the candidate placements for an anchor: every whitespace-insensitive
//! match of the anchor is resolved to the syntax nodes around it, and each
//! boundary-aligned node set, the common parent, and (where the text allows)
//! the exact matched span become candidates, in that order.
use vstd::prelude::*;
use crate::editor::EditPosition;
use crate::editor::edit::{Edit, EditView, after_view, before_view, edit_views};
use crate::searcher::{find_char_positions, found, law_matches_equal_snippet_modulo_whitespace};
use crate::selector::{Operation, Selector, anchor_view, selector_problem};
use crate::item::{
    ItemRef, ambiguous_text, leading, not_found_text, resolve, with_kind, with_name, named_items,
};
use crate::syntax::{
    ParsedSource, SyntaxNode, SyntaxTree, anchor_in_header, climb_extra, descendant_for_byte_range,
    named_descendant_for_byte_range, siblings_in_range, table_descendant, tree_of, ts_descendant,
    ts_named_descendant,
};
use crate::text::{
    byte_at, byte_offsets, chars_of, debug_quote, debug_quoted, is_whitespace, is_ws, push_str,
    slice_chars, str_byte_len, string_from_chars, trim, trim_range,
};

verus! {

/// A placement covering bytes `start..end`.
pub open spec fn placement(
    start: int,
    end: int,
    content: Seq<char>,
    hit: (int, int),
    nodes: Option<Seq<usize>>,
    annotation: Seq<char>,
) -> EditView {
    EditView {
        start,
        end: Some(end),
        content,
        hit: Some(hit),
        nodes,
        annotation: Some(annotation),
    }
}

/// The node candidates for an anchor match at bytes `s..e`, when the match
/// resolves to node `p0`: the aligned run of named children of the enclosing
/// node, then the enclosing node itself when that is a sound target.
pub open spec fn structural_candidates(
    t: Seq<SyntaxNode>,
    op: Operation,
    content: Seq<char>,
    s: int,
    e: int,
    p0: int,
) -> Seq<EditView> {
    let is_insert = op != Operation::Replace;
    let p = climb_extra(t, p0);
    let nodes = if t[p].extra {
        Seq::<usize>::empty()
    } else {
        siblings_in_range(t, p, s, e)
    };
    let node_range = if nodes.len() > 0 {
        let first = nodes[0] as int;
        let last = nodes.last() as int;
        let aligned = if is_insert {
            &&& t[first].start <= s
            &&& t[last].end >= e
            &&& if op == Operation::InsertBefore {
                t[first].start != t[p].start
            } else {
                t[last].end != t[p].end
            }
        } else {
            t[first].start == s || anchor_in_header(t, first, s)
        };
        if aligned {
            seq![
                placement(
                    t[first].start as int,
                    t[last].end as int,
                    content,
                    (s, e),
                    Some(nodes),
                    "node range"@,
                ),
            ]
        } else {
            seq![]
        }
    } else {
        seq![]
    };
    let keep = if is_insert {
        !(t[p].start < s && !anchor_in_header(t, p, s))
    } else {
        t[p].start == s || anchor_in_header(t, p, s)
    };
    let common = if keep {
        seq![
            placement(
                t[p].start as int,
                t[p].end as int,
                content,
                (s, e),
                Some(seq![p as usize]),
                "common parent"@,
            ),
        ]
    } else {
        seq![]
    };
    node_range + common
}

/// The candidates for one anchor match, the characters `ks..ke` of `src`.
/// The exact span is a candidate for inserts always, and for a replace only
/// when both of its ends lie in the same named node or it is delimited by
/// whitespace (or the file's ends) on both sides.
pub open spec fn match_candidates(
    t: Seq<SyntaxNode>,
    lang: int,
    src: Seq<char>,
    op: Operation,
    content: Seq<char>,
    ks: int,
    ke: int,
) -> Seq<EditView> {
    let s = byte_at(src, ks) as int;
    let e = byte_at(src, ke) as int;
    let n = t.len();
    let structural = match table_descendant(n, ts_descendant(lang, src, s, e)) {
        Some(p0) => structural_candidates(t, op, content, s, e, p0),
        None => seq![],
    };
    let sub_token = e > s && table_descendant(n, ts_named_descendant(lang, src, s, s + 1))
        == table_descendant(n, ts_named_descendant(lang, src, e - 1, e));
    let delimited = (ks == 0 || is_ws(src[ks - 1])) && (ke == src.len() || is_ws(src[ke]));
    let exact = if op != Operation::Replace || sub_token || delimited {
        seq![placement(s, e, content, (s, e), None, "exact"@)]
    } else {
        seq![]
    };
    structural + exact
}

/// The candidates for the matches `hits`, in order.
pub open spec fn all_candidates(
    t: Seq<SyntaxNode>,
    lang: int,
    src: Seq<char>,
    op: Operation,
    content: Seq<char>,
    hits: Seq<(int, int)>,
) -> Seq<EditView>
    decreases hits.len(),
{
    if hits.len() == 0 {
        seq![]
    } else {
        all_candidates(t, lang, src, op, content, hits.drop_last()) + match_candidates(
            t,
            lang,
            src,
            op,
            content,
            hits.last().0,
            hits.last().1,
        )
    }
}

/// The message when an anchor matched but no candidate survived.
pub open spec fn unaligned_message(anchor: Seq<char>) -> Seq<char> {
    "The anchor "@ + debug_quoted(anchor)
        + " was found, but it does not line up with the boundaries of any complete syntax node — it starts or ends partway through a node (for example, by including a closing brace or other text from a neighboring item). No change was performed.\nAnchor the text of the node you mean to target, starting from its first token."@
}

/// The message when an anchor matched nowhere.
pub open spec fn anchor_missing_message(anchor: Seq<char>) -> Seq<char> {
    "Anchor \""@ + anchor + "\" not found in source"@
}

/// What `select_ast_node` returns for the (trimmed) anchor `a`.
pub open spec fn selected(
    t: Seq<SyntaxNode>,
    lang: int,
    src: Seq<char>,
    op: Operation,
    content: Seq<char>,
    a: Seq<char>,
) -> Result<Seq<EditView>, Seq<char>> {
    let hits = found(src, a);
    if hits.len() == 0 {
        Err(anchor_missing_message(a))
    } else {
        let c = all_candidates(t, lang, src, op, content, hits);
        if c.len() == 0 {
            Err(unaligned_message(a))
        } else {
            Ok(c)
        }
    }
}

fn place(start: usize, end: usize, content: &String, hit: (usize, usize), nodes: Option<Vec<usize>>, annotation: &'static str) -> (x: Edit)
    ensures
        x@ == placement(start as int, end as int, content@, (hit.0 as int, hit.1 as int), match nodes {
            Some(n) => Some(n@),
            None => None,
        }, annotation@),
{
    Edit {
        position: EditPosition { start_byte: start, end_byte: Some(end) },
        content: content.clone(),
        anchor_hit: Some(hit),
        nodes,
        annotation: Some(annotation),
    }
}

/// The node candidates for a match at bytes `s..e` resolving to node `p0`.
fn structural(t: &SyntaxTree, op: Operation, content: &String, s: usize, e: usize, p0: usize) -> (v: Vec<Edit>)
    requires
        t.wf(),
        p0 < t.nodes@.len(),
    ensures
        edit_views(v@) == structural_candidates(t.nodes@, op, content@, s as int, e as int, p0 as int),
{
    let is_insert = op != Operation::Replace;
    let p = t.climb_extra(p0);
    let nodes: Vec<usize> = if t.nodes[p].extra {
        Vec::new()
    } else {
        t.siblings_in_range(p, s, e)
    };
    assert(forall|k: int| 0 <= k < nodes@.len() ==> (#[trigger] nodes@[k]) < t.nodes@.len());
    proof {
        assert(t.nodes[p as int].extra ==> nodes@ =~= Seq::<usize>::empty());
    }
    let mut v: Vec<Edit> = Vec::new();
    if nodes.len() > 0 {
        let first = nodes[0];
        let last = nodes[nodes.len() - 1];
        let aligned = if is_insert {
            t.nodes[first].start <= s && t.nodes[last].end >= e && if op == Operation::InsertBefore {
                t.nodes[first].start != t.nodes[p].start
            } else {
                t.nodes[last].end != t.nodes[p].end
            }
        } else {
            t.nodes[first].start == s || t.anchor_in_header(first, s)
        };
        if aligned {
            let fs = t.nodes[first].start;
            let le = t.nodes[last].end;
            v.push(place(fs, le, content, (s, e), Some(nodes), "node range"));
        }
    }
    let keep = if is_insert {
        !(t.nodes[p].start < s && !t.anchor_in_header(p, s))
    } else {
        t.nodes[p].start == s || t.anchor_in_header(p, s)
    };
    if keep {
        let mut one: Vec<usize> = Vec::new();
        one.push(p);
        v.push(place(t.nodes[p].start, t.nodes[p].end, content, (s, e), Some(one), "common parent"));
    }
    proof {
        assert(edit_views(v@) =~= structural_candidates(t.nodes@, op, content@, s as int, e as int, p0 as int));
    }
    v
}

/// The candidates for the anchor match at characters `ka..kb` of the source.
fn candidates_for_match(
    p: &ParsedSource,
    t: &SyntaxTree,
    op: Operation,
    content: &String,
    c: &Vec<char>,
    offsets: &Vec<usize>,
    ka: usize,
    kb: usize,
) -> (v: Vec<Edit>)
    requires
        tree_of(*t, *p),
        c@ == p.src(),
        offsets@.len() == c@.len() + 1,
        forall|q: int| 0 <= q <= c@.len() ==> offsets@[q] == byte_at(c@, q),
        ka <= kb <= c@.len(),
    ensures
        edit_views(v@) == match_candidates(t.nodes@, p.lang(), p.src(), op, content@, ka as int, kb as int),
{
    let s = offsets[ka];
    let e = offsets[kb];
    proof {
        crate::text::lemma_byte_at_mono(c@, ka as int, kb as int);
    }
    let mut v = match descendant_for_byte_range(p, t, s, e) {
        Some(p0) => structural(t, op, content, s, e, p0),
        None => Vec::new(),
    };
    let sub_token = if e > s {
        let first = named_descendant_for_byte_range(p, t, s, s + 1);
        let last = named_descendant_for_byte_range(p, t, e - 1, e);
        first == last
    } else {
        false
    };
    let delimited = (ka == 0 || is_whitespace(c[ka - 1])) && (kb == c.len() || is_whitespace(c[kb]));
    let ghost before = v@;
    if op != Operation::Replace || sub_token || delimited {
        v.push(place(s, e, content, (s, e), None, "exact"));
    }
    proof {
        assert(edit_views(v@) =~= match_candidates(t.nodes@, p.lang(), p.src(), op, content@, ka as int, kb as int));
    }
    v
}

/// The message for an anchor that matched but lines up with no node.
fn unaligned_error(anchor: &str) -> (m: String)
    ensures
        m@ == unaligned_message(anchor@),
{
    let mut m = String::new();
    push_str(&mut m, "The anchor ");
    let q = debug_quote(anchor);
    push_str(&mut m, q.as_str());
    push_str(&mut m, " was found, but it does not line up with the boundaries of any complete syntax node — it starts or ends partway through a node (for example, by including a closing brace or other text from a neighboring item). No change was performed.\nAnchor the text of the node you mean to target, starting from its first token.");
    m
}

/// Every candidate placement for `anchor` (trimmed) in the parsed source:
/// for each match in source order, its node candidates and then its exact
/// span (see [`match_candidates`]). An anchor that matches nowhere, or whose
/// matches yield no candidate, is an error.
pub fn select_ast_node(
    p: &ParsedSource,
    t: &SyntaxTree,
    op: Operation,
    content: &String,
    anchor: &str,
) -> (r: Result<Vec<Edit>, String>)
    requires
        tree_of(*t, *p),
    ensures
        match (r, selected(t.nodes@, p.lang(), p.src(), op, content@, trim(anchor@))) {
            (Ok(v), Ok(c)) => edit_views(v@) == c,
            (Err(m), Err(x)) => m@ == x,
            _ => false,
        },
{
    let c = chars_of(p.text());
    let _total = str_byte_len(p.text());
    let offsets = byte_offsets(&c);
    let ac = chars_of(anchor);
    let (x, y) = trim_range(&ac, 0, ac.len());
    proof {
        assert(ac@.subrange(0, ac@.len() as int) =~= ac@);
    }
    let a = slice_chars(&ac, x, y);
    let trimmed = string_from_chars(&a);
    let hits = find_char_positions(&c, &a);
    if hits.len() == 0 {
        let mut m = String::new();
        push_str(&mut m, "Anchor \"");
        push_str(&mut m, trimmed.as_str());
        push_str(&mut m, "\" not found in source");
        return Err(m);
    }
    let ghost hs = found(c@, a@);
    let mut v: Vec<Edit> = Vec::new();
    let mut j: usize = 0;
    while j < hits.len()
        invariant
            tree_of(*t, *p),
            c@ == p.src(),
            offsets@.len() == c@.len() + 1,
            forall|q: int| 0 <= q <= c@.len() ==> offsets@[q] == byte_at(c@, q),
            hs == found(c@, a@),
            j <= hits@.len() == hs.len(),
            forall|q: int| 0 <= q < hits@.len() ==> (hits@[q].0 as int, hits@[q].1 as int) == hs[q],
            edit_views(v@) == all_candidates(t.nodes@, p.lang(), p.src(), op, content@, hs.take(j as int)),
        decreases hits@.len() - j,
    {
        proof {
            law_matches_equal_snippet_modulo_whitespace(c@, a@, j as int);
        }
        let (ka, kb) = hits[j];
        let mut w = candidates_for_match(p, t, op, content, &c, &offsets, ka, kb);
        let ghost vb = v@;
        let ghost wb = w@;
        v.append(&mut w);
        proof {
            assert(hs.take(j + 1).drop_last() =~= hs.take(j as int));
            assert(hs.take(j + 1).last() == hs[j as int]);
            assert(edit_views(vb + wb) =~= edit_views(vb) + edit_views(wb));
        }
        j += 1;
    }
    proof {
        assert(hs.take(j as int) =~= hs);
    }
    if v.len() == 0 {
        return Err(unaligned_error(trimmed.as_str()));
    }
    Ok(v)
}

/// The placements that turn into insertions after what they cover.
pub open spec fn afters(xs: Seq<EditView>, src: Seq<char>) -> Seq<EditView>
    decreases xs.len(),
{
    if xs.len() == 0 {
        seq![]
    } else {
        let rest = afters(xs.drop_last(), src);
        match after_view(xs.last(), src) {
            Some(y) => rest.push(y),
            None => rest,
        }
    }
}

/// Each placement turned into an insertion before what it covers.
pub open spec fn befores(xs: Seq<EditView>, src: Seq<char>) -> Seq<EditView> {
    xs.map_values(|x: EditView| before_view(x, src))
}

/// For each placement, two more with `pre` before and `post` after its
/// content: first `pre1 + c + post1`, then `pre2 + c + post2`.
pub open spec fn spacing_variants(
    xs: Seq<EditView>,
    pre1: Seq<char>,
    post1: Seq<char>,
    pre2: Seq<char>,
    post2: Seq<char>,
) -> Seq<EditView>
    decreases xs.len(),
{
    if xs.len() == 0 {
        seq![]
    } else {
        let x = xs.last();
        spacing_variants(xs.drop_last(), pre1, post1, pre2, post2) + seq![
            EditView { content: pre1 + x.content + post1, ..x },
            EditView { content: pre2 + x.content + post2, ..x },
        ]
    }
}

/// The candidates an operation gets from the node selection `xs`: replace
/// uses them as they are; `insert_after` turns them into insertions after
/// (dropping those that cover no text) and adds, for each, a variant with a
/// leading space and one with a leading line break; `insert_before` turns them
/// into insertions before and adds variants with a trailing line break and a
/// trailing space.
pub open spec fn operation_edits(op: Operation, xs: Seq<EditView>, src: Seq<char>) -> Seq<EditView> {
    match op {
        Operation::Replace => xs,
        Operation::InsertAfter => {
            let a = afters(xs, src);
            a + spacing_variants(a, " "@, ""@, "\n"@, ""@)
        },
        Operation::InsertBefore => {
            let b = befores(xs, src);
            b + spacing_variants(b, ""@, "\n"@, ""@, " "@)
        },
    }
}

/// The two variants of every placement of `xs`, in order.
fn add_spacing_variants(xs: &Vec<Edit>, pre1: &str, post1: &str, pre2: &str, post2: &str) -> (v: Vec<Edit>)
    ensures
        edit_views(v@) == spacing_variants(edit_views(xs@), pre1@, post1@, pre2@, post2@),
{
    let mut v: Vec<Edit> = Vec::new();
    let mut i: usize = 0;
    while i < xs.len()
        invariant
            i <= xs@.len(),
            edit_views(v@) == spacing_variants(edit_views(xs@.take(i as int)), pre1@, post1@, pre2@, post2@),
        decreases xs@.len() - i,
    {
        let x = &xs[i];
        let mut c1 = String::new();
        push_str(&mut c1, pre1);
        push_str(&mut c1, x.content.as_str());
        push_str(&mut c1, post1);
        let mut c2 = String::new();
        push_str(&mut c2, pre2);
        push_str(&mut c2, x.content.as_str());
        push_str(&mut c2, post2);
        let e1 = x.duplicate().with_content(c1);
        let e2 = x.duplicate().with_content(c2);
        let ghost vb = v@;
        v.push(e1);
        v.push(e2);
        proof {
            assert(edit_views(xs@.take(i + 1)).drop_last() =~= edit_views(xs@.take(i as int)));
            assert(edit_views(xs@.take(i + 1)).last() == xs@[i as int]@);
            assert(edit_views(v@) =~= edit_views(vb) + seq![e1@, e2@]);
        }
        i += 1;
    }
    proof {
        assert(xs@.take(i as int) =~= xs@);
    }
    v
}

/// Apply the operation's transformation to the node selection (see
/// [`operation_edits`]).
pub fn edits_for_operation(op: Operation, xs: Vec<Edit>, src: &Vec<char>, offsets: &Vec<usize>) -> (v: Vec<Edit>)
    requires
        offsets@.len() == src@.len() + 1,
        forall|q: int| 0 <= q <= src@.len() ==> offsets@[q] == byte_at(src@, q),
    ensures
        edit_views(v@) == operation_edits(op, edit_views(xs@), src@),
{
    match op {
        Operation::Replace => xs,
        Operation::InsertAfter => {
            let mut a: Vec<Edit> = Vec::new();
            let mut i: usize = 0;
            while i < xs.len()
                invariant
                    i <= xs@.len(),
                    offsets@.len() == src@.len() + 1,
                    forall|q: int| 0 <= q <= src@.len() ==> offsets@[q] == byte_at(src@, q),
                    edit_views(a@) == afters(edit_views(xs@.take(i as int)), src@),
                decreases xs@.len() - i,
            {
                let x = xs[i].duplicate();
                proof {
                    assert(edit_views(xs@.take(i + 1)).drop_last() =~= edit_views(xs@.take(i as int)));
                    assert(edit_views(xs@.take(i + 1)).last() == xs@[i as int]@);
                }
                let ghost ab = a@;
                match x.insert_after(src, offsets) {
                    Some(y) => {
                        a.push(y);
                        proof {
                            assert(edit_views(a@) =~= edit_views(ab).push(y@));
                        }
                    },
                    None => {},
                }
                i += 1;
            }
            proof {
                assert(xs@.take(i as int) =~= xs@);
            }
            let mut b = add_spacing_variants(&a, " ", "", "\n", "");
            let ghost av = a@;
            let ghost bv = b@;
            a.append(&mut b);
            proof {
                assert(edit_views(av + bv) =~= edit_views(av) + edit_views(bv));
            }
            a
        },
        Operation::InsertBefore => {
            let mut a: Vec<Edit> = Vec::new();
            let mut i: usize = 0;
            while i < xs.len()
                invariant
                    i <= xs@.len(),
                    offsets@.len() == src@.len() + 1,
                    forall|q: int| 0 <= q <= src@.len() ==> offsets@[q] == byte_at(src@, q),
                    edit_views(a@) == befores(edit_views(xs@.take(i as int)), src@),
                decreases xs@.len() - i,
            {
                let x = xs[i].duplicate();
                let y = x.insert_before(src, offsets);
                let ghost ab = a@;
                a.push(y);
                proof {
                    assert(edit_views(xs@.take(i + 1)) =~= edit_views(xs@.take(i as int)).push(xs@[i as int]@));
                    assert(befores(edit_views(xs@.take(i + 1)), src@) =~= befores(edit_views(xs@.take(i as int)), src@).push(before_view(xs@[i as int]@, src@)));
                    assert(edit_views(a@) =~= edit_views(ab).push(y@));
                }
                i += 1;
            }
            proof {
                assert(xs@.take(i as int) =~= xs@);
            }
            let mut b = add_spacing_variants(&a, "", "\n", "", " ");
            let ghost av = a@;
            let ghost bv = b@;
            a.append(&mut b);
            proof {
                assert(edit_views(av + bv) =~= edit_views(av) + edit_views(bv));
            }
            a
        },
    }
}

/// The placement an item reference gives: the item with its leading
/// decorations.
pub open spec fn item_placement(t: Seq<SyntaxNode>, src: Seq<char>, node: int, content: Seq<char>) -> EditView {
    let decs = leading(t, src, node);
    let start = if decs.len() > 0 {
        t[decs[0] as int].start as int
    } else {
        t[node].start as int
    };
    EditView {
        start,
        end: Some(t[node].end as int),
        content,
        hit: None,
        nodes: Some(decs.push(node as usize)),
        annotation: Some("item"@),
    }
}

/// The items an item reference names.
pub open spec fn referenced(t: Seq<SyntaxNode>, src: Seq<char>, item: ItemRef) -> Seq<usize> {
    with_kind(t, with_name(t, src, named_items(t, src), item.name@), item.kind@)
}

/// The candidate placements for a selector, before any language-specific
/// adjustment: a malformed selector is refused; an anchor selects nodes as
/// [`selected`] says; an item reference that names exactly one item places
/// the edit at that item. The operation then shapes them (see
/// [`operation_edits`]).
pub open spec fn found_edits_ok(
    t: Seq<SyntaxNode>,
    lang: int,
    src: Seq<char>,
    selector: Selector,
    content: Seq<char>,
    v: Seq<EditView>,
) -> bool {
    &&& selector_problem(anchor_view(selector.anchor), selector.item is Some) is None
    &&& match selector.anchor {
        Some(a) => selected(t, lang, src, selector.operation, content, trim(a@)) matches Ok(c)
            && v == operation_edits(selector.operation, c, src),
        None => match selector.item {
            Some(item) => {
                let f = referenced(t, src, item);
                f.len() == 1 && v == operation_edits(
                    selector.operation,
                    seq![item_placement(t, src, f[0] as int, content)],
                    src,
                )
            },
            None => false,
        },
    }
}

/// Find the candidate placements for a selector (see [`found_edits_ok`]);
/// errors are the selector's problem, the anchor's, or the item
/// reference's, as their own functions state them.
/// Why a selector finds no candidates, if it does not: a malformed
/// selector, an anchor that selects nothing, or an item reference that
/// names no item or several.
pub open spec fn found_edits_error(t: Seq<SyntaxNode>, lang: int, src: Seq<char>, selector: Selector, content: Seq<char>) -> Option<Seq<char>> {
    match selector_problem(anchor_view(selector.anchor), selector.item is Some) {
        Some(p) => Some(p),
        None => match selector.anchor {
            Some(a) => match selected(t, lang, src, selector.operation, content, trim(a@)) {
                Err(m) => Some(m),
                Ok(_) => None,
            },
            None => match selector.item {
                Some(item) => {
                    let f = referenced(t, src, item);
                    if f.len() == 0 {
                        Some(not_found_text(t, src, item.kind@, item.name@))
                    } else if f.len() > 1 {
                        Some(ambiguous_text(t, src, item.kind@, item.name@, f))
                    } else {
                        None
                    }
                },
                None => Some("- supply either `anchor` (text copied from the file) or `item` ({kind, name})"@),
            },
        },
    }
}

pub fn find_edits(p: &ParsedSource, t: &SyntaxTree, selector: &Selector, content: &String) -> (r: Result<Vec<Edit>, String>)
    requires
        tree_of(*t, *p),
        p.src().len() < usize::MAX,
    ensures
        match r {
            Ok(v) => found_edits_error(t.nodes@, p.lang(), p.src(), *selector, content@) is None
                && found_edits_ok(t.nodes@, p.lang(), p.src(), *selector, content@, edit_views(v@)),
            Err(m) => found_edits_error(t.nodes@, p.lang(), p.src(), *selector, content@) == Some(m@),
        },
{
    match selector.validate() {
        Ok(()) => {},
        Err(m) => {
            return Err(m);
        },
    }
    let c = chars_of(p.text());
    let _total = str_byte_len(p.text());
    let offsets = byte_offsets(&c);
    match &selector.anchor {
        Some(anchor) => {
            let xs = match select_ast_node(p, t, selector.operation, content, anchor.as_str()) {
                Ok(xs) => xs,
                Err(m) => {
                    return Err(m);
                },
            };
            Ok(edits_for_operation(selector.operation, xs, &c, &offsets))
        },
        None => match &selector.item {
            Some(item) => {
                let resolved = match resolve(t, &c, &offsets, item) {
                    Ok(x) => x,
                    Err(m) => {
                        return Err(m);
                    },
                };
                let one = Edit {
                    position: EditPosition { start_byte: resolved.start, end_byte: Some(resolved.end) },
                    content: content.clone(),
                    anchor_hit: None,
                    nodes: Some(resolved.nodes),
                    annotation: Some("item"),
                };
                let mut xs: Vec<Edit> = Vec::new();
                xs.push(one);
                proof {
                    assert(edit_views(xs@) =~= seq![item_placement(t.nodes@, p.src(), referenced(t.nodes@, p.src(), *item)[0] as int, content@)]);
                }
                Ok(edits_for_operation(selector.operation, xs, &c, &offsets))
            },
            None => Err("- supply either `anchor` (text copied from the file) or `item` ({kind, name})".to_owned()),
        },
    }
}

proof fn lemma_candidates_prefix(
    t: Seq<SyntaxNode>,
    lang: int,
    src: Seq<char>,
    op: Operation,
    content: Seq<char>,
    hits: Seq<(int, int)>,
    m: int,
)
    requires
        0 <= m <= hits.len(),
    ensures
        all_candidates(t, lang, src, op, content, hits.take(m)).len() <= all_candidates(t, lang, src, op, content, hits).len(),
        all_candidates(t, lang, src, op, content, hits).take(
            all_candidates(t, lang, src, op, content, hits.take(m)).len() as int,
        ) == all_candidates(t, lang, src, op, content, hits.take(m)),
    decreases hits.len(),
{
    if m == hits.len() {
        assert(hits.take(m) =~= hits);
        let all = all_candidates(t, lang, src, op, content, hits);
        assert(all.take(all.len() as int) =~= all);
    } else {
        lemma_candidates_prefix(t, lang, src, op, content, hits.drop_last(), m);
        assert(hits.drop_last().take(m) =~= hits.take(m));
        let pre = all_candidates(t, lang, src, op, content, hits.take(m));
        let mid = all_candidates(t, lang, src, op, content, hits.drop_last());
        let all = all_candidates(t, lang, src, op, content, hits);
        assert(all == mid + match_candidates(t, lang, src, op, content, hits.last().0, hits.last().1));
        assert(all.take(pre.len() as int) =~= mid.take(pre.len() as int));
    }
}

/// An edit finds what the anchor report lists: an anchor that the report
/// says is not found gives an edit nothing to place, and an edit's candidate
/// placements are built from the listed matches in order, so the
/// placements of the first match come first.
pub proof fn law_edits_start_from_the_first_listed_match(
    t: Seq<SyntaxNode>,
    lang: int,
    src: Seq<char>,
    op: Operation,
    content: Seq<char>,
    a: Seq<char>,
)
    ensures
        found(src, a).len() == 0 ==> crate::editor::anchor::anchor_report(src, a) == crate::searcher::not_found_message(a)
            && selected(t, lang, src, op, content, a) == Err::<Seq<EditView>, Seq<char>>(crate::searcher::not_found_message(a)),
        selected(t, lang, src, op, content, a) matches Ok(c) ==> found(src, a).len() > 0 && ({
            let first = match_candidates(t, lang, src, op, content, found(src, a)[0].0, found(src, a)[0].1);
            first.len() <= c.len() && c.take(first.len() as int) == first
        }),
{
    let hits = found(src, a);
    if hits.len() > 0 {
        lemma_candidates_prefix(t, lang, src, op, content, hits, 1);
        assert(hits.take(1).drop_last() =~= Seq::<(int, int)>::empty());
        assert(hits.take(1).last() == hits[0]);
        assert(all_candidates(t, lang, src, op, content, Seq::<(int, int)>::empty()) =~= Seq::<EditView>::empty());
        assert(all_candidates(t, lang, src, op, content, hits.take(1)) =~= match_candidates(
            t,
            lang,
            src,
            op,
            content,
            hits[0].0,
            hits[0].1,
        ));
    }
}

/// Every node candidate names the nodes it covers.
proof fn lemma_structural_names_nodes(t: Seq<SyntaxNode>, op: Operation, content: Seq<char>, s: int, e: int, p0: int)
    ensures
        forall|j: int| 0 <= j < structural_candidates(t, op, content, s, e, p0).len()
            ==> (#[trigger] structural_candidates(t, op, content, s, e, p0)[j]).nodes is Some,
{
}

/// For each anchor match the node candidates (the aligned run of nodes, then
/// the common parent) come before the exact matched span: the exact span,
/// the only candidate that names no nodes, is tried last and only when no
/// node placement was accepted. So when a match has any node candidate, the
/// first candidate is placed at node boundaries, not at the anchor text.
pub proof fn law_node_candidates_precede_the_exact_span(
    t: Seq<SyntaxNode>,
    lang: int,
    src: Seq<char>,
    op: Operation,
    content: Seq<char>,
    ks: int,
    ke: int,
)
    ensures
        forall|j: int, k: int|
            0 <= j < match_candidates(t, lang, src, op, content, ks, ke).len()
                && 0 <= k < match_candidates(t, lang, src, op, content, ks, ke).len()
                && (#[trigger] match_candidates(t, lang, src, op, content, ks, ke)[j]).nodes is None
                && (#[trigger] match_candidates(t, lang, src, op, content, ks, ke)[k]).nodes is Some ==> k < j,
        forall|j: int|
            0 <= j < match_candidates(t, lang, src, op, content, ks, ke).len()
                && (#[trigger] match_candidates(t, lang, src, op, content, ks, ke)[j]).nodes is None
                ==> j == match_candidates(t, lang, src, op, content, ks, ke).len() - 1
                && match_candidates(t, lang, src, op, content, ks, ke)[j].start == byte_at(src, ks)
                && match_candidates(t, lang, src, op, content, ks, ke)[j].end == Some(byte_at(src, ke) as int),
        (exists|k: int|
            0 <= k < match_candidates(t, lang, src, op, content, ks, ke).len()
                && (#[trigger] match_candidates(t, lang, src, op, content, ks, ke)[k]).nodes is Some)
            ==> match_candidates(t, lang, src, op, content, ks, ke)[0].nodes is Some,
{
    let s = byte_at(src, ks) as int;
    let e = byte_at(src, ke) as int;
    let n = t.len();
    let c = match_candidates(t, lang, src, op, content, ks, ke);
    let structural = match table_descendant(n, ts_descendant(lang, src, s, e)) {
        Some(p0) => structural_candidates(t, op, content, s, e, p0),
        None => seq![],
    };
    if let Some(p0) = table_descendant(n, ts_descendant(lang, src, s, e)) {
        lemma_structural_names_nodes(t, op, content, s, e, p0);
    }
    assert forall|j: int| 0 <= j < structural.len() implies (#[trigger] c[j]).nodes is Some by {
        assert(c[j] == structural[j]);
    }
    assert forall|j: int| structural.len() <= j < c.len() implies (#[trigger] c[j]).nodes is None
        && j == c.len() - 1 && c[j].start == s && c[j].end == Some(e) by {}
    if exists|k: int| 0 <= k < c.len() && (#[trigger] c[k]).nodes is Some {
        let k = choose|k: int| 0 <= k < c.len() && (#[trigger] c[k]).nodes is Some;
        assert(k < structural.len());
        assert(c[0] == structural[0]);
    }
}

} // verus!
