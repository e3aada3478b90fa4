//! Showing where an anchor matches, with the lines around each match.
use vstd::prelude::*;
use crate::editor::engine::Editor;
use crate::item::count_char;
use crate::searcher::{find_char_positions, found, law_matches_equal_snippet_modulo_whitespace, not_found_message};
use crate::selector::Selector;
use crate::text::{
    chars_of, line_spans, line_spans_of, push_char, push_chars, push_decimal, push_str, trim,
    trim_range, utf8_len, decimal,
};

verus! {

/// The anchor a selector searches for, trimmed (empty when it has none).
pub open spec fn anchor_query(sel: Selector) -> Seq<char> {
    match sel.anchor {
        Some(a) => trim(a@),
        None => seq![],
    }
}

/// The 0-based line of character `k`: the line breaks before it.
pub open spec fn line_index(s: Seq<char>, k: int) -> nat {
    count_char(s.take(k), '\n')
}

/// `d` right-aligned in four columns.
pub open spec fn padded4(d: Seq<char>) -> Seq<char> {
    if d.len() < 4 {
        Seq::new((4 - d.len()) as nat, |i: int| ' ') + d
    } else {
        d
    }
}

/// One listed line: a `>>>` marker on the matched lines, the 1-based line
/// number in four columns, and the line's text.
pub open spec fn listed_line(s: Seq<char>, spans: Seq<(int, int)>, li: int, first: int, last: int) -> Seq<char> {
    (if first <= li <= last {
        ">>>"@
    } else {
        "   "@
    }) + " "@ + padded4(decimal((li + 1) as nat)) + " | "@ + s.subrange(spans[li].0, spans[li].1) + "\n"@
}

/// Lines `from..to` as listed.
pub open spec fn listed_lines(s: Seq<char>, spans: Seq<(int, int)>, first: int, last: int, from: int, to: int) -> Seq<char>
    decreases to - from,
{
    if to <= from {
        seq![]
    } else {
        listed_lines(s, spans, first, last, from, to - 1) + listed_line(s, spans, to - 1, first, last)
    }
}

/// The first and last line a match covers.
pub open spec fn match_lines(s: Seq<char>, hit: (int, int)) -> (int, int) {
    (
        line_index(s, hit.0) as int,
        line_index(s, if hit.1 > hit.0 { hit.1 - 1 } else { hit.0 }) as int,
    )
}

/// The block shown for the `idx`-th match: a heading with its lines, then the
/// matched lines with three lines of context each way.
pub open spec fn match_block(s: Seq<char>, spans: Seq<(int, int)>, idx: int, hit: (int, int)) -> Seq<char> {
    let (first, last) = match_lines(s, hit);
    let from = if first >= 3 { first - 3 } else { 0 };
    let to = if last + 4 <= spans.len() { last + 4 } else { spans.len() as int };
    "\n=== match "@ + decimal((idx + 1) as nat) + ": lines "@ + decimal((first + 1) as nat) + "-"@
        + decimal((last + 1) as nat) + " ===\n"@ + listed_lines(s, spans, first, last, from, to)
}

/// The blocks of the first `k` matches.
pub open spec fn match_blocks(s: Seq<char>, spans: Seq<(int, int)>, hits: Seq<(int, int)>, k: int) -> Seq<char>
    decreases k,
{
    if k <= 0 {
        seq![]
    } else {
        match_blocks(s, spans, hits, k - 1) + match_block(s, spans, k - 1, hits[k - 1])
    }
}

/// The closing advice when an anchor matches more than once.
pub open spec fn several_matches_advice() -> Seq<char> {
    "\nEdits use the first match. To target a different one, extend the anchor with more of the target's own text until it is unique."@
}

/// Where anchor `q` matches in `s`: the not-found message when it matches
/// nowhere, else a count and one block per match, in source order.
pub open spec fn anchor_report(s: Seq<char>, q: Seq<char>) -> Seq<char> {
    let hits = found(s, q);
    if hits.len() == 0 {
        not_found_message(q)
    } else {
        "Anchor matched at "@ + decimal(hits.len()) + " location"@ + (if hits.len() == 1 {
            ""@
        } else {
            "s"@
        }) + "\n"@ + match_blocks(s, line_spans(s, 0), hits, hits.len() as int) + (if hits.len() > 1 {
            several_matches_advice()
        } else {
            ""@
        })
    }
}

/// Every non-empty match ends on a one-byte character, so the byte before
/// its end is a character boundary.
pub open spec fn matches_end_on_boundaries(s: Seq<char>, q: Seq<char>) -> bool {
    forall|j: int|
        0 <= j < found(s, q).len() && found(s, q)[j].1 > found(s, q)[j].0 ==> utf8_len(
            #[trigger] s[found(s, q)[j].1 - 1],
        ) == 1
}

fn newline_counts(c: &Vec<char>) -> (v: Vec<usize>)
    requires
        c@.len() < usize::MAX,
    ensures
        v@.len() == c@.len() + 1,
        forall|k: int| 0 <= k <= c@.len() ==> v@[k] == line_index(c@, k),
        forall|k: int| 0 <= k <= c@.len() ==> v@[k] <= k,
{
    let mut v: Vec<usize> = Vec::new();
    v.push(0);
    let mut count: usize = 0;
    let mut i: usize = 0;
    proof {
        assert(c@.take(0) =~= Seq::<char>::empty());
    }
    while i < c.len()
        invariant
            i <= c@.len() < usize::MAX,
            v@.len() == i + 1,
            count == line_index(c@, i as int),
            count <= i,
            forall|k: int| 0 <= k <= i ==> v@[k] == line_index(c@, k),
            forall|k: int| 0 <= k <= i ==> v@[k] <= k,
        decreases c@.len() - i,
    {
        proof {
            assert(c@.take(i + 1).drop_last() =~= c@.take(i as int));
        }
        if c[i] == '\n' {
            count += 1;
        }
        i += 1;
        v.push(count);
    }
    v
}

fn push_padded4(out: &mut String, n: usize)
    ensures
        final(out)@ == old(out)@ + padded4(decimal(n as nat)),
{
    let mut d = String::new();
    push_decimal(&mut d, n);
    let dc = chars_of(d.as_str());
    let ghost start = out@;
    if dc.len() < 4 {
        let pad = 4 - dc.len();
        let mut k: usize = 0;
        while k < pad
            invariant
                k <= pad,
                out@ == start + Seq::new(k as nat, |i: int| ' '),
            decreases pad - k,
        {
            push_char(out, ' ');
            k += 1;
            proof {
                assert(out@ =~= start + Seq::new(k as nat, |i: int| ' '));
            }
        }
    }
    push_chars(out, dc.as_slice());
    proof {
        assert(d@ =~= Seq::<char>::empty() + decimal(n as nat));
    }
}

fn push_listed_lines(
    out: &mut String,
    c: &Vec<char>,
    spans: &Vec<(usize, usize)>,
    ispans: Ghost<Seq<(int, int)>>,
    first: usize,
    last: usize,
    from: usize,
    to: usize,
)
    requires
        to <= spans@.len() == ispans@.len(),
        forall|k: int| 0 <= k < spans@.len() ==> (#[trigger] spans@[k]).0 <= spans@[k].1 <= c@.len(),
        forall|k: int| 0 <= k < spans@.len() ==> (spans@[k].0 as int, spans@[k].1 as int) == ispans@[k],
    ensures
        final(out)@ == old(out)@ + listed_lines(c@, ispans@, first as int, last as int, from as int, to as int),
{
    let ghost start = out@;
    let mut li = from;
    while li < to
        invariant
            to <= spans@.len() == ispans@.len(),
            from <= li,
            li <= to || li == from,
            forall|k: int| 0 <= k < spans@.len() ==> (#[trigger] spans@[k]).0 <= spans@[k].1 <= c@.len(),
            forall|k: int| 0 <= k < spans@.len() ==> (spans@[k].0 as int, spans@[k].1 as int) == ispans@[k],
            out@ == start + listed_lines(c@, ispans@, first as int, last as int, from as int, li as int),
        decreases to - li,
    {
        let ghost pre = out@;
        if first <= li && li <= last {
            push_str(out, ">>>");
        } else {
            push_str(out, "   ");
        }
        push_str(out, " ");
        push_padded4(out, li + 1);
        push_str(out, " | ");
        let (la, lb) = spans[li];
        let line = crate::text::slice_chars(c, la, lb);
        push_chars(out, line.as_slice());
        push_str(out, "\n");
        proof {
            reveal_strlit(">>>");
            reveal_strlit("   ");
            reveal_strlit(" ");
            reveal_strlit(" | ");
            reveal_strlit("\n");
            assert(out@ =~= pre + listed_line(c@, ispans@, li as int, first as int, last as int));
        }
        li += 1;
    }
}

fn push_match_block(
    out: &mut String,
    c: &Vec<char>,
    nls: &Vec<usize>,
    spans: &Vec<(usize, usize)>,
    ispans: Ghost<Seq<(int, int)>>,
    idx: usize,
    a: usize,
    b: usize,
)
    requires
        idx < usize::MAX,
        a <= b <= c@.len() < usize::MAX,
        nls@.len() == c@.len() + 1,
        forall|k: int| 0 <= k <= c@.len() ==> nls@[k] == line_index(c@, k),
        forall|k: int| 0 <= k <= c@.len() ==> nls@[k] <= k,
        spans@.len() == ispans@.len(),
        forall|k: int| 0 <= k < spans@.len() ==> (#[trigger] spans@[k]).0 <= spans@[k].1 <= c@.len(),
        forall|k: int| 0 <= k < spans@.len() ==> (spans@[k].0 as int, spans@[k].1 as int) == ispans@[k],
    ensures
        final(out)@ == old(out)@ + match_block(c@, ispans@, idx as int, (a as int, b as int)),
{
    let ghost before = out@;
    let first = nls[a];
    let lastk = if b > a { b - 1 } else { a };
    let last = nls[lastk];
    let nlines = spans.len();
    proof {
        reveal_strlit("\n=== match ");
        reveal_strlit(": lines ");
        reveal_strlit("-");
        reveal_strlit(" ===\n");
    }
    push_str(out, "\n=== match ");
    push_decimal(out, idx + 1);
    push_str(out, ": lines ");
    push_decimal(out, first + 1);
    push_str(out, "-");
    push_decimal(out, last + 1);
    push_str(out, " ===\n");
    let ghost hd = "\n=== match "@ + decimal((idx + 1) as nat) + ": lines "@ + decimal((first + 1) as nat)
        + "-"@ + decimal((last + 1) as nat) + " ===\n"@;
    assert(out@ =~= before + hd);
    let from = if first >= 3 { first - 3 } else { 0 };
    let to = if nlines >= 4 && last <= nlines - 4 { last + 4 } else { nlines };
    push_listed_lines(out, c, spans, ispans, first, last, from, to);
    proof {
        let ml = match_lines(c@, (a as int, b as int));
        assert(ml.0 == first);
        assert(ml.1 == last);
        assert(match_block(c@, ispans@, idx as int, (a as int, b as int))
            == hd + listed_lines(c@, ispans@, first as int, last as int, from as int, to as int));
        assert(out@ =~= before + match_block(c@, ispans@, idx as int, (a as int, b as int)));
    }
}

impl Editor {
    /// Every place the anchor matches, with three lines of context around
    /// each, numbered, and the matched lines marked. A missing anchor gives
    /// the searcher's not-found message. Matches are text matches, found by
    /// the same search an edit uses.
    pub fn find_anchor(&self) -> (r: String)
        requires
            self.inv(),
            matches_end_on_boundaries(self.source(), anchor_query(self.target())),
        ensures
            r@ == anchor_report(self.source(), anchor_query(self.target())),
    {
        proof {
            self.lemma_source_fits();
        }
        let c = chars_of(self.source_code());
        let ac: Vec<char> = match self.selector().anchor() {
            Some(a) => chars_of(a),
            None => Vec::new(),
        };
        let (x, y) = trim_range(&ac, 0, ac.len());
        let q = crate::text::slice_chars(&ac, x, y);
        proof {
            assert(ac@.subrange(0, ac@.len() as int) =~= ac@);
            assert(trim(Seq::<char>::empty()) =~= Seq::<char>::empty());
        }
        let ghost s = c@;
        let ghost qs = q@;
        assert(qs == anchor_query(self.target()));
        let hits = find_char_positions(&c, &q);
        if hits.len() == 0 {
            let mut m = String::new();
            push_str(&mut m, "Anchor \"");
            push_chars(&mut m, q.as_slice());
            push_str(&mut m, "\" not found in source");
            proof {
                reveal_strlit("Anchor \"");
                reveal_strlit("\" not found in source");
            }
            return m;
        }
        let nls = newline_counts(&c);
        let spans = line_spans_of(c.as_slice());
        let nlines = spans.len();
        let mut out = String::new();
        push_str(&mut out, "Anchor matched at ");
        push_decimal(&mut out, hits.len());
        push_str(&mut out, " location");
        if hits.len() != 1 {
            push_str(&mut out, "s");
        }
        push_str(&mut out, "\n");
        let ghost head = out@;
        let ghost ispans = line_spans(s, 0);
        let mut j: usize = 0;
        while j < hits.len()
            invariant
                j <= hits@.len() == found(s, qs).len(),
                s == c@,
                s.len() < usize::MAX,
                forall|k: int| 0 <= k < hits@.len() ==> (hits@[k].0 as int, hits@[k].1 as int) == found(s, qs)[k],
                nls@.len() == s.len() + 1,
                forall|k: int| 0 <= k <= s.len() ==> nls@[k] == line_index(s, k),
                forall|k: int| 0 <= k <= s.len() ==> nls@[k] <= k,
                ispans == line_spans(s, 0),
                spans@.len() == ispans.len(),
                forall|k: int| 0 <= k < spans@.len() ==> (#[trigger] spans@[k]).0 <= spans@[k].1 <= s.len(),
                forall|k: int| 0 <= k < spans@.len() ==> (spans@[k].0 as int, spans@[k].1 as int) == ispans[k],
                out@ == head + match_blocks(s, ispans, found(s, qs), j as int),
            decreases hits@.len() - j,
        {
            let (a, b) = hits[j];
            proof {
                law_matches_equal_snippet_modulo_whitespace(s, qs, j as int);
            }
            push_match_block(&mut out, &c, &nls, &spans, Ghost(ispans), j, a, b);
            proof {
                assert(found(s, qs)[j as int] == (a as int, b as int));
                assert(match_blocks(s, ispans, found(s, qs), j + 1) == match_blocks(s, ispans, found(s, qs), j as int)
                    + match_block(s, ispans, j as int, found(s, qs)[j as int]));
            }
            j += 1;
        }
        if hits.len() > 1 {
            push_str(&mut out, "\nEdits use the first match. To target a different one, extend the anchor with more of the target's own text until it is unique.");
        }
        proof {
            reveal_strlit("Anchor matched at ");
            reveal_strlit(" location");
            reveal_strlit("s");
            reveal_strlit("\n");
            reveal_strlit("");
        }
        out
    }
}

} // verus!
