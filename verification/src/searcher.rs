//! Whitespace-insensitive anchor search.
//!
//! An anchor is located by its first whitespace-free word (an exact,
//! non-overlapping, leftmost-first text search), and each hit is then extended
//! character by character: equal characters advance both sides, and a
//! whitespace character on either side may be skipped on its own. Line breaks
//! and indentation therefore never prevent a match.
use vstd::prelude::*;
use crate::text::{byte_at, chars_of, is_whitespace, is_ws, push_str, str_byte_len, byte_offsets};

verus! {

/// Index of the first whitespace character of `p` at or after `i` (or `p.len()`).
pub open spec fn ws_index(p: Seq<char>, i: int) -> int
    decreases p.len() - i,
{
    if i < 0 || i >= p.len() {
        p.len() as int
    } else if is_ws(p[i]) {
        i
    } else {
        ws_index(p, i + 1)
    }
}

/// Extend a match of `r[a..]` against `s[b..]`: `Some(end)` with the end of
/// the matched source text, or `None` on a mismatch or when `s` runs out first.
pub open spec fn match_rest(r: Seq<char>, s: Seq<char>, a: int, b: int) -> Option<int>
    decreases r.len() - a + s.len() - b,
{
    if a < 0 || b < 0 || a > r.len() || b > s.len() {
        None
    } else if a == r.len() {
        Some(b)
    } else if b == s.len() {
        None
    } else if r[a] == s[b] {
        match_rest(r, s, a + 1, b + 1)
    } else if is_ws(r[a]) {
        match_rest(r, s, a + 1, b)
    } else if is_ws(s[b]) {
        match_rest(r, s, a, b + 1)
    } else {
        None
    }
}

/// Matches of `p` in `s` whose anchor word starts at or after `i`, as
/// character ranges. Anchor words are found leftmost first and without
/// overlap; an empty anchor word is found at every character boundary.
pub open spec fn found_from(s: Seq<char>, p: Seq<char>, i: int) -> Seq<(int, int)>
    decreases s.len() + 1 - i,
{
    let k = ws_index(p, 0);
    if i < 0 || i > s.len() {
        seq![]
    } else if k <= 0 {
        let rest = found_from(s, p, i + 1);
        match match_rest(p, s, 0, i) {
            Some(e) => seq![(i, e)] + rest,
            None => rest,
        }
    } else if i + k > s.len() {
        seq![]
    } else if s.subrange(i, i + k) == p.take(k) {
        let rest = found_from(s, p, i + k);
        match match_rest(p, s, k, i + k) {
            Some(e) => seq![(i, e)] + rest,
            None => rest,
        }
    } else {
        found_from(s, p, i + 1)
    }
}

/// Every match of `p` in `s`, as character ranges in source order.
pub open spec fn found(s: Seq<char>, p: Seq<char>) -> Seq<(int, int)> {
    found_from(s, p, 0)
}

/// The message returned when an anchor has no match.
pub open spec fn not_found_message(snippet: Seq<char>) -> Seq<char> {
    "Anchor \""@ + snippet + "\" not found in source"@
}

proof fn lemma_ws_index(p: Seq<char>, i: int)
    requires
        0 <= i <= p.len(),
    ensures
        i <= ws_index(p, i) <= p.len(),
        forall|j: int| i <= j < ws_index(p, i) ==> !is_ws(#[trigger] p[j]),
        ws_index(p, i) < p.len() ==> is_ws(p[ws_index(p, i)]),
    decreases p.len() - i,
{
    if i < p.len() && !is_ws(p[i]) {
        lemma_ws_index(p, i + 1);
    }
}

proof fn lemma_match_rest_bounds(r: Seq<char>, s: Seq<char>, a: int, b: int)
    ensures
        match_rest(r, s, a, b) matches Some(e) ==> b <= e <= s.len(),
    decreases r.len() - a + s.len() - b,
{
    if a < 0 || b < 0 || a > r.len() || b > s.len() || a == r.len() || b == s.len() {
    } else if r[a] == s[b] {
        lemma_match_rest_bounds(r, s, a + 1, b + 1);
    } else if is_ws(r[a]) {
        lemma_match_rest_bounds(r, s, a + 1, b);
    } else if is_ws(s[b]) {
        lemma_match_rest_bounds(r, s, a, b + 1);
    }
}

/// `s` with its whitespace removed.
pub open spec fn squeeze(s: Seq<char>) -> Seq<char>
    decreases s.len(),
{
    if s.len() == 0 {
        seq![]
    } else if is_ws(s[0]) {
        squeeze(s.drop_first())
    } else {
        seq![s[0]] + squeeze(s.drop_first())
    }
}

pub proof fn lemma_squeeze_add(a: Seq<char>, b: Seq<char>)
    ensures
        squeeze(a + b) == squeeze(a) + squeeze(b),
    decreases a.len(),
{
    if a.len() == 0 {
        assert(a + b =~= b);
        assert(squeeze(a) =~= Seq::<char>::empty());
        assert(squeeze(a) + squeeze(b) =~= squeeze(b));
    } else {
        assert((a + b).drop_first() =~= a.drop_first() + b);
        lemma_squeeze_add(a.drop_first(), b);
        if is_ws(a[0]) {
        } else {
            assert(seq![a[0]] + (squeeze(a.drop_first()) + squeeze(b)) =~= (seq![a[0]] + squeeze(
                a.drop_first(),
            )) + squeeze(b));
        }
    }
}

proof fn lemma_squeeze_no_ws(a: Seq<char>)
    requires
        forall|j: int| 0 <= j < a.len() ==> !is_ws(#[trigger] a[j]),
    ensures
        squeeze(a) == a,
    decreases a.len(),
{
    if a.len() > 0 {
        lemma_squeeze_no_ws(a.drop_first());
        assert(seq![a[0]] + a.drop_first() =~= a);
    }
}

proof fn lemma_squeeze_step(s: Seq<char>, b: int, e: int)
    requires
        0 <= b < e <= s.len(),
    ensures
        squeeze(s.subrange(b, e)) == if is_ws(s[b]) {
            squeeze(s.subrange(b + 1, e))
        } else {
            seq![s[b]] + squeeze(s.subrange(b + 1, e))
        },
{
    assert(s.subrange(b, e).drop_first() =~= s.subrange(b + 1, e));
}

/// What a successful `match_rest` consumed agrees with the pattern once
/// whitespace is ignored.
proof fn lemma_match_rest_squeeze(r: Seq<char>, s: Seq<char>, a: int, b: int)
    requires
        match_rest(r, s, a, b) is Some,
    ensures
        0 <= a <= r.len(),
        squeeze(s.subrange(b, match_rest(r, s, a, b)->0)) == squeeze(r.subrange(a, r.len() as int)),
    decreases r.len() - a + s.len() - b,
{
    let e = match_rest(r, s, a, b)->0;
    if a == r.len() {
        assert(s.subrange(b, e) =~= Seq::<char>::empty());
        assert(r.subrange(a, r.len() as int) =~= Seq::<char>::empty());
    } else if r[a] == s[b] {
        lemma_match_rest_squeeze(r, s, a + 1, b + 1);
        lemma_match_rest_bounds(r, s, a + 1, b + 1);
        lemma_squeeze_step(s, b, e);
        lemma_squeeze_step(r, a, r.len() as int);
    } else if is_ws(r[a]) {
        lemma_match_rest_squeeze(r, s, a + 1, b);
        lemma_squeeze_step(r, a, r.len() as int);
    } else {
        lemma_match_rest_squeeze(r, s, a, b + 1);
        lemma_match_rest_bounds(r, s, a, b + 1);
        lemma_squeeze_step(s, b, e);
    }
}

/// Every match is a range of the source which, with whitespace ignored, is the
/// snippet itself.
pub proof fn law_matches_equal_snippet_modulo_whitespace(s: Seq<char>, p: Seq<char>, j: int)
    requires
        0 <= j < found(s, p).len(),
    ensures
        0 <= found(s, p)[j].0 <= found(s, p)[j].1 <= s.len(),
        squeeze(s.subrange(found(s, p)[j].0, found(s, p)[j].1)) == squeeze(p),
{
    lemma_found_from_sound(s, p, 0, j);
}

proof fn lemma_found_from_sound(s: Seq<char>, p: Seq<char>, i: int, j: int)
    requires
        0 <= j < found_from(s, p, i).len(),
    ensures
        i <= found_from(s, p, i)[j].0 <= found_from(s, p, i)[j].1 <= s.len(),
        squeeze(s.subrange(found_from(s, p, i)[j].0, found_from(s, p, i)[j].1)) == squeeze(p),
    decreases s.len() + 1 - i,
{
    let k = ws_index(p, 0);
    lemma_ws_index(p, 0);
    if i < 0 || i > s.len() {
    } else if k <= 0 {
        let rest = found_from(s, p, i + 1);
        match match_rest(p, s, 0, i) {
            Some(e) => {
                if j == 0 {
                    lemma_match_rest_squeeze(p, s, 0, i);
                    lemma_match_rest_bounds(p, s, 0, i);
                    assert(p.subrange(0, p.len() as int) =~= p);
                } else {
                    assert(found_from(s, p, i)[j] == rest[j - 1]);
                    lemma_found_from_sound(s, p, i + 1, j - 1);
                }
            },
            None => {
                lemma_found_from_sound(s, p, i + 1, j);
            },
        }
    } else if i + k > s.len() {
    } else if s.subrange(i, i + k) == p.take(k) {
        let rest = found_from(s, p, i + k);
        match match_rest(p, s, k, i + k) {
            Some(e) => {
                if j == 0 {
                    lemma_match_rest_squeeze(p, s, k, i + k);
                    lemma_match_rest_bounds(p, s, k, i + k);
                    assert(s.subrange(i, e) =~= s.subrange(i, i + k) + s.subrange(i + k, e));
                    lemma_squeeze_add(s.subrange(i, i + k), s.subrange(i + k, e));
                    assert(p =~= p.take(k) + p.subrange(k, p.len() as int));
                    lemma_squeeze_add(p.take(k), p.subrange(k, p.len() as int));
                    lemma_squeeze_no_ws(p.take(k));
                } else {
                    assert(found_from(s, p, i)[j] == rest[j - 1]);
                    lemma_found_from_sound(s, p, i + k, j - 1);
                }
            },
            None => {
                lemma_found_from_sound(s, p, i + k, j);
            },
        }
    } else {
        lemma_found_from_sound(s, p, i + 1, j);
    }
}

/// The anchor's first word (its text up to the first whitespace) occurs in
/// `s` at `q`.
pub open spec fn anchor_word_at(s: Seq<char>, p: Seq<char>, q: int) -> bool {
    s.subrange(q, q + ws_index(p, 0)) == p.take(ws_index(p, 0))
}

/// `match_rest` succeeds wherever the source agrees with the rest of the
/// pattern once whitespace is ignored, and stops no later than that text
/// ends; the rest of the pattern must not end in whitespace.
proof fn lemma_match_rest_complete(r: Seq<char>, s: Seq<char>, a: int, b: int, e: int)
    requires
        0 <= a <= r.len(),
        0 <= b <= e <= s.len(),
        a == r.len() || !is_ws(r.last()),
        squeeze(s.subrange(b, e)) == squeeze(r.subrange(a, r.len() as int)),
    ensures
        match_rest(r, s, a, b) matches Some(x) && x <= e,
    decreases r.len() - a + s.len() - b,
{
    if a == r.len() {
    } else {
        lemma_squeeze_step(r, a, r.len() as int);
        if b == e {
            assert(s.subrange(b, e) =~= Seq::<char>::empty());
            lemma_squeeze_trailing(r, a);
        } else {
            lemma_squeeze_step(s, b, e);
            if r[a] == s[b] {
                if a + 1 == r.len() {
                    assert(r.last() == r[a]);
                }
                if !is_ws(r[a]) {
                    assert(squeeze(s.subrange(b + 1, e)) =~= squeeze(s.subrange(b, e)).drop_first());
                    assert(squeeze(r.subrange(a + 1, r.len() as int)) =~= squeeze(r.subrange(a, r.len() as int)).drop_first());
                }
                lemma_match_rest_complete(r, s, a + 1, b + 1, e);
            } else if is_ws(r[a]) {
                if a + 1 == r.len() {
                    assert(r.last() == r[a]);
                }
                lemma_match_rest_complete(r, s, a + 1, b, e);
            } else if is_ws(s[b]) {
                lemma_match_rest_complete(r, s, a, b + 1, e);
            } else {
                assert(squeeze(s.subrange(b, e))[0] == s[b]);
                assert(squeeze(r.subrange(a, r.len() as int))[0] == r[a]);
            }
        }
    }
}

/// A pattern remainder that does not end in whitespace has something left
/// once whitespace is removed.
proof fn lemma_squeeze_trailing(r: Seq<char>, a: int)
    requires
        0 <= a < r.len(),
        !is_ws(r.last()),
    ensures
        squeeze(r.subrange(a, r.len() as int)).len() > 0,
    decreases r.len() - a,
{
    lemma_squeeze_step(r, a, r.len() as int);
    if is_ws(r[a]) {
        if a + 1 < r.len() {
            lemma_squeeze_trailing(r, a + 1);
        } else {
            assert(r.last() == r[a]);
        }
    }
}

/// The first occurrence of the anchor's first word in the source, when the
/// text from there to `e` is the anchor with whitespace ignored, is reported
/// as the first match: it starts there and ends no later than `e`. The
/// anchor is trimmed (it begins and ends with a non-whitespace character).
/// Line breaks and indentation inside the text therefore never prevent the
/// match.
pub proof fn law_whitespace_variants_are_found(s: Seq<char>, p: Seq<char>, i: int, e: int)
    requires
        p.len() > 0,
        !is_ws(p[0]),
        !is_ws(p.last()),
        0 <= i <= e <= s.len(),
        i + ws_index(p, 0) <= e,
        s.subrange(i, i + ws_index(p, 0)) == p.take(ws_index(p, 0)),
        squeeze(s.subrange(i, e)) == squeeze(p),
        forall|j: int| 0 <= j < i && j + ws_index(p, 0) <= s.len() ==> !#[trigger] anchor_word_at(s, p, j),
    ensures
        found(s, p).len() > 0,
        found(s, p)[0].0 == i,
        found(s, p)[0].1 <= e,
{
    let k = ws_index(p, 0);
    lemma_ws_index(p, 0);
    assert(k > 0) by {
        if k == 0 {
            assert(is_ws(p[0]));
        }
    }
    lemma_squeeze_no_ws(p.take(k));
    assert(s.subrange(i, e) =~= s.subrange(i, i + k) + s.subrange(i + k, e));
    lemma_squeeze_add(s.subrange(i, i + k), s.subrange(i + k, e));
    assert(p =~= p.take(k) + p.subrange(k, p.len() as int));
    lemma_squeeze_add(p.take(k), p.subrange(k, p.len() as int));
    let w = p.take(k);
    assert(squeeze(s.subrange(i + k, e)) =~= squeeze(s.subrange(i, e)).skip(w.len() as int));
    assert(squeeze(p.subrange(k, p.len() as int)) =~= squeeze(p).skip(w.len() as int));
    lemma_match_rest_complete(p, s, k, i + k, e);
    lemma_found_from_reaches(s, p, 0, i);
}

/// With no occurrence of the anchor word in `[j, i)`, the search from `j`
/// reports what the search from `i` reports.
proof fn lemma_found_from_reaches(s: Seq<char>, p: Seq<char>, j: int, i: int)
    requires
        0 <= j <= i,
        ws_index(p, 0) > 0,
        i + ws_index(p, 0) <= s.len(),
        forall|q: int| j <= q < i && q + ws_index(p, 0) <= s.len() ==> !#[trigger] anchor_word_at(s, p, q),
    ensures
        found_from(s, p, j) == found_from(s, p, i),
    decreases i - j,
{
    if j < i {
        assert(!anchor_word_at(s, p, j));
        lemma_found_from_reaches(s, p, j + 1, i);
    }
}

/// Matches are reported in source order: their starts strictly increase.
pub proof fn law_matches_in_source_order(s: Seq<char>, p: Seq<char>, j1: int, j2: int)
    requires
        0 <= j1 < j2 < found(s, p).len(),
    ensures
        found(s, p)[j1].0 < found(s, p)[j2].0,
{
    lemma_found_from_order(s, p, 0, j1, j2);
}

proof fn lemma_found_from_order(s: Seq<char>, p: Seq<char>, i: int, j1: int, j2: int)
    requires
        0 <= j1 < j2 < found_from(s, p, i).len(),
    ensures
        found_from(s, p, i)[j1].0 < found_from(s, p, i)[j2].0,
    decreases s.len() + 1 - i,
{
    let k = ws_index(p, 0);
    lemma_ws_index(p, 0);
    if i < 0 || i > s.len() {
    } else if k <= 0 {
        let rest = found_from(s, p, i + 1);
        match match_rest(p, s, 0, i) {
            Some(e) => {
                if j1 == 0 {
                    lemma_found_from_sound(s, p, i + 1, j2 - 1);
                } else {
                    lemma_found_from_order(s, p, i + 1, j1 - 1, j2 - 1);
                }
            },
            None => {
                lemma_found_from_order(s, p, i + 1, j1, j2);
            },
        }
    } else if i + k > s.len() {
    } else if s.subrange(i, i + k) == p.take(k) {
        match match_rest(p, s, k, i + k) {
            Some(e) => {
                if j1 == 0 {
                    lemma_found_from_sound(s, p, i + k, j2 - 1);
                } else {
                    lemma_found_from_order(s, p, i + k, j1 - 1, j2 - 1);
                }
            },
            None => {
                lemma_found_from_order(s, p, i + k, j1, j2);
            },
        }
    } else {
        lemma_found_from_order(s, p, i + 1, j1, j2);
    }
}

/// Index pairs as mathematical integers.
pub open spec fn int_pairs(v: Seq<(usize, usize)>) -> Seq<(int, int)> {
    v.map_values(|q: (usize, usize)| (q.0 as int, q.1 as int))
}

/// Extend a match of `r[a..]` against `s[b..]`, computing `match_rest`.
fn extend_match(r: &[char], s: &[char], a0: usize, b0: usize) -> (res: Option<usize>)
    requires
        a0 <= r.len(),
        b0 <= s.len(),
    ensures
        res == (match match_rest(r@, s@, a0 as int, b0 as int) {
            Some(e) => Some(e as usize),
            None => None::<usize>,
        }),
{
    let mut a = a0;
    let mut b = b0;
    loop
        invariant
            a <= r.len(),
            b <= s.len(),
            match_rest(r@, s@, a as int, b as int) == match_rest(r@, s@, a0 as int, b0 as int),
        decreases r.len() - a + s.len() - b,
    {
        if a == r.len() {
            return Some(b);
        } else if b == s.len() {
            return None;
        } else if r[a] == s[b] {
            a += 1;
            b += 1;
        } else if is_whitespace(r[a]) {
            a += 1;
        } else if is_whitespace(s[b]) {
            b += 1;
        } else {
            return None;
        }
    }
}

/// Whether `s[i..i + p_len]` equals `p[..p_len]`.
fn occurs_at(s: &[char], p: &[char], i: usize, p_len: usize) -> (b: bool)
    requires
        p_len <= p.len(),
        i + p_len <= s.len(),
    ensures
        b == (s@.subrange(i as int, i + p_len) == p@.take(p_len as int)),
{
    let mut j: usize = 0;
    while j < p_len
        invariant
            j <= p_len <= p.len(),
            i + p_len <= s.len(),
            s@.subrange(i as int, i + j) =~= p@.take(j as int),
        decreases p_len - j,
    {
        if s[i + j] != p[j] {
            assert(s@.subrange(i as int, i + p_len)[j as int] != p@.take(p_len as int)[j as int]);
            return false;
        }
        j += 1;
        assert(s@.subrange(i as int, i + j) =~= p@.take(j as int));
    }
    true
}

/// Index of the first whitespace character of `p`, or its length.
fn first_ws_index(p: &[char]) -> (k: usize)
    ensures
        k == ws_index(p@, 0),
{
    let mut i: usize = 0;
    while i < p.len()
        invariant
            i <= p.len(),
            ws_index(p@, i as int) == ws_index(p@, 0),
        decreases p.len() - i,
    {
        if is_whitespace(p[i]) {
            return i;
        }
        i += 1;
    }
    i
}

/// The matches of `p` in `s` as character ranges, computing `found`.
pub fn find_char_positions(s: &[char], p: &[char]) -> (res: Vec<(usize, usize)>)
    ensures
        res@.len() == found(s@, p@).len(),
        forall|j: int|
            0 <= j < res@.len() ==> (res@[j].0 as int, res@[j].1 as int) == found(s@, p@)[j],
{
    let k = first_ws_index(p);
    proof {
        lemma_ws_index(p@, 0);
    }
    let mut res: Vec<(usize, usize)> = Vec::new();
    let mut i: usize = 0;
    loop
        invariant_except_break
            found(s@, p@) =~= int_pairs(res@) + found_from(s@, p@, i as int),
        invariant
            i <= s.len(),
            k == ws_index(p@, 0),
            k <= p.len(),
        ensures
            found(s@, p@) =~= int_pairs(res@),
        decreases s.len() - i,
    {
        let ghost before = res@;
        if k == 0 {
            let ghost rest = found_from(s@, p@, i + 1);
            proof {
                lemma_match_rest_bounds(p@, s@, 0, i as int);
            }
            match extend_match(p, s, 0, i) {
                Some(e) => {
                    assert(found_from(s@, p@, i as int) == seq![(i as int, e as int)] + rest);
                    res.push((i, e));
                    assert(int_pairs(res@) =~= int_pairs(before).push((i as int, e as int)));
                },
                None => {
                    assert(found_from(s@, p@, i as int) == rest);
                },
            }
            if i == s.len() {
                assert(rest =~= Seq::<(int, int)>::empty());
                assert(found(s@, p@) =~= int_pairs(res@));
                break;
            }
            i += 1;
        } else if k > s.len() - i {
            assert(found_from(s@, p@, i as int) =~= Seq::<(int, int)>::empty());
            assert(found(s@, p@) =~= int_pairs(res@));
            break;
        } else if occurs_at(s, p, i, k) {
            let ghost rest = found_from(s@, p@, i + k);
            proof {
                lemma_match_rest_bounds(p@, s@, k as int, i + k);
            }
            match extend_match(p, s, k, i + k) {
                Some(e) => {
                    assert(found_from(s@, p@, i as int) == seq![(i as int, e as int)] + rest);
                    res.push((i, e));
                    assert(int_pairs(res@) =~= int_pairs(before).push((i as int, e as int)));
                },
                None => {
                    assert(found_from(s@, p@, i as int) == rest);
                },
            }
            i += k;
        } else {
            assert(found_from(s@, p@, i as int) == found_from(s@, p@, i + 1));
            i += 1;
        }
    }
    assert(found(s@, p@) =~= int_pairs(res@));
    assert forall|j: int| 0 <= j < res@.len() implies (res@[j].0 as int, res@[j].1 as int)
        == found(s@, p@)[j] by {
        assert(int_pairs(res@)[j] == (res@[j].0 as int, res@[j].1 as int));
    }
    res
}

/// Locate `snippet` in `source_text`, whitespace-insensitively.
///
/// Returns the byte ranges of all matches in source order, or, when there is
/// none, the message `Anchor "<snippet>" not found in source`.
pub fn find_positions(source_text: &str, snippet: &str) -> (r: Result<Vec<(usize, usize)>, String>)
    ensures
        match r {
            Ok(v) => {
                &&& found(source_text@, snippet@).len() > 0
                &&& v@.len() == found(source_text@, snippet@).len()
                &&& forall|j: int|
                    0 <= j < v@.len() ==> v@[j] == (
                        byte_at(source_text@, found(source_text@, snippet@)[j].0) as usize,
                        byte_at(source_text@, found(source_text@, snippet@)[j].1) as usize,
                    )
            },
            Err(m) => found(source_text@, snippet@).len() == 0 && m@ == not_found_message(
                snippet@,
            ),
        },
{
    let s = chars_of(source_text);
    let p = chars_of(snippet);
    let hits = find_char_positions(&s, &p);
    if hits.len() == 0 {
        let mut m = String::new();
        push_str(&mut m, "Anchor \"");
        push_str(&mut m, snippet);
        push_str(&mut m, "\" not found in source");
        return Err(m);
    }
    let n = str_byte_len(source_text);
    let offsets = byte_offsets(&s);
    let mut v: Vec<(usize, usize)> = Vec::new();
    let mut j: usize = 0;
    while j < hits.len()
        invariant
            j <= hits@.len(),
            s@ == source_text@,
            hits@.len() == found(s@, p@).len(),
            p@ == snippet@,
            forall|q: int|
                0 <= q < hits@.len() ==> (hits@[q].0 as int, hits@[q].1 as int) == found(
                    s@,
                    p@,
                )[q],
            offsets@.len() == s@.len() + 1,
            forall|q: int| 0 <= q <= s@.len() ==> offsets@[q] == byte_at(s@, q),
            v@.len() == j,
            forall|q: int|
                0 <= q < j ==> v@[q] == (
                    byte_at(source_text@, found(source_text@, snippet@)[q].0) as usize,
                    byte_at(source_text@, found(source_text@, snippet@)[q].1) as usize,
                ),
        decreases hits@.len() - j,
    {
        proof {
            law_matches_equal_snippet_modulo_whitespace(s@, p@, j as int);
        }
        let (a, b) = hits[j];
        v.push((offsets[a], offsets[b]));
        j += 1;
    }
    Ok(v)
}

} // verus!
