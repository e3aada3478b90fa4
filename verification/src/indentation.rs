//! Detecting a file's indentation style and re-indenting inserted content to it.
use vstd::prelude::*;
use crate::text::{
    all_ws, count_ws_prefix, lemma_ws_prefix, trim_start, ws_prefix, slice_chars, append_chars,
    chars_of, count_leading, find_char, find_from, is_blank, is_ws, leading_run, lemma_find_from,
    line_spans, line_spans_of, string_from_chars,
};
use crate::searcher::{lemma_squeeze_add, squeeze};

verus! {

/// One level of indentation: a number of spaces, or a tab.
#[derive(Debug, Clone, Copy, PartialEq, Eq, Structural)]
pub enum Indentation {
    Spaces(u8),
    Tabs,
}

/// How many lines of a file are sampled when detecting its style.
pub const SAMPLE_LINES: usize = 100;

/// The lines of `s`, as `str::lines` yields them.
pub open spec fn lines_in(s: Seq<char>) -> Seq<Seq<char>> {
    line_spans(s, 0).map_values(|p: (int, int)| s.subrange(p.0, p.1))
}

/// Position of an indentation in the order `Spaces(1) < … < Spaces(255) < Tabs`.
pub open spec fn rank(i: Indentation) -> nat {
    match i {
        Indentation::Spaces(n) => n as nat,
        Indentation::Tabs => 256,
    }
}

/// The indentation a count slot stands for.
pub open spec fn key_of_rank(r: nat) -> Indentation {
    if r >= 256 {
        Indentation::Tabs
    } else {
        Indentation::Spaces(r as u8)
    }
}

/// Distance between two natural numbers.
pub open spec fn abs_diff(a: nat, b: nat) -> nat {
    if a >= b {
        (a - b) as nat
    } else {
        (b - a) as nat
    }
}

/// How many of the lines `ls` vote for `key`, the previous indented line
/// being `last` spaces deep: a line starting with a tab votes for `Tabs`; any
/// other line that is not all spaces votes for `Spaces(d)`, `d` the (non-zero,
/// at most 255) change in its number of leading spaces.
pub open spec fn tally(ls: Seq<Seq<char>>, last: nat, key: Indentation) -> nat
    decreases ls.len(),
{
    if ls.len() == 0 {
        0
    } else {
        let l = ls[0];
        let rest = ls.drop_first();
        if l.len() > 0 && l[0] == '\t' {
            (if key == Indentation::Tabs {
                1nat
            } else {
                0nat
            }) + tally(rest, last, key)
        } else {
            let cur = leading_run(l, ' ');
            if l.len() != cur {
                let d = abs_diff(cur, last);
                (if 0 < d <= 255 && key == Indentation::Spaces(d as u8) {
                    1nat
                } else {
                    0nat
                }) + tally(rest, cur, key)
            } else {
                tally(rest, last, key)
            }
        }
    }
}

/// The first lines of `s`, at most `SAMPLE_LINES` of them.
pub open spec fn sample_lines(s: Seq<char>) -> Seq<Seq<char>> {
    let ls = lines_in(s);
    if ls.len() <= SAMPLE_LINES {
        ls
    } else {
        ls.take(SAMPLE_LINES as int)
    }
}

/// Votes for `key` among the first lines of `s`.
pub open spec fn votes(s: Seq<char>, key: Indentation) -> nat {
    tally(sample_lines(s), 0, key)
}

/// `k` is the detected style of `s`: it has the most votes, and among styles
/// with as many votes it is the last in `rank` order.
pub open spec fn is_detected(s: Seq<char>, k: Indentation) -> bool {
    &&& votes(s, k) > 0
    &&& forall|o: Indentation|
        #![trigger votes(s, o)]
        votes(s, o) < votes(s, k) || (votes(s, o) == votes(s, k) && rank(o) <= rank(k))
}

/// Whether `s` has any vote at all.
pub open spec fn has_votes(s: Seq<char>) -> bool {
    exists|o: Indentation| #[trigger] votes(s, o) > 0
}

/// Leading indentation units of a line: spaces divided by the width, rounded
/// up, or leading tabs.
pub open spec fn units(style: Indentation, line: Seq<char>) -> nat {
    match style {
        Indentation::Spaces(n) => if n == 0 {
            0
        } else {
            ((leading_run(line, ' ') + n - 1) / (n as int)) as nat
        },
        Indentation::Tabs => leading_run(line, '\t'),
    }
}

/// The fewest units among the non-blank lines `ls`, if there is one.
pub open spec fn min_units(style: Indentation, ls: Seq<Seq<char>>) -> Option<nat>
    decreases ls.len(),
{
    if ls.len() == 0 {
        None
    } else {
        let before = min_units(style, ls.drop_last());
        if all_ws(ls.last()) {
            before
        } else {
            let u = units(style, ls.last());
            match before {
                Some(m) => Some(if u <= m {
                    u
                } else {
                    m
                }),
                None => Some(u),
            }
        }
    }
}

/// Count votes for each style over the first lines of `s`; slot `r` holds
/// the votes for `key_of_rank(r)`.
fn counts(s: &[char]) -> (c: Vec<usize>)
    ensures
        c@.len() == 257,
        c@[0] == 0,
        forall|r: int| 1 <= r <= 256 ==> c@[r] == votes(s@, key_of_rank(r as nat)),
{
    let spans = line_spans_of(s);
    let ghost ls = sample_lines(s@);
    let mut c: Vec<usize> = Vec::new();
    let mut z: usize = 0;
    while z < 257
        invariant
            z <= 257,
            c@.len() == z,
            forall|r: int| 0 <= r < z ==> c@[r] == 0,
        decreases 257 - z,
    {
        c.push(0);
        z += 1;
    }
    let n = if spans.len() < SAMPLE_LINES {
        spans.len()
    } else {
        SAMPLE_LINES
    };
    proof {
        assert(lines_in(s@).len() == line_spans(s@, 0).len());
        assert(ls.skip(0) =~= ls);
        assert forall|k: int| 0 <= k < ls.len() implies ls[k] == s@.subrange(
            spans@[k].0 as int,
            spans@[k].1 as int,
        ) by {
            assert(ls[k] == lines_in(s@)[k]);
        }
    }
    let mut last: usize = 0;
    let mut j: usize = 0;
    while j < n
        invariant
            j <= n <= spans@.len(),
            n <= SAMPLE_LINES,
            ls.len() == n,
            spans@.len() == line_spans(s@, 0).len(),
            forall|k: int|
                0 <= k < spans@.len() ==> (spans@[k].0 as int, spans@[k].1 as int) == line_spans(
                    s@,
                    0,
                )[k],
            forall|k: int| 0 <= k < ls.len() ==> ls[k] == s@.subrange(spans@[k].0 as int, spans@[k].1 as int),
            forall|k: int| 0 <= k < spans@.len() ==> (#[trigger] spans@[k]).0 <= spans@[k].1 <= s@.len(),
            c@.len() == 257,
            c@[0] == 0,
            forall|r: int| 1 <= r <= 256 ==> c@[r] <= j,
            forall|r: int|
                1 <= r <= 256 ==> c@[r] + tally(ls.skip(j as int), last as nat, key_of_rank(r as nat))
                    == tally(ls, 0, key_of_rank(r as nat)),
        decreases n - j,
    {
        let (a, b) = spans[j];
        let ghost l = ls[j as int];
        proof {
            assert(ls.skip(j as int).drop_first() =~= ls.skip(j + 1));
            assert(ls.skip(j as int)[0] == l);
        }
        if a < b && s[a] == '\t' {
            let t = c[256] + 1;
            c.set(256, t);
        } else {
            let cur = count_leading(s, a, b, ' ');
            if b - a != cur {
                let d = if cur >= last {
                    cur - last
                } else {
                    last - cur
                };
                if 0 < d && d <= 255 {
                    let t = c[d] + 1;
                    c.set(d, t);
                }
                last = cur;
            }
        }
        j += 1;
    }
    c
}

/// The slot of the detected style in the vote counts, or 0 when nothing voted.
fn best_rank(c: &Vec<usize>) -> (best: usize)
    requires
        c@.len() == 257,
        c@[0] == 0,
    ensures
        best <= 256,
        best == 0 ==> forall|r: int| 1 <= r <= 256 ==> c@[r] == 0,
        best > 0 ==> c@[best as int] > 0 && forall|r: int|
            1 <= r <= 256 ==> c@[r] < c@[best as int] || (c@[r] == c@[best as int] && r <= best),
{
    let mut best: usize = 0;
    let mut r: usize = 1;
    while r <= 256
        invariant
            1 <= r <= 257,
            best < r,
            c@.len() == 257,
            c@[0] == 0,
            best == 0 ==> forall|q: int| 1 <= q < r ==> c@[q] == 0,
            best > 0 ==> c@[best as int] > 0 && forall|q: int|
                1 <= q < r ==> c@[q] < c@[best as int] || (c@[q] == c@[best as int] && q <= best),
        decreases 257 - r,
    {
        if c[r] > 0 && c[r] >= c[best] {
            best = r;
        }
        r += 1;
    }
    best
}

/// Rounding a division up: `(l + w - 1) / w` is `l / w`, plus one when `w`
/// does not divide `l`.
proof fn lemma_div_ceil(l: int, w: int)
    requires
        0 <= l,
        1 <= w,
    ensures
        (l + w - 1) / w == l / w + (if l % w == 0 {
            0int
        } else {
            1int
        }),
        0 <= l / w <= l,
        w >= 2 ==> l / w < l || l == 0,
        (l + w - 1) / w <= l,
{
    let q = l / w;
    let r = l % w;
    vstd::arithmetic::div_mod::lemma_fundamental_div_mod(l, w);
    assert(l == w * q + r);
    assert(0 <= r < w) by {
        vstd::arithmetic::div_mod::lemma_mod_bound(l, w);
    }
    assert(q * w == w * q) by (nonlinear_arith);
    if r == 0 {
        vstd::arithmetic::div_mod::lemma_fundamental_div_mod_converse(l + w - 1, w, q, w - 1);
    } else {
        assert((q + 1) * w == q * w + w) by (nonlinear_arith);
        vstd::arithmetic::div_mod::lemma_fundamental_div_mod_converse(l + w - 1, w, q + 1, r - 1);
    }
    assert(0 <= q) by (nonlinear_arith)
        requires
            l == w * q + r,
            0 <= r < w,
            0 <= l,
            1 <= w,
    ;
    assert(q <= l) by (nonlinear_arith)
        requires
            l == w * q + r,
            0 <= r,
            0 <= q,
            1 <= w,
    ;
    assert(w >= 2 ==> q < l || l == 0) by (nonlinear_arith)
        requires
            l == w * q + r,
            0 <= r,
            0 <= q,
            1 <= w,
    ;
    assert(r > 0 ==> q < l) by (nonlinear_arith)
        requires
            l == w * q + r,
            0 <= r < w,
            0 <= q,
            1 <= w,
    ;
}

proof fn lemma_rank_key(o: Indentation)
    ensures
        rank(o) <= 256,
        o matches Indentation::Spaces(n) && n == 0 ==> forall|s: Seq<char>| votes(s, o) == 0,
        !(o matches Indentation::Spaces(n) && n == 0) ==> 1 <= rank(o) && key_of_rank(rank(o))
            == o,
{
    if let Indentation::Spaces(n) = o {
        if n == 0 {
            assert forall|s: Seq<char>| votes(s, o) == 0 by {
                lemma_tally_zero(sample_lines(s), 0);
            }
        }
    }
}

proof fn lemma_tally_zero(ls: Seq<Seq<char>>, last: nat)
    ensures
        tally(ls, last, Indentation::Spaces(0)) == 0,
    decreases ls.len(),
{
    if ls.len() > 0 {
        let l = ls[0];
        let cur = leading_run(l, ' ');
        lemma_tally_zero(ls.drop_first(), last);
        lemma_tally_zero(ls.drop_first(), cur);
    }
}

impl Indentation {
    /// The indentation style of `source`: the most frequent indentation step
    /// among its first lines (ties go to the last style in `rank` order), or
    /// `None` when no line is indented differently from the previous one.
    pub fn determine(source: &str) -> (r: Option<Indentation>)
        ensures
            r is None <==> !has_votes(source@),
            r matches Some(k) ==> is_detected(source@, k),
    {
        let s = chars_of(source);
        Self::determine_chars(&s)
    }

    /// `determine` over characters.
    pub fn determine_chars(s: &[char]) -> (r: Option<Indentation>)
        ensures
            r is None <==> !has_votes(s@),
            r matches Some(k) ==> is_detected(s@, k),
    {
        let c = counts(s);
        let best = best_rank(&c);
        if best == 0 {
            proof {
                assert forall|o: Indentation| votes(s@, o) == 0 by {
                    lemma_rank_key(o);
                    if !(o matches Indentation::Spaces(n) && n == 0) {
                        assert(c@[rank(o) as int] == votes(s@, key_of_rank(rank(o))));
                    }
                }
            }
            None
        } else {
            let k = if best == 256 {
                Indentation::Tabs
            } else {
                Indentation::Spaces(best as u8)
            };
            proof {
                assert(k == key_of_rank(best as nat));
                assert forall|o: Indentation|
                    votes(s@, o) < votes(s@, k) || (votes(s@, o) == votes(s@, k) && rank(o) <= rank(
                        k,
                    )) by {
                    lemma_rank_key(o);
                    if !(o matches Indentation::Spaces(n) && n == 0) {
                        assert(c@[rank(o) as int] == votes(s@, key_of_rank(rank(o))));
                    }
                }
            }
            Some(k)
        }
    }

    /// Leading indentation units of `line[from..to]` in this style.
    pub fn unit_count_chars(&self, line: &[char], from: usize, to: usize) -> (n: usize)
        requires
            from <= to <= line.len(),
        ensures
            n == units(*self, line@.subrange(from as int, to as int)),
            n <= to - from,
    {
        match self {
            Indentation::Spaces(n) => {
                if *n == 0 {
                    0
                } else {
                    let spaces = count_leading(line, from, to, ' ');
                    let w = *n as usize;
                    proof {
                        lemma_div_ceil(spaces as int, w as int);
                    }
                    spaces / w + if spaces % w == 0 {
                        0
                    } else {
                        1
                    }
                }
            },
            Indentation::Tabs => count_leading(line, from, to, '\t'),
        }
    }

    /// Leading indentation units of `line` in this style.
    pub fn unit_count(&self, line: &str) -> (n: usize)
        ensures
            n == units(*self, line@),
    {
        let v = chars_of(line);
        let n = self.unit_count_chars(&v, 0, v.len());
        assert(v@.subrange(0, v@.len() as int) =~= v@);
        n
    }
}

/// The style `reindent` reads from content: the detected style, or four
/// spaces when no line votes.
pub open spec fn content_style(s: Seq<char>) -> Indentation {
    if has_votes(s) {
        choose|k: Indentation| is_detected(s, k)
    } else {
        Indentation::Spaces(4)
    }
}

/// Exactly one style received votes.
pub open spec fn single_style(s: Seq<char>) -> bool {
    exists|k: Indentation|
        #![trigger votes(s, k)]
        votes(s, k) > 0 && forall|o: Indentation| #[trigger] votes(s, o) > 0 ==> o == k
}

/// One unit of the style: `n` spaces, or a tab.
pub open spec fn unit_text(style: Indentation) -> Seq<char> {
    match style {
        Indentation::Spaces(n) => Seq::new(n as nat, |_i: int| ' '),
        Indentation::Tabs => seq!['\t'],
    }
}

/// `n` units of the style.
pub open spec fn indent_text(style: Indentation, n: nat) -> Seq<char>
    decreases n,
{
    if n == 0 {
        seq![]
    } else {
        indent_text(style, (n - 1) as nat) + unit_text(style)
    }
}

/// `a - b`, or 0 when `b` is larger.
pub open spec fn sat_sub(a: nat, b: nat) -> nat {
    if a >= b {
        (a - b) as nat
    } else {
        0
    }
}

/// One re-indented line: `target` units plus the line's depth above `min`,
/// all in style `me`, then the line's text and a line break.
pub open spec fn line_out(me: Indentation, target: nat, style: Indentation, min: nat, l: Seq<char>) -> Seq<char> {
    indent_text(me, target + sat_sub(units(style, l), min)) + trim_start(l) + seq!['\n']
}

/// The re-indented lines `ls`, one after another.
pub open spec fn lines_out(me: Indentation, target: nat, style: Indentation, min: nat, ls: Seq<Seq<char>>) -> Seq<char>
    decreases ls.len(),
{
    if ls.len() == 0 {
        seq![]
    } else {
        lines_out(me, target, style, min, ls.drop_last()) + line_out(me, target, style, min, ls.last())
    }
}

/// What `reindent` makes of `c`. The part measured is all of `c` when the
/// first line is indented too, else everything from the first line break on
/// (content without a line break is then left alone). Its lines are
/// rewritten with `target` units plus their depth above the shallowest
/// non-blank line, measured in the content's own style; unless the first
/// line is indented too, the first line and its line break are kept exactly
/// as they are. A final line break is kept only if `c` had one. Content
/// already at `target` in style `me`, with a single style throughout, is left
/// as it is.
pub open spec fn reindented(me: Indentation, target: nat, c: Seq<char>, first: bool) -> Seq<char> {
    let cut = if first {
        Some(0int)
    } else {
        find_from(c, '\n', 0)
    };
    let kept: int = if first {
        0
    } else {
        1
    };
    if c.len() == 0 {
        c
    } else {
        match cut {
            None => c,
            Some(i) => {
                let head = c.take(i + kept);
                let rest = c.skip(i);
                let style = content_style(rest);
                let ls = lines_in(rest);
                let m = match min_units(style, ls) {
                    Some(m) => m,
                    None => 0,
                };
                if me == style && m == target && single_style(rest) {
                    c
                } else {
                    let body = head + lines_out(me, target, style, m, ls.skip(kept));
                    if c.last() == '\n' {
                        body
                    } else {
                        body.drop_last()
                    }
                }
            },
        }
    }
}

/// Two detected styles of the same text are the same style.
proof fn lemma_detected_unique(s: Seq<char>, a: Indentation, b: Indentation)
    requires
        is_detected(s, a),
        is_detected(s, b),
    ensures
        a == b,
{
    lemma_rank_key(a);
    lemma_rank_key(b);
    assert(votes(s, a) >= votes(s, b) && votes(s, b) >= votes(s, a));
}

/// The detected style of `s` (or four spaces), whether it was the only style
/// voted for, all from the vote counts.
fn style_and_uniformity(s: &[char]) -> (r: (Indentation, bool))
    ensures
        r.0 == content_style(s@),
        r.1 == single_style(s@),
{
    let c = counts(s);
    let best = best_rank(&c);
    if best == 0 {
        proof {
            assert forall|o: Indentation| votes(s@, o) == 0 by {
                lemma_rank_key(o);
                if !(o matches Indentation::Spaces(n) && n == 0) {
                    assert(c@[rank(o) as int] == votes(s@, key_of_rank(rank(o))));
                }
            }
        }
        (Indentation::Spaces(4), false)
    } else {
        let k = if best == 256 {
            Indentation::Tabs
        } else {
            Indentation::Spaces(best as u8)
        };
        proof {
            assert(k == key_of_rank(best as nat));
            assert forall|o: Indentation|
                votes(s@, o) < votes(s@, k) || (votes(s@, o) == votes(s@, k) && rank(o) <= rank(
                    k,
                )) by {
                lemma_rank_key(o);
                if !(o matches Indentation::Spaces(n) && n == 0) {
                    assert(c@[rank(o) as int] == votes(s@, key_of_rank(rank(o))));
                }
            }
            assert(is_detected(s@, k));
            let kk = choose|x: Indentation| is_detected(s@, x);
            lemma_detected_unique(s@, k, kk);
        }
        let mut single = true;
        let mut r: usize = 1;
        while r <= 256
            invariant
                1 <= r <= 257,
                1 <= best <= 256,
                c@.len() == 257,
                single <==> forall|q: int| 1 <= q < r && q != best ==> c@[q] == 0,
            decreases 257 - r,
        {
            if r != best && c[r] > 0 {
                single = false;
            }
            r += 1;
        }
        proof {
            if single {
                assert forall|o: Indentation| #[trigger] votes(s@, o) > 0 implies o == k by {
                    lemma_rank_key(o);
                    assert(c@[rank(o) as int] == votes(s@, key_of_rank(rank(o))));
                }
            } else {
                let q = choose|q: int| 1 <= q < 257 && q != best && c@[q] != 0;
                lemma_rank_key(key_of_rank(q as nat));
                assert(rank(key_of_rank(q as nat)) == q);
                if single_style(s@) {
                    let w = choose|w: Indentation|
                        votes(s@, w) > 0 && forall|o: Indentation| #[trigger] votes(s@, o) > 0 ==> o == w;
                    assert(votes(s@, key_of_rank(q as nat)) > 0);
                    assert(votes(s@, k) > 0);
                    assert(key_of_rank(q as nat) != k);
                }
            }
        }
        (k, single)
    }
}

/// The lines of `s` are the text between consecutive line spans.
proof fn lemma_lines_in_spans(s: Seq<char>, spans: Seq<(usize, usize)>)
    requires
        spans.len() == line_spans(s, 0).len(),
        forall|k: int|
            0 <= k < spans.len() ==> (spans[k].0 as int, spans[k].1 as int) == line_spans(s, 0)[k],
    ensures
        lines_in(s).len() == spans.len(),
        forall|k: int|
            0 <= k < spans.len() ==> #[trigger] lines_in(s)[k] == s.subrange(
                spans[k].0 as int,
                spans[k].1 as int,
            ),
{
}

impl Indentation {
    /// `count` units of this style as text: that many tabs, or that many
    /// times the style's spaces (one unit is how the style displays).
    pub fn text(&self, count: usize) -> (s: String)
        ensures
            s@ == indent_text(*self, count as nat),
    {
        let mut v: Vec<char> = Vec::new();
        self.push_indent(&mut v, count);
        proof {
            assert(v@ =~= Seq::<char>::empty() + indent_text(*self, count as nat));
        }
        string_from_chars(v.as_slice())
    }

    /// Append `n` units of this style to `out`.
    fn push_indent(&self, out: &mut Vec<char>, n: usize)
        ensures
            final(out)@ == old(out)@ + indent_text(*self, n as nat),
    {
        let ghost start = out@;
        let mut u: usize = 0;
        while u < n
            invariant
                u <= n,
                out@ == start + indent_text(*self, u as nat),
            decreases n - u,
        {
            let ghost before = out@;
            match self {
                Indentation::Spaces(k) => {
                    let mut t: u8 = 0;
                    while t < *k
                        invariant
                            t <= *k,
                            out@ == before + Seq::new(t as nat, |_i: int| ' '),
                        decreases *k - t,
                    {
                        out.push(' ');
                        t += 1;
                        assert(out@ =~= before + Seq::new(t as nat, |_i: int| ' '));
                    }
                },
                Indentation::Tabs => {
                    out.push('\t');
                },
            }
            u += 1;
            assert(out@ =~= start + indent_text(*self, u as nat));
        }
    }

    /// The fewest units among the non-blank lines of `s` (spans as
    /// `line_spans_of` gives them), if any.
    fn min_units_of(&self, s: &[char], spans: &Vec<(usize, usize)>) -> (r: Option<usize>)
        requires
            spans@.len() == line_spans(s@, 0).len(),
            forall|k: int|
                0 <= k < spans@.len() ==> (spans@[k].0 as int, spans@[k].1 as int) == line_spans(
                    s@,
                    0,
                )[k],
            forall|k: int| 0 <= k < spans@.len() ==> (#[trigger] spans@[k]).0 <= spans@[k].1 <= s@.len(),
        ensures
            r is None <==> min_units(*self, lines_in(s@)) is None,
            r matches Some(m) ==> min_units(*self, lines_in(s@)) == Some(m as nat) && m <= s@.len(),
    {
        let ghost ls = lines_in(s@);
        proof {
            lemma_lines_in_spans(s@, spans@);
        }
        let mut r: Option<usize> = None;
        let mut j: usize = 0;
        while j < spans.len()
            invariant
                j <= spans@.len() == ls.len(),
                ls == lines_in(s@),
                forall|k: int| 0 <= k < spans@.len() ==> #[trigger] ls[k] == s@.subrange(
                    spans@[k].0 as int,
                    spans@[k].1 as int,
                ),
                forall|k: int| 0 <= k < spans@.len() ==> (#[trigger] spans@[k]).0 <= spans@[k].1 <= s@.len(),
                r is None <==> min_units(*self, ls.take(j as int)) is None,
                r matches Some(m) ==> min_units(*self, ls.take(j as int)) == Some(m as nat) && m <= s@.len(),
            decreases spans@.len() - j,
        {
            let (a, b) = spans[j];
            proof {
                assert(ls.take(j + 1).drop_last() =~= ls.take(j as int));
                assert(ls.take(j + 1).last() == ls[j as int]);
                assert(ls[j as int] == s@.subrange(a as int, b as int));
            }
            if !is_blank(s, a, b) {
                let u = self.unit_count_chars(s, a, b);
                r = match r {
                    Some(m) => Some(if u <= m {
                        u
                    } else {
                        m
                    }),
                    None => Some(u),
                };
            }
            j += 1;
        }
        assert(ls.take(j as int) =~= ls);
        r
    }

    /// The fewest indentation units among the non-blank lines of `source`,
    /// or 0 when every line is blank.
    pub fn minimum(&self, source: &str) -> (n: usize)
        ensures
            n == (match min_units(*self, lines_in(source@)) {
                Some(m) => m,
                None => 0,
            }),
    {
        let s = chars_of(source);
        let spans = line_spans_of(&s);
        match self.min_units_of(&s, &spans) {
            Some(m) => m,
            None => 0,
        }
    }
}

impl Indentation {
    /// Re-indent `content` to `target_indentation_count` units of this style,
    /// keeping each line's depth relative to the shallowest non-blank line.
    /// Unless `indent_first_line`, the first line is left as it is, and
    /// single-line content is not touched.
    pub fn reindent(&self, target_indentation_count: usize, content: &mut String, indent_first_line: bool)
        requires
            target_indentation_count + old(content)@.len() <= usize::MAX,
        ensures
            final(content)@ == reindented(
                *self,
                target_indentation_count as nat,
                old(content)@,
                indent_first_line,
            ),
    {
        let ghost c0 = content@;
        let c = chars_of(content.as_str());
        if c.len() == 0 {
            return;
        }
        proof {
            lemma_find_from(c@, '\n', 0);
        }
        let cut = if indent_first_line {
            Some(0)
        } else {
            find_char(&c, '\n', 0)
        };
        let i = match cut {
            None => {
                return;
            },
            Some(i) => i,
        };
        let rest = slice_chars(&c, i, c.len());
        assert(rest@ =~= c@.skip(i as int));
        let (style, single) = style_and_uniformity(&rest);
        let spans = line_spans_of(&rest);
        let m = match style.min_units_of(&rest, &spans) {
            Some(m) => m,
            None => 0,
        };
        if *self == style && m == target_indentation_count && single {
            return;
        }
        let ghost ls = lines_in(rest@);
        proof {
            lemma_lines_in_spans(rest@, spans@);
            assert(rest@.len() > 0);
            lemma_find_from(rest@, '\n', 0);
            assert(line_spans(rest@, 0).len() > 0);
            if !indent_first_line {
                assert(c@[i as int] == '\n');
            }
        }
        let kept: usize = if indent_first_line {
            0
        } else {
            1
        };
        let mut out = slice_chars(&c, 0, i + kept);
        let mut j: usize = kept;
        proof {
            assert(ls.subrange(kept as int, j as int) =~= Seq::<Seq<char>>::empty());
        }
        while j < spans.len()
            invariant
                kept <= j <= spans@.len() == ls.len(),
                kept <= 1,
                i + kept <= c@.len(),
                ls == lines_in(rest@),
                rest@ == c@.skip(i as int),
                i <= c@.len(),
                m <= rest@.len(),
                target_indentation_count + c@.len() <= usize::MAX,
                forall|k: int| 0 <= k < spans@.len() ==> #[trigger] ls[k] == rest@.subrange(
                    spans@[k].0 as int,
                    spans@[k].1 as int,
                ),
                forall|k: int| 0 <= k < spans@.len() ==> (#[trigger] spans@[k]).0 <= spans@[k].1
                    <= rest@.len(),
                out@ == c@.take(i + kept) + lines_out(
                    *self,
                    target_indentation_count as nat,
                    style,
                    m as nat,
                    ls.subrange(kept as int, j as int),
                ),
            decreases spans@.len() - j,
        {
            let (a, b) = spans[j];
            let ghost l = ls[j as int];
            let ghost before = out@;
            let u = style.unit_count_chars(&rest, a, b);
            let rel = if u >= m {
                u - m
            } else {
                0
            };
            self.push_indent(&mut out, target_indentation_count + rel);
            let k = count_ws_prefix(&rest, a, b);
            append_chars(&mut out, &rest, a + k, b);
            out.push('\n');
            proof {
                assert(l == rest@.subrange(a as int, b as int));
                assert(trim_start(l) =~= rest@.subrange(a + k, b as int));
                assert(ls.subrange(kept as int, j + 1).drop_last() =~= ls.subrange(kept as int, j as int));
                assert(ls.subrange(kept as int, j + 1).last() == l);
                assert(out@ =~= before + line_out(
                    *self,
                    target_indentation_count as nat,
                    style,
                    m as nat,
                    l,
                ));
            }
            j += 1;
        }
        proof {
            assert(ls.subrange(kept as int, j as int) =~= ls.skip(kept as int));
            assert(ls.len() > 0);
        }
        if c[c.len() - 1] != '\n' {
            out.pop();
        }
        *content = string_from_chars(&out);
    }
}

/// The characters of the lines `ls` that are not whitespace, in order.
pub open spec fn squeeze_lines(ls: Seq<Seq<char>>) -> Seq<char>
    decreases ls.len(),
{
    if ls.len() == 0 {
        seq![]
    } else {
        squeeze_lines(ls.drop_last()) + squeeze(ls.last())
    }
}

proof fn lemma_squeeze_all_ws(x: Seq<char>)
    requires
        all_ws(x),
    ensures
        squeeze(x) == Seq::<char>::empty(),
    decreases x.len(),
{
    if x.len() > 0 {
        assert(is_ws(x[0]));
        lemma_squeeze_all_ws(x.drop_first());
    }
}

proof fn lemma_squeeze_indent(style: Indentation, n: nat)
    ensures
        squeeze(indent_text(style, n)) == Seq::<char>::empty(),
    decreases n,
{
    if n > 0 {
        lemma_squeeze_indent(style, (n - 1) as nat);
        lemma_squeeze_add(indent_text(style, (n - 1) as nat), unit_text(style));
        assert(is_ws(' ') && is_ws('\t'));
        lemma_squeeze_all_ws(unit_text(style));
        assert(squeeze(indent_text(style, (n - 1) as nat)) + squeeze(unit_text(style))
            =~= Seq::<char>::empty());
    }
}

proof fn lemma_squeeze_trim_start(l: Seq<char>)
    ensures
        squeeze(trim_start(l)) == squeeze(l),
{
    lemma_ws_prefix(l);
    let k = ws_prefix(l) as int;
    assert(l =~= l.take(k) + l.skip(k));
    lemma_squeeze_add(l.take(k), l.skip(k));
    lemma_squeeze_all_ws(l.take(k));
    assert(Seq::<char>::empty() + squeeze(l.skip(k)) =~= squeeze(l.skip(k)));
}

proof fn lemma_squeeze_lines_out(
    me: Indentation,
    target: nat,
    style: Indentation,
    min: nat,
    ls: Seq<Seq<char>>,
)
    ensures
        squeeze(lines_out(me, target, style, min, ls)) == squeeze_lines(ls),
    decreases ls.len(),
{
    if ls.len() > 0 {
        let l = ls.last();
        let n = target + sat_sub(units(style, l), min);
        lemma_squeeze_lines_out(me, target, style, min, ls.drop_last());
        lemma_squeeze_add(lines_out(me, target, style, min, ls.drop_last()), line_out(me, target, style, min, l));
        lemma_squeeze_add(indent_text(me, n) + trim_start(l), seq!['\n']);
        lemma_squeeze_add(indent_text(me, n), trim_start(l));
        lemma_squeeze_indent(me, n);
        lemma_squeeze_trim_start(l);
        assert(is_ws('\n'));
        lemma_squeeze_all_ws(seq!['\n']);
        assert(squeeze(line_out(me, target, style, min, l)) =~= squeeze(l));
    }
}

proof fn lemma_squeeze_lines_prepend(x: Seq<char>, ys: Seq<Seq<char>>)
    ensures
        squeeze_lines(seq![x] + ys) == squeeze(x) + squeeze_lines(ys),
    decreases ys.len(),
{
    if ys.len() == 0 {
        assert(seq![x] + ys =~= seq![x]);
        assert(seq![x].drop_last() =~= Seq::<Seq<char>>::empty());
        assert(squeeze_lines(seq![x]) == squeeze_lines(seq![x].drop_last()) + squeeze(x));
        assert(squeeze_lines(Seq::<Seq<char>>::empty()) == Seq::<char>::empty());
        assert(Seq::<char>::empty() + squeeze(x) =~= squeeze(x) + Seq::<char>::empty());
    } else {
        lemma_squeeze_lines_prepend(x, ys.drop_last());
        assert((seq![x] + ys).drop_last() =~= seq![x] + ys.drop_last());
        assert((seq![x] + ys).last() == ys.last());
        assert(squeeze(x) + squeeze_lines(ys.drop_last()) + squeeze(ys.last()) =~= squeeze(x) + (
        squeeze_lines(ys.drop_last()) + squeeze(ys.last())));
    }
}

/// The lines of `s[from..]`.
pub open spec fn lines_from(s: Seq<char>, from: int) -> Seq<Seq<char>> {
    line_spans(s, from).map_values(|p: (int, int)| s.subrange(p.0, p.1))
}

proof fn lemma_squeeze_lines_from(s: Seq<char>, from: int)
    requires
        0 <= from,
    ensures
        from <= s.len() ==> squeeze(s.skip(from)) == squeeze_lines(lines_from(s, from)),
    decreases s.len() - from,
{
    if from < s.len() {
        lemma_find_from(s, '\n', from);
        match find_from(s, '\n', from) {
            Some(i) => {
                let end = if i > from && s[i - 1] == '\r' {
                    i - 1
                } else {
                    i
                };
                lemma_squeeze_lines_from(s, i + 1);
                assert(lines_from(s, from) =~= seq![s.subrange(from, end)] + lines_from(s, i + 1));
                lemma_squeeze_lines_prepend(s.subrange(from, end), lines_from(s, i + 1));
                assert(s.skip(from) =~= s.subrange(from, end) + (s.subrange(end, i + 1) + s.skip(i + 1)));
                lemma_squeeze_add(s.subrange(from, end), s.subrange(end, i + 1) + s.skip(i + 1));
                lemma_squeeze_add(s.subrange(end, i + 1), s.skip(i + 1));
                assert(is_ws('\n') && is_ws('\r'));
                assert(all_ws(s.subrange(end, i + 1)));
                lemma_squeeze_all_ws(s.subrange(end, i + 1));
                assert(Seq::<char>::empty() + squeeze(s.skip(i + 1)) =~= squeeze(s.skip(i + 1)));
            },
            None => {
                assert(lines_from(s, from) =~= seq![s.subrange(from, s.len() as int)]);
                assert(s.skip(from) =~= s.subrange(from, s.len() as int));
                lemma_squeeze_lines_prepend(s.skip(from), Seq::<Seq<char>>::empty());
                assert(seq![s.skip(from)] + Seq::<Seq<char>>::empty() =~= seq![s.skip(from)]);
                assert(squeeze(s.skip(from)) + Seq::<char>::empty() =~= squeeze(s.skip(from)));
            },
        }
    } else if from == s.len() {
        assert(s.skip(from) =~= Seq::<char>::empty());
        assert(lines_from(s, from) =~= Seq::<Seq<char>>::empty());
    }
}

/// Re-indenting changes only whitespace: with the whitespace taken out, the
/// content reads the same before and after.
pub proof fn law_reindent_changes_only_whitespace(
    me: Indentation,
    target: nat,
    c: Seq<char>,
    first: bool,
)
    ensures
        squeeze(reindented(me, target, c, first)) == squeeze(c),
{
    let cut = if first {
        Some(0int)
    } else {
        find_from(c, '\n', 0)
    };
    let kept: int = if first {
        0
    } else {
        1
    };
    lemma_find_from(c, '\n', 0);
    if c.len() > 0 {
        if let Some(i) = cut {
            let head = c.take(i + kept);
            let rest = c.skip(i);
            let style = content_style(rest);
            let ls = lines_in(rest);
            let m = match min_units(style, ls) {
                Some(m) => m,
                None => 0,
            };
            if !(me == style && m == target && single_style(rest)) {
                let out_ls = ls.skip(kept);
                let lo = lines_out(me, target, style, m, out_ls);
                let body = head + lo;
                lemma_squeeze_lines_out(me, target, style, m, out_ls);
                lemma_squeeze_lines_from(rest, 0);
                assert(rest.skip(0) =~= rest);
                assert(lines_from(rest, 0) =~= ls);
                assert(c =~= c.take(i) + rest);
                lemma_squeeze_add(c.take(i), rest);
                lemma_squeeze_add(head, lo);
                lemma_find_from(rest, '\n', 0);
                assert(line_spans(rest, 0).len() > 0);
                assert(is_ws('\n'));
                lemma_squeeze_all_ws(seq!['\n']);
                if kept == 1 {
                    assert(rest[0] == '\n');
                    assert(find_from(rest, '\n', 0) == Some(0int));
                    assert(line_spans(rest, 0)[0] == (0int, 0int));
                    assert(ls[0] =~= Seq::<char>::empty());
                    assert(ls =~= seq![ls[0]] + out_ls);
                    lemma_squeeze_lines_prepend(ls[0], out_ls);
                    lemma_squeeze_all_ws(ls[0]);
                    assert(head =~= c.take(i) + seq!['\n']);
                    lemma_squeeze_add(c.take(i), seq!['\n']);
                    assert(squeeze(head) =~= squeeze(c.take(i)));
                    assert(squeeze_lines(ls) =~= squeeze_lines(out_ls));
                } else {
                    assert(out_ls =~= ls);
                    assert(head =~= c.take(i));
                }
                if c.last() != '\n' {
                    if out_ls.len() > 0 {
                        let lst = line_out(me, target, style, m, out_ls.last());
                        assert(lo == lines_out(me, target, style, m, out_ls.drop_last()) + lst);
                    } else {
                        assert(kept == 1);
                        assert(body =~= head);
                        assert(head.last() == c[i]);
                    }
                    assert(body.last() == '\n');
                    assert(body =~= body.drop_last() + seq!['\n']);
                    lemma_squeeze_add(body.drop_last(), seq!['\n']);
                    assert(squeeze(body.drop_last()) + Seq::<char>::empty() =~= squeeze(body.drop_last()));
                }
            }
        }
    }
}

/// The fewest units among the non-blank lines is no more than any of
/// theirs, and is that of one of them.
proof fn lemma_min_units(style: Indentation, ls: Seq<Seq<char>>)
    ensures
        match min_units(style, ls) {
            Some(m) => (forall|i: int| 0 <= i < ls.len() && !all_ws(#[trigger] ls[i]) ==> m <= units(style, ls[i]))
                && exists|i: int| 0 <= i < ls.len() && !all_ws(#[trigger] ls[i]) && m == units(style, ls[i]),
            None => forall|i: int| 0 <= i < ls.len() ==> all_ws(#[trigger] ls[i]),
        },
    decreases ls.len(),
{
    if ls.len() > 0 {
        let d = ls.drop_last();
        lemma_min_units(style, d);
        let k = ls.len() - 1;
        assert(ls.last() == ls[k]);
        assert forall|i: int| 0 <= i < d.len() implies #[trigger] d[i] == ls[i] by {}
        if all_ws(ls[k]) {
            assert(min_units(style, ls) == min_units(style, d));
            match min_units(style, d) {
                Some(m0) => {
                    let w = choose|i: int| 0 <= i < d.len() && !all_ws(#[trigger] d[i]) && m0 == units(style, d[i]);
                    assert(d[w] == ls[w]);
                    assert forall|i: int| 0 <= i < ls.len() && !all_ws(#[trigger] ls[i]) implies m0 <= units(style, ls[i]) by {
                        if i < k {
                            assert(d[i] == ls[i]);
                        }
                    }
                },
                None => {
                    assert forall|i: int| 0 <= i < ls.len() implies all_ws(#[trigger] ls[i]) by {
                        if i < k {
                            assert(d[i] == ls[i]);
                        }
                    }
                },
            }
        } else {
            let u = units(style, ls[k]);
            match min_units(style, d) {
                Some(m0) => {
                    let m = if u <= m0 { u } else { m0 };
                    assert(min_units(style, ls) == Some(m));
                    let w = choose|i: int| 0 <= i < d.len() && !all_ws(#[trigger] d[i]) && m0 == units(style, d[i]);
                    assert(d[w] == ls[w]);
                    assert forall|i: int| 0 <= i < ls.len() && !all_ws(#[trigger] ls[i]) implies m <= units(style, ls[i]) by {
                        if i < k {
                            assert(d[i] == ls[i]);
                        }
                    }
                    if u <= m0 {
                        assert(!all_ws(ls[k]) && m == units(style, ls[k]));
                    } else {
                        assert(!all_ws(ls[w]) && m == units(style, ls[w]));
                    }
                },
                None => {
                    assert(min_units(style, ls) == Some(u));
                    assert forall|i: int| 0 <= i < ls.len() && !all_ws(#[trigger] ls[i]) implies u <= units(style, ls[i]) by {
                        if i < k {
                            assert(d[i] == ls[i]);
                        }
                    }
                },
            }
        }
    }
}

/// Re-indenting keeps relative indentation: each non-blank line is written
/// at the target depth plus its depth above the shallowest non-blank line,
/// so any two lines keep the difference in depth they had, and the
/// shallowest lands exactly at the target.
pub proof fn law_reindent_preserves_relative_indentation(
    me: Indentation,
    target: nat,
    style: Indentation,
    ls: Seq<Seq<char>>,
    i: int,
    j: int,
)
    requires
        0 <= i < ls.len(),
        0 <= j < ls.len(),
        !all_ws(ls[i]),
        !all_ws(ls[j]),
    ensures
        min_units(style, ls) matches Some(m) && {
            let di = target + units(style, ls[i]) - m;
            let dj = target + units(style, ls[j]) - m;
            &&& line_out(me, target, style, m, ls[i]) == indent_text(me, di as nat) + trim_start(ls[i]) + seq!['\n']
            &&& line_out(me, target, style, m, ls[j]) == indent_text(me, dj as nat) + trim_start(ls[j]) + seq!['\n']
            &&& di - dj == units(style, ls[i]) - units(style, ls[j])
            &&& di >= target && dj >= target
        },
        exists|k: int|
            0 <= k < ls.len() && !all_ws(#[trigger] ls[k]) && min_units(style, ls) == Some(units(style, ls[k])),
{
    lemma_min_units(style, ls);
}

/// The leading spaces of the line before line `i` (`last` for the first).
pub open spec fn prev_lead(ls: Seq<Seq<char>>, last: nat, i: int) -> nat {
    if i == 0 {
        last
    } else {
        leading_run(ls[i - 1], ' ')
    }
}

/// How far line `i`'s leading spaces move from the line before it.
pub open spec fn step_at(ls: Seq<Seq<char>>, last: nat, i: int) -> nat {
    abs_diff(leading_run(ls[i], ' '), prev_lead(ls, last, i))
}

/// Lines with text that are indented by spaces, each moving by 0 or `n`
/// spaces from the line before it.
pub open spec fn steps_of_width(ls: Seq<Seq<char>>, last: nat, n: nat) -> bool {
    forall|i: int|
        #![trigger ls[i]]
        0 <= i < ls.len() ==> {
            &&& leading_run(ls[i], ' ') < ls[i].len()
            &&& ls[i][0] != '\t'
            &&& (step_at(ls, last, i) == 0 || step_at(ls, last, i) == n)
        }
}

proof fn lemma_tally_uniform_steps(ls: Seq<Seq<char>>, last: nat, n: nat)
    requires
        0 < n <= 255,
        steps_of_width(ls, last, n),
    ensures
        forall|o: Indentation| o != Indentation::Spaces(n as u8) ==> #[trigger] tally(ls, last, o) == 0,
        (exists|i: int| 0 <= i < ls.len() && #[trigger] step_at(ls, last, i) == n) ==> tally(ls, last, Indentation::Spaces(n as u8)) > 0,
    decreases ls.len(),
{
    if ls.len() > 0 {
        let l = ls[0];
        let rest = ls.drop_first();
        let cur = leading_run(l, ' ');
        assert(cur < l.len() && l[0] != '\t');
        assert(step_at(ls, last, 0) == abs_diff(cur, last));
        assert forall|i: int| 0 <= i < rest.len() implies #[trigger] step_at(rest, cur, i) == step_at(ls, last, i + 1) by {
            assert(rest[i] == ls[i + 1]);
            if i > 0 {
                assert(rest[i - 1] == ls[i]);
            }
        }
        assert(steps_of_width(rest, cur, n)) by {
            assert forall|i: int| 0 <= i < rest.len() implies {
                &&& leading_run(#[trigger] rest[i], ' ') < rest[i].len()
                &&& rest[i][0] != '\t'
                &&& (step_at(rest, cur, i) == 0 || step_at(rest, cur, i) == n)
            } by {
                assert(rest[i] == ls[i + 1]);
                assert(step_at(rest, cur, i) == step_at(ls, last, i + 1));
            }
        }
        lemma_tally_uniform_steps(rest, cur, n);
        assert forall|o: Indentation| o != Indentation::Spaces(n as u8) implies #[trigger] tally(ls, last, o) == 0 by {
            assert(tally(rest, cur, o) == 0);
        }
        if exists|i: int| 0 <= i < ls.len() && #[trigger] step_at(ls, last, i) == n {
            let i = choose|i: int| 0 <= i < ls.len() && #[trigger] step_at(ls, last, i) == n;
            if i > 0 {
                assert(step_at(rest, cur, i - 1) == n);
            }
        }
    }
}

/// Indentation is detected from the steps between consecutive lines, not
/// from absolute depths: when every line has text, is indented by spaces and
/// moves 0 or `n` spaces from the line before it (the first from column 0),
/// and some line does move by `n`, then `n` spaces is the detected style and
/// the only one voted for, at any nesting depth.
pub proof fn law_uniform_steps_are_detected(s: Seq<char>, n: nat)
    requires
        0 < n <= 255,
        steps_of_width(sample_lines(s), 0, n),
        exists|i: int| 0 <= i < sample_lines(s).len() && #[trigger] step_at(sample_lines(s), 0, i) == n,
    ensures
        is_detected(s, Indentation::Spaces(n as u8)),
        single_style(s),
        content_style(s) == Indentation::Spaces(n as u8),
{
    let k = Indentation::Spaces(n as u8);
    lemma_tally_uniform_steps(sample_lines(s), 0, n);
    assert(votes(s, k) > 0);
    assert forall|o: Indentation| #![trigger votes(s, o)]
        votes(s, o) < votes(s, k) || (votes(s, o) == votes(s, k) && rank(o) <= rank(k)) by {
        if o != k {
            assert(votes(s, o) == 0);
        }
    }
    assert(is_detected(s, k));
    assert forall|o: Indentation| #[trigger] votes(s, o) > 0 implies o == k by {
        if o != k {
            assert(votes(s, o) == 0);
        }
    }
    assert(single_style(s));
    assert(has_votes(s));
    let c = choose|x: Indentation| is_detected(s, x);
    lemma_detected_unique(s, k, c);
}

} // verus!
