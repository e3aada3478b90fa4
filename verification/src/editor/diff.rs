//! `===DIFF===` sections between two versions of a file.
use vstd::prelude::*;
use diffy::Line;
use crate::indentation::lines_in;
use crate::searcher::squeeze;
use crate::text::{
    chars_of, decimal, line_spans, line_spans_of, push_char, push_decimal, push_str, slice_chars,
    is_whitespace, is_ws,
};
use crate::item::contains_text;

verus! {

/// What a diff line is: shared context, a deletion or an insertion.
#[derive(Debug, Clone, Copy, PartialEq, Eq, Structural)]
pub enum LineKind {
    Context,
    Delete,
    Insert,
}

/// One line of a hunk, with its line break if it had one.
#[derive(Debug, Clone)]
pub struct DiffLine {
    pub kind: LineKind,
    pub text: String,
}

/// One hunk of a patch: its ranges in the old and new file (1-based start,
/// length) and its lines.
#[derive(Debug, Clone)]
pub struct DiffHunk {
    pub old_start: usize,
    pub old_len: usize,
    pub new_start: usize,
    pub new_len: usize,
    pub lines: Vec<DiffLine>,
}

/// A hunk line as values.
pub open spec fn line_view(l: DiffLine) -> (LineKind, Seq<char>) {
    (l.kind, l.text@)
}

/// A hunk as values.
pub open spec fn hunk_view(h: DiffHunk) -> (int, int, int, int, Seq<(LineKind, Seq<char>)>) {
    (
        h.old_start as int,
        h.old_len as int,
        h.new_start as int,
        h.new_len as int,
        h.lines@.map_values(|l: DiffLine| line_view(l)),
    )
}

/// The hunks diffy finds between two texts.
pub uninterp spec fn diffy_hunks(original: Seq<char>, modified: Seq<char>) -> Seq<(int, int, int, int, Seq<(LineKind, Seq<char>)>)>;

/// The unified patch text diffy prints between two texts (no "no newline"
/// markers).
pub uninterp spec fn diffy_patch_text(original: Seq<char>, modified: Seq<char>) -> Seq<char>;

/// `DiffOptions::new().create_patch(original, modified).hunks()`, each hunk
/// with its ranges and lines.
#[verifier::external_body]
pub fn diff_hunks(original: &str, modified: &str) -> (r: Vec<DiffHunk>)
    ensures
        r@.map_values(|h: DiffHunk| hunk_view(h)) == diffy_hunks(original@, modified@),
{
    let patch = diffy::DiffOptions::new().create_patch(original, modified);
    let line = |l: &Line<str>| match l {
        Line::Context(t) => DiffLine { kind: LineKind::Context, text: t.to_string() },
        Line::Delete(t) => DiffLine { kind: LineKind::Delete, text: t.to_string() },
        Line::Insert(t) => DiffLine { kind: LineKind::Insert, text: t.to_string() },
    };
    patch.hunks().iter().map(|h| DiffHunk {
        old_start: h.old_range().start(), old_len: h.old_range().len(),
        new_start: h.new_range().start(), new_len: h.new_range().len(),
        lines: h.lines().iter().map(line).collect(),
    }).collect()
}

/// `PatchFormatter::new().missing_newline_message(false).fmt_patch(..)` of
/// the patch between two texts.
#[verifier::external_body]
pub fn patch_text(original: &str, modified: &str) -> (r: String)
    ensures
        r@ == diffy_patch_text(original@, modified@),
{
    let patch = diffy::DiffOptions::new().create_patch(original, modified);
    let formatter = diffy::PatchFormatter::new().missing_newline_message(false);
    let text = formatter.fmt_patch(&patch).to_string();
    text
}

/// The text of the lines of `ls` of one kind, concatenated.
pub open spec fn lines_of_kind(ls: Seq<(LineKind, Seq<char>)>, kind: LineKind) -> Seq<char>
    decreases ls.len(),
{
    if ls.len() == 0 {
        seq![]
    } else {
        lines_of_kind(ls.drop_last(), kind) + if ls.last().0 == kind {
            ls.last().1
        } else {
            seq![]
        }
    }
}

/// A hunk changes only whitespace: its deleted and inserted text are the
/// same once all whitespace is removed.
pub open spec fn whitespace_only(ls: Seq<(LineKind, Seq<char>)>) -> bool {
    squeeze(lines_of_kind(ls, LineKind::Delete)) == squeeze(lines_of_kind(ls, LineKind::Insert))
}

/// `s` with its whitespace removed, appended to `out`.
fn push_significant(out: &mut Vec<char>, s: &str)
    ensures
        final(out)@ == old(out)@ + squeeze(s@),
{
    let c = chars_of(s);
    let ghost start = out@;
    let mut i: usize = 0;
    while i < c.len()
        invariant
            i <= c@.len(),
            out@ == start + squeeze(c@.take(i as int)),
            c@ == s@,
        decreases c@.len() - i,
    {
        proof {
            assert(c@.take(i + 1) =~= c@.take(i as int) + seq![c@[i as int]]);
            crate::searcher::lemma_squeeze_add(c@.take(i as int), seq![c@[i as int]]);
            assert(seq![c@[i as int]].drop_first() =~= Seq::<char>::empty());
            assert(squeeze(Seq::<char>::empty()) == Seq::<char>::empty());
            if is_ws(c@[i as int]) {
                assert(squeeze(seq![c@[i as int]]) == Seq::<char>::empty());
            } else {
                assert(squeeze(seq![c@[i as int]]) =~= seq![c@[i as int]]);
            }
        }
        if !is_whitespace(c[i]) {
            out.push(c[i]);
        }
        i += 1;
        proof {
            assert(out@ =~= start + squeeze(c@.take(i as int)));
        }
    }
    assert(c@.take(i as int) =~= c@);
}

/// Whether a hunk changes only whitespace.
pub fn hunk_is_whitespace_only(h: &DiffHunk) -> (b: bool)
    ensures
        b == whitespace_only(hunk_view(*h).4),
{
    let ghost ls = hunk_view(*h).4;
    let mut deleted: Vec<char> = Vec::new();
    let mut inserted: Vec<char> = Vec::new();
    let mut i: usize = 0;
    while i < h.lines.len()
        invariant
            i <= h.lines@.len(),
            ls == h.lines@.map_values(|l: DiffLine| line_view(l)),
            deleted@ == squeeze(lines_of_kind(ls.take(i as int), LineKind::Delete)),
            inserted@ == squeeze(lines_of_kind(ls.take(i as int), LineKind::Insert)),
        decreases h.lines@.len() - i,
    {
        let l = &h.lines[i];
        proof {
            assert(ls.take(i + 1).drop_last() =~= ls.take(i as int));
            assert(ls.take(i + 1).last() == line_view(*l));
            crate::searcher::lemma_squeeze_add(lines_of_kind(ls.take(i as int), LineKind::Delete), if l.kind == LineKind::Delete { l.text@ } else { seq![] });
            crate::searcher::lemma_squeeze_add(lines_of_kind(ls.take(i as int), LineKind::Insert), if l.kind == LineKind::Insert { l.text@ } else { seq![] });
            assert(squeeze(Seq::<char>::empty()) == Seq::<char>::empty());
        }
        match l.kind {
            LineKind::Delete => push_significant(&mut deleted, l.text.as_str()),
            LineKind::Insert => push_significant(&mut inserted, l.text.as_str()),
            LineKind::Context => {},
        }
        proof {
            assert(deleted@ =~= squeeze(lines_of_kind(ls.take(i + 1), LineKind::Delete)));
            assert(inserted@ =~= squeeze(lines_of_kind(ls.take(i + 1), LineKind::Insert)));
        }
        i += 1;
    }
    proof {
        assert(ls.take(i as int) =~= ls);
    }
    crate::item::chars_equal(&deleted, &inserted)
}

/// Whether `s` starts with `p`.
pub open spec fn starts_with(s: Seq<char>, p: Seq<char>) -> bool {
    s.len() >= p.len() && s.take(p.len() as int) == p
}

/// The lines of `ls` among the first `n` that are not file headers, each
/// with a line break.
pub open spec fn kept_patch_lines(ls: Seq<Seq<char>>, n: int) -> Seq<char>
    decreases n,
{
    if n <= 0 {
        seq![]
    } else {
        let before = kept_patch_lines(ls, n - 1);
        let l = ls[n - 1];
        if starts_with(l, "---"@) || starts_with(l, "+++"@) {
            before
        } else {
            before + l + "\n"@
        }
    }
}

/// `s` without a final line break.
pub open spec fn drop_final_newline(s: Seq<char>) -> Seq<char> {
    if s.len() > 0 && s.last() == '\n' {
        s.drop_last()
    } else {
        s
    }
}

/// The cleaned diff: diffy's patch text without its `---`/`+++` headers,
/// under a `===DIFF===` line, without a final line break.
pub open spec fn clean_diff_text(original: Seq<char>, modified: Seq<char>) -> Seq<char> {
    let ls = lines_in(diffy_patch_text(original, modified));
    drop_final_newline("===DIFF===\n"@ + kept_patch_lines(ls, ls.len() as int))
}

pub(crate) fn chars_start_with(s: &Vec<char>, p: &str) -> (b: bool)
    ensures
        b == starts_with(s@, p@),
{
    let pc = chars_of(p);
    if s.len() < pc.len() {
        return false;
    }
    let head = slice_chars(s, 0, pc.len());
    assert(head@ =~= s@.take(pc@.len() as int));
    crate::item::chars_equal(&head, &pc)
}

/// The `===DIFF===` section between two versions, file headers stripped and
/// hunk headers kept.
pub fn clean_diff(original: &str, modified: &str) -> (d: String)
    ensures
        d@ == clean_diff_text(original@, modified@),
{
    let text = patch_text(original, modified);
    let c = chars_of(text.as_str());
    let spans = line_spans_of(&c);
    let ghost ls = lines_in(c@);
    proof {
        assert(ls.len() == spans@.len());
    }
    let mut out: Vec<char> = chars_of("===DIFF===\n");
    let ghost head = out@;
    let mut k: usize = 0;
    while k < spans.len()
        invariant
            k <= spans@.len() == ls.len(),
            ls == lines_in(c@),
            spans@.len() == line_spans(c@, 0).len(),
            forall|q: int|
                0 <= q < spans@.len() ==> (spans@[q].0 as int, spans@[q].1 as int) == line_spans(c@, 0)[q],
            forall|q: int| 0 <= q < spans@.len() ==> (#[trigger] spans@[q]).0 <= spans@[q].1 <= c@.len(),
            out@ == head + kept_patch_lines(ls, k as int),
        decreases spans@.len() - k,
    {
        let (a, b) = spans[k];
        let line = slice_chars(&c, a, b);
        proof {
            assert(ls[k as int] == c@.subrange(a as int, b as int));
        }
        if !(chars_start_with(&line, "---") || chars_start_with(&line, "+++")) {
            let mut i: usize = 0;
            let ghost before = out@;
            while i < line.len()
                invariant
                    i <= line@.len(),
                    out@ == before + line@.take(i as int),
                decreases line@.len() - i,
            {
                out.push(line[i]);
                i += 1;
                assert(out@ =~= before + line@.take(i as int));
            }
            assert(line@.take(i as int) =~= line@);
            out.push('\n');
        }
        proof {
            reveal_strlit("\n");
        }
        k += 1;
        proof {
            assert(out@ =~= head + kept_patch_lines(ls, k as int));
        }
    }
    if out.len() > 0 && out[out.len() - 1] == '\n' {
        out.pop();
    }
    crate::text::string_from_chars(&out)
}

/// A hunk line as the focused diff prints it: its prefix (none for a blank
/// context line), its text, and a line break if the text has none.
pub open spec fn line_text(kind: LineKind, text: Seq<char>) -> Seq<char> {
    let prefix = match kind {
        LineKind::Context => ' ',
        LineKind::Delete => '-',
        LineKind::Insert => '+',
    };
    (if kind == LineKind::Context && text == "\n"@ {
        Seq::<char>::empty()
    } else {
        seq![prefix]
    }) + text + (if text.len() > 0 && text.last() == '\n' {
        Seq::<char>::empty()
    } else {
        "\n"@
    })
}

/// The lines of a hunk as the focused diff prints them.
pub open spec fn hunk_lines_text(ls: Seq<(LineKind, Seq<char>)>) -> Seq<char>
    decreases ls.len(),
{
    if ls.len() == 0 {
        seq![]
    } else {
        hunk_lines_text(ls.drop_last()) + line_text(ls.last().0, ls.last().1)
    }
}

/// A hunk as the focused diff prints it: its header, then its lines.
pub open spec fn hunk_text(h: (int, int, int, int, Seq<(LineKind, Seq<char>)>)) -> Seq<char> {
    "@@ -"@ + decimal(h.0 as nat) + ","@ + decimal(h.1 as nat) + " +"@ + decimal(h.2 as nat) + ","@
        + decimal(h.3 as nat) + " @@\n"@ + hunk_lines_text(h.4)
}

/// The hunks among the first `n` that change more than whitespace, printed.
pub open spec fn focused_hunks(hs: Seq<(int, int, int, int, Seq<(LineKind, Seq<char>)>)>, n: int) -> Seq<char>
    decreases n,
{
    if n <= 0 {
        seq![]
    } else {
        let before = focused_hunks(hs, n - 1);
        if whitespace_only(hs[n - 1].4) {
            before
        } else {
            before + hunk_text(hs[n - 1])
        }
    }
}

/// How many of the first `n` hunks change only whitespace.
pub open spec fn elided_count(hs: Seq<(int, int, int, int, Seq<(LineKind, Seq<char>)>)>, n: int) -> nat
    decreases n,
{
    if n <= 0 {
        0
    } else {
        elided_count(hs, n - 1) + if whitespace_only(hs[n - 1].4) {
            1nat
        } else {
            0nat
        }
    }
}

/// The focused diff: the `===DIFF===` section of the hunks that change more
/// than whitespace, and how many whitespace-only hunks were left out; when
/// every hunk is whitespace-only, the full cleaned diff and 0.
pub open spec fn focused_diff_spec(original: Seq<char>, modified: Seq<char>) -> (Seq<char>, nat) {
    let hs = diffy_hunks(original, modified);
    let elided = elided_count(hs, hs.len() as int);
    if elided == hs.len() {
        (clean_diff_text(original, modified), 0)
    } else {
        (drop_final_newline("===DIFF===\n"@ + focused_hunks(hs, hs.len() as int)), elided)
    }
}

proof fn lemma_elided_bound(hs: Seq<(int, int, int, int, Seq<(LineKind, Seq<char>)>)>, n: int)
    requires
        0 <= n <= hs.len(),
    ensures
        elided_count(hs, n) <= n,
    decreases n,
{
    if n > 0 {
        lemma_elided_bound(hs, n - 1);
    }
}

fn push_line_text(out: &mut String, l: &DiffLine)
    ensures
        final(out)@ == old(out)@ + line_text(l.kind, l.text@),
{
    let c = chars_of(l.text.as_str());
    let ghost start = out@;
    let blank = l.kind == LineKind::Context && crate::item::chars_are(&c, "\n");
    if !blank {
        let prefix = match l.kind {
            LineKind::Context => ' ',
            LineKind::Delete => '-',
            LineKind::Insert => '+',
        };
        push_char(out, prefix);
    }
    push_str(out, l.text.as_str());
    if !(c.len() > 0 && c[c.len() - 1] == '\n') {
        push_str(out, "\n");
    }
    proof {
        reveal_strlit("\n");
        assert(out@ =~= start + line_text(l.kind, l.text@));
    }
}

fn push_hunk_text(out: &mut String, h: &DiffHunk)
    ensures
        final(out)@ == old(out)@ + hunk_text(hunk_view(*h)),
{
    let ghost start = out@;
    push_str(out, "@@ -");
    push_decimal(out, h.old_start);
    push_str(out, ",");
    push_decimal(out, h.old_len);
    push_str(out, " +");
    push_decimal(out, h.new_start);
    push_str(out, ",");
    push_decimal(out, h.new_len);
    push_str(out, " @@\n");
    let ghost header = out@;
    let ghost ls = hunk_view(*h).4;
    let mut i: usize = 0;
    while i < h.lines.len()
        invariant
            i <= h.lines@.len(),
            ls == h.lines@.map_values(|l: DiffLine| line_view(l)),
            out@ == header + hunk_lines_text(ls.take(i as int)),
        decreases h.lines@.len() - i,
    {
        push_line_text(out, &h.lines[i]);
        proof {
            assert(ls.take(i + 1).drop_last() =~= ls.take(i as int));
            assert(ls.take(i + 1).last() == line_view(h.lines@[i as int]));
        }
        i += 1;
        proof {
            assert(out@ =~= header + hunk_lines_text(ls.take(i as int)));
        }
    }
    proof {
        assert(ls.take(i as int) =~= ls);
        assert(out@ =~= start + hunk_text(hunk_view(*h)));
    }
}

/// The `===DIFF===` section with the whitespace-only hunks left out, and how
/// many were (see [`focused_diff_spec`]).
pub fn focused_diff(original: &str, modified: &str) -> (r: (String, usize))
    ensures
        (r.0@, r.1 as nat) == focused_diff_spec(original@, modified@),
{
    let hunks = diff_hunks(original, modified);
    let ghost hs = diffy_hunks(original@, modified@);
    let mut kept = String::new();
    push_str(&mut kept, "===DIFF===\n");
    let ghost head = kept@;
    let mut elided: usize = 0;
    let mut i: usize = 0;
    while i < hunks.len()
        invariant
            i <= hunks@.len(),
            hs == hunks@.map_values(|h: DiffHunk| hunk_view(h)),
            kept@ == head + focused_hunks(hs, i as int),
            elided == elided_count(hs, i as int),
            elided <= i,
        decreases hunks@.len() - i,
    {
        assert(hs[i as int] == hunk_view(hunks@[i as int]));
        if hunk_is_whitespace_only(&hunks[i]) {
            elided += 1;
        } else {
            push_hunk_text(&mut kept, &hunks[i]);
        }
        i += 1;
        proof {
            assert(kept@ =~= head + focused_hunks(hs, i as int));
        }
    }
    if elided == hunks.len() {
        return (clean_diff(original, modified), 0);
    }
    let c = chars_of(kept.as_str());
    if c.len() > 0 && c[c.len() - 1] == '\n' {
        let trimmed = slice_chars(&c, 0, c.len() - 1);
        proof {
            assert(trimmed@ =~= c@.drop_last());
        }
        return (crate::text::string_from_chars(&trimmed), elided);
    }
    (kept, elided)
}

/// A hunk that changes more than whitespace is always shown: its printed
/// text occurs in the focused section, whatever the other hunks are.
pub proof fn law_token_changes_are_never_hidden(hs: Seq<(int, int, int, int, Seq<(LineKind, Seq<char>)>)>, j: int)
    requires
        0 <= j < hs.len(),
        !whitespace_only(hs[j].4),
    ensures
        contains_text(focused_hunks(hs, hs.len() as int), hunk_text(hs[j])),
{
    lemma_shown_from(hs, j, hs.len() as int);
}

proof fn lemma_shown_from(hs: Seq<(int, int, int, int, Seq<(LineKind, Seq<char>)>)>, j: int, n: int)
    requires
        0 <= j < n <= hs.len(),
        !whitespace_only(hs[j].4),
    ensures
        contains_text(focused_hunks(hs, n), hunk_text(hs[j])),
    decreases n,
{
    let h = hunk_text(hs[j]);
    if n == j + 1 {
        let pre = focused_hunks(hs, j);
        assert(focused_hunks(hs, n) == pre + h);
        assert((pre + h).subrange(pre.len() as int, (pre.len() + h.len()) as int) =~= h);
    } else {
        lemma_shown_from(hs, j, n - 1);
        let before = focused_hunks(hs, n - 1);
        let k = choose|k: int| 0 <= k && k + h.len() <= before.len() && #[trigger] before.subrange(k, k + h.len()) == h;
        let after = focused_hunks(hs, n);
        if !whitespace_only(hs[n - 1].4) {
            assert(after == before + hunk_text(hs[n - 1]));
            assert(after.subrange(k, k + h.len()) =~= before.subrange(k, k + h.len()));
        }
        assert(after.subrange(k, k + h.len()) == h);
    }
}

/// Whitespace-only hunks are left out and counted: unless every hunk is
/// whitespace-only, the count is the number of them and the section holds
/// exactly the other hunks; when all are, the full diff comes back with a
/// count of zero.
pub proof fn law_whitespace_hunks_are_counted(original: Seq<char>, modified: Seq<char>)
    ensures
        ({
            let hs = diffy_hunks(original, modified);
            let n = elided_count(hs, hs.len() as int);
            if n == hs.len() {
                focused_diff_spec(original, modified) == (clean_diff_text(original, modified), 0nat)
            } else {
                &&& focused_diff_spec(original, modified).1 == n
                &&& n < hs.len()
                &&& focused_diff_spec(original, modified).0 == drop_final_newline("===DIFF===\n"@ + focused_hunks(hs, hs.len() as int))
            }
        }),
{
    let hs = diffy_hunks(original, modified);
    lemma_elided_bound(hs, hs.len() as int);
}

} // verus!
