//! An edit operation: a selector and the content it places.
use vstd::prelude::*;
use crate::operations::selector::Selector;
use crate::state::StagedOperation;
use crate::editor::diff::{
    DiffHunk, LineKind, chars_start_with, diff_hunks, diffy_hunks, diffy_patch_text, drop_final_newline, hunk_view,
    patch_text, starts_with,
};
use crate::indentation::lines_in;
use crate::text::{chars_of, decimal, line_spans, line_spans_of, push_decimal, push_str, slice_chars};

verus! {

/// What running a tool produced: a reply alone, a reply with an edit staged
/// for later, or a reply with new file content to write to a path.
#[derive(Debug)]
pub enum ExecutionResult {
    ResponseOnly(String),
    ChangeStaged(String, StagedOperation),
    Change { response: String, output: String, output_path: String },
}

/// How to position the content, and the content itself.
#[derive(Debug, Clone)]
pub struct EditOperation {
    pub selector: Selector,
    pub content: String,
}

/// The outcome of an edit: a message and the new file content.
#[derive(Debug, Clone)]
pub struct EditResult {
    pub message: String,
    pub new_content: String,
}

impl EditOperation {
    /// An operation placing `content` by `selector`.
    pub fn new(selector: Selector, content: String) -> (o: Self)
        ensures
            o.selector == selector,
            o.content == content,
    {
        EditOperation { selector, content }
    }

    /// The operation's name.
    pub fn operation_name(&self) -> (s: &str)
        ensures
            s@ == (match self.selector {
                Selector::Insert { .. } => "Insert"@,
                Selector::Replace { .. } => "Replace"@,
            }),
    {
        self.selector.operation_name()
    }

    /// The content the operation places.
    pub fn content(&self) -> (s: &str)
        ensures
            s@ == self.content@,
    {
        self.content.as_str()
    }

    /// The selector, for retargeting in place.
    pub fn selector_mut(&mut self) -> (s: &mut Selector)
        ensures
            *s == old(self).selector,
            final(self).selector == *final(s),
            final(self).content == old(self).content,
    {
        &mut self.selector
    }

    /// Point the operation at a new target, keeping its content.
    pub fn retarget(&mut self, selector: Selector)
        ensures
            final(self).selector == selector,
            final(self).content == old(self).content,
    {
        self.selector = selector;
    }
}

/// The lines of `ls` among the first `n` that are neither file nor hunk
/// headers, each with a line break.
pub open spec fn diff_body_lines(ls: Seq<Seq<char>>, n: int) -> Seq<char>
    decreases n,
{
    if n <= 0 {
        seq![]
    } else {
        let before = diff_body_lines(ls, n - 1);
        let l = ls[n - 1];
        if starts_with(l, "---"@) || starts_with(l, "+++"@) || starts_with(l, "@@"@) {
            before
        } else {
            before + l + "\n"@
        }
    }
}

/// Line `line` lies in the old range of some hunk of `hs`.
pub open spec fn covered(hs: Seq<(int, int, int, int, Seq<(LineKind, Seq<char>)>)>, line: int) -> bool {
    exists|k: int| 0 <= k < hs.len() && (#[trigger] hs[k]).0 <= line < hs[k].0 + hs[k].1
}

/// How many of the lines `0..total` lie in the old range of some hunk.
pub open spec fn covered_lines(hs: Seq<(int, int, int, int, Seq<(LineKind, Seq<char>)>)>, total: int) -> nat
    decreases total,
{
    if total <= 0 {
        0
    } else {
        covered_lines(hs, total - 1) + if covered(hs, total - 1) {
            1nat
        } else {
            0nat
        }
    }
}

proof fn lemma_covered_bound(hs: Seq<(int, int, int, int, Seq<(LineKind, Seq<char>)>)>, total: int)
    ensures
        total >= 0 ==> covered_lines(hs, total) <= total,
    decreases total,
{
    if total > 0 {
        lemma_covered_bound(hs, total - 1);
    }
}

/// The note on how much of the content a patch changed, when the content
/// has more than ten lines: the share of its lines that the old ranges of
/// the hunks cover, in percent, with a tip when it is under 30.
pub open spec fn efficiency_note(hs: Seq<(int, int, int, int, Seq<(LineKind, Seq<char>)>)>, lines: int) -> Seq<char> {
    if lines > 10 {
        let frac = (covered_lines(hs, lines) * 100) as int / lines;
        "Edit efficiency: "@ + decimal(frac as nat) + "%\n"@ + (if frac < 30 {
            "💡 TIP: For focused changes like this, you might try targeted insert/replace operations for easier review and iteration\n"@
        } else {
            seq![]
        }) + "\n"@
    } else {
        seq![]
    }
}

/// The diff between two versions for a reader: the efficiency note for the
/// content, then `===DIFF===` and the patch without its file and hunk
/// headers, without a final line break.
pub open spec fn generated_diff(original: Seq<char>, modified: Seq<char>, content_patch: Option<Seq<char>>) -> Seq<char> {
    let note = match content_patch {
        Some(p) => efficiency_note(diffy_hunks(original, modified), lines_in(p).len() as int),
        None => seq![],
    };
    let ls = lines_in(diffy_patch_text(original, modified));
    drop_final_newline(note + "===DIFF===\n"@ + diff_body_lines(ls, ls.len() as int))
}

/// How many of the lines `0..total_original_lines` lie in the old range of
/// some hunk of the patch (see [`covered_lines`]).
pub fn changed_lines(patch: &Vec<DiffHunk>, total_original_lines: usize) -> (n: usize)
    ensures
        n == covered_lines(patch@.map_values(|h: DiffHunk| hunk_view(h)), total_original_lines as int),
{
    let ghost hs = patch@.map_values(|h: DiffHunk| hunk_view(h));
    let mut n: usize = 0;
    let mut line: usize = 0;
    while line < total_original_lines
        invariant
            line <= total_original_lines,
            hs == patch@.map_values(|h: DiffHunk| hunk_view(h)),
            n == covered_lines(hs, line as int),
            n <= line,
        decreases total_original_lines - line,
    {
        let mut k: usize = 0;
        let mut hit = false;
        while k < patch.len()
            invariant
                k <= patch@.len(),
                hs == patch@.map_values(|h: DiffHunk| hunk_view(h)),
                !hit ==> forall|q: int| 0 <= q < k ==> !((#[trigger] hs[q]).0 <= line < hs[q].0 + hs[q].1),
                hit ==> covered(hs, line as int),
            decreases patch@.len() - k,
        {
            let h = &patch[k];
            assert(hs[k as int] == hunk_view(*h));
            if h.old_start <= line && (line - h.old_start) < h.old_len {
                hit = true;
            }
            k += 1;
        }
        if hit {
            n += 1;
        }
        line += 1;
    }
    n
}

/// The diff between two versions for a reader (see [`generated_diff`]).
pub fn generate_diff(source_code: &str, new_content: &str, content_patch: Option<&str>) -> (d: String)
    requires
        content_patch matches Some(p) ==> lines_in(p@).len() * 100 <= usize::MAX,
    ensures
        d@ == generated_diff(source_code@, new_content@, match content_patch {
            Some(p) => Some(p@),
            None => None,
        }),
{
    let mut out: Vec<char> = Vec::new();
    match content_patch {
        Some(p) => {
            let lines = line_spans_of(chars_of(p).as_slice()).len();
            if lines > 10 {
                let hunks = diff_hunks(source_code, new_content);
                let changed = changed_lines(&hunks, lines);
                proof {
                    lemma_covered_bound(hunks@.map_values(|h: DiffHunk| hunk_view(h)), lines as int);
                    assert(changed * 100 <= lines * 100) by (nonlinear_arith)
                        requires
                            changed <= lines,
                    ;
                }
                let changed_fraction = (changed * 100) / lines;
                let mut note = String::new();
                push_str(&mut note, "Edit efficiency: ");
                push_decimal(&mut note, changed_fraction);
                push_str(&mut note, "%\n");
                if changed_fraction < 30 {
                    push_str(&mut note, "💡 TIP: For focused changes like this, you might try targeted insert/replace operations for easier review and iteration\n");
                }
                push_str(&mut note, "\n");
                out = chars_of(note.as_str());
            }
        },
        None => {},
    }
    let ghost note = out@;
    let text = patch_text(source_code, new_content);
    let c = chars_of(text.as_str());
    let spans = line_spans_of(&c);
    let ghost ls = lines_in(c@);
    let header = chars_of("===DIFF===\n");
    let mut i: usize = 0;
    while i < header.len()
        invariant
            i <= header@.len(),
            out@ == note + header@.take(i as int),
        decreases header@.len() - i,
    {
        out.push(header[i]);
        i += 1;
        assert(out@ =~= note + header@.take(i as int));
    }
    assert(header@.take(header@.len() as int) =~= header@);
    let ghost head = out@;
    let mut k: usize = 0;
    while k < spans.len()
        invariant
            k <= spans@.len() == ls.len(),
            ls == lines_in(c@),
            spans@.len() == line_spans(c@, 0).len(),
            forall|q: int|
                0 <= q < spans@.len() ==> (spans@[q].0 as int, spans@[q].1 as int) == line_spans(c@, 0)[q],
            forall|q: int| 0 <= q < spans@.len() ==> (#[trigger] spans@[q]).0 <= spans@[q].1 <= c@.len(),
            out@ == head + diff_body_lines(ls, k as int),
        decreases spans@.len() - k,
    {
        let (a, b) = spans[k];
        let line = slice_chars(&c, a, b);
        proof {
            assert(ls[k as int] == c@.subrange(a as int, b as int));
        }
        if !(chars_start_with(&line, "---") || chars_start_with(&line, "+++") || chars_start_with(&line, "@@")) {
            let mut j: usize = 0;
            let ghost before = out@;
            while j < line.len()
                invariant
                    j <= line@.len(),
                    out@ == before + line@.take(j as int),
                decreases line@.len() - j,
            {
                out.push(line[j]);
                j += 1;
                assert(out@ =~= before + line@.take(j as int));
            }
            assert(line@.take(j as int) =~= line@);
            out.push('\n');
        }
        proof {
            reveal_strlit("\n");
        }
        k += 1;
        proof {
            assert(out@ =~= head + diff_body_lines(ls, k as int));
        }
    }
    if out.len() > 0 && out[out.len() - 1] == '\n' {
        out.pop();
    }
    proof {
        assert(ls.len() == spans@.len());
    }
    crate::text::string_from_chars(out.as_slice())
}

impl EditOperation {
    /// A preview of a staged result: the operation's name and the diff from
    /// the source to the result, with the efficiency note for the content.
    pub fn generate_contextual_preview(&self, result: &EditResult, source_code: &str) -> (r: String)
        requires
            lines_in(self.content@).len() * 100 <= usize::MAX,
        ensures
            r@ == "STAGED: "@ + (match self.selector {
                Selector::Insert { .. } => "Insert"@,
                Selector::Replace { .. } => "Replace"@,
            }) + "\n\n"@ + generated_diff(source_code@, result.new_content@, Some(self.content@)),
    {
        let mut preview = String::new();
        push_str(&mut preview, "STAGED: ");
        push_str(&mut preview, self.operation_name());
        push_str(&mut preview, "\n\n");
        let d = generate_diff(source_code, result.new_content.as_str(), Some(self.content.as_str()));
        push_str(&mut preview, d.as_str());
        preview
    }
}

} // verus!
