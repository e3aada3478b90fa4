//! Reports on syntax errors: where the parse failed, with the lines around.
use vstd::prelude::*;
use crate::indentation::lines_in;
use crate::item::{newlines_before, offsets_of};
use crate::syntax::{SyntaxNode, SyntaxTree};
use crate::text::{decimal, decimal_string, line_spans, line_spans_of, push_chars, push_str};

verus! {

/// The 0-based rows of the error and missing nodes among the first `n`
/// nodes, in preorder.
pub open spec fn error_rows_upto(t: Seq<SyntaxNode>, src: Seq<char>, n: int) -> Seq<usize>
    decreases n,
{
    if n <= 0 {
        seq![]
    } else {
        let before = error_rows_upto(t, src, n - 1);
        let x = t[n - 1];
        if x.error || x.missing {
            before.push(newlines_before(src, x.start as int, src.len() as int) as usize)
        } else {
            before
        }
    }
}

/// The rows of every error and missing node of the tree.
pub open spec fn error_rows(t: Seq<SyntaxNode>, src: Seq<char>) -> Seq<usize> {
    error_rows_upto(t, src, t.len() as int)
}

/// Row `k` is within three rows of an error row: from three before it up to
/// two after.
pub open spec fn in_context(errs: Seq<usize>, k: int) -> bool {
    exists|j: int| 0 <= j < errs.len() && #[trigger] errs[j] <= k + 3 && k < errs[j] + 3
}

/// Row `k` holds an error.
pub open spec fn is_error_row(errs: Seq<usize>, k: int) -> bool {
    exists|j: int| 0 <= j < errs.len() && #[trigger] errs[j] == k
}

/// `n` right-aligned in four columns.
pub open spec fn pad4(n: nat) -> Seq<char> {
    let d = decimal(n);
    if d.len() < 4 {
        Seq::new((4 - d.len()) as nat, |_i: int| ' ') + d
    } else {
        d
    }
}

/// The report lines for the first `n` source lines `ls`.
pub open spec fn report_lines(ls: Seq<Seq<char>>, errs: Seq<usize>, n: int) -> Seq<char>
    decreases n,
{
    if n <= 0 {
        seq![]
    } else {
        let before = report_lines(ls, errs, n - 1);
        let k = n - 1;
        if in_context(errs, k) {
            before + pad4(n as nat) + (if is_error_row(errs, k) {
                " ->⎸"@
            } else {
                "   ⎸"@
            }) + ls[k] + "\n"@
        } else {
            before
        }
    }
}

/// The syntax-error report for `src` with errors on rows `errs`: each line
/// within three lines of an error, numbered from 1, the error lines marked.
pub open spec fn syntax_report(src: Seq<char>, errs: Seq<usize>) -> Seq<char> {
    "===SYNTAX ERRORS===\n"@ + report_lines(lines_in(src), errs, lines_in(src).len() as int)
}

/// The rows of the tree's error and missing nodes.
pub fn tree_error_rows(t: &SyntaxTree, c: &Vec<char>, off: &Vec<usize>) -> (v: Vec<usize>)
    requires
        offsets_of(c@, off@),
        c@.len() < usize::MAX,
    ensures
        v@ == error_rows(t.nodes@, c@),
{
    let mut v: Vec<usize> = Vec::new();
    let mut i: usize = 0;
    while i < t.nodes.len()
        invariant
            i <= t.nodes@.len(),
            offsets_of(c@, off@),
            c@.len() < usize::MAX,
            v@ == error_rows_upto(t.nodes@, c@, i as int),
        decreases t.nodes@.len() - i,
    {
        let x = &t.nodes[i];
        if x.error || x.missing {
            let row = crate::item::line_at_exec(c, off, x.start) - 1;
            v.push(row);
        }
        i += 1;
    }
    v
}

fn in_context_exec(errs: &Vec<usize>, k: usize) -> (b: bool)
    ensures
        b == in_context(errs@, k as int),
{
    let mut j: usize = 0;
    while j < errs.len()
        invariant
            j <= errs@.len(),
            forall|q: int| 0 <= q < j ==> !(#[trigger] errs@[q] <= k + 3 && k < errs@[q] + 3),
        decreases errs@.len() - j,
    {
        let l = errs[j];
        let near = if l <= k {
            k - l < 3
        } else {
            l - k <= 3
        };
        if near {
            return true;
        }
        j += 1;
    }
    false
}

fn is_error_row_exec(errs: &Vec<usize>, k: usize) -> (b: bool)
    ensures
        b == is_error_row(errs@, k as int),
{
    let mut j: usize = 0;
    while j < errs.len()
        invariant
            j <= errs@.len(),
            forall|q: int| 0 <= q < j ==> #[trigger] errs@[q] != k,
        decreases errs@.len() - j,
    {
        if errs[j] == k {
            return true;
        }
        j += 1;
    }
    false
}

fn push_pad4(out: &mut String, n: usize)
    ensures
        final(out)@ == old(out)@ + pad4(n as nat),
{
    let d = decimal_string(n);
    let dl = d.as_str().unicode_len();
    let ghost start = out@;
    if dl < 4 {
        let mut i: usize = 0;
        while i < 4 - dl
            invariant
                i <= 4 - dl,
                out@ == start + Seq::new(i as nat, |_i: int| ' '),
            decreases 4 - dl - i,
        {
            crate::text::push_char(out, ' ');
            i += 1;
            assert(out@ =~= start + Seq::new(i as nat, |_i: int| ' '));
        }
    }
    push_str(out, d.as_str());
    assert(out@ =~= start + pad4(n as nat));
}

/// The report for errors on rows `errs`, or nothing when there are none.
pub fn syntax_errors_report(c: &Vec<char>, errs: &Vec<usize>) -> (r: Option<String>)
    requires
        c@.len() < usize::MAX,
    ensures
        match r {
            Some(m) => errs@.len() > 0 && m@ == syntax_report(c@, errs@),
            None => errs@.len() == 0,
        },
{
    if errs.len() == 0 {
        return None;
    }
    let spans = line_spans_of(c);
    let ghost ls = lines_in(c@);
    proof {
        assert(ls.len() == spans@.len());
    }
    let mut m = String::new();
    push_str(&mut m, "===SYNTAX ERRORS===\n");
    let ghost head = m@;
    let mut k: usize = 0;
    while k < spans.len()
        invariant
            k <= spans@.len() == ls.len(),
            ls == lines_in(c@),
            spans@.len() == line_spans(c@, 0).len(),
            forall|q: int|
                0 <= q < spans@.len() ==> (spans@[q].0 as int, spans@[q].1 as int) == line_spans(c@, 0)[q],
            forall|q: int| 0 <= q < spans@.len() ==> (#[trigger] spans@[q]).0 <= spans@[q].1 <= c@.len(),
            c@.len() < usize::MAX,
            m@ == head + report_lines(ls, errs@, k as int),
        decreases spans@.len() - k,
    {
        if in_context_exec(errs, k) {
            let (a, b) = spans[k];
            push_pad4(&mut m, k + 1);
            if is_error_row_exec(errs, k) {
                push_str(&mut m, " ->⎸");
            } else {
                push_str(&mut m, "   ⎸");
            }
            let line = crate::text::slice_chars(c, a, b);
            proof {
                assert(ls[k as int] == c@.subrange(a as int, b as int));
            }
            push_chars(&mut m, &line);
            push_str(&mut m, "\n");
        }
        k += 1;
        proof {
            assert(m@ =~= head + report_lines(ls, errs@, k as int));
        }
    }
    Some(m)
}

} // verus!
