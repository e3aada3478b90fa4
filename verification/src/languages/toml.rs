//! TOML: taplo's errors and formatting, and the least destructive candidate
//! first.
use vstd::prelude::*;
use vstd::multiset::Multiset;
use crate::editor::edit::{Edit, EditView, edit_views};
use crate::item::newlines_before;
use crate::text::{byte_at, chars_of};

verus! {

/// Edits TOML files.
#[derive(Debug, Clone, Copy)]
pub struct TomlEditor;

impl TomlEditor {
    pub fn new() -> (e: Self) {
        TomlEditor
    }
}

/// The byte ranges of taplo's parse errors.
pub uninterp spec fn taplo_errors(text: Seq<char>) -> Seq<(int, int)>;

/// What taplo's formatter makes of a text with default options.
pub uninterp spec fn taplo_formatted(text: Seq<char>) -> Seq<char>;

/// `taplo::parser::parse(text).errors`, each as its byte range.
#[verifier::external_body]
pub fn parse_error_ranges(text: &str) -> (r: Vec<(usize, usize)>)
    ensures
        r@.map_values(|p: (usize, usize)| (p.0 as int, p.1 as int)) == taplo_errors(text@),
{
    taplo::parser::parse(text)
        .errors
        .into_iter()
        .map(|e| (usize::from(e.range.start()), usize::from(e.range.end())))
        .collect()
}

/// `taplo::formatter::format(source, Options::default())`: the result is
/// named by the text alone. It is only called on text taplo parses without
/// errors; on other text the formatter keeps the ranges with errors as they
/// are, and its code then unwraps parts of entries that a malformed entry may
/// lack, so nothing is claimed there.
#[verifier::external_body]
pub fn format_toml(source: &str) -> (r: String)
    requires
        taplo_errors(source@).len() == 0,
    ensures
        r@ == taplo_formatted(source@),
{
    taplo::formatter::format(source, taplo::formatter::Options::default())
}

impl TomlEditor {
    /// Format TOML with taplo's defaults.
    pub fn format_code(&self, source: &str) -> (r: String)
        requires
            taplo_errors(source@).len() == 0,
        ensures
            r@ == taplo_formatted(source@),
    {
        format_toml(source)
    }

    /// Format TOML with taplo's defaults when taplo finds no syntax errors in
    /// it; `None` when it does.
    pub fn format_checked(&self, source: &str) -> (r: Option<String>)
        ensures
            taplo_errors(source@).len() == 0 ==> (r matches Some(x) && x@ == taplo_formatted(source@)),
            taplo_errors(source@).len() != 0 ==> r is None,
    {
        let errors = parse_error_ranges(source);
        proof {
            assert(errors@.map_values(|p: (usize, usize)| (p.0 as int, p.1 as int)).len() == errors@.len());
        }
        if errors.len() == 0 {
            Some(self.format_code(source))
        } else {
            None
        }
    }
}

/// The line index of a byte offset in `text`, as [`LineConverter`] finds it.
pub open spec fn line_index(text: Seq<char>, offset: int) -> nat {
    newlines_before(text, offset, text.len() as int)
}

/// Byte offsets at which the lines of a text begin.
pub struct LineConverter {
    /// `line_starts[0]` is 0; then one past each line break.
    pub line_starts: Vec<usize>,
}

/// The line starts of the first `n` characters: 0, then one past each line
/// break among them.
pub open spec fn line_starts_upto(text: Seq<char>, n: int) -> Seq<usize>
    decreases n,
{
    if n <= 0 {
        seq![0usize]
    } else {
        let before = line_starts_upto(text, n - 1);
        if text[n - 1] == '\n' {
            before.push((byte_at(text, n - 1) + 1) as usize)
        } else {
            before
        }
    }
}

impl LineConverter {
    /// The line starts of `text`.
    pub fn new(text: &str) -> (c: Self)
        ensures
            c.line_starts@ == line_starts_upto(text@, text@.len() as int),
    {
        let c = chars_of(text);
        let _total = crate::text::str_byte_len(text);
        let offsets = crate::text::byte_offsets(&c);
        let mut starts: Vec<usize> = Vec::new();
        starts.push(0);
        let mut i: usize = 0;
        while i < c.len()
            invariant
                i <= c@.len(),
                c@ == text@,
                offsets@.len() == c@.len() + 1,
                forall|q: int| 0 <= q <= c@.len() ==> offsets@[q] == byte_at(c@, q),
                starts@ == line_starts_upto(c@, i as int),
            decreases c@.len() - i,
        {
            if c[i] == '\n' {
                proof {
                    crate::text::lemma_byte_at_mono(c@, i as int, i + 1);
                    crate::text::lemma_byte_len_push(c@.take(i as int), c@[i as int]);
                    assert(c@.take(i + 1) =~= c@.take(i as int).push(c@[i as int]));
                }
                starts.push(offsets[i] + 1);
            }
            i += 1;
        }
        LineConverter { line_starts: starts }
    }

    /// The zero-based line of a byte offset: how many line starts after the
    /// first lie at or before it.
    pub fn textsize_to_line(&self, offset: usize) -> (l: usize)
        ensures
            l as int == (if count_at_most(self.line_starts@, offset as int, self.line_starts@.len() as int) > 0 {
                count_at_most(self.line_starts@, offset as int, self.line_starts@.len() as int) - 1
            } else {
                0
            }),
            l == 0 || l < self.line_starts@.len(),
    {
        let mut n: usize = 0;
        let mut i: usize = 0;
        while i < self.line_starts.len()
            invariant
                i <= self.line_starts@.len(),
                n == count_at_most(self.line_starts@, offset as int, i as int),
                n <= i,
            decreases self.line_starts@.len() - i,
        {
            if self.line_starts[i] <= offset {
                n += 1;
            }
            i += 1;
        }
        if n > 0 {
            n - 1
        } else {
            0
        }
    }

    /// The lines a byte range spans, end-inclusive, as `start..end + 1`.
    pub fn range_to_lines(&self, start: usize, end: usize) -> (r: (usize, usize))
        ensures
            r.0 as int == (if count_at_most(self.line_starts@, start as int, self.line_starts@.len() as int) > 0 {
                count_at_most(self.line_starts@, start as int, self.line_starts@.len() as int) - 1
            } else {
                0
            }),
            r.1 as int == (if count_at_most(self.line_starts@, end as int, self.line_starts@.len() as int) > 0 {
                count_at_most(self.line_starts@, end as int, self.line_starts@.len() as int) - 1
            } else {
                0
            }) + 1,
    {
        let a = self.textsize_to_line(start);
        let b = self.textsize_to_line(end);
        let _n = self.line_starts.len();
        (a, b + 1)
    }
}

/// How many of the first `n` values of `v` are at most `x`.
pub open spec fn count_at_most(v: Seq<usize>, x: int, n: int) -> nat
    decreases n,
{
    if n <= 0 {
        0
    } else {
        count_at_most(v, x, n - 1) + if v[n - 1] <= x {
            1nat
        } else {
            0nat
        }
    }
}

/// How many bytes a placement deletes.
pub open spec fn deleted_bytes(e: EditView) -> int {
    match e.end {
        Some(end) => if end >= e.start {
            end - e.start
        } else {
            0
        },
        None => 0,
    }
}

/// `x` placed after every element of the sorted `ys` that deletes no more
/// than it.
pub open spec fn insert_by_deleted(x: EditView, ys: Seq<EditView>) -> Seq<EditView>
    decreases ys.len(),
{
    if ys.len() == 0 {
        seq![x]
    } else if deleted_bytes(ys.last()) <= deleted_bytes(x) {
        ys.push(x)
    } else {
        insert_by_deleted(x, ys.drop_last()).push(ys.last())
    }
}

/// The placements stably sorted by how many bytes they delete, fewest first.
pub open spec fn least_destructive_first(xs: Seq<EditView>) -> Seq<EditView>
    decreases xs.len(),
{
    if xs.len() == 0 {
        seq![]
    } else {
        insert_by_deleted(xs.last(), least_destructive_first(xs.drop_last()))
    }
}

/// The placements delete no fewer bytes as they go.
pub open spec fn by_deleted(s: Seq<EditView>) -> bool {
    forall|i: int, j: int| 0 <= i < j < s.len() ==> deleted_bytes(#[trigger] s[i]) <= deleted_bytes(#[trigger] s[j])
}

proof fn lemma_insert_by_deleted(x: EditView, ys: Seq<EditView>)
    requires
        by_deleted(ys),
    ensures
        by_deleted(insert_by_deleted(x, ys)),
        insert_by_deleted(x, ys).to_multiset() =~= ys.to_multiset().insert(x),
        forall|k: int|
            0 <= k < insert_by_deleted(x, ys).len() ==> #[trigger] insert_by_deleted(x, ys)[k] == x || ys.contains(
                insert_by_deleted(x, ys)[k],
            ),
    decreases ys.len(),
{
    broadcast use vstd::seq_lib::group_to_multiset_ensures;
    broadcast use vstd::multiset::group_multiset_axioms;

    if ys.len() == 0 {
        assert(seq![x] =~= Seq::<EditView>::empty().push(x));
        assert(Seq::<EditView>::empty().to_multiset() =~= Multiset::<EditView>::empty());
    } else if deleted_bytes(ys.last()) <= deleted_bytes(x) {
        let r = ys.push(x);
        assert forall|k: int| 0 <= k < r.len() implies #[trigger] r[k] == x || ys.contains(r[k]) by {
            if k < ys.len() {
                assert(r[k] == ys[k]);
            }
        }
    } else {
        let d = ys.drop_last();
        let inner = insert_by_deleted(x, d);
        assert(by_deleted(d));
        lemma_insert_by_deleted(x, d);
        let r = inner.push(ys.last());
        assert forall|k: int| 0 <= k < inner.len() implies deleted_bytes(#[trigger] inner[k]) <= deleted_bytes(ys.last()) by {
            if inner[k] != x {
                assert(d.contains(inner[k]));
                let m = choose|m: int| 0 <= m < d.len() && d[m] == inner[k];
                assert(ys[m] == d[m]);
            }
        }
        assert forall|i: int, j: int| 0 <= i < j < r.len() implies deleted_bytes(#[trigger] r[i]) <= deleted_bytes(#[trigger] r[j]) by {
            assert(r[i] == inner[i]);
            if j < inner.len() {
                assert(r[j] == inner[j]);
            }
        }
        assert forall|k: int| 0 <= k < r.len() implies #[trigger] r[k] == x || ys.contains(r[k]) by {
            if k < inner.len() {
                assert(r[k] == inner[k]);
                if inner[k] != x {
                    let m = choose|m: int| 0 <= m < d.len() && d[m] == inner[k];
                    assert(ys[m] == d[m]);
                }
            } else {
                assert(r[k] == ys[ys.len() - 1]);
            }
        }
        assert(ys =~= d.push(ys.last()));
        assert(r.to_multiset() =~= ys.to_multiset().insert(x));
    }
}

/// Ordering placements least destructive first keeps every placement, as
/// often as it came, and leaves them ordered by how many bytes they delete,
/// fewest first.
pub proof fn law_least_destructive_first_sorts(xs: Seq<EditView>)
    ensures
        by_deleted(least_destructive_first(xs)),
        least_destructive_first(xs).to_multiset() =~= xs.to_multiset(),
    decreases xs.len(),
{
    broadcast use vstd::seq_lib::group_to_multiset_ensures;

    if xs.len() == 0 {
        assert(xs.to_multiset() =~= Multiset::<EditView>::empty());
        assert(Seq::<EditView>::empty().to_multiset() =~= Multiset::<EditView>::empty());
    } else {
        law_least_destructive_first_sorts(xs.drop_last());
        lemma_insert_by_deleted(xs.last(), least_destructive_first(xs.drop_last()));
        assert(xs =~= xs.drop_last().push(xs.last()));
    }
}

proof fn lemma_insert_split(x: EditView, ys: Seq<EditView>, j: int)
    requires
        0 <= j <= ys.len(),
        forall|k: int| j <= k < ys.len() ==> deleted_bytes(#[trigger] ys[k]) > deleted_bytes(x),
        j == 0 || deleted_bytes(ys[j - 1]) <= deleted_bytes(x),
    ensures
        insert_by_deleted(x, ys) == ys.take(j).push(x) + ys.skip(j),
    decreases ys.len(),
{
    if ys.len() == 0 {
        assert(ys.take(j).push(x) + ys.skip(j) =~= seq![x]);
    } else if j == ys.len() {
        assert(ys.take(j).push(x) + ys.skip(j) =~= ys.push(x));
    } else {
        lemma_insert_split(x, ys.drop_last(), j);
        assert(ys.drop_last().take(j) =~= ys.take(j));
        assert((ys.take(j).push(x) + ys.drop_last().skip(j)).push(ys.last()) =~= ys.take(j).push(x) + ys.skip(j));
    }
}

/// The position at which a placement deleting `dx` bytes goes into `sorted`.
fn insertion_point(sorted: &Vec<Edit>, dx: usize, x: Ghost<EditView>) -> (j: usize)
    requires
        deleted_bytes(x@) == dx,
    ensures
        j <= sorted@.len(),
        insert_by_deleted(x@, edit_views(sorted@)) == edit_views(sorted@).take(j as int).push(x@) + edit_views(sorted@).skip(j as int),
{
    let mut j: usize = sorted.len();
    while j > 0
        invariant_except_break
            j <= sorted@.len(),
            forall|k: int| j <= k < sorted@.len() ==> deleted_bytes(#[trigger] edit_views(sorted@)[k]) > dx,
        ensures
            j <= sorted@.len(),
            forall|k: int| j <= k < sorted@.len() ==> deleted_bytes(#[trigger] edit_views(sorted@)[k]) > dx,
            j == 0 || deleted_bytes(edit_views(sorted@)[j - 1]) <= dx,
        decreases j,
    {
        let y = &sorted[j - 1];
        let dy = match y.position.end_byte {
            Some(e) => if e >= y.position.start_byte {
                e - y.position.start_byte
            } else {
                0
            },
            None => 0,
        };
        assert(edit_views(sorted@)[j - 1] == y@);
        if dy <= dx {
            break;
        }
        j -= 1;
    }
    proof {
        lemma_insert_split(x@, edit_views(sorted@), j as int);
    }
    j
}

/// Sort placements by how many bytes they delete, fewest first, keeping the
/// order of placements that delete as much.
pub fn sort_least_destructive(xs: Vec<Edit>) -> (v: Vec<Edit>)
    ensures
        edit_views(v@) == least_destructive_first(edit_views(xs@)),
{
    let mut sorted: Vec<Edit> = Vec::new();
    let mut i: usize = 0;
    while i < xs.len()
        invariant
            i <= xs@.len(),
            edit_views(sorted@) == least_destructive_first(edit_views(xs@.take(i as int))),
        decreases xs@.len() - i,
    {
        let x = xs[i].duplicate();
        let dx = match x.position.end_byte {
            Some(e) => if e >= x.position.start_byte {
                e - x.position.start_byte
            } else {
                0
            },
            None => 0,
        };
        let j = insertion_point(&sorted, dx, Ghost(x@));
        let ghost before = sorted@;
        sorted.insert(j, x);
        proof {
            assert(edit_views(sorted@) =~= edit_views(before).take(j as int).push(x@) + edit_views(before).skip(j as int));
            assert(edit_views(xs@.take(i + 1)).drop_last() =~= edit_views(xs@.take(i as int)));
            assert(edit_views(xs@.take(i + 1)).last() == x@);
        }
        i += 1;
    }
    assert(xs@.take(i as int) =~= xs@);
    sorted
}

/// The zero-based line of byte `x` under line starts `v`.
pub open spec fn line_under(v: Seq<usize>, x: int) -> int {
    if count_at_most(v, x, v.len() as int) > 0 {
        count_at_most(v, x, v.len() as int) - 1
    } else {
        0
    }
}

/// The lines `from..to`, in order.
pub open spec fn line_range(from: int, to: int) -> Seq<usize>
    decreases to - from,
{
    if from >= to {
        seq![]
    } else {
        seq![from as usize] + line_range(from + 1, to)
    }
}

/// The lines of the error ranges among the first `n`, each range end-inclusive.
pub open spec fn error_lines_upto(v: Seq<usize>, errs: Seq<(int, int)>, n: int) -> Seq<usize>
    decreases n,
{
    if n <= 0 {
        seq![]
    } else {
        error_lines_upto(v, errs, n - 1) + line_range(line_under(v, errs[n - 1].0), line_under(v, errs[n - 1].1) + 1)
    }
}

/// The lines on which taplo reports errors in `text`.
pub open spec fn toml_error_lines(text: Seq<char>) -> Seq<usize> {
    let v = line_starts_upto(text, text.len() as int);
    error_lines_upto(v, taplo_errors(text), taplo_errors(text).len() as int)
}

impl TomlEditor {
    /// The lines of `content` with TOML syntax errors, as taplo finds them.
    pub fn collect_errors(&self, content: &str) -> (v: Vec<usize>)
        ensures
            v@ == toml_error_lines(content@),
    {
        let converter = LineConverter::new(content);
        let errs = parse_error_ranges(content);
        let ghost es = taplo_errors(content@);
        let mut v: Vec<usize> = Vec::new();
        let mut i: usize = 0;
        while i < errs.len()
            invariant
                i <= errs@.len(),
                es == errs@.map_values(|p: (usize, usize)| (p.0 as int, p.1 as int)),
                converter.line_starts@ == line_starts_upto(content@, content@.len() as int),
                v@ == error_lines_upto(converter.line_starts@, es, i as int),
            decreases errs@.len() - i,
        {
            let (a, b) = errs[i];
            let (from, to) = converter.range_to_lines(a, b);
            let ghost before = v@;
            let mut l = from;
            while l < to
                invariant
                    from <= l <= to || from >= to,
                    v@ + line_range(l as int, to as int) == before + line_range(from as int, to as int),
                decreases to - l,
            {
                v.push(l);
                proof {
                    assert(line_range(l as int, to as int) =~= seq![l] + line_range(l + 1, to as int));
                }
                l += 1;
            }
            proof {
                assert(line_range(l as int, to as int) =~= Seq::<usize>::empty());
                assert(v@ =~= before + line_range(from as int, to as int));
            }
            i += 1;
        }
        v
    }
}

} // verus!
