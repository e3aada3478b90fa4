//! The ECMAScript family and JSON: comma-separated members.
use vstd::prelude::*;
use crate::editor::edit::{Edit, EditView, edit_views};
use crate::text::{chars_of, push_str};

verus! {

/// Edits JSON files.
#[derive(Debug, Clone, Copy)]
pub struct JsonEditor;

impl JsonEditor {
    pub fn new() -> (e: Self) {
        JsonEditor
    }
}

/// The comma variants of the placements among the first `n`: a trailing
/// comma unless the content already ends with one, then a leading comma
/// unless it already starts with one.
pub open spec fn comma_variants(xs: Seq<EditView>, n: int) -> Seq<EditView>
    decreases n,
{
    if n <= 0 {
        seq![]
    } else {
        let x = xs[n - 1];
        let c = x.content;
        let trailing = if c.len() > 0 && c.last() == ',' {
            seq![]
        } else {
            seq![EditView { content: c + ","@, annotation: Some("trailing comma"@), ..x }]
        };
        let leading = if c.len() > 0 && c[0] == ',' {
            seq![]
        } else {
            seq![EditView { content: ","@ + c, annotation: Some("leading comma"@), ..x }]
        };
        comma_variants(xs, n - 1) + trailing + leading
    }
}

/// The placements followed by their comma variants, so an insert into a
/// comma-separated list can pick up the separator.
pub fn with_comma_variants(edits: Vec<Edit>) -> (v: Vec<Edit>)
    ensures
        edit_views(v@) == edit_views(edits@) + comma_variants(edit_views(edits@), edits@.len() as int),
{
    let mut variants: Vec<Edit> = Vec::new();
    let ghost xs = edit_views(edits@);
    let mut i: usize = 0;
    while i < edits.len()
        invariant
            i <= edits@.len(),
            xs == edit_views(edits@),
            edit_views(variants@) == comma_variants(xs, i as int),
        decreases edits@.len() - i,
    {
        let e = &edits[i];
        let c = chars_of(e.content.as_str());
        let ghost before = variants@;
        assert(xs[i as int] == e@);
        if !(c.len() > 0 && c[c.len() - 1] == ',') {
            let mut t = e.content.clone();
            push_str(&mut t, ",");
            variants.push(e.duplicate().with_content(t).with_annotation("trailing comma"));
        }
        let ghost mid = variants@;
        if !(c.len() > 0 && c[0] == ',') {
            let mut t = String::new();
            push_str(&mut t, ",");
            push_str(&mut t, e.content.as_str());
            variants.push(e.duplicate().with_content(t).with_annotation("leading comma"));
        }
        proof {
            assert(edit_views(variants@) =~= comma_variants(xs, i + 1));
        }
        i += 1;
    }
    let mut all = edits;
    let ghost a = all@;
    let ghost b = variants@;
    all.append(&mut variants);
    proof {
        assert(edit_views(a + b) =~= edit_views(a) + edit_views(b));
    }
    all
}

/// `y` is the placement `x` with its content replaced by `c`.
pub open spec fn same_placement_with(y: EditView, x: EditView, c: Seq<char>) -> bool {
    &&& y.content == c
    &&& y.start == x.start
    &&& y.end == x.end
    &&& y.hit == x.hit
    &&& y.nodes == x.nodes
}

proof fn lemma_comma_variants_prefix(xs: Seq<EditView>, m: int, n: int)
    requires
        0 <= m <= n,
    ensures
        comma_variants(xs, m).len() <= comma_variants(xs, n).len(),
        forall|j: int| 0 <= j < comma_variants(xs, m).len() ==> #[trigger] comma_variants(xs, n)[j] == comma_variants(xs, m)[j],
    decreases n - m,
{
    if m < n {
        lemma_comma_variants_prefix(xs, m, n - 1);
        let a = comma_variants(xs, n - 1);
        assert forall|j: int| 0 <= j < a.len() implies #[trigger] comma_variants(xs, n)[j] == a[j] by {}
    }
}

/// Every placement of a comma-separated language gets its comma variants:
/// unless its content already ends with a comma, the same placement with a
/// comma after the content, and unless it already starts with one, the same
/// placement with a comma before it. An insert after the last member of a
/// list thus has a candidate that separates it from that member.
pub proof fn law_every_placement_gets_its_comma_variants(xs: Seq<EditView>, i: int)
    requires
        0 <= i < xs.len(),
    ensures
        !(xs[i].content.len() > 0 && xs[i].content.last() == ',') ==> exists|j: int|
            0 <= j < comma_variants(xs, xs.len() as int).len() && same_placement_with(
                #[trigger] comma_variants(xs, xs.len() as int)[j],
                xs[i],
                xs[i].content + ","@,
            ),
        !(xs[i].content.len() > 0 && xs[i].content[0] == ',') ==> exists|j: int|
            0 <= j < comma_variants(xs, xs.len() as int).len() && same_placement_with(
                #[trigger] comma_variants(xs, xs.len() as int)[j],
                xs[i],
                ","@ + xs[i].content,
            ),
{
    let n = xs.len() as int;
    lemma_comma_variants_prefix(xs, i + 1, n);
    let before = comma_variants(xs, i);
    let upto = comma_variants(xs, i + 1);
    let c = xs[i].content;
    let has_trailing = !(c.len() > 0 && c.last() == ',');
    if has_trailing {
        let j = before.len() as int;
        assert(upto[j] == EditView { content: c + ","@, annotation: Some("trailing comma"@), ..xs[i] });
        assert(comma_variants(xs, n)[j] == upto[j]);
    }
    if !(c.len() > 0 && c[0] == ',') {
        let j = before.len() + if has_trailing { 1int } else { 0int };
        assert(upto[j] == EditView { content: ","@ + c, annotation: Some("leading comma"@), ..xs[i] });
        assert(comma_variants(xs, n)[j] == upto[j]);
    }
}

} // verus!
