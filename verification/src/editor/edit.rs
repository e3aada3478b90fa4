//! A candidate placement of an edit.
use vstd::prelude::*;
use crate::editor::EditPosition;
use crate::searcher::{find_char_positions, found, law_matches_equal_snippet_modulo_whitespace};
use crate::text::{byte_at, chars_of, region, slice_chars, string_from_chars, text_between};

verus! {

/// A candidate placement: where the content goes, the content itself (which
/// may be adjusted per placement), and how the placement was found.
#[derive(Debug, Clone)]
pub struct Edit {
    pub position: EditPosition,
    pub content: String,
    /// The byte range of the anchor match this placement came from.
    pub anchor_hit: Option<(usize, usize)>,
    /// The syntax nodes (table indices) the placement covers.
    pub nodes: Option<Vec<usize>>,
    /// Which rule produced the placement.
    pub annotation: Option<&'static str>,
}

/// An edit placement as values.
pub struct EditView {
    pub start: int,
    pub end: Option<int>,
    pub content: Seq<char>,
    pub hit: Option<(int, int)>,
    pub nodes: Option<Seq<usize>>,
    pub annotation: Option<Seq<char>>,
}

impl View for Edit {
    type V = EditView;

    open spec fn view(&self) -> EditView {
        EditView {
            start: self.position.start_byte as int,
            end: match self.position.end_byte {
                Some(e) => Some(e as int),
                None => None,
            },
            content: self.content@,
            hit: match self.anchor_hit {
                Some(h) => Some((h.0 as int, h.1 as int)),
                None => None,
            },
            nodes: match self.nodes {
                Some(n) => Some(n@),
                None => None,
            },
            annotation: match self.annotation {
                Some(a) => Some(a@),
                None => None,
            },
        }
    }
}

/// The views of a sequence of edits.
pub open spec fn edit_views(v: Seq<Edit>) -> Seq<EditView> {
    v.map_values(|e: Edit| e@)
}

/// The placement turned into an insertion before it: content that repeats
/// the covered text is cut off at the last repetition.
pub open spec fn before_view(x: EditView, src: Seq<char>) -> EditView {
    let content = match x.end {
        Some(e) => match region(src, x.start, e) {
            Some(r) => {
                let f = found(x.content, r);
                if f.len() > 0 {
                    x.content.take(f.last().0)
                } else {
                    x.content
                }
            },
            None => x.content,
        },
        None => x.content,
    };
    EditView { start: x.start, end: None, content, hit: x.hit, nodes: x.nodes, annotation: x.annotation }
}

/// The placement turned into an insertion after it: content that repeats
/// the covered text keeps only what follows the first repetition. A
/// placement without a covered text gives nothing.
pub open spec fn after_view(x: EditView, src: Seq<char>) -> Option<EditView> {
    match x.end {
        None => None,
        Some(e) => match region(src, x.start, e) {
            None => None,
            Some(r) => {
                let f = found(x.content, r);
                let content = if f.len() > 0 {
                    x.content.skip(f[0].1)
                } else {
                    x.content
                };
                Some(EditView { start: e, end: None, content, hit: x.hit, nodes: x.nodes, annotation: x.annotation })
            },
        },
    }
}

/// A copy of a list of node indices.
pub fn copy_indices(v: &Vec<usize>) -> (w: Vec<usize>)
    ensures
        w@ == v@,
{
    let mut w: Vec<usize> = Vec::new();
    let mut i: usize = 0;
    while i < v.len()
        invariant
            i <= v@.len(),
            w@ == v@.take(i as int),
        decreases v@.len() - i,
    {
        w.push(v[i]);
        i += 1;
        assert(w@ =~= v@.take(i as int));
    }
    assert(v@.take(i as int) =~= v@);
    w
}

impl Edit {
    /// A copy of this placement.
    pub fn duplicate(&self) -> (e: Edit)
        ensures
            e@ == self@,
    {
        Edit {
            position: self.position,
            content: self.content.clone(),
            anchor_hit: self.anchor_hit,
            nodes: match &self.nodes {
                Some(n) => Some(copy_indices(n)),
                None => None,
            },
            annotation: self.annotation,
        }
    }

    /// The same placement with other content.
    pub fn with_content(self, content: String) -> (e: Edit)
        ensures
            e@ == (EditView { content: content@, ..self@ }),
    {
        Edit { content, ..self }
    }

    /// The same placement, covering up to byte `end_byte`.
    pub fn with_end_byte(self, end_byte: usize) -> (e: Edit)
        ensures
            e@ == (EditView { end: Some(end_byte as int), ..self@ }),
    {
        Edit { position: EditPosition { start_byte: self.position.start_byte, end_byte: Some(end_byte) }, ..self }
    }

    /// The same placement, attributed to another rule.
    pub fn with_annotation(self, annotation: &'static str) -> (e: Edit)
        ensures
            e@ == (EditView { annotation: Some(annotation@), ..self@ }),
    {
        Edit { annotation: Some(annotation), ..self }
    }

    /// The text the placement covers, when its ends are character boundaries
    /// in order.
    pub fn edit_region(&self, src: &Vec<char>, offsets: &Vec<usize>) -> (r: Option<Vec<char>>)
        requires
            offsets@.len() == src@.len() + 1,
            forall|q: int| 0 <= q <= src@.len() ==> offsets@[q] == byte_at(src@, q),
        ensures
            match (r, self@.end) {
                (Some(x), Some(e)) => region(src@, self@.start, e) == Some(x@),
                (None, Some(e)) => region(src@, self@.start, e) is None,
                (None, None) => true,
                _ => false,
            },
    {
        match self.position.end_byte {
            None => None,
            Some(e) => text_between(src, offsets, self.position.start_byte, e),
        }
    }

    /// Turn the placement into an insertion before what it covers.
    pub fn insert_before(self, src: &Vec<char>, offsets: &Vec<usize>) -> (e: Edit)
        requires
            offsets@.len() == src@.len() + 1,
            forall|q: int| 0 <= q <= src@.len() ==> offsets@[q] == byte_at(src@, q),
        ensures
            e@ == before_view(self@, src@),
    {
        let region = self.edit_region(src, offsets);
        let mut content = self.content;
        if let Some(r) = region {
            let c = chars_of(content.as_str());
            let hits = find_char_positions(&c, &r);
            if hits.len() > 0 {
                let (k, _) = hits[hits.len() - 1];
                proof {
                    law_matches_equal_snippet_modulo_whitespace(c@, r@, hits@.len() - 1);
                }
                content = string_from_chars(&slice_chars(&c, 0, k));
                proof {
                    assert(content@ =~= c@.take(k as int));
                }
            }
        }
        Edit {
            position: EditPosition { start_byte: self.position.start_byte, end_byte: None },
            content,
            anchor_hit: self.anchor_hit,
            nodes: self.nodes,
            annotation: self.annotation,
        }
    }

    /// Turn the placement into an insertion after what it covers; `None` for
    /// a placement that covers no text.
    pub fn insert_after(self, src: &Vec<char>, offsets: &Vec<usize>) -> (e: Option<Edit>)
        requires
            offsets@.len() == src@.len() + 1,
            forall|q: int| 0 <= q <= src@.len() ==> offsets@[q] == byte_at(src@, q),
        ensures
            match (e, after_view(self@, src@)) {
                (Some(x), Some(y)) => x@ == y,
                (None, None) => true,
                _ => false,
            },
    {
        let r = match self.edit_region(src, offsets) {
            Some(r) => r,
            None => {
                return None;
            },
        };
        let end = match self.position.end_byte {
            Some(e) => e,
            None => {
                return None;
            },
        };
        let mut content = self.content;
        let c = chars_of(content.as_str());
        let hits = find_char_positions(&c, &r);
        if hits.len() > 0 {
            let (_, k) = hits[0];
            proof {
                law_matches_equal_snippet_modulo_whitespace(c@, r@, 0);
            }
            content = string_from_chars(&slice_chars(&c, k, c.len()));
            proof {
                assert(content@ =~= c@.skip(k as int));
            }
        }
        Some(
            Edit {
                position: EditPosition { start_byte: end, end_byte: None },
                content,
                anchor_hit: self.anchor_hit,
                nodes: self.nodes,
                annotation: self.annotation,
            },
        )
    }
}

} // verus!
