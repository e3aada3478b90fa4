//! The editor: a file's source with its syntax tree, and an edit to run
//! against it.
use vstd::prelude::*;
use crate::editor::EditPosition;
use crate::state::{AppliedEdit, StagedOperation};
use crate::editor::diff::{clean_diff, clean_diff_text, focused_diff, focused_diff_spec};
use crate::editor::edit::{Edit, EditView, edit_views};
use crate::editor::edit_iterator::{
    find_edits, found_edits_error, found_edits_ok, operation_edits, edits_for_operation, placement,
    anchor_missing_message,
};
use crate::searcher::{find_char_positions, found, law_matches_equal_snippet_modulo_whitespace};
use crate::languages::ecma::{comma_variants, with_comma_variants};
use crate::languages::toml::{least_destructive_first, sort_least_destructive};
use crate::selector::{anchor_view, selector_problem};
use crate::text::{trim, trim_range};
use crate::editor::report::{error_rows_upto, syntax_errors_report, syntax_report, tree_error_rows};
use crate::item::{
    line_at, offsets_of, resolve, resolved_as, with_kind, with_name, named_items, opt_view,
    ResolvedItem, leading, describe_node, prev_description, next_description,
};
use crate::syntax::SyntaxNode;
use crate::languages::{LanguageName, language_text};
use crate::languages::toml::{TomlEditor, taplo_errors, taplo_formatted, toml_error_lines};
use crate::selector::{Operation, Selector};
use crate::syntax::{
    ParsedSource, SyntaxTree, language_code, parse_source, read_tree, tree_of, ts_error, ts_parses,
    ts_missing, ts_node_count, ts_start,
};
use crate::text::{
    byte_at, byte_offsets, char_index_from, char_index_of_byte, chars_of, lemma_char_index_bound,
    push_chars, push_str, slice_chars, str_byte_len, string_from_chars,
};
use crate::item::{newlines_before, join, join_strings, line_at_exec, chars_equal};
use crate::indentation::lines_in;
use crate::text::{decimal, push_decimal, line_spans_of};

verus! {

/// A file's source parsed with its language's grammar, plus the content and
/// target of one edit.
pub struct Editor {
    pub(crate) content: String,
    pub(crate) selector: Selector,
    pub(crate) file_path: String,
    pub(crate) language: LanguageName,
    pub(crate) source_code: String,
    /// The parse and its node table; none for plain text.
    pub(crate) grammar: Option<(ParsedSource, SyntaxTree)>,
}

/// The rows with syntax errors in `src` as tree-sitter parses it with
/// grammar `lang`, among the first `n` nodes.
pub open spec fn parse_error_rows_upto(lang: int, src: Seq<char>, n: int) -> Seq<usize>
    decreases n,
{
    if n <= 0 {
        seq![]
    } else {
        let before = parse_error_rows_upto(lang, src, n - 1);
        if ts_error(lang, src, n - 1) || ts_missing(lang, src, n - 1) {
            before.push(newlines_before(src, ts_start(lang, src, n - 1), src.len() as int) as usize)
        } else {
            before
        }
    }
}

/// The rows with syntax errors in `src` for language `l`: taplo's error
/// lines for TOML, the rows of error and missing nodes for a grammar,
/// nothing for plain text.
pub open spec fn error_rows_for(l: LanguageName, src: Seq<char>) -> Seq<usize> {
    if l == LanguageName::Toml {
        toml_error_lines(src)
    } else if l == LanguageName::Other {
        seq![]
    } else {
        parse_error_rows_upto(language_code(l), src, ts_node_count(language_code(l), src) as int)
    }
}

proof fn lemma_error_rows_named(t: SyntaxTree, p: ParsedSource, n: int)
    requires
        tree_of(t, p),
        0 <= n <= t.nodes@.len(),
    ensures
        error_rows_upto(t.nodes@, p.src(), n) == parse_error_rows_upto(p.lang(), p.src(), n),
    decreases n,
{
    if n > 0 {
        lemma_error_rows_named(t, p, n - 1);
        assert(t.reads(p.lang(), p.src(), n - 1));
    }
}

impl Editor {
    /// The editor's parse agrees with its source and language.
    pub closed spec fn inv(&self) -> bool {
        &&& self.source_code@.len() < usize::MAX
        &&& match self.grammar {
            Some((p, t)) => tree_of(t, p) && p.src() == self.source_code@ && p.lang() == language_code(self.language)
                && self.language != LanguageName::Other,
            None => self.language == LanguageName::Other,
        }
    }

    /// The file's text.
    pub closed spec fn source(&self) -> Seq<char> {
        self.source_code@
    }

    /// A well-formed editor's source has fewer than `usize::MAX` characters.
    pub proof fn lemma_source_fits(&self)
        requires
            self.inv(),
        ensures
            self.source().len() < usize::MAX,
    {
    }

    /// The edit's content.
    pub closed spec fn new_content(&self) -> Seq<char> {
        self.content@
    }

    /// The edit's target.
    pub closed spec fn target(&self) -> Selector {
        self.selector
    }

    /// The file's language.
    pub closed spec fn lang(&self) -> LanguageName {
        self.language
    }

    /// The file's text.
    pub fn source_code(&self) -> (s: &str)
        ensures
            s@ == self.source(),
    {
        self.source_code.as_str()
    }

    /// The edit's content.
    pub fn content(&self) -> (s: &str)
        ensures
            s@ == self.new_content(),
    {
        self.content.as_str()
    }

    /// The edit's target.
    pub fn selector(&self) -> (s: &Selector)
        ensures
            *s == self.target(),
    {
        &self.selector
    }

    /// The file's language.
    pub fn language(&self) -> (l: LanguageName)
        ensures
            l == self.lang(),
    {
        self.language
    }

    /// The file's path.
    pub closed spec fn path(&self) -> Seq<char> {
        self.file_path@
    }

    /// The file's path.
    pub fn file_path(&self) -> (s: &str)
        ensures
            s@ == self.path(),
    {
        self.file_path.as_str()
    }

    /// The record of this edit once `output` was written to its file: the
    /// edit, and the file's text before and after.
    pub fn applied_record(&self, output: String) -> (r: AppliedEdit)
        ensures
            r.pre_edit_source@ == self.source(),
            r.post_edit_source@ == output@,
            r.operation.selector == self.target(),
            r.operation.content@ == self.new_content(),
            r.operation.file_path@ == self.path(),
            r.operation.language_name == self.lang(),
            r.operation.edit_position is None,
    {
        AppliedEdit {
            operation: StagedOperation {
                selector: self.selector.duplicate(),
                content: self.content.clone(),
                file_path: self.file_path.clone(),
                language_name: self.language,
                edit_position: None,
            },
            pre_edit_source: self.source_code.clone(),
            post_edit_source: output,
        }
    }

    /// Set up an edit of `source_code` (the text of `file_path`), parsing it
    /// with the language's grammar; plain text is not parsed. A parse that
    /// fails, or does not read as a tree, is an error.
    pub fn from_source(
        content: String,
        selector: Selector,
        language: LanguageName,
        file_path: String,
        source_code: String,
    ) -> (r: Result<Editor, String>)
        requires
            source_code@.len() < usize::MAX,
        ensures
            match r {
                Ok(e) => e.inv() && e.source() == source_code@ && e.new_content() == content@
                    && e.target() == selector && e.lang() == language && e.path() == file_path@,
                Err(m) => m@ == "Unable to parse "@ + file_path@ + " as "@ + language_text(language),
            },
            language == LanguageName::Other ==> r is Ok,
            language != LanguageName::Other ==> (r is Ok <==> crate::syntax::parses_as_tree(language_code(language), source_code@)),
    {
        if language == LanguageName::Other {
            return Ok(Editor { content, selector, file_path, language, source_code, grammar: None });
        }
        let parsed = parse_source(language, source_code.as_str());
        let tree = match &parsed {
            Some(p) => read_tree(p),
            None => None,
        };
        proof {
            if crate::syntax::parses_as_tree(language_code(language), source_code@) {
                assert(parsed is Some);
                assert(tree is Some);
            }
        }
        match (parsed, tree) {
            (Some(p), Some(t)) => {
                proof {
                    assert(crate::syntax::reading_of(t, language_code(language), source_code@));
                }
                Ok(Editor { content, selector, file_path, language, source_code, grammar: Some((p, t)) })
            },
            _ => {
                let mut m = String::new();
                push_str(&mut m, "Unable to parse ");
                push_str(&mut m, file_path.as_str());
                push_str(&mut m, " as ");
                push_str(&mut m, language.as_str());
                Err(m)
            },
        }
    }
}

/// The rows with syntax errors in `text` for language `l`, computed; `None`
/// when the text does not parse.
pub fn error_rows_of(l: LanguageName, text: &str) -> (r: Option<Vec<usize>>)
    requires
        text@.len() < usize::MAX,
    ensures
        r matches Some(v) ==> v@ == error_rows_for(l, text@),
        l == LanguageName::Toml || l == LanguageName::Other ==> r is Some,
        l != LanguageName::Toml && l != LanguageName::Other ==> (r is Some <==> crate::syntax::parses_as_tree(language_code(l), text@)),
{
    if l == LanguageName::Toml {
        let t = TomlEditor::new();
        return Some(t.collect_errors(text));
    }
    if l == LanguageName::Other {
        return Some(Vec::new());
    }
    let p = match parse_source(l, text) {
        Some(p) => p,
        None => {
            return None;
        },
    };
    let t = match read_tree(&p) {
        Some(t) => t,
        None => {
            return None;
        },
    };
    proof {
        assert(crate::syntax::reading_of(t, language_code(l), text@));
    }
    let c = chars_of(text);
    let _n = str_byte_len(text);
    let off = byte_offsets(&c);
    let rows = tree_error_rows(&t, &c, &off);
    proof {
        lemma_error_rows_named(t, p, t.nodes@.len() as int);
    }
    Some(rows)
}

/// The exact spans of the matches `hits` of a plain-text anchor.
pub open spec fn exact_spans(src: Seq<char>, content: Seq<char>, hits: Seq<(int, int)>) -> Seq<EditView>
    decreases hits.len(),
{
    if hits.len() == 0 {
        seq![]
    } else {
        let s = byte_at(src, hits.last().0) as int;
        let e = byte_at(src, hits.last().1) as int;
        exact_spans(src, content, hits.drop_last()).push(placement(s, e, content, (s, e), None, "exact"@))
    }
}

/// The candidates in a plain-text file, which has no syntax nodes: the
/// exact span of each match of the anchor, shaped by the operation. An item
/// reference finds no named items.
pub open spec fn plain_edits(src: Seq<char>, selector: Selector, content: Seq<char>) -> Result<Seq<EditView>, Seq<char>> {
    match selector_problem(anchor_view(selector.anchor), selector.item is Some) {
        Some(m) => Err(m),
        None => match selector.anchor {
            Some(a) => {
                let hits = found(src, trim(a@));
                if hits.len() == 0 {
                    Err(anchor_missing_message(trim(a@)))
                } else {
                    Ok(operation_edits(selector.operation, exact_spans(src, content, hits), src))
                }
            },
            None => {
                let item = selector.item.unwrap();
                Err("No "@ + item.kind@ + " `"@ + item.name@ + "`"@
                    + " in this file, which declares no named items at all — use a text `anchor`. The file was not modified."@)
            },
        },
    }
}

/// The language's adjustment of the candidates: TOML puts the least
/// destructive first, the comma-separated languages add comma variants.
pub open spec fn language_adjusted(l: LanguageName, xs: Seq<EditView>) -> Seq<EditView> {
    if l == LanguageName::Toml {
        least_destructive_first(xs)
    } else if l == LanguageName::Json || l == LanguageName::Javascript || l == LanguageName::Typescript
        || l == LanguageName::Tsx || l == LanguageName::Jsx {
        xs + comma_variants(xs, xs.len() as int)
    } else {
        xs
    }
}

fn plain_candidates(src: &str, selector: &Selector, content: &String) -> (r: Result<Vec<Edit>, String>)
    requires
        src@.len() < usize::MAX,
    ensures
        match (r, plain_edits(src@, *selector, content@)) {
            (Ok(v), Ok(x)) => edit_views(v@) == x,
            (Err(m), Err(x)) => m@ == x,
            _ => false,
        },
{
    selector.validate()?;
    match &selector.anchor {
        Some(anchor) => {
            let c = chars_of(src);
            let _n = str_byte_len(src);
            let off = byte_offsets(&c);
            let ac = chars_of(anchor.as_str());
            let (x, y) = trim_range(&ac, 0, ac.len());
            assert(ac@.subrange(0, ac@.len() as int) =~= ac@);
            let a = slice_chars(&ac, x, y);
            let hits = find_char_positions(&c, &a);
            if hits.len() == 0 {
                let mut m = String::new();
                push_str(&mut m, "Anchor \"");
                push_chars(&mut m, &a);
                push_str(&mut m, "\" not found in source");
                return Err(m);
            }
            let ghost hs = found(c@, a@);
            let mut v: Vec<Edit> = Vec::new();
            let mut j: usize = 0;
            while j < hits.len()
                invariant
                    j <= hits@.len() == hs.len(),
                    hs == found(c@, a@),
                    off@.len() == c@.len() + 1,
                    forall|q: int| 0 <= q <= c@.len() ==> off@[q] == byte_at(c@, q),
                    forall|q: int| 0 <= q < hits@.len() ==> (hits@[q].0 as int, hits@[q].1 as int) == hs[q],
                    edit_views(v@) == exact_spans(c@, content@, hs.take(j as int)),
                decreases hits@.len() - j,
            {
                proof {
                    law_matches_equal_snippet_modulo_whitespace(c@, a@, j as int);
                    assert(hs.take(j + 1).drop_last() =~= hs.take(j as int));
                }
                let (ka, kb) = hits[j];
                let s = off[ka];
                let e = off[kb];
                let ghost vb = v@;
                v.push(Edit {
                    position: EditPosition { start_byte: s, end_byte: Some(e) },
                    content: content.clone(),
                    anchor_hit: Some((s, e)),
                    nodes: None,
                    annotation: Some("exact"),
                });
                proof {
                    assert(edit_views(v@) =~= edit_views(vb).push(v@.last()@));
                }
                j += 1;
            }
            assert(hs.take(j as int) =~= hs);
            Ok(edits_for_operation(selector.operation, v, &c, &off))
        },
        None => {
            let item = match &selector.item {
                Some(i) => i,
                None => {
                    return Err(String::from_str("- supply either `anchor` (text copied from the file) or `item` ({kind, name})"));
                },
            };
            let mut m = String::new();
            push_str(&mut m, "No ");
            let d = item.describe();
            push_str(&mut m, d.as_str());
            push_str(&mut m, " in this file, which declares no named items at all — use a text `anchor`. The file was not modified.");
            Err(m)
        },
    }
}

/// The message for syntax errors already present before the edit.
pub open spec fn prevalidation_message(report: Seq<char>) -> Seq<char> {
    "Syntax error found prior to edit, not attempting.\nSuggestion: Pause and show your human collaborator this context:\n\n"@ + report
}

impl Editor {
    /// The syntax errors already in the file, reported, if any.
    pub fn prevalidate(&self) -> (r: Option<String>)
        requires
            self.inv(),
        ensures
            match r {
                Some(m) => error_rows_for(self.lang(), self.source()).len() > 0
                    && m@ == prevalidation_message(syntax_report(self.source(), error_rows_for(self.lang(), self.source()))),
                None => error_rows_for(self.lang(), self.source()).len() == 0,
            },
    {
        let rows: Vec<usize> = if self.language == LanguageName::Toml {
            let t = TomlEditor::new();
            t.collect_errors(self.source_code.as_str())
        } else {
            match &self.grammar {
                None => Vec::new(),
                Some((p, t)) => {
                    let c = chars_of(self.source_code.as_str());
                    let _n = str_byte_len(self.source_code.as_str());
                    let off = byte_offsets(&c);
                    proof {
                        lemma_error_rows_named(*t, *p, t.nodes@.len() as int);
                    }
                    tree_error_rows(t, &c, &off)
                },
            }
        };
        let c = chars_of(self.source_code.as_str());
        match syntax_errors_report(&c, &rows) {
            None => None,
            Some(report) => {
                let mut m = String::new();
                push_str(&mut m, "Syntax error found prior to edit, not attempting.\nSuggestion: Pause and show your human collaborator this context:\n\n");
                push_str(&mut m, report.as_str());
                Some(m)
            },
        }
    }

    /// The candidate placements of the edit, in the order they are tried:
    /// the selector's candidates (see [`found_edits_ok`]; for plain text,
    /// [`plain_edits`]) as the language adjusts them.
    pub fn build_edits(&self) -> (r: Result<Vec<Edit>, String>)
        requires
            self.inv(),
        ensures
            r matches Ok(v) ==> (self.lang() == LanguageName::Other ==> plain_edits(self.source(), self.target(), self.new_content()) == Ok::<Seq<EditView>, Seq<char>>(edit_views(v@)))
                && (self.lang() != LanguageName::Other && self.lang() != LanguageName::Rust && self.lang() != LanguageName::Python ==> exists|xs: Seq<EditView>| found_edits_ok_for(self, xs) && edit_views(v@) == language_adjusted(self.lang(), xs))
                && (self.lang() == LanguageName::Python ==> exists|xs: Seq<EditView>| found_edits_ok_for(self, xs) && python_build_ok(self, xs, edit_views(v@)))
                && (self.lang() == LanguageName::Rust ==> exists|xs: Seq<EditView>| found_edits_ok_for(self, xs) && rust_build_ok(self, xs, edit_views(v@)))
                && (self.lang() != LanguageName::Other ==> found_edits_error_for(self) is None),
            r matches Err(m) ==> (self.lang() == LanguageName::Other ==> plain_edits(self.source(), self.target(), self.new_content()) == Err::<Seq<EditView>, Seq<char>>(m@))
                && (self.lang() != LanguageName::Other ==> found_edits_error_for(self) == Some(m@)),
    {
        match &self.grammar {
            None => plain_candidates(self.source_code.as_str(), &self.selector, &self.content),
            Some((p, t)) => {
                let xs = match find_edits(p, t, &self.selector, &self.content) {
                    Ok(xs) => xs,
                    Err(m) => {
                        return Err(m);
                    },
                };
                let ghost base = edit_views(xs@);
                let v = if self.language == LanguageName::Rust {
                    let c = chars_of(self.source_code.as_str());
                    let _n = str_byte_len(self.source_code.as_str());
                    let off = byte_offsets(&c);
                    crate::languages::rust::rust_adjust_edits(xs, t, &c, &off, self.selector.operation, self.content.as_str())
                } else if self.language == LanguageName::Python {
                    let c = chars_of(self.source_code.as_str());
                    let _n = str_byte_len(self.source_code.as_str());
                    let off = byte_offsets(&c);
                    crate::languages::python::python_adjust_edits(xs, t, &c, &off)
                } else if self.language == LanguageName::Toml {
                    sort_least_destructive(xs)
                } else if self.language == LanguageName::Json || self.language == LanguageName::Javascript
                    || self.language == LanguageName::Typescript || self.language == LanguageName::Tsx
                    || self.language == LanguageName::Jsx {
                    with_comma_variants(xs)
                } else {
                    xs
                };
                assert(found_edits_ok_for(self, base));
                Ok(v)
            },
        }
    }
}

/// `v` is the Rust adjustment of the candidates `xs` against the parse of the
/// content, or `xs` itself exactly when the content does not parse as a tree.
pub closed spec fn rust_build_ok(e: &Editor, xs: Seq<EditView>, v: Seq<EditView>) -> bool {
    match e.grammar {
        Some((p, t)) => if crate::syntax::parses_as_tree(0, e.content@) {
            exists|rt: SyntaxTree|
                crate::syntax::reading_of(rt, 0, e.content@)
                && v == crate::languages::rust::rust_adjusted_all(xs, t.nodes@, e.source_code@, e.selector.operation, rt.nodes@, e.content@)
        } else {
            v == xs
        },
        None => false,
    }
}

/// `v` is the Python adjustment of the candidates `xs`.
pub closed spec fn python_build_ok(e: &Editor, xs: Seq<EditView>, v: Seq<EditView>) -> bool {
    match e.grammar {
        Some((p, t)) => v == crate::languages::python::python_candidates(t.nodes@, e.source_code@, xs),
        None => false,
    }
}

/// Why the selector finds no candidates in the editor's parse, if it does
/// not (see [`found_edits_error`]).
pub closed spec fn found_edits_error_for(e: &Editor) -> Option<Seq<char>> {
    match e.grammar {
        Some((p, t)) => found_edits_error(t.nodes@, p.lang(), p.src(), e.selector, e.content@),
        None => None,
    }
}

/// `xs` are the selector's candidates in the editor's parse.
pub closed spec fn found_edits_ok_for(e: &Editor, xs: Seq<EditView>) -> bool {
    match e.grammar {
        Some((p, t)) => found_edits_ok(t.nodes@, p.lang(), p.src(), e.selector, e.content@, xs),
        None => false,
    }
}

/// The file's text with the placement applied: the content put in place of
/// the covered text (or at the insertion point), both ends being character
/// boundaries in order.
pub open spec fn splice(src: Seq<char>, e: EditView) -> Option<Seq<char>> {
    match char_index_from(src, e.start, 0) {
        None => None,
        Some(ks) => {
            let ke = match e.end {
                Some(x) => char_index_from(src, x, 0),
                None => Some(ks),
            };
            match ke {
                Some(ke) => if ks <= ke {
                    Some(src.take(ks) + e.content + src.skip(ke))
                } else {
                    None
                },
                None => None,
            }
        },
    }
}

/// The message for a result that does not parse.
pub open spec fn unparsable_message() -> Seq<char> {
    "Unable to parse result so no changes were made. The file is still in a good state. Try a different edit"@
}

/// The message for a result with syntax errors, with the report and the diff.
pub open spec fn invalid_message(report: Seq<char>, diff: Seq<char>) -> Seq<char> {
    "This edit would result in invalid syntax, but the file is still in a valid state. No change was performed.\nSuggestion: Try a different change.\n\n"@
        + report + "\n\n"@ + diff
}

/// The outcome of trying one placement.
#[derive(Debug)]
pub enum Attempt {
    /// The result could not be produced or parsed.
    Unparsable(String),
    /// The result has syntax errors; the message reports them with the diff.
    Invalid(String),
    /// The result parses cleanly; here it is, before formatting.
    Parsed(String),
}

impl Editor {
    /// Apply one placement to the source and check the result: it must be
    /// producible (see [`splice`]), parse, and have no syntax errors.
    pub fn attempt(&self, edit: &Edit) -> (r: Attempt)
        requires
            self.inv(),
        ensures
            match splice(self.source(), edit@) {
                None => r matches Attempt::Unparsable(m) && m@ == unparsable_message(),
                Some(out) => match r {
                    Attempt::Unparsable(m) => m@ == unparsable_message() && (out.len() >= usize::MAX || (
                        self.lang() != LanguageName::Other && self.lang() != LanguageName::Toml
                            && !crate::syntax::parses_as_tree(language_code(self.lang()), out))),
                    Attempt::Invalid(m) => error_rows_for(self.lang(), out).len() > 0 && m@ == invalid_message(
                        syntax_report(out, error_rows_for(self.lang(), out)),
                        clean_diff_text(self.source(), out),
                    ),
                    Attempt::Parsed(o) => o@ == out && error_rows_for(self.lang(), out).len() == 0,
                },
            },
    {
        let c = chars_of(self.source_code.as_str());
        let _n = str_byte_len(self.source_code.as_str());
        let off = byte_offsets(&c);
        let ks = match char_index_of_byte(&off, Ghost(c@), edit.position.start_byte) {
            Some(k) => k,
            None => {
                return Attempt::Unparsable(String::from_str("Unable to parse result so no changes were made. The file is still in a good state. Try a different edit"));
            },
        };
        let ke = match edit.position.end_byte {
            Some(x) => match char_index_of_byte(&off, Ghost(c@), x) {
                Some(k) => k,
                None => {
                    return Attempt::Unparsable(String::from_str("Unable to parse result so no changes were made. The file is still in a good state. Try a different edit"));
                },
            },
            None => ks,
        };
        proof {
            lemma_char_index_bound(c@, edit@.start, 0);
            if let Some(x) = edit@.end {
                lemma_char_index_bound(c@, x, 0);
            }
        }
        if ks > ke {
            return Attempt::Unparsable(String::from_str("Unable to parse result so no changes were made. The file is still in a good state. Try a different edit"));
        }
        let mut out = String::new();
        push_chars(&mut out, &slice_chars(&c, 0, ks));
        push_str(&mut out, edit.content.as_str());
        push_chars(&mut out, &slice_chars(&c, ke, c.len()));
        proof {
            assert(out@ =~= c@.take(ks as int) + edit.content@ + c@.skip(ke as int));
        }
        if out.as_str().unicode_len() >= usize::MAX {
            return Attempt::Unparsable(String::from_str("Unable to parse result so no changes were made. The file is still in a good state. Try a different edit"));
        }
        let rows = match error_rows_of(self.language, out.as_str()) {
            Some(rows) => rows,
            None => {
                return Attempt::Unparsable(String::from_str("Unable to parse result so no changes were made. The file is still in a good state. Try a different edit"));
            },
        };
        let oc = chars_of(out.as_str());
        match syntax_errors_report(&oc, &rows) {
            None => Attempt::Parsed(out),
            Some(report) => {
                let diff = clean_diff(self.source_code.as_str(), out.as_str());
                let mut m = String::new();
                push_str(&mut m, "This edit would result in invalid syntax, but the file is still in a valid state. No change was performed.\nSuggestion: Try a different change.\n\n");
                push_str(&mut m, report.as_str());
                push_str(&mut m, "\n\n");
                push_str(&mut m, diff.as_str());
                Attempt::Invalid(m)
            },
        }
    }
}

/// The note for an edit whose anchor also matched elsewhere: how many
/// matches, on which lines, and which one was used. `None` for a single match
/// or an edit that came from no anchor match.
pub open spec fn ambiguity_note_spec(src: Seq<char>, anchor: Option<Seq<char>>, hit: Option<(int, int)>) -> Option<Seq<char>> {
    match (hit, anchor) {
        (Some(h), Some(a)) => {
            let hits = found(src, trim(a));
            if hits.len() < 2 {
                None
            } else {
                Some(
                    "Note: the anchor matched at "@ + decimal(hits.len()) + " locations (lines "@ + join(
                        hits.map_values(|p: (int, int)| decimal(line_at(src, byte_at(src, p.0) as int))),
                        ", "@,
                    ) + "); this edit targeted the match at line "@ + decimal(line_at(src, h.0))
                        + ". If a different location was intended, extend the anchor with more of the target's surrounding text to disambiguate."@,
                )
            }
        },
        _ => None,
    }
}

/// The first index at which `n` occurs in `h`, at or after `k`.
pub open spec fn find_text_from(h: Seq<char>, n: Seq<char>, k: int) -> Option<int>
    decreases h.len() + 1 - k,
{
    if k < 0 || k + n.len() > h.len() {
        None
    } else if h.subrange(k, k + n.len()) == n {
        Some(k)
    } else {
        find_text_from(h, n, k + 1)
    }
}

/// The `===DIFF===` section of a message, up to a trailing ambiguity note.
pub open spec fn diff_section(m: Seq<char>) -> Option<Seq<char>> {
    match find_text_from(m, "===DIFF==="@, 0) {
        None => None,
        Some(k) => {
            let sec = m.skip(k);
            let end = match find_text_from(sec, "\n\nNote: the anchor matched"@, 0) {
                Some(e) => e,
                None => sec.len() as int,
            };
            Some(sec.take(end))
        },
    }
}

/// A shorter anchor worth suggesting: the first line of a multi-line anchor,
/// when it alone matches exactly once.
pub open spec fn shorthand_spec(src: Seq<char>, anchor: Option<Seq<char>>) -> Option<Seq<char>> {
    match anchor {
        None => None,
        Some(a0) => {
            let a = trim(a0);
            let ls = lines_in(a);
            if ls.len() == 0 {
                None
            } else {
                let f = trim(ls[0]);
                if f == a || f.len() == 0 {
                    None
                } else if found(src, f).len() == 1 {
                    Some(f)
                } else {
                    None
                }
            }
        },
    }
}

pub proof fn lemma_find_text_bound(h: Seq<char>, n: Seq<char>, k: int)
    requires
        0 <= k,
    ensures
        find_text_from(h, n, k) matches Some(x) ==> k <= x && x + n.len() <= h.len() && h.subrange(x, x + n.len()) == n,
    decreases h.len() + 1 - k,
{
    if k + n.len() <= h.len() && h.subrange(k, k + n.len()) != n {
        lemma_find_text_bound(h, n, k + 1);
    }
}

/// The first index at which `n` occurs in `h`.
pub(crate) fn find_text(h: &Vec<char>, n: &Vec<char>) -> (r: Option<usize>)
    ensures
        match r {
            Some(k) => find_text_from(h@, n@, 0) == Some(k as int),
            None => find_text_from(h@, n@, 0) is None,
        },
{
    if n.len() > h.len() {
        return None;
    }
    let hl = h.len();
    let nl = n.len();
    let last = hl - nl;
    let mut k: usize = 0;
    while k <= last
        invariant
            hl == h@.len(),
            nl == n@.len(),
            last == hl - nl,
            k <= last + 1,
            find_text_from(h@, n@, 0) == find_text_from(h@, n@, k as int),
        decreases last + 1 - k,
    {
        let w = slice_chars(h, k, k + nl);
        if chars_equal(&w, n) {
            return Some(k);
        }
        if k == last {
            assert(find_text_from(h@, n@, k as int) == find_text_from(h@, n@, k + 1));
            assert(find_text_from(h@, n@, k + 1) is None);
            return None;
        }
        k += 1;
    }
    None
}

fn diff_section_exec(m: &str) -> (r: Option<Vec<char>>)
    ensures
        match r {
            Some(x) => diff_section(m@) == Some(x@),
            None => diff_section(m@) is None,
        },
{
    let c = chars_of(m);
    let marker = chars_of("===DIFF===");
    match find_text(&c, &marker) {
        None => None,
        Some(k) => {
            proof {
                lemma_find_text_bound(c@, marker@, 0);
            }
            let sec = slice_chars(&c, k, c.len());
            assert(sec@ =~= c@.skip(k as int));
            let note = chars_of("\n\nNote: the anchor matched");
            let end = match find_text(&sec, &note) {
                Some(e) => {
                    proof {
                        lemma_find_text_bound(sec@, note@, 0);
                    }
                    e
                },
                None => sec.len(),
            };
            let out = slice_chars(&sec, 0, end);
            assert(out@ =~= sec@.take(end as int));
            Some(out)
        },
    }
}

/// Whether a shorter anchor does the same edit: its run wrote the same
/// output, and its report shows the same diff.
pub fn same_edit(output: &str, message: &str, alternative_output: Option<&str>, alternative_message: &str) -> (r: bool)
    ensures
        r == ((match alternative_output {
            Some(x) => x@ == output@,
            None => false,
        }) && (match (diff_section(message@), diff_section(alternative_message@)) {
            (Some(x), Some(y)) => x == y,
            _ => false,
        })),
{
    match alternative_output {
        Some(x) => chars_equal(&chars_of(x), &chars_of(output)) && equivalent_diffs(message, alternative_message),
        None => false,
    }
}

/// Whether two preview messages describe the identical change: their
/// `===DIFF===` sections match, ignoring any trailing ambiguity note.
pub fn equivalent_diffs(a: &str, b: &str) -> (r: bool)
    ensures
        r == (match (diff_section(a@), diff_section(b@)) {
            (Some(x), Some(y)) => x == y,
            _ => false,
        }),
{
    match (diff_section_exec(a), diff_section_exec(b)) {
        (Some(x), Some(y)) => chars_equal(&x, &y),
        _ => false,
    }
}

impl Editor {
    /// The note on an edit whose anchor matched more than once (see
    /// [`ambiguity_note_spec`]).
    pub fn ambiguity_note(&self, edit: &Edit) -> (r: Option<String>)
        requires
            self.inv(),
        ensures
            match (r, ambiguity_note_spec(self.source(), anchor_view(self.target().anchor), edit@.hit)) {
                (Some(m), Some(x)) => m@ == x,
                (None, None) => true,
                _ => false,
            },
    {
        let (hit_start, _) = match edit.anchor_hit {
            Some(h) => h,
            None => {
                return None;
            },
        };
        let anchor = match &self.selector.anchor {
            Some(a) => a,
            None => {
                return None;
            },
        };
        let c = chars_of(self.source_code.as_str());
        let _n = str_byte_len(self.source_code.as_str());
        let off = byte_offsets(&c);
        let ac = chars_of(anchor.as_str());
        let (x, y) = trim_range(&ac, 0, ac.len());
        assert(ac@.subrange(0, ac@.len() as int) =~= ac@);
        let a = slice_chars(&ac, x, y);
        let hits = find_char_positions(&c, &a);
        if hits.len() < 2 {
            return None;
        }
        let ghost hs = found(c@, a@);
        let mut lines: Vec<String> = Vec::new();
        let mut j: usize = 0;
        while j < hits.len()
            invariant
                j <= hits@.len() == hs.len(),
                hs == found(c@, a@),
                c@.len() < usize::MAX,
                crate::item::offsets_of(c@, off@),
                forall|q: int| 0 <= q < hits@.len() ==> (hits@[q].0 as int, hits@[q].1 as int) == hs[q],
                lines@.len() == j,
                forall|q: int| 0 <= q < j ==> (#[trigger] lines@[q])@ == decimal(line_at(c@, byte_at(c@, hs[q].0) as int)),
            decreases hits@.len() - j,
        {
            proof {
                law_matches_equal_snippet_modulo_whitespace(c@, a@, j as int);
            }
            let (ka, _) = hits[j];
            let l = line_at_exec(&c, &off, off[ka]);
            let d = crate::text::decimal_string(l);
            lines.push(d);
            j += 1;
        }
        assert(lines@.map_values(|x: String| x@) =~= hs.map_values(|p: (int, int)| decimal(line_at(c@, byte_at(c@, p.0) as int))));
        let mut m = String::new();
        push_str(&mut m, "Note: the anchor matched at ");
        push_decimal(&mut m, hits.len());
        push_str(&mut m, " locations (lines ");
        let joined = join_strings(&lines, ", ");
        push_str(&mut m, joined.as_str());
        push_str(&mut m, "); this edit targeted the match at line ");
        push_decimal(&mut m, line_at_exec(&c, &off, hit_start));
        push_str(&mut m, ". If a different location was intended, extend the anchor with more of the target's surrounding text to disambiguate.");
        Some(m)
    }

    /// A candidate shorter anchor for the same target (see
    /// [`shorthand_spec`]); callers that teach it check it gives the
    /// identical diff first.
    pub fn shorthand_suggestion(&self) -> (r: Option<String>)
        requires
            self.inv(),
        ensures
            match (r, shorthand_spec(self.source(), anchor_view(self.target().anchor))) {
                (Some(m), Some(x)) => m@ == x,
                (None, None) => true,
                _ => false,
            },
    {
        let anchor = match &self.selector.anchor {
            Some(a) => a,
            None => {
                return None;
            },
        };
        let ac = chars_of(anchor.as_str());
        let (x, y) = trim_range(&ac, 0, ac.len());
        assert(ac@.subrange(0, ac@.len() as int) =~= ac@);
        let a = slice_chars(&ac, x, y);
        let spans = line_spans_of(&a);
        if spans.len() == 0 {
            return None;
        }
        let (s0, e0) = spans[0];
        let (fa, fb) = trim_range(&a, s0, e0);
        let first = slice_chars(&a, fa, fb);
        proof {
            assert(lines_in(a@)[0] == a@.subrange(s0 as int, e0 as int));
        }
        if chars_equal(&first, &a) || first.len() == 0 {
            return None;
        }
        let c = chars_of(self.source_code.as_str());
        let hits = find_char_positions(&c, &first);
        if hits.len() == 1 {
            Some(string_from_chars(&first))
        } else {
            None
        }
    }
}

/// How many decorations an item took in, in words.
pub open spec fn decorations_text(n: nat) -> Seq<char> {
    if n == 0 {
        "no leading attributes or doc comments"@
    } else if n == 1 {
        "with its 1 leading attribute or doc comment"@
    } else {
        "with its "@ + decimal(n) + " leading attributes and doc comments"@
    }
}

/// Where the content went relative to a resolved item.
pub open spec fn placement_text(op: Operation, desc: Seq<char>, previous: Option<Seq<char>>, next: Option<Seq<char>>) -> Seq<char> {
    match op {
        Operation::Replace => "Replaced "@ + desc + "."@,
        Operation::InsertBefore => match previous {
            Some(p) => "Inserted above it — between "@ + p + " and "@ + desc
                + ", outside that item's decorations, which stay attached to it."@,
            None => "Inserted above it, outside its decorations, which stay attached to it; "@ + desc
                + " was the first item in its scope."@,
        },
        Operation::InsertAfter => match next {
            Some(n) => "Inserted below it — between "@ + desc + " and "@ + n + "."@,
            None => "Inserted below it; "@ + desc + " was the last item in its scope."@,
        },
    }
}

/// The note for an item-targeted edit: which item, which lines, how many
/// decorations, and where the content went.
pub open spec fn item_note_text(op: Operation, r: ResolvedItem) -> Seq<char> {
    "Item target: "@ + r.description@ + " at lines "@ + decimal(r.lines.0 as nat) + "-"@ + decimal(r.lines.1 as nat)
        + ", "@ + decorations_text(r.decorations as nat) + ". "@ + placement_text(
        op,
        r.description@,
        opt_view(r.previous),
        opt_view(r.next),
    )
}

/// The item note for node `node` of `t`, read off the tree: the item's
/// description, its lines from its first decoration to its end, how many
/// decorations it has, and where the content went (see [`item_note_text`]).
pub open spec fn resolved_note(op: Operation, t: Seq<SyntaxNode>, src: Seq<char>, node: int) -> Seq<char> {
    let decs = leading(t, src, node);
    let first = if decs.len() > 0 {
        decs[0] as int
    } else {
        node
    };
    let end = t[node].end as int;
    let desc = describe_node(t, src, node);
    "Item target: "@ + desc + " at lines "@ + decimal(line_at(src, t[first].start as int)) + "-"@ + decimal(
        line_at(src, if end >= 1 {
            end - 1
        } else {
            0
        }),
    ) + ", "@ + decorations_text(decs.len()) + ". "@ + placement_text(
        op,
        desc,
        prev_description(t, src, first),
        next_description(t, src, node),
    )
}

impl Editor {
    /// For an item-targeted edit, what the reference resolved to and where
    /// the content went (see [`item_note_text`]); `None` for a text anchor or
    /// a reference that does not resolve.
    pub fn item_placement_note(&self) -> (r: Option<String>)
        requires
            self.inv(),
        ensures
            (match r {
                Some(m) => Some(m@),
                None => None,
            }) == self.placement_note(),
            r is Some <==> (self.target().item is Some && self.lang() != LanguageName::Other && referenced_count(self) == 1),
    {
        let item = match &self.selector.item {
            Some(i) => i,
            None => {
                return None;
            },
        };
        let t = match &self.grammar {
            Some((_, t)) => t,
            None => {
                return None;
            },
        };
        let c = chars_of(self.source_code.as_str());
        let _n = str_byte_len(self.source_code.as_str());
        let off = byte_offsets(&c);
        let resolved = match resolve(t, &c, &off, item) {
            Ok(r) => r,
            Err(_) => {
                return None;
            },
        };
        let mut m = String::new();
        push_str(&mut m, "Item target: ");
        push_str(&mut m, resolved.description.as_str());
        push_str(&mut m, " at lines ");
        push_decimal(&mut m, resolved.lines.0);
        push_str(&mut m, "-");
        push_decimal(&mut m, resolved.lines.1);
        push_str(&mut m, ", ");
        let ghost before = m@;
        if resolved.decorations == 0 {
            push_str(&mut m, "no leading attributes or doc comments");
        } else if resolved.decorations == 1 {
            push_str(&mut m, "with its 1 leading attribute or doc comment");
        } else {
            let mut d = String::new();
            push_str(&mut d, "with its ");
            push_decimal(&mut d, resolved.decorations);
            push_str(&mut d, " leading attributes and doc comments");
            push_str(&mut m, d.as_str());
        }
        assert(m@ =~= before + decorations_text(resolved.decorations as nat));
        push_str(&mut m, ". ");
        let ghost before2 = m@;
        let mut p = String::new();
        match self.selector.operation {
            Operation::Replace => {
                push_str(&mut p, "Replaced ");
                push_str(&mut p, resolved.description.as_str());
                push_str(&mut p, ".");
            },
            Operation::InsertBefore => match &resolved.previous {
                Some(prev) => {
                    push_str(&mut p, "Inserted above it — between ");
                    push_str(&mut p, prev.as_str());
                    push_str(&mut p, " and ");
                    push_str(&mut p, resolved.description.as_str());
                    push_str(&mut p, ", outside that item's decorations, which stay attached to it.");
                },
                None => {
                    push_str(&mut p, "Inserted above it, outside its decorations, which stay attached to it; ");
                    push_str(&mut p, resolved.description.as_str());
                    push_str(&mut p, " was the first item in its scope.");
                },
            },
            Operation::InsertAfter => match &resolved.next {
                Some(next) => {
                    push_str(&mut p, "Inserted below it — between ");
                    push_str(&mut p, resolved.description.as_str());
                    push_str(&mut p, " and ");
                    push_str(&mut p, next.as_str());
                    push_str(&mut p, ".");
                },
                None => {
                    push_str(&mut p, "Inserted below it; ");
                    push_str(&mut p, resolved.description.as_str());
                    push_str(&mut p, " was the last item in its scope.");
                },
            },
        }
        assert(p@ =~= placement_text(self.selector.operation, resolved.description@, opt_view(resolved.previous), opt_view(resolved.next)));
        push_str(&mut m, p.as_str());
        assert(m@ =~= item_note_text(self.selector.operation, resolved));
        proof {
            let found = with_kind(t.nodes@, with_name(t.nodes@, c@, named_items(t.nodes@, c@), item.name@), item.kind@);
            assert(resolved_as(resolved, t.nodes@, c@, found[0] as int));
            assert(m@ =~= resolved_note(self.selector.operation, t.nodes@, c@, found[0] as int));
        }
        Some(m)
    }

    /// The item note of an item-targeted edit whose reference names exactly
    /// one item of the file (see [`resolved_note`]); `None` otherwise.
    pub closed spec fn placement_note(&self) -> Option<Seq<char>> {
        match (self.grammar, self.selector.item) {
            (Some((p, t)), Some(item)) => {
                let found = with_kind(t.nodes@, with_name(t.nodes@, p.src(), named_items(t.nodes@, p.src()), item.name@), item.kind@);
                if found.len() == 1 {
                    Some(resolved_note(self.selector.operation, t.nodes@, p.src(), found[0] as int))
                } else {
                    None
                }
            },
            _ => None,
        }
    }
}

/// How many items the editor's item reference names.
pub closed spec fn referenced_count(e: &Editor) -> nat {
    match (e.grammar, e.selector.item) {
        (Some((p, t)), Some(item)) => with_kind(t.nodes@, with_name(t.nodes@, p.src(), named_items(t.nodes@, p.src()), item.name@), item.kind@).len(),
        _ => 0,
    }
}

/// The message when no candidate applied: the first candidate's failure
/// and the advice to anchor differently, or, with no candidates, that no
/// editable location was found.
pub open spec fn failure_text(first: Option<Seq<char>>, anchor: Option<Seq<char>>) -> Seq<char> {
    match first {
        Some(m) => m + "\n\nNone of the candidate placements for this anchor produced a valid file. The diff above shows one failed attempt — if the placement looks wrong, the anchor is likely resolving to a different node than intended; try anchoring on the first line of the item you mean to target."@,
        None => match anchor {
            Some(a) => "No editable location found for anchor "@ + crate::text::debug_quoted(a) + ". The file was not modified."@,
            None => "No editable location found for that target. The file was not modified."@,
        },
    }
}

/// The message when formatting the result failed: the formatter's error and
/// the diff of the unformatted result.
pub open spec fn format_failure_text(error: Seq<char>, diff: Seq<char>) -> Seq<char> {
    "The formatter has encountered the following error making that change, so the file has not been modified. The tool has prevented what it believes to be an unsafe edit. Please try a different edit.\n\n"@
        + error + "\n\n"@ + diff
}

/// The report of an applied edit: the formatting note, how many
/// formatting-only hunks were left out, the item note, the focused diff and
/// the ambiguity note.
pub open spec fn success_text(diff: Seq<char>, elided: nat, item_note: Option<Seq<char>>, note: Option<Seq<char>>) -> Seq<char> {
    "Note: the editor applies a consistent formatting style to the entire file, including your edit\n"@
        + (if elided > 0 {
        decimal(elided) + " formatting-only hunk"@ + (if elided == 1 {
            ""@
        } else {
            "s"@
        }) + " elsewhere in the file "@ + (if elided == 1 {
            "is"@
        } else {
            "are"@
        })
            + " not shown (whitespace only — no token changed; anchors are whitespace-insensitive, so later edits are unaffected).\n"@
    } else {
        ""@
    }) + (match item_note {
        Some(p) => p + "\n"@,
        None => ""@,
    }) + "\n"@ + diff + (match note {
        Some(n) => "\n\n"@ + n,
        None => ""@,
    })
}

impl Editor {
    /// The message when no candidate applied (see [`failure_text`]), given
    /// the first candidate's failure message, if there was a candidate.
    pub fn failure_message(&self, first: Option<&str>) -> (m: String)
        ensures
            m@ == failure_text(match first {
                Some(x) => Some(x@),
                None => None,
            }, anchor_view(self.target().anchor)),
    {
        let mut m = String::new();
        match first {
            Some(x) => {
                push_str(&mut m, x);
                push_str(&mut m, "\n\nNone of the candidate placements for this anchor produced a valid file. The diff above shows one failed attempt — if the placement looks wrong, the anchor is likely resolving to a different node than intended; try anchoring on the first line of the item you mean to target.");
            },
            None => match &self.selector.anchor {
                Some(a) => {
                    push_str(&mut m, "No editable location found for anchor ");
                    let q = crate::text::debug_quote(a.as_str());
                    push_str(&mut m, q.as_str());
                    push_str(&mut m, ". The file was not modified.");
                },
                None => push_str(&mut m, "No editable location found for that target. The file was not modified."),
            },
        }
        m
    }

    /// The message when the formatter failed on `output` with `error`.
    pub fn format_failure(&self, error: &str, output: &str) -> (m: String)
        ensures
            m@ == format_failure_text(error@, clean_diff_text(self.source(), output@)),
    {
        let diff = clean_diff(self.source_code.as_str(), output);
        let mut m = String::new();
        push_str(&mut m, "The formatter has encountered the following error making that change, so the file has not been modified. The tool has prevented what it believes to be an unsafe edit. Please try a different edit.\n\n");
        push_str(&mut m, error);
        push_str(&mut m, "\n\n");
        push_str(&mut m, diff.as_str());
        m
    }

    /// The formatting the library does itself: taplo for TOML, none for
    /// plain text; `None` for languages formatted by an outside program. TOML
    /// in which taplo finds syntax errors is left as it is.
    pub fn library_format(&self, source: &str) -> (r: Option<String>)
        ensures
            self.lang() == LanguageName::Toml ==> (r matches Some(x) && x@ == (if taplo_errors(source@).len() == 0 {
                taplo_formatted(source@)
            } else {
                source@
            })),
            self.lang() == LanguageName::Other ==> (r matches Some(x) && x@ == source@),
            self.lang() != LanguageName::Toml && self.lang() != LanguageName::Other ==> r is None,
    {
        if self.language == LanguageName::Toml {
            match TomlEditor::new().format_checked(source) {
                Some(x) => Some(x),
                None => Some(source.to_string()),
            }
        } else if self.language == LanguageName::Other {
            Some(source.to_string())
        } else {
            None
        }
    }

    /// The report of an edit that applied as `edit` and came out of the
    /// formatter as `formatted` (see [`success_text`]).
    pub fn success_report(&self, edit: &Edit, formatted: &str) -> (m: String)
        requires
            self.inv(),
        ensures
            m@ == success_text(
                focused_diff_spec(self.source(), formatted@).0,
                focused_diff_spec(self.source(), formatted@).1,
                self.placement_note(),
                ambiguity_note_spec(self.source(), anchor_view(self.target().anchor), edit@.hit),
            ),
    {
        let (diff, elided) = focused_diff(self.source_code.as_str(), formatted);
        let mut m = String::new();
        push_str(&mut m, "Note: the editor applies a consistent formatting style to the entire file, including your edit\n");
        let mut h = String::new();
        if elided > 0 {
            push_decimal(&mut h, elided);
            push_str(&mut h, " formatting-only hunk");
            if elided != 1 {
                push_str(&mut h, "s");
            }
            push_str(&mut h, " elsewhere in the file ");
            if elided == 1 {
                push_str(&mut h, "is");
            } else {
                push_str(&mut h, "are");
            }
            push_str(&mut h, " not shown (whitespace only — no token changed; anchors are whitespace-insensitive, so later edits are unaffected).\n");
        }
        proof {
            reveal_strlit("");
        }
        push_str(&mut m, h.as_str());
        let placement = self.item_placement_note();
        let mut pn = String::new();
        match &placement {
            Some(p) => {
                push_str(&mut pn, p.as_str());
                push_str(&mut pn, "\n");
            },
            None => {},
        }
        push_str(&mut m, pn.as_str());
        push_str(&mut m, "\n");
        push_str(&mut m, diff.as_str());
        let note = self.ambiguity_note(edit);
        let mut nn = String::new();
        match &note {
            Some(n) => {
                push_str(&mut nn, "\n\n");
                push_str(&mut nn, n.as_str());
            },
            None => {},
        }
        push_str(&mut m, nn.as_str());
        let ghost item_note = match placement {
            Some(p) => Some(p@),
            None => None::<Seq<char>>,
        };
        let ghost nv = match note {
            Some(n) => Some(n@),
            None => None::<Seq<char>>,
        };
        assert(nv == ambiguity_note_spec(self.source(), anchor_view(self.target().anchor), edit@.hit));
        assert(m@ =~= success_text(diff@, elided as nat, item_note, nv));
        m
    }
}

/// Where a run through the candidates stands: the first formatter failure
/// and the first failed attempt seen so far.
#[derive(Debug)]
pub struct CandidateRun {
    pub format_failure: Option<String>,
    pub first_failure: Option<String>,
}

impl CandidateRun {
    /// A run that has seen nothing yet.
    pub fn new() -> (r: Self)
        ensures
            r.format_failure is None,
            r.first_failure is None,
    {
        CandidateRun { format_failure: None, first_failure: None }
    }
}

impl Editor {
    /// Take in one candidate's attempt: a result that parsed is handed back
    /// to be formatted; a failed attempt is noted when it is the first, and
    /// the run goes on.
    pub fn record_attempt(&self, run: &mut CandidateRun, attempt: Attempt) -> (r: Option<String>)
        ensures
            final(run).format_failure == old(run).format_failure,
            match attempt {
                Attempt::Parsed(o) => r == Some(o) && final(run).first_failure == old(run).first_failure,
                Attempt::Invalid(m) => r is None && final(run).first_failure == (if old(run).first_failure is None {
                    Some(m)
                } else {
                    old(run).first_failure
                }),
                Attempt::Unparsable(m) => r is None && final(run).first_failure == (if old(run).first_failure is None {
                    Some(m)
                } else {
                    old(run).first_failure
                }),
            },
    {
        match attempt {
            Attempt::Parsed(o) => Some(o),
            Attempt::Invalid(m) => {
                if run.first_failure.is_none() {
                    run.first_failure = Some(m);
                }
                None
            },
            Attempt::Unparsable(m) => {
                if run.first_failure.is_none() {
                    run.first_failure = Some(m);
                }
                None
            },
        }
    }

    /// Note that the formatter failed on `output` with `error`, when it is
    /// the first such failure (see [`format_failure_text`]).
    pub fn record_format_failure(&self, run: &mut CandidateRun, error: &str, output: &str)
        ensures
            final(run).first_failure == old(run).first_failure,
            match old(run).format_failure {
                Some(f) => final(run).format_failure == Some(f),
                None => final(run).format_failure matches Some(f) && f@ == format_failure_text(
                    error@,
                    clean_diff_text(self.source(), output@),
                ),
            },
    {
        if run.format_failure.is_none() {
            run.format_failure = Some(self.format_failure(error, output));
        }
    }

    /// The reply when no candidate applied: the first formatter failure if
    /// there was one, else the first failed attempt (see [`failure_text`]).
    pub fn run_failure(&self, run: &CandidateRun) -> (m: String)
        ensures
            m@ == (match run.format_failure {
                Some(f) => f@,
                None => failure_text(
                    match run.first_failure {
                        Some(x) => Some(x@),
                        None => None,
                    },
                    anchor_view(self.target().anchor),
                ),
            }),
    {
        match &run.format_failure {
            Some(f) => f.clone(),
            None => match &run.first_failure {
                Some(x) => self.failure_message(Some(x.as_str())),
                None => self.failure_message(None),
            },
        }
    }
}

/// A first-match resolution never happens silently: when the anchor of an
/// applied edit matches at two or more places, the report carries a note
/// that says so.
pub proof fn law_ambiguous_anchors_are_noted(src: Seq<char>, anchor: Seq<char>, hit: (int, int), diff: Seq<char>, elided: nat, item_note: Option<Seq<char>>)
    requires
        found(src, trim(anchor)).len() >= 2,
    ensures
        ambiguity_note_spec(src, Some(anchor), Some(hit)) matches Some(n) && success_text(diff, elided, item_note, Some(n))
            == success_text(diff, elided, item_note, None) + "\n\n"@ + n,
{
    let n = ambiguity_note_spec(src, Some(anchor), Some(hit)).unwrap();
    reveal_strlit("");
    assert(success_text(diff, elided, item_note, Some(n)) =~= success_text(diff, elided, item_note, None) + "\n\n"@ + n);
}

/// A shorter anchor is offered only when the anchor spans several lines
/// and its first line, on its own, matches exactly once in the file.
pub proof fn law_shorthand_is_a_unique_first_line(src: Seq<char>, anchor: Seq<char>)
    ensures
        shorthand_spec(src, Some(anchor)) matches Some(f) ==> f != trim(anchor) && f.len() > 0 && found(src, f).len() == 1
            && lines_in(trim(anchor)).len() > 0 && f == trim(lines_in(trim(anchor))[0]),
{
}

} // verus!
