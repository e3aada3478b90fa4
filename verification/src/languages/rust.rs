//! Rust: the edition a file is formatted with, and reading attributes.
use vstd::prelude::*;
use crate::item::chars_are;
use crate::text::{
    chars_of, count_leading, count_ws_prefix, slice_chars, string_from_chars, trim, trim_range,
    trim_start, is_whitespace, leading_run, is_ws, push_str, push_chars,
};
use crate::editor::diff::starts_with;
use crate::editor::edit::{Edit, EditView, edit_views, copy_indices};
use crate::item::{chars_equal, offsets_of};
use crate::selector::Operation;
use crate::syntax::{SyntaxNode, SyntaxTree, next_sibling_from};
use crate::text::{region, text_between};

verus! {

/// Editions `rustfmt` understands.
pub open spec fn is_known_edition(e: Seq<char>) -> bool {
    e == "2015"@ || e == "2018"@ || e == "2021"@ || e == "2024"@
}

/// The edition assumed when no manifest declares one.
pub open spec fn default_edition() -> Seq<char> {
    "2024"@
}

/// The edition itself when `rustfmt` knows it, else nothing.
pub fn clamp_edition(edition: &str) -> (r: Option<&'static str>)
    ensures
        match r {
            Some(k) => k@ == edition@ && is_known_edition(edition@),
            None => !is_known_edition(edition@),
        },
{
    let c = chars_of(edition);
    if chars_are(&c, "2015") {
        Some("2015")
    } else if chars_are(&c, "2018") {
        Some("2018")
    } else if chars_are(&c, "2021") {
        Some("2021")
    } else if chars_are(&c, "2024") {
        Some("2024")
    } else {
        None
    }
}

/// The edition to format with, given what the manifest walk found: a known
/// edition as found, and the default otherwise.
pub fn rust_edition_from(resolved: Option<&str>) -> (e: &'static str)
    ensures
        e@ == (match resolved {
            Some(r) => if is_known_edition(r@) {
                r@
            } else {
                default_edition()
            },
            None => default_edition(),
        }),
{
    match resolved {
        Some(r) => match clamp_edition(r) {
            Some(k) => k,
            None => "2024",
        },
        None => "2024",
    }
}

/// The string at a key path of a TOML document, as taplo reads it.
pub uninterp spec fn toml_str_at(text: Seq<char>, path: Seq<Seq<char>>) -> Option<Seq<char>>;

/// The boolean at a key path of a TOML document, as taplo reads it.
pub uninterp spec fn toml_bool_at(text: Seq<char>, path: Seq<Seq<char>>) -> Option<bool>;

/// Whether a key of a TOML document holds a table, as taplo reads it.
pub uninterp spec fn toml_is_table_at(text: Seq<char>, path: Seq<Seq<char>>) -> bool;

/// `taplo::parser::parse(text).into_dom().get(a).get(b).get(c).as_str()`:
/// the string value at `a.b.c`, if there is one.
#[verifier::external_body]
fn toml_str3(text: &str, a: &str, b: &str, c: &str) -> (r: Option<String>)
    ensures
        match r {
            Some(v) => toml_str_at(text@, seq![a@, b@, c@]) == Some(v@),
            None => toml_str_at(text@, seq![a@, b@, c@]) is None,
        },
{
    taplo::parser::parse(text).into_dom().get(a).get(b).get(c).as_str().map(|s| s.value().to_string())
}

/// `taplo::parser::parse(text).into_dom().get(a).get(b).as_str()`.
#[verifier::external_body]
fn toml_str2(text: &str, a: &str, b: &str) -> (r: Option<String>)
    ensures
        match r {
            Some(v) => toml_str_at(text@, seq![a@, b@]) == Some(v@),
            None => toml_str_at(text@, seq![a@, b@]) is None,
        },
{
    taplo::parser::parse(text).into_dom().get(a).get(b).as_str().map(|s| s.value().to_string())
}

/// `taplo::parser::parse(text).into_dom().get(a).get(b).get(c).as_bool()`.
#[verifier::external_body]
fn toml_bool3(text: &str, a: &str, b: &str, c: &str) -> (r: Option<bool>)
    ensures
        r == toml_bool_at(text@, seq![a@, b@, c@]),
{
    taplo::parser::parse(text).into_dom().get(a).get(b).get(c).as_bool().map(|v| v.value())
}

/// `taplo::parser::parse(text).into_dom().get(a).as_table().is_some()`.
#[verifier::external_body]
fn toml_is_table1(text: &str, a: &str) -> (r: bool)
    ensures
        r == toml_is_table_at(text@, seq![a@]),
{
    taplo::parser::parse(text).into_dom().get(a).as_table().is_some()
}

/// What one manifest says about the edition.
#[derive(Debug, Clone)]
pub enum ManifestEdition {
    /// Settled by this manifest: explicit, defaulted to 2015, or inherited
    /// from this same file's `[workspace.package]`.
    Edition(String),
    /// `edition.workspace = true` with no `[workspace.package].edition` here.
    InheritFromAbove,
    /// No `[package]` table: a virtual workspace manifest.
    Unknown,
}

impl PartialEq for ManifestEdition {
    fn eq(&self, other: &Self) -> (r: bool) {
        match (self, other) {
            (ManifestEdition::Edition(a), ManifestEdition::Edition(b)) => *a == *b,
            (ManifestEdition::InheritFromAbove, ManifestEdition::InheritFromAbove) => true,
            (ManifestEdition::Unknown, ManifestEdition::Unknown) => true,
            _ => false,
        }
    }
}

impl vstd::std_specs::cmp::PartialEqSpecImpl for ManifestEdition {
    open spec fn obeys_eq_spec() -> bool {
        true
    }

    open spec fn eq_spec(&self, other: &Self) -> bool {
        match (self, other) {
            (ManifestEdition::Edition(a), ManifestEdition::Edition(b)) => a@ == b@,
            (ManifestEdition::InheritFromAbove, ManifestEdition::InheritFromAbove) => true,
            (ManifestEdition::Unknown, ManifestEdition::Unknown) => true,
            _ => false,
        }
    }
}

impl Eq for ManifestEdition {}

/// The edition a manifest's `[package]` gets under Cargo's rules, over what
/// the TOML holds: no `[package]` table is unknown; an explicit string wins;
/// `edition.workspace = true` takes `[workspace.package].edition` from the
/// same file or defers upwards; and no `edition` key means 2015.
pub open spec fn manifest_edition_spec(text: Seq<char>) -> Option<Option<Seq<char>>> {
    if !toml_is_table_at(text, seq!["package"@]) {
        None
    } else {
        match toml_str_at(text, seq!["package"@, "edition"@]) {
            Some(e) => Some(Some(e)),
            None => if toml_bool_at(text, seq!["package"@, "edition"@, "workspace"@]) == Some(true) {
                match toml_str_at(text, seq!["workspace"@, "package"@, "edition"@]) {
                    Some(e) => Some(Some(e)),
                    None => Some(None),
                }
            } else {
                Some(Some("2015"@))
            },
        }
    }
}

/// The `[workspace.package].edition` of a manifest, if present.
pub fn workspace_package_edition(text: &str) -> (r: Option<String>)
    ensures
        match r {
            Some(v) => toml_str_at(text@, seq!["workspace"@, "package"@, "edition"@]) == Some(v@),
            None => toml_str_at(text@, seq!["workspace"@, "package"@, "edition"@]) is None,
        },
{
    toml_str3(text, "workspace", "package", "edition")
}

/// Interpret one manifest's `[package]` edition (see [`manifest_edition_spec`]).
pub fn edition_in_manifest(text: &str) -> (m: ManifestEdition)
    ensures
        match (m, manifest_edition_spec(text@)) {
            (ManifestEdition::Unknown, None) => true,
            (ManifestEdition::InheritFromAbove, Some(None)) => true,
            (ManifestEdition::Edition(e), Some(Some(x))) => e@ == x,
            _ => false,
        },
{
    if !toml_is_table1(text, "package") {
        return ManifestEdition::Unknown;
    }
    if let Some(value) = toml_str2(text, "package", "edition") {
        return ManifestEdition::Edition(value);
    }
    if toml_bool3(text, "package", "edition", "workspace") == Some(true) {
        return match workspace_package_edition(text) {
            Some(edition) => ManifestEdition::Edition(edition),
            None => ManifestEdition::InheritFromAbove,
        };
    }
    ManifestEdition::Edition(String::from_str("2015"))
}

/// The state of the walk up a file's directories towards a manifest that
/// settles its edition.
#[derive(Debug, Clone)]
pub enum EditionWalk {
    /// Keep going up; `true` once a manifest deferred to its workspace.
    Continue(bool),
    /// The edition was found.
    Found(String),
}

/// One step of the walk: what the manifest in the current directory (if it
/// could be read) decides, given whether a manifest below deferred to its
/// workspace. A deferring walk only accepts `[workspace.package].edition`.
pub fn edition_walk_step(inheriting: bool, manifest: Option<&str>) -> (w: EditionWalk)
    ensures
        match manifest {
            None => w == EditionWalk::Continue(inheriting),
            Some(text) => if inheriting {
                match toml_str_at(text@, seq!["workspace"@, "package"@, "edition"@]) {
                    Some(e) => w matches EditionWalk::Found(f) && f@ == e,
                    None => w == EditionWalk::Continue(true),
                }
            } else {
                match manifest_edition_spec(text@) {
                    Some(Some(e)) => w matches EditionWalk::Found(f) && f@ == e,
                    Some(None) => w == EditionWalk::Continue(true),
                    None => w == EditionWalk::Continue(false),
                }
            },
        },
{
    match manifest {
        None => EditionWalk::Continue(inheriting),
        Some(text) => {
            if inheriting {
                match workspace_package_edition(text) {
                    Some(e) => EditionWalk::Found(e),
                    None => EditionWalk::Continue(true),
                }
            } else {
                match edition_in_manifest(text) {
                    ManifestEdition::Edition(e) => EditionWalk::Found(e),
                    ManifestEdition::InheritFromAbove => EditionWalk::Continue(true),
                    ManifestEdition::Unknown => EditionWalk::Continue(false),
                }
            }
        },
    }
}

/// What one manifest decides in the walk, given whether a manifest below
/// deferred to its workspace: `(Some(edition), _)` when it settles the
/// edition, else `(None, deferring)` for the directories above.
pub open spec fn walk_step_spec(inheriting: bool, manifest: Option<Seq<char>>) -> (Option<Seq<char>>, bool) {
    match manifest {
        None => (None, inheriting),
        Some(text) => if inheriting {
            match toml_str_at(text, seq!["workspace"@, "package"@, "edition"@]) {
                Some(e) => (Some(e), true),
                None => (None, true),
            }
        } else {
            match manifest_edition_spec(text) {
                Some(Some(e)) => (Some(e), false),
                Some(None) => (None, true),
                None => (None, false),
            }
        },
    }
}

/// The edition the walk finds over the manifests of a file's directories,
/// nearest first (`None` where a directory has no readable manifest).
pub open spec fn walk_edition(ms: Seq<Option<Seq<char>>>, inheriting: bool) -> Option<Seq<char>>
    decreases ms.len(),
{
    if ms.len() == 0 {
        None
    } else {
        let (found, next) = walk_step_spec(inheriting, ms[0]);
        match found {
            Some(e) => Some(e),
            None => walk_edition(ms.drop_first(), next),
        }
    }
}

/// The manifests' texts as plain values.
pub open spec fn manifest_texts(ms: Seq<Option<String>>) -> Seq<Option<Seq<char>>> {
    ms.map_values(|m: Option<String>| crate::syntax::opt_text(m))
}

/// The edition found by walking up from a file over the manifests of its
/// directories, nearest first: each step is [`edition_walk_step`], and the
/// first manifest that settles the edition decides it. `None` when none does.
pub fn resolve_edition(manifests: &Vec<Option<String>>) -> (r: Option<String>)
    ensures
        crate::syntax::opt_text(r) == walk_edition(manifest_texts(manifests@), false),
{
    let ghost ms = manifest_texts(manifests@);
    let mut inheriting = false;
    let mut j: usize = 0;
    assert(ms.skip(0) =~= ms);
    while j < manifests.len()
        invariant
            j <= manifests@.len(),
            ms == manifest_texts(manifests@),
            walk_edition(ms, false) == walk_edition(ms.skip(j as int), inheriting),
        decreases manifests@.len() - j,
    {
        let text: Option<&str> = match &manifests[j] {
            Some(t) => Some(t.as_str()),
            None => None,
        };
        proof {
            assert(ms.skip(j as int)[0] == crate::syntax::opt_text(manifests@[j as int]));
            assert(ms.skip(j as int).drop_first() =~= ms.skip(j + 1));
        }
        match edition_walk_step(inheriting, text) {
            EditionWalk::Found(e) => {
                return Some(e);
            },
            EditionWalk::Continue(next) => {
                inheriting = next;
            },
        }
        j += 1;
    }
    None
}

/// The nearest manifest that settles the edition decides it: whatever the
/// directories above hold, the walk returns that manifest's edition.
pub proof fn law_nearest_settling_manifest_decides(text: Seq<char>, above: Seq<Option<Seq<char>>>, e: Seq<char>)
    requires
        manifest_edition_spec(text) == Some(Some(e)),
    ensures
        walk_edition(seq![Some(text)] + above, false) == Some(e),
{
    assert((seq![Some(text)] + above)[0] == Some(text));
}

/// A directory without a readable manifest changes nothing: the walk goes on
/// above it in the same state.
pub proof fn law_unreadable_manifests_are_passed_over(above: Seq<Option<Seq<char>>>, inheriting: bool)
    ensures
        walk_edition(seq![None] + above, inheriting) == walk_edition(above, inheriting),
{
    assert((seq![None::<Seq<char>>] + above).drop_first() =~= above);
}

/// Once a manifest defers to its workspace, only a `[workspace.package]`
/// edition above settles it: a manifest with a `[package]` edition of its own
/// but none for the workspace is passed over.
pub proof fn law_deferring_walk_reads_only_workspace_editions(
    below: Seq<char>,
    text: Seq<char>,
    above: Seq<Option<Seq<char>>>,
)
    requires
        manifest_edition_spec(below) == Some(None::<Seq<char>>),
        toml_str_at(text, seq!["workspace"@, "package"@, "edition"@]) is None,
    ensures
        walk_edition(seq![Some(below), Some(text)] + above, false) == walk_edition(above, true),
{
    let ms = seq![Some(below), Some(text)] + above;
    assert(ms[0] == Some(below));
    assert(ms.drop_first() =~= seq![Some(text)] + above);
    assert((seq![Some(text)] + above)[0] == Some(text));
    assert((seq![Some(text)] + above).drop_first() =~= above);
    assert(walk_step_spec(false, Some(below)) == (None::<Seq<char>>, true));
    assert(walk_edition(ms, false) == walk_edition(ms.drop_first(), true));
    assert(walk_step_spec(true, Some(text)) == (None::<Seq<char>>, true));
    assert(walk_edition(seq![Some(text)] + above, true) == walk_edition(above, true));
}

/// The number of leading characters of `s` equal to `c` (as
/// `trim_start_matches(c)` removes them).
pub open spec fn strip_leading(s: Seq<char>, c: char) -> Seq<char> {
    s.skip(leading_run(s, c) as int)
}

/// Characters that end an attribute's path.
pub open spec fn ends_path(c: char) -> bool {
    c == '(' || c == '[' || c == '{' || c == '=' || c == ']' || is_ws(c)
}

/// The index of the first path-ending character of `s` at or after `k`, or
/// its length.
pub open spec fn path_end_from(s: Seq<char>, k: int) -> int
    decreases s.len() - k,
{
    if k < 0 || k >= s.len() {
        s.len() as int
    } else if ends_path(s[k]) {
        k
    } else {
        path_end_from(s, k + 1)
    }
}

/// An attribute's leading path from its source text: `derive` from
/// `#[derive(Debug)]`, `tokio::test` from `#[tokio::test]`. Leading `#`s and
/// `!`s and whitespace are skipped; without a `[` after them the whole text is
/// read instead.
pub open spec fn attr_path_spec(text: Seq<char>) -> Seq<char> {
    let a = trim_start(strip_leading(strip_leading(text, '#'), '!'));
    let b = if a.len() > 0 && a[0] == '[' {
        a.skip(1)
    } else {
        text
    };
    let rest = trim_start(b);
    trim(rest.take(path_end_from(rest, 0)))
}

proof fn lemma_path_end(s: Seq<char>, k: int)
    requires
        0 <= k <= s.len(),
    ensures
        k <= path_end_from(s, k) <= s.len(),
    decreases s.len() - k,
{
    if k < s.len() && !ends_path(s[k]) {
        lemma_path_end(s, k + 1);
    }
}

/// Extract an attribute's leading path from its source text (see
/// [`attr_path_spec`]).
#[verifier::rlimit(30)]
pub fn attr_path(text: &str) -> (p: String)
    ensures
        p@ == attr_path_spec(text@),
{
    let c = chars_of(text);
    let h = count_leading(&c, 0, c.len(), '#');
    let x = count_leading(&c, h, c.len(), '!');
    let w = count_ws_prefix(&c, h + x, c.len());
    let a0 = h + x + w;
    proof {
        assert(c@.subrange(0, c@.len() as int) =~= c@);
        assert(strip_leading(c@, '#') =~= c@.subrange(h as int, c@.len() as int));
        assert(strip_leading(strip_leading(c@, '#'), '!') =~= c@.subrange(h + x, c@.len() as int));
        assert(trim_start(strip_leading(strip_leading(c@, '#'), '!')) =~= c@.subrange(a0 as int, c@.len() as int));
    }
    let b0 = if a0 < c.len() && c[a0] == '[' {
        a0 + 1
    } else {
        0
    };
    proof {
        if a0 < c@.len() && c@[a0 as int] == '[' {
            assert(c@.subrange(a0 as int, c@.len() as int).skip(1) =~= c@.subrange(b0 as int, c@.len() as int));
        } else {
            assert(c@ =~= c@.subrange(0, c@.len() as int));
        }
    }
    let r0 = b0 + count_ws_prefix(&c, b0, c.len());
    let ghost rest = c@.subrange(r0 as int, c@.len() as int);
    proof {
        assert(trim_start(c@.subrange(b0 as int, c@.len() as int)) =~= rest);
    }
    let mut e = r0;
    while e < c.len()
        invariant_except_break
            r0 <= e <= c@.len(),
            rest == c@.subrange(r0 as int, c@.len() as int),
            path_end_from(rest, 0) == path_end_from(rest, e - r0),
        ensures
            r0 <= e <= c@.len(),
            path_end_from(rest, 0) == e - r0,
        decreases c@.len() - e,
    {
        let ch = c[e];
        if ch == '(' || ch == '[' || ch == '{' || ch == '=' || ch == ']' || is_whitespace(ch) {
            break;
        }
        e += 1;
    }
    proof {
        lemma_path_end(rest, 0);
        assert(rest.take(e - r0) =~= c@.subrange(r0 as int, e as int));
    }
    let (ta, tb) = trim_range(&c, r0, e);
    string_from_chars(&slice_chars(&c, ta, tb))
}

/// Comments and attributes, which precede the item they belong to.
pub open spec fn is_preceding_kind(k: Seq<char>) -> bool {
    k == "line_comment"@ || k == "block_comment"@ || k == "attribute_item"@
}

fn is_preceding(kind: &str) -> (b: bool)
    ensures
        b == is_preceding_kind(kind@),
{
    let c = chars_of(kind);
    chars_are(&c, "line_comment") || chars_are(&c, "block_comment") || chars_are(&c, "attribute_item")
}

/// A stable identity for a leading decoration: attributes by their path,
/// any doc comment as `doc`, other comments by their text.
pub open spec fn decoration_key_spec(kind: Seq<char>, text0: Seq<char>) -> Seq<char> {
    let text = trim_start(text0);
    if kind == "attribute_item"@ {
        "attr:"@ + attr_path_spec(text)
    } else if (kind == "line_comment"@ || kind == "block_comment"@) && (starts_with(text, "///"@)
        || starts_with(text, "//!"@) || starts_with(text, "/**"@) || starts_with(text, "/*!"@)) {
        "doc"@
    } else {
        "text:"@ + text
    }
}

/// The text of node `i` of a tree over `src`, or nothing when its range is
/// not a character range of it.
pub open spec fn node_text(t: Seq<SyntaxNode>, src: Seq<char>, i: int) -> Seq<char> {
    match region(src, t[i].start as int, t[i].end as int) {
        Some(x) => x,
        None => seq![],
    }
}

fn chars_start(s: &Vec<char>, p: &str) -> (b: bool)
    ensures
        b == starts_with(s@, p@),
{
    let pc = chars_of(p);
    if s.len() < pc.len() {
        return false;
    }
    let head = slice_chars(s, 0, pc.len());
    assert(head@ =~= s@.take(pc@.len() as int));
    chars_equal(&head, &pc)
}

/// The decoration key of node `i`.
pub fn decoration_key(t: &SyntaxTree, c: &Vec<char>, off: &Vec<usize>, i: usize) -> (k: String)
    requires
        offsets_of(c@, off@),
        i < t.nodes@.len(),
    ensures
        k@ == decoration_key_spec(t.nodes@[i as int].kind@, node_text(t.nodes@, c@, i as int)),
{
    let raw = match text_between(c, off, t.nodes[i].start, t.nodes[i].end) {
        Some(x) => x,
        None => Vec::new(),
    };
    let w = count_ws_prefix(&raw, 0, raw.len());
    let text = slice_chars(&raw, w, raw.len());
    proof {
        assert(raw@.subrange(0, raw@.len() as int) =~= raw@);
        assert(text@ =~= trim_start(raw@));
    }
    let kind = t.nodes[i].kind.as_str();
    let kc = chars_of(kind);
    let mut k = String::new();
    if chars_are(&kc, "attribute_item") {
        push_str(&mut k, "attr:");
        let ts = string_from_chars(&text);
        let path = attr_path(ts.as_str());
        push_str(&mut k, path.as_str());
    } else if (chars_are(&kc, "line_comment") || chars_are(&kc, "block_comment")) && (chars_start(&text, "///")
        || chars_start(&text, "//!") || chars_start(&text, "/**") || chars_start(&text, "/*!")) {
        push_str(&mut k, "doc");
    } else {
        push_str(&mut k, "text:");
        push_chars(&mut k, &text);
    }
    k
}

/// Editing helpers specific to Rust.
#[derive(Debug, Clone, Copy)]
pub struct RustLanguage;

/// Some top-level node of the parse of `src` is a comment or attribute.
pub open spec fn top_level_preceding(t: Seq<SyntaxNode>) -> bool {
    exists|j: int| 0 <= j < t.len() && t[j].parent == Some(0usize) && is_preceding_kind(#[trigger] t[j].kind@)
}

impl RustLanguage {
    pub fn new() -> (r: Result<RustLanguage, String>)
        ensures
            r is Ok,
    {
        Ok(RustLanguage)
    }

    /// Whether replacement content contains a preceding element, a comment or
    /// attribute, at its top level: some top-level node of its Rust parse is
    /// one, wherever it stands (see [`top_level_preceding_in`]). Content that
    /// cannot be parsed is reported as having none.
    pub fn replacement_has_preceding_elements(&self, content: &str) -> (b: bool)
        ensures
            b == (crate::syntax::ts_parses(0, content@) && exists|t: SyntaxTree|
                crate::syntax::reading_of(t, 0, content@) && #[trigger] top_level_preceding(t.nodes@)),
    {
        let p = match crate::syntax::parse_source(crate::languages::LanguageName::Rust, content) {
            Some(p) => p,
            None => {
                return false;
            },
        };
        let t = match crate::syntax::read_tree(&p) {
            Some(t) => t,
            None => {
                return false;
            },
        };
        let b = top_level_preceding_in(&t);
        proof {
            assert(crate::syntax::reading_of(t, 0, content@));
            if !b {
                assert forall|t2: SyntaxTree| crate::syntax::reading_of(t2, 0, content@) implies !#[trigger] top_level_preceding(t2.nodes@) by {
                    if top_level_preceding(t2.nodes@) {
                        let j = choose|j: int| 0 <= j < t2.nodes@.len() && t2.nodes@[j].parent == Some(0usize) && is_preceding_kind(#[trigger] t2.nodes@[j].kind@);
                        crate::syntax::lemma_readings_agree(t2, t, 0, content@, j);
                        assert(t.nodes@[j].parent == Some(0usize) && is_preceding_kind(t.nodes@[j].kind@));
                    }
                }
            }
        }
        b
    }
}

/// Whether some top-level node of the table `t` is a comment or attribute.
pub fn top_level_preceding_in(t: &SyntaxTree) -> (b: bool)
    ensures
        b == top_level_preceding(t.nodes@),
{
    let mut j: usize = 0;
    while j < t.nodes.len()
        invariant
            j <= t.nodes@.len(),
            forall|q: int| 0 <= q < j ==> !(t.nodes@[q].parent == Some(0usize) && is_preceding_kind(#[trigger] t.nodes@[q].kind@)),
        decreases t.nodes@.len() - j,
    {
        if t.nodes[j].parent == Some(0) && is_preceding(t.nodes[j].kind.as_str()) {
            assert(top_level_preceding(t.nodes@));
            return true;
        }
        j += 1;
    }
    false
}

/// Some node of `ns` is (or is not, with `want` false) a comment or
/// attribute.
pub open spec fn any_preceding(t: Seq<SyntaxNode>, ns: Seq<usize>, want: bool) -> bool {
    exists|k: int| 0 <= k < ns.len() && is_preceding_kind(t[#[trigger] ns[k] as int].kind@) == want
}

/// How a selection is widened to match what the replacement carries.
#[derive(Debug, Clone, Copy, PartialEq, Eq, Structural)]
pub enum ExpansionType {
    /// Take in the target's decorations that the replacement restates.
    BackwardsToMatchPattern,
    /// Take in the item that selected decorations belong to.
    ForwardToIncludePrimary,
}

/// Which widening, if any, a selection needs: backwards when the replacement
/// has decorations and an item but the selection has no decoration; forwards
/// when the selection is only decorations and the replacement has an item.
pub open spec fn expansion_spec(t: Seq<SyntaxNode>, ns: Seq<usize>, r_prec: bool, r_prim: bool) -> Option<ExpansionType> {
    let s_prec = any_preceding(t, ns, true);
    let s_prim = any_preceding(t, ns, false);
    if r_prec && r_prim && !s_prec {
        Some(ExpansionType::BackwardsToMatchPattern)
    } else if s_prec && !s_prim && r_prim {
        Some(ExpansionType::ForwardToIncludePrimary)
    } else {
        None
    }
}

fn any_preceding_exec(t: &SyntaxTree, ns: &Vec<usize>, want: bool) -> (b: bool)
    requires
        forall|k: int| 0 <= k < ns@.len() ==> (#[trigger] ns@[k]) < t.nodes@.len(),
    ensures
        b == any_preceding(t.nodes@, ns@, want),
{
    let mut k: usize = 0;
    while k < ns.len()
        invariant
            k <= ns@.len(),
            forall|q: int| 0 <= q < ns@.len() ==> (#[trigger] ns@[q]) < t.nodes@.len(),
            forall|q: int| 0 <= q < k ==> is_preceding_kind(t.nodes@[#[trigger] ns@[q] as int].kind@) != want,
        decreases ns@.len() - k,
    {
        if is_preceding(t.nodes[ns[k]].kind.as_str()) == want {
            return true;
        }
        k += 1;
    }
    false
}

/// Which widening a selection needs (see [`expansion_spec`]).
pub fn determine_expansion_type(t: &SyntaxTree, ns: &Vec<usize>, r_prec: bool, r_prim: bool) -> (e: Option<ExpansionType>)
    requires
        forall|k: int| 0 <= k < ns@.len() ==> (#[trigger] ns@[k]) < t.nodes@.len(),
    ensures
        e == expansion_spec(t.nodes@, ns@, r_prec, r_prim),
{
    let s_prec = any_preceding_exec(t, ns, true);
    let s_prim = any_preceding_exec(t, ns, false);
    if r_prec && r_prim && !s_prec {
        Some(ExpansionType::BackwardsToMatchPattern)
    } else if s_prec && !s_prim && r_prim {
        Some(ExpansionType::ForwardToIncludePrimary)
    } else {
        None
    }
}

/// The contiguous decorations before `cur`, nearest first.
pub open spec fn decorations_back(t: Seq<SyntaxNode>, cur: int) -> Seq<usize>
    decreases cur,
{
    if 0 <= cur < t.len() {
        match t[cur].prev_sibling {
            Some(p) => if p < cur && is_preceding_kind(t[p as int].kind@) {
                seq![p] + decorations_back(t, p as int)
            } else {
                seq![]
            },
            None => seq![],
        }
    } else {
        seq![]
    }
}

/// The leading run of `ns` that are decorations.
pub open spec fn leading_decorations_of(t: Seq<SyntaxNode>, ns: Seq<usize>) -> Seq<usize>
    decreases ns.len(),
{
    if ns.len() > 0 && is_preceding_kind(t[ns[0] as int].kind@) {
        seq![ns[0]] + leading_decorations_of(t, ns.drop_first())
    } else {
        seq![]
    }
}

/// The first index among `ds` whose key is in `keys`.
pub open spec fn first_shared(t: Seq<SyntaxNode>, src: Seq<char>, ds: Seq<usize>, keys: Seq<Seq<char>>, k: int) -> Option<int>
    decreases ds.len() - k,
{
    if k < 0 || k >= ds.len() {
        None
    } else if keys.contains(decoration_key_spec(t[ds[k] as int].kind@, node_text(t, src, ds[k] as int))) {
        Some(k)
    } else {
        first_shared(t, src, ds, keys, k + 1)
    }
}

/// The target decorations from the topmost one the replacement restates
/// downward, then the selected nodes; `None` when the selection is empty, the
/// target has no decorations, or the replacement restates none of them.
pub open spec fn reconcile_spec(
    t: Seq<SyntaxNode>,
    src: Seq<char>,
    ns: Seq<usize>,
    rt: Seq<SyntaxNode>,
    rsrc: Seq<char>,
    repl: Seq<usize>,
) -> Option<Seq<usize>> {
    if ns.len() == 0 {
        None
    } else {
        let decs = decorations_back(t, ns[0] as int).reverse();
        if decs.len() == 0 {
            None
        } else {
            let keys = leading_decorations_of(rt, repl).map_values(|j: usize| decoration_key_spec(rt[j as int].kind@, node_text(rt, rsrc, j as int)));
            match first_shared(t, src, decs, keys, 0) {
                None => None,
                Some(a) => Some(decs.skip(a) + ns),
            }
        }
    }
}

/// The selection extended over the following siblings up to and including
/// the first that is not a decoration.
pub open spec fn forward_from(t: Seq<SyntaxNode>, cur: int) -> Seq<usize>
    decreases t.len() - cur,
{
    if 0 <= cur < t.len() {
        match next_sibling_from(t, cur, cur + 1) {
            Some(n) => if n <= cur || n >= t.len() {
                seq![]
            } else if is_preceding_kind(t[n].kind@) {
                seq![n as usize] + forward_from(t, n)
            } else {
                seq![n as usize]
            },
            None => seq![],
        }
    } else {
        seq![]
    }
}

/// The placement widened to the nodes `ex`: an insertion after keeps its
/// point at the end of the widened nodes; otherwise the start moves to their
/// start and a covered range ends at their end.
pub open spec fn expanded_view(x: EditView, t: Seq<SyntaxNode>, op: Operation, ex: Seq<usize>, e: ExpansionType) -> EditView {
    let annotation = match e {
        ExpansionType::BackwardsToMatchPattern => "rust: expanded backwards to match pattern"@,
        ExpansionType::ForwardToIncludePrimary => "rust: expanded forward to include primary"@,
    };
    let positioned = if ex.len() > 0 {
        if op == Operation::InsertAfter {
            EditView { start: t[ex.last() as int].end as int, ..x }
        } else {
            EditView {
                start: t[ex[0] as int].start as int,
                end: match x.end {
                    Some(_) => Some(t[ex.last() as int].end as int),
                    None => None,
                },
                ..x
            }
        }
    } else {
        x
    };
    EditView { annotation: Some(annotation), nodes: Some(ex), ..positioned }
}

/// Every index of `ns` names a node of `t`.
pub open spec fn nodes_in(t: Seq<SyntaxNode>, ns: Seq<usize>) -> bool {
    forall|k: int| 0 <= k < ns.len() ==> (#[trigger] ns[k]) < t.len()
}

/// Widen a placement until the selection matches what the replacement
/// carries (at most `fuel` widenings).
pub open spec fn grouped(
    x: EditView,
    t: Seq<SyntaxNode>,
    src: Seq<char>,
    op: Operation,
    rt: Seq<SyntaxNode>,
    rsrc: Seq<char>,
    repl: Seq<usize>,
    fuel: nat,
) -> EditView
    decreases fuel,
{
    if fuel == 0 {
        x
    } else {
        match x.nodes {
            None => x,
            Some(ns) => if !nodes_in(t, ns) {
                x
            } else {
                let r_prec = any_preceding(rt, repl, true);
                let r_prim = any_preceding(rt, repl, false);
                match expansion_spec(t, ns, r_prec, r_prim) {
                    None => x,
                    Some(ExpansionType::BackwardsToMatchPattern) => match reconcile_spec(t, src, ns, rt, rsrc, repl) {
                        None => x,
                        Some(ex) => grouped(
                            expanded_view(x, t, op, ex, ExpansionType::BackwardsToMatchPattern),
                            t,
                            src,
                            op,
                            rt,
                            rsrc,
                            repl,
                            (fuel - 1) as nat,
                        ),
                    },
                    Some(ExpansionType::ForwardToIncludePrimary) => if ns.len() == 0 {
                        x
                    } else {
                        grouped(
                            expanded_view(x, t, op, ns + forward_from(t, ns.last() as int), ExpansionType::ForwardToIncludePrimary),
                            t,
                            src,
                            op,
                            rt,
                            rsrc,
                            repl,
                            (fuel - 1) as nat,
                        )
                    },
                }
            },
        }
    }
}

fn decorations_back_exec(t: &SyntaxTree, cur: usize) -> (v: Vec<usize>)
    ensures
        v@ == decorations_back(t.nodes@, cur as int),
        forall|k: int| 0 <= k < v@.len() ==> (#[trigger] v@[k]) < t.nodes@.len(),
    decreases cur,
{
    if cur >= t.nodes.len() {
        return Vec::new();
    }
    match t.nodes[cur].prev_sibling {
        Some(p) => {
            if p < cur && is_preceding(t.nodes[p].kind.as_str()) {
                let mut rest = decorations_back_exec(t, p);
                let mut v: Vec<usize> = Vec::new();
                v.push(p);
                let ghost b = rest@;
                v.append(&mut rest);
                assert(v@ =~= seq![p] + b);
                v
            } else {
                Vec::new()
            }
        },
        None => Vec::new(),
    }
}

fn forward_from_exec(t: &SyntaxTree, cur: usize) -> (v: Vec<usize>)
    ensures
        v@ == forward_from(t.nodes@, cur as int),
        forall|k: int| 0 <= k < v@.len() ==> (#[trigger] v@[k]) < t.nodes@.len(),
    decreases t.nodes@.len() - cur,
{
    if cur >= t.nodes.len() {
        return Vec::new();
    }
    match t.next_sibling(cur) {
        Some(n) => {
            if n <= cur || n >= t.nodes.len() {
                Vec::new()
            } else if is_preceding(t.nodes[n].kind.as_str()) {
                let mut rest = forward_from_exec(t, n);
                let mut v: Vec<usize> = Vec::new();
                v.push(n);
                let ghost b = rest@;
                v.append(&mut rest);
                assert(v@ =~= seq![n] + b);
                v
            } else {
                let mut v: Vec<usize> = Vec::new();
                v.push(n);
                v
            }
        },
        None => Vec::new(),
    }
}

/// The decoration keys of the leading decorations among `repl`.
fn replacement_keys(rt: &SyntaxTree, rc: &Vec<char>, roff: &Vec<usize>, repl: &Vec<usize>) -> (keys: Vec<String>)
    requires
        offsets_of(rc@, roff@),
        forall|k: int| 0 <= k < repl@.len() ==> (#[trigger] repl@[k]) < rt.nodes@.len(),
    ensures
        keys@.map_values(|x: String| x@) == leading_decorations_of(rt.nodes@, repl@).map_values(|j: usize| decoration_key_spec(rt.nodes@[j as int].kind@, node_text(rt.nodes@, rc@, j as int))),
{
    let mut keys: Vec<String> = Vec::new();
    let mut i: usize = 0;
    assert(repl@.skip(0) =~= repl@);
    assert(repl@.take(0) + repl@ =~= repl@);
    while i < repl.len() && is_preceding(rt.nodes[repl[i]].kind.as_str())
        invariant
            i <= repl@.len(),
            offsets_of(rc@, roff@),
            forall|k: int| 0 <= k < repl@.len() ==> (#[trigger] repl@[k]) < rt.nodes@.len(),
            forall|k: int| 0 <= k < i ==> is_preceding_kind(rt.nodes@[#[trigger] repl@[k] as int].kind@),
            leading_decorations_of(rt.nodes@, repl@) == repl@.take(i as int) + leading_decorations_of(rt.nodes@, repl@.skip(i as int)),
            keys@.map_values(|x: String| x@) == repl@.take(i as int).map_values(|j: usize| decoration_key_spec(rt.nodes@[j as int].kind@, node_text(rt.nodes@, rc@, j as int))),
        decreases repl@.len() - i,
    {
        let k = decoration_key(rt, rc, roff, repl[i]);
        let ghost kb = keys@;
        keys.push(k);
        proof {
            assert(repl@.skip(i as int).drop_first() =~= repl@.skip(i + 1));
            assert(repl@.take(i + 1) =~= repl@.take(i as int).push(repl@[i as int]));
            assert(keys@.map_values(|x: String| x@) =~= kb.map_values(|x: String| x@).push(k@));
            assert(repl@.take(i as int) + seq![repl@[i as int]] =~= repl@.take(i + 1));
        }
        i += 1;
    }
    proof {
        if i < repl@.len() {
            assert(leading_decorations_of(rt.nodes@, repl@.skip(i as int)) =~= Seq::<usize>::empty());
        } else {
            assert(repl@.skip(i as int) =~= Seq::<usize>::empty());
        }
        assert(leading_decorations_of(rt.nodes@, repl@) =~= repl@.take(i as int));
    }
    keys
}

fn key_listed(keys: &Vec<String>, k: &String) -> (b: bool)
    ensures
        b == keys@.map_values(|x: String| x@).contains(k@),
{
    let kc = chars_of(k.as_str());
    let mut i: usize = 0;
    while i < keys.len()
        invariant
            i <= keys@.len(),
            kc@ == k@,
            forall|q: int| 0 <= q < i ==> keys@[q]@ != k@,
        decreases keys@.len() - i,
    {
        if chars_equal(&chars_of(keys[i].as_str()), &kc) {
            assert(keys@.map_values(|x: String| x@)[i as int] == k@);
            return true;
        }
        i += 1;
    }
    proof {
        let kv = keys@.map_values(|x: String| x@);
        assert forall|q: int| 0 <= q < kv.len() implies kv[q] != k@ by {
            assert(kv[q] == keys@[q]@);
        }
    }
    false
}

/// The reconciled selection (see [`reconcile_spec`]).
pub fn reconcile_backward(
    t: &SyntaxTree,
    c: &Vec<char>,
    off: &Vec<usize>,
    ns: &Vec<usize>,
    rt: &SyntaxTree,
    rc: &Vec<char>,
    roff: &Vec<usize>,
    repl: &Vec<usize>,
) -> (r: Option<Vec<usize>>)
    requires
        offsets_of(c@, off@),
        offsets_of(rc@, roff@),
        forall|k: int| 0 <= k < ns@.len() ==> (#[trigger] ns@[k]) < t.nodes@.len(),
        forall|k: int| 0 <= k < repl@.len() ==> (#[trigger] repl@[k]) < rt.nodes@.len(),
    ensures
        match (r, reconcile_spec(t.nodes@, c@, ns@, rt.nodes@, rc@, repl@)) {
            (Some(v), Some(x)) => v@ == x,
            (None, None) => true,
            _ => false,
        },
        r matches Some(v) ==> forall|k: int| 0 <= k < v@.len() ==> (#[trigger] v@[k]) < t.nodes@.len(),
{
    if ns.len() == 0 {
        return None;
    }
    let back = decorations_back_exec(t, ns[0]);
    let decs = {
        let mut d: Vec<usize> = Vec::new();
        let mut i: usize = back.len();
        while i > 0
            invariant
                i <= back@.len(),
                d@ == back@.skip(i as int).reverse(),
                forall|k: int| 0 <= k < back@.len() ==> (#[trigger] back@[k]) < t.nodes@.len(),
                forall|k: int| 0 <= k < d@.len() ==> (#[trigger] d@[k]) < t.nodes@.len(),
            decreases i,
        {
            i -= 1;
            d.push(back[i]);
            assert(d@ =~= back@.skip(i as int).reverse());
        }
        assert(back@.skip(0) =~= back@);
        d
    };
    if decs.len() == 0 {
        return None;
    }
    let keys = replacement_keys(rt, rc, roff, repl);
    let ghost kv = keys@.map_values(|x: String| x@);
    let mut a: usize = 0;
    while a < decs.len()
        invariant
            a <= decs@.len(),
            offsets_of(c@, off@),
            forall|k: int| 0 <= k < decs@.len() ==> (#[trigger] decs@[k]) < t.nodes@.len(),
            kv == keys@.map_values(|x: String| x@),
            ns@.len() > 0,
            decs@ == decorations_back(t.nodes@, ns@[0] as int).reverse(),
            forall|k: int| 0 <= k < ns@.len() ==> (#[trigger] ns@[k]) < t.nodes@.len(),
            kv == leading_decorations_of(rt.nodes@, repl@).map_values(|j: usize| decoration_key_spec(rt.nodes@[j as int].kind@, node_text(rt.nodes@, rc@, j as int))),
            first_shared(t.nodes@, c@, decs@, kv, 0) == first_shared(t.nodes@, c@, decs@, kv, a as int),
        decreases decs@.len() - a,
    {
        let k = decoration_key(t, c, off, decs[a]);
        if key_listed(&keys, &k) {
            let mut v = slice_usize(&decs, a);
            let mut rest = copy_indices(ns);
            let ghost vb = v@;
            let ghost rb = rest@;
            v.append(&mut rest);
            assert(v@ =~= decs@.skip(a as int) + ns@);
            return Some(v);
        }
        a += 1;
    }
    None
}

fn slice_usize(v: &Vec<usize>, from: usize) -> (r: Vec<usize>)
    requires
        from <= v@.len(),
    ensures
        r@ == v@.skip(from as int),
{
    let mut r: Vec<usize> = Vec::new();
    let mut i = from;
    while i < v.len()
        invariant
            from <= i <= v@.len(),
            r@ == v@.subrange(from as int, i as int),
        decreases v@.len() - i,
    {
        r.push(v[i]);
        i += 1;
        assert(r@ =~= v@.subrange(from as int, i as int));
    }
    assert(v@.subrange(from as int, i as int) =~= v@.skip(from as int));
    r
}

fn nodes_in_exec(t: &SyntaxTree, ns: &Vec<usize>) -> (b: bool)
    ensures
        b == nodes_in(t.nodes@, ns@),
{
    let mut k: usize = 0;
    while k < ns.len()
        invariant
            k <= ns@.len(),
            forall|q: int| 0 <= q < k ==> (#[trigger] ns@[q]) < t.nodes@.len(),
        decreases ns@.len() - k,
    {
        if ns[k] >= t.nodes.len() {
            return false;
        }
        k += 1;
    }
    true
}

/// Widen a placement to the nodes `ex` (see [`expanded_view`]).
pub fn apply_expansion(edit: Edit, t: &SyntaxTree, op: Operation, ex: Vec<usize>, e: ExpansionType) -> (r: Edit)
    requires
        nodes_in(t.nodes@, ex@),
    ensures
        r@ == expanded_view(edit@, t.nodes@, op, ex@, e),
{
    let mut position = edit.position;
    if ex.len() > 0 {
        let first = ex[0];
        let last = ex[ex.len() - 1];
        if op == Operation::InsertAfter {
            position.start_byte = t.nodes[last].end;
        } else {
            position.start_byte = t.nodes[first].start;
            if position.end_byte.is_some() {
                position.end_byte = Some(t.nodes[last].end);
            }
        }
    }
    let annotation = match e {
        ExpansionType::BackwardsToMatchPattern => "rust: expanded backwards to match pattern",
        ExpansionType::ForwardToIncludePrimary => "rust: expanded forward to include primary",
    };
    Edit { position, content: edit.content, anchor_hit: edit.anchor_hit, nodes: Some(ex), annotation: Some(annotation) }
}

/// Widen a placement until its selection matches the replacement (see
/// [`grouped`]).
pub fn handle_grouping(
    edit: Edit,
    t: &SyntaxTree,
    c: &Vec<char>,
    off: &Vec<usize>,
    op: Operation,
    rt: &SyntaxTree,
    rc: &Vec<char>,
    roff: &Vec<usize>,
    repl: &Vec<usize>,
    fuel: usize,
) -> (r: Edit)
    requires
        offsets_of(c@, off@),
        offsets_of(rc@, roff@),
        nodes_in(rt.nodes@, repl@),
    ensures
        r@ == grouped(edit@, t.nodes@, c@, op, rt.nodes@, rc@, repl@, fuel as nat),
    decreases fuel,
{
    if fuel == 0 {
        return edit;
    }
    let ns = match &edit.nodes {
        None => {
            return edit;
        },
        Some(ns) => copy_indices(ns),
    };
    if !nodes_in_exec(t, &ns) {
        return edit;
    }
    let r_prec = any_preceding_exec(rt, repl, true);
    let r_prim = any_preceding_exec(rt, repl, false);
    match determine_expansion_type(t, &ns, r_prec, r_prim) {
        None => edit,
        Some(ExpansionType::BackwardsToMatchPattern) => match reconcile_backward(t, c, off, &ns, rt, rc, roff, repl) {
            None => edit,
            Some(ex) => {
                let widened = apply_expansion(edit, t, op, ex, ExpansionType::BackwardsToMatchPattern);
                handle_grouping(widened, t, c, off, op, rt, rc, roff, repl, fuel - 1)
            },
        },
        Some(ExpansionType::ForwardToIncludePrimary) => {
            if ns.len() == 0 {
                return edit;
            }
            let fwd = forward_from_exec(t, ns[ns.len() - 1]);
            let mut ex = copy_indices(&ns);
            let mut f = fwd;
            let ghost a = ex@;
            let ghost b = f@;
            ex.append(&mut f);
            assert(ex@ =~= a + b);
            let widened = apply_expansion(edit, t, op, ex, ExpansionType::ForwardToIncludePrimary);
            handle_grouping(widened, t, c, off, op, rt, rc, roff, repl, fuel - 1)
        },
    }
}

/// The top-level nodes of a tree among its first `n` nodes, in order.
pub open spec fn top_level_upto(t: Seq<SyntaxNode>, n: int) -> Seq<usize>
    decreases n,
{
    if n <= 0 {
        seq![]
    } else if t[n - 1].parent == Some(0usize) {
        top_level_upto(t, n - 1).push((n - 1) as usize)
    } else {
        top_level_upto(t, n - 1)
    }
}

/// One placement adjusted for Rust: a trailing line comment in the content,
/// placed against a line comment, gets a line break when the content has
/// none; otherwise the selection is widened to match the content's leading
/// decorations (see [`grouped`]).
pub open spec fn rust_adjusted(
    x: EditView,
    t: Seq<SyntaxNode>,
    src: Seq<char>,
    op: Operation,
    rt: Seq<SyntaxNode>,
    content: Seq<char>,
) -> EditView {
    let repl = top_level_upto(rt, rt.len() as int);
    let comment_tail = repl.len() > 0 && rt[repl.last() as int].kind@ == "line_comment"@ && (match x.nodes {
        Some(ns) => ns.len() > 0 && 0 <= ns.last() < t.len() && t[ns.last() as int].kind@ == "line_comment"@,
        None => false,
    }) && !(content.len() > 0 && content.last() == '\n');
    if comment_tail {
        EditView { content: x.content + "\n"@, ..x }
    } else {
        grouped(x, t, src, op, rt, content, repl, 3)
    }
}

/// The Rust adjustment of every placement.
pub open spec fn rust_adjusted_all(
    xs: Seq<EditView>,
    t: Seq<SyntaxNode>,
    src: Seq<char>,
    op: Operation,
    rt: Seq<SyntaxNode>,
    content: Seq<char>,
) -> Seq<EditView> {
    xs.map_values(|x: EditView| rust_adjusted(x, t, src, op, rt, content))
}

/// Adjust the placements for Rust (see [`rust_adjusted`]) against the parse
/// of the content; when the content does not parse, they stay as they are.
pub fn rust_adjust_edits(edits: Vec<Edit>, t: &SyntaxTree, c: &Vec<char>, off: &Vec<usize>, op: Operation, content: &str) -> (v: Vec<Edit>)
    requires
        offsets_of(c@, off@),
    ensures
        (crate::syntax::ts_parses(0, content@) && exists|rt: SyntaxTree| crate::syntax::reading_of(rt, 0, content@)) ==> exists|rt: SyntaxTree|
            crate::syntax::reading_of(rt, 0, content@)
            && edit_views(v@) == rust_adjusted_all(edit_views(edits@), t.nodes@, c@, op, rt.nodes@, content@),
        !(crate::syntax::ts_parses(0, content@) && exists|rt: SyntaxTree| crate::syntax::reading_of(rt, 0, content@))
            ==> edit_views(v@) == edit_views(edits@),
{
    let p = match crate::syntax::parse_source(crate::languages::LanguageName::Rust, content) {
        Some(p) => p,
        None => {
            return edits;
        },
    };
    let rt = match crate::syntax::read_tree(&p) {
        Some(rt) => rt,
        None => {
            return edits;
        },
    };
    let rc = chars_of(content);
    let _n = crate::text::str_byte_len(content);
    let roff = crate::text::byte_offsets(&rc);
    let mut repl: Vec<usize> = Vec::new();
    let mut j: usize = 0;
    while j < rt.nodes.len()
        invariant
            j <= rt.nodes@.len(),
            repl@ == top_level_upto(rt.nodes@, j as int),
            forall|k: int| 0 <= k < repl@.len() ==> (#[trigger] repl@[k]) < j,
        decreases rt.nodes@.len() - j,
    {
        if rt.nodes[j].parent == Some(0) {
            repl.push(j);
        }
        j += 1;
    }
    let ends_nl = rc.len() > 0 && rc[rc.len() - 1] == '\n';
    let last_repl_comment = repl.len() > 0 && chars_are(&chars_of(rt.nodes[repl[repl.len() - 1]].kind.as_str()), "line_comment");
    let mut out: Vec<Edit> = Vec::new();
    let mut i: usize = 0;
    while i < edits.len()
        invariant
            i <= edits@.len(),
            offsets_of(c@, off@),
            offsets_of(rc@, roff@),
            rc@ == content@,
            repl@ == top_level_upto(rt.nodes@, rt.nodes@.len() as int),
            nodes_in(rt.nodes@, repl@),
            ends_nl == (rc@.len() > 0 && rc@.last() == '\n'),
            last_repl_comment == (repl@.len() > 0 && rt.nodes@[repl@.last() as int].kind@ == "line_comment"@),
            edit_views(out@) == rust_adjusted_all(edit_views(edits@.take(i as int)), t.nodes@, c@, op, rt.nodes@, content@),
        decreases edits@.len() - i,
    {
        let e = edits[i].duplicate();
        let target_comment = match &e.nodes {
            Some(ns) => ns.len() > 0 && ns[ns.len() - 1] < t.nodes.len() && chars_are(
                &chars_of(t.nodes[ns[ns.len() - 1]].kind.as_str()),
                "line_comment",
            ),
            None => false,
        };
        let adjusted = if last_repl_comment && target_comment && !ends_nl {
            let mut nc = e.content.clone();
            push_str(&mut nc, "\n");
            e.with_content(nc)
        } else {
            handle_grouping(e, t, c, off, op, &rt, &rc, &roff, &repl, 3)
        };
        let ghost ob = out@;
        out.push(adjusted);
        proof {
            assert(edit_views(out@) =~= edit_views(ob).push(adjusted@));
            assert(edit_views(edits@.take(i + 1)) =~= edit_views(edits@.take(i as int)).push(edits@[i as int]@));
            assert(rust_adjusted_all(edit_views(edits@.take(i + 1)), t.nodes@, c@, op, rt.nodes@, content@) =~= rust_adjusted_all(edit_views(edits@.take(i as int)), t.nodes@, c@, op, rt.nodes@, content@).push(rust_adjusted(edits@[i as int]@, t.nodes@, c@, op, rt.nodes@, content@)));
        }
        i += 1;
    }
    assert(edits@.take(i as int) =~= edits@);
    assert(crate::syntax::reading_of(rt, 0, content@));
    out
}

/// The decorations found walking back from a node are earlier nodes of the
/// table, and each is a comment or attribute.
proof fn lemma_decorations_back_kinds(t: Seq<SyntaxNode>, cur: int)
    ensures
        forall|k: int| 0 <= k < decorations_back(t, cur).len() ==> {
            let d = #[trigger] decorations_back(t, cur)[k] as int;
            &&& 0 <= d < cur
            &&& d < t.len()
            &&& is_preceding_kind(t[d].kind@)
        },
    decreases cur,
{
    if 0 <= cur < t.len() {
        match t[cur].prev_sibling {
            Some(p) => if p < cur && is_preceding_kind(t[p as int].kind@) {
                lemma_decorations_back_kinds(t, p as int);
                let rest = decorations_back(t, p as int);
                assert forall|k: int| 0 <= k < decorations_back(t, cur).len() implies {
                    let d = #[trigger] decorations_back(t, cur)[k] as int;
                    &&& 0 <= d < cur
                    &&& d < t.len()
                    &&& is_preceding_kind(t[d].kind@)
                } by {
                    if k > 0 {
                        assert(decorations_back(t, cur)[k] == rest[k - 1]);
                    }
                }
            },
            None => {},
        }
    }
}

/// The replacement restates the target decoration `d`: one of the
/// replacement's leading decorations has the same identity (attribute path,
/// doc slot, or comment text).
pub open spec fn restates(
    t: Seq<SyntaxNode>,
    src: Seq<char>,
    d: usize,
    rt: Seq<SyntaxNode>,
    rsrc: Seq<char>,
    repl: Seq<usize>,
) -> bool {
    leading_decorations_of(rt, repl).map_values(
        |j: usize| decoration_key_spec(rt[j as int].kind@, node_text(rt, rsrc, j as int)),
    ).contains(decoration_key_spec(t[d as int].kind@, node_text(t, src, d as int)))
}

proof fn lemma_first_shared_is_topmost_restated(
    t: Seq<SyntaxNode>,
    src: Seq<char>,
    ds: Seq<usize>,
    rt: Seq<SyntaxNode>,
    rsrc: Seq<char>,
    repl: Seq<usize>,
    k: int,
    a: int,
)
    requires
        0 <= k <= a < ds.len(),
        restates(t, src, ds[a], rt, rsrc, repl),
        forall|b: int| k <= b < a ==> !restates(t, src, #[trigger] ds[b], rt, rsrc, repl),
    ensures
        first_shared(
            t,
            src,
            ds,
            leading_decorations_of(rt, repl).map_values(
                |j: usize| decoration_key_spec(rt[j as int].kind@, node_text(rt, rsrc, j as int)),
            ),
            k,
        ) == Some(a),
    decreases a - k,
{
    if k < a {
        assert(!restates(t, src, ds[k], rt, rsrc, repl));
        lemma_first_shared_is_topmost_restated(t, src, ds, rt, rsrc, repl, k + 1, a);
    }
}

/// Decorations the replacement restates are replaced, not doubled: when the
/// replacement carries decorations and an item, and the selected nodes are
/// all items (no decoration), the selection is widened backwards over the
/// target's own decorations from the topmost one the replacement restates
/// (`ds[a]`, with `ds` the target's decorations from the top) down to the
/// selection. The widened placement starts where that decoration starts and
/// covers it and every decoration below it, so each restated decoration is
/// written once, from the replacement.
pub proof fn law_restated_decorations_are_taken_in(
    x: EditView,
    t: Seq<SyntaxNode>,
    src: Seq<char>,
    op: Operation,
    rt: Seq<SyntaxNode>,
    rsrc: Seq<char>,
    repl: Seq<usize>,
    fuel: nat,
    a: int,
)
    requires
        fuel >= 1,
        op != Operation::InsertAfter,
        x.nodes matches Some(ns) && ns.len() > 0 && nodes_in(t, ns)
            && forall|k: int| 0 <= k < ns.len() ==> !is_preceding_kind(t[#[trigger] ns[k] as int].kind@),
        any_preceding(rt, repl, true),
        any_preceding(rt, repl, false),
        0 <= a < decorations_back(t, x.nodes.unwrap()[0] as int).len(),
        restates(t, src, decorations_back(t, x.nodes.unwrap()[0] as int).reverse()[a], rt, rsrc, repl),
        forall|b: int| 0 <= b < a ==> !restates(
            t,
            src,
            #[trigger] decorations_back(t, x.nodes.unwrap()[0] as int).reverse()[b],
            rt,
            rsrc,
            repl,
        ),
    ensures
        ({
            let ns = x.nodes.unwrap();
            let ds = decorations_back(t, ns[0] as int).reverse();
            let g = grouped(x, t, src, op, rt, rsrc, repl, fuel);
            &&& g.nodes == Some(ds.skip(a) + ns)
            &&& g.start == t[ds[a] as int].start
            &&& x.end is Some ==> g.end == Some(t[ns.last() as int].end as int)
            &&& g.content == x.content
        }),
{
    let ns = x.nodes.unwrap();
    let back = decorations_back(t, ns[0] as int);
    let ds = back.reverse();
    lemma_decorations_back_kinds(t, ns[0] as int);
    assert(!any_preceding(t, ns, true));
    assert(any_preceding(t, ns, false)) by {
        assert(!is_preceding_kind(t[ns[0] as int].kind@));
    }
    assert(expansion_spec(t, ns, true, true) == Some(ExpansionType::BackwardsToMatchPattern));
    lemma_first_shared_is_topmost_restated(t, src, ds, rt, rsrc, repl, 0, a);
    let ex = ds.skip(a) + ns;
    assert(reconcile_spec(t, src, ns, rt, rsrc, repl) == Some(ex));
    let x1 = expanded_view(x, t, op, ex, ExpansionType::BackwardsToMatchPattern);
    assert(ex[0] == ds[a]);
    assert(ex.last() == ns.last());
    assert(ds[a] == back[back.len() - 1 - a]);
    let d0 = ds[a];
    assert(is_preceding_kind(t[d0 as int].kind@) && (d0 as int) < t.len());
    if fuel > 1 {
        if nodes_in(t, ex) {
            assert(any_preceding(t, ex, true)) by {
                assert(is_preceding_kind(t[ex[0] as int].kind@));
            }
            assert(any_preceding(t, ex, false)) by {
                assert(ex[ds.skip(a).len() as int] == ns[0]);
            }
        }
        assert(grouped(x1, t, src, op, rt, rsrc, repl, (fuel - 1) as nat) == x1);
    }
    assert(grouped(x, t, src, op, rt, rsrc, repl, fuel) == grouped(x1, t, src, op, rt, rsrc, repl, (fuel - 1) as nat));
}

} // verus!
