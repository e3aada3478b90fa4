//! Syntax trees: a source file parsed by tree-sitter, read into a table of
//! nodes in preorder that the editing logic works on.
use vstd::prelude::*;
use crate::languages::LanguageName;

verus! {

#[verifier::external_type_specification]
#[verifier::external_body]
pub struct ExTree(tree_sitter::Tree);

/// A number for each language with a grammar, for the names below.
pub open spec fn language_code(l: LanguageName) -> int {
    match l {
        LanguageName::Rust => 0,
        LanguageName::Json => 1,
        LanguageName::Toml => 2,
        LanguageName::Javascript => 3,
        LanguageName::Typescript => 4,
        LanguageName::Tsx => 5,
        LanguageName::Python => 6,
        LanguageName::Jsx => 7,
        LanguageName::Other => 8,
    }
}

/// Number of nodes tree-sitter finds in `src` with grammar `lang`.
pub uninterp spec fn ts_node_count(lang: int, src: Seq<char>) -> nat;

/// Kind of the preorder node `i`.
pub uninterp spec fn ts_kind(lang: int, src: Seq<char>, i: int) -> Seq<char>;

/// Start byte of the preorder node `i`.
pub uninterp spec fn ts_start(lang: int, src: Seq<char>, i: int) -> int;

/// End byte of the preorder node `i`.
pub uninterp spec fn ts_end(lang: int, src: Seq<char>, i: int) -> int;

/// Whether the preorder node `i` is named.
pub uninterp spec fn ts_named(lang: int, src: Seq<char>, i: int) -> bool;

/// Whether the preorder node `i` is an extra (a comment, in most grammars).
pub uninterp spec fn ts_extra(lang: int, src: Seq<char>, i: int) -> bool;

/// Whether the preorder node `i` is an ERROR node.
pub uninterp spec fn ts_error(lang: int, src: Seq<char>, i: int) -> bool;

/// Whether the preorder node `i` was inserted by error recovery.
pub uninterp spec fn ts_missing(lang: int, src: Seq<char>, i: int) -> bool;

/// Depth of the preorder node `i` (the root is at depth 0).
pub uninterp spec fn ts_depth(lang: int, src: Seq<char>, i: int) -> int;

/// Field name under which the preorder node `i` sits in its parent.
pub uninterp spec fn ts_field(lang: int, src: Seq<char>, i: int) -> Option<Seq<char>>;

/// Preorder index of `root.descendant_for_byte_range(start, end)`.
pub uninterp spec fn ts_descendant(lang: int, src: Seq<char>, start: int, end: int) -> Option<int>;

/// The S-expression tree-sitter prints for the preorder node `i`
/// (`Node::to_string`).
pub uninterp spec fn ts_sexp(lang: int, src: Seq<char>, i: int) -> Seq<char>;

/// Preorder index of `root.named_descendant_for_byte_range(start, end)`.
pub uninterp spec fn ts_named_descendant(lang: int, src: Seq<char>, start: int, end: int) -> Option<int>;

/// Whether tree-sitter gives a tree for `src` with the grammar `lang`: the
/// parser accepts the grammar (`Parser::set_language`) and `Parser::parse`
/// returns a tree.
pub uninterp spec fn ts_parses(lang: int, src: Seq<char>) -> bool;

/// Whether the root of the parse of `src` with grammar `lang` is, or
/// contains, a syntax error (`Node::has_error`).
pub uninterp spec fn ts_has_error(lang: int, src: Seq<char>) -> bool;

/// Preorder index of `root.descendant_for_point_range(point, point)`, the
/// point being row `row` and byte column `column`.
pub uninterp spec fn ts_point_descendant(lang: int, src: Seq<char>, row: int, column: int) -> Option<int>;

/// A source text parsed by tree-sitter with a language's grammar.
pub struct ParsedSource {
    tree: tree_sitter::Tree,
    language: LanguageName,
    source: String,
}

impl ParsedSource {
    /// The grammar the source was parsed with.
    pub closed spec fn lang(&self) -> int {
        language_code(self.language)
    }

    /// The text that was parsed.
    pub closed spec fn src(&self) -> Seq<char> {
        self.source@
    }

    /// The text that was parsed.
    pub fn text(&self) -> (t: &str)
        ensures
            t@ == self.src(),
    {
        self.source.as_str()
    }

    /// The language the source was parsed as.
    pub fn language(&self) -> (l: LanguageName)
        ensures
            language_code(l) == self.lang(),
    {
        self.language
    }
}

/// Parse `source` with the grammar of `language` (`Parser::new`,
/// `set_language`, `parse`). Plain text has no grammar here; for a language
/// with a grammar there is a parse exactly when tree-sitter gives one (see
/// [`ts_parses`]), and it is of `source` with that grammar.
#[verifier::external_body]
pub fn parse_source(language: LanguageName, source: &str) -> (r: Option<ParsedSource>)
    ensures
        r matches Some(p) ==> p.lang() == language_code(language) && p.src() == source@,
        language != LanguageName::Other ==> (r is Some <==> ts_parses(language_code(language), source@)),
        language == LanguageName::Other ==> r is None,
{
    let grammar: tree_sitter::Language = match language {
        LanguageName::Rust => tree_sitter_rust::LANGUAGE.into(),
        LanguageName::Json => tree_sitter_json::LANGUAGE.into(),
        LanguageName::Toml => tree_sitter_toml_ng::LANGUAGE.into(),
        LanguageName::Javascript | LanguageName::Jsx => tree_sitter_javascript::LANGUAGE.into(),
        LanguageName::Typescript => tree_sitter_typescript::LANGUAGE_TYPESCRIPT.into(),
        LanguageName::Tsx => tree_sitter_typescript::LANGUAGE_TSX.into(),
        LanguageName::Python => tree_sitter_python::LANGUAGE.into(),
        LanguageName::Other => return None,
    };
    let mut parser = tree_sitter::Parser::new();
    parser.set_language(&grammar).ok()?;
    let tree = parser.parse(source, None)?;
    Some(ParsedSource { tree, language, source: source.to_string() })
}

/// `tree.root_node().has_error()`: whether the parse holds a syntax error.
#[verifier::external_body]
pub fn tree_has_error(p: &ParsedSource) -> (b: bool)
    ensures
        b == ts_has_error(p.lang(), p.src()),
{
    p.tree.root_node().has_error()
}

/// `tree.root_node().descendant_count()`: how many nodes the tree has.
#[verifier::external_body]
fn node_count(p: &ParsedSource) -> (n: usize)
    ensures
        n == ts_node_count(p.lang(), p.src()),
{
    p.tree.root_node().descendant_count()
}

/// `Node::kind` of the preorder node `i` (reached with `goto_descendant`).
#[verifier::external_body]
fn node_kind(p: &ParsedSource, i: usize) -> (k: String)
    requires
        i < ts_node_count(p.lang(), p.src()),
    ensures
        k@ == ts_kind(p.lang(), p.src(), i as int),
{
    let mut c = p.tree.walk();
    c.goto_descendant(i);
    c.node().kind().to_string()
}

/// `Node::start_byte` of the preorder node `i`.
#[verifier::external_body]
fn node_start(p: &ParsedSource, i: usize) -> (b: usize)
    requires
        i < ts_node_count(p.lang(), p.src()),
    ensures
        b == ts_start(p.lang(), p.src(), i as int),
{
    let mut c = p.tree.walk();
    c.goto_descendant(i);
    c.node().start_byte()
}

/// `Node::end_byte` of the preorder node `i`.
#[verifier::external_body]
fn node_end(p: &ParsedSource, i: usize) -> (b: usize)
    requires
        i < ts_node_count(p.lang(), p.src()),
    ensures
        b == ts_end(p.lang(), p.src(), i as int),
{
    let mut c = p.tree.walk();
    c.goto_descendant(i);
    c.node().end_byte()
}

/// `Node::is_named` of the preorder node `i`.
#[verifier::external_body]
fn node_is_named(p: &ParsedSource, i: usize) -> (b: bool)
    requires
        i < ts_node_count(p.lang(), p.src()),
    ensures
        b == ts_named(p.lang(), p.src(), i as int),
{
    let mut c = p.tree.walk();
    c.goto_descendant(i);
    c.node().is_named()
}

/// `Node::is_extra` of the preorder node `i`.
#[verifier::external_body]
fn node_is_extra(p: &ParsedSource, i: usize) -> (b: bool)
    requires
        i < ts_node_count(p.lang(), p.src()),
    ensures
        b == ts_extra(p.lang(), p.src(), i as int),
{
    let mut c = p.tree.walk();
    c.goto_descendant(i);
    c.node().is_extra()
}

/// `Node::is_error` of the preorder node `i`.
#[verifier::external_body]
fn node_is_error(p: &ParsedSource, i: usize) -> (b: bool)
    requires
        i < ts_node_count(p.lang(), p.src()),
    ensures
        b == ts_error(p.lang(), p.src(), i as int),
{
    let mut c = p.tree.walk();
    c.goto_descendant(i);
    c.node().is_error()
}

/// `Node::is_missing` of the preorder node `i`.
#[verifier::external_body]
fn node_is_missing(p: &ParsedSource, i: usize) -> (b: bool)
    requires
        i < ts_node_count(p.lang(), p.src()),
    ensures
        b == ts_missing(p.lang(), p.src(), i as int),
{
    let mut c = p.tree.walk();
    c.goto_descendant(i);
    c.node().is_missing()
}

/// `TreeCursor::depth` at the preorder node `i`.
#[verifier::external_body]
fn node_depth(p: &ParsedSource, i: usize) -> (d: usize)
    requires
        i < ts_node_count(p.lang(), p.src()),
    ensures
        d == ts_depth(p.lang(), p.src(), i as int),
{
    let mut c = p.tree.walk();
    c.goto_descendant(i);
    c.depth() as usize
}

/// `TreeCursor::field_name` at the preorder node `i`.
#[verifier::external_body]
fn node_field(p: &ParsedSource, i: usize) -> (f: Option<String>)
    requires
        i < ts_node_count(p.lang(), p.src()),
    ensures
        match f {
            Some(x) => ts_field(p.lang(), p.src(), i as int) == Some(x@),
            None => ts_field(p.lang(), p.src(), i as int) is None,
        },
{
    let mut c = p.tree.walk();
    c.goto_descendant(i);
    c.field_name().map(|x| x.to_string())
}

/// `Node::to_string` of the preorder node `i`: its S-expression.
#[verifier::external_body]
pub fn node_sexp(p: &ParsedSource, i: usize) -> (s: String)
    requires
        i < ts_node_count(p.lang(), p.src()),
    ensures
        s@ == ts_sexp(p.lang(), p.src(), i as int),
{
    let mut c = p.tree.walk();
    c.goto_descendant(i);
    c.node().to_string()
}

/// Whether the preorder node `i` is `root.descendant_for_byte_range(start, end)`.
#[verifier::external_body]
fn is_descendant_for_range(p: &ParsedSource, i: usize, start: usize, end: usize) -> (b: bool)
    requires
        i < ts_node_count(p.lang(), p.src()),
    ensures
        b == (ts_descendant(p.lang(), p.src(), start as int, end as int) == Some(i as int)),
{
    let mut c = p.tree.walk();
    c.goto_descendant(i);
    p.tree.root_node().descendant_for_byte_range(start, end) == Some(c.node())
}

/// Whether the preorder node `i` is
/// `root.named_descendant_for_byte_range(start, end)`.
#[verifier::external_body]
fn is_named_descendant_for_range(p: &ParsedSource, i: usize, start: usize, end: usize) -> (b: bool)
    requires
        i < ts_node_count(p.lang(), p.src()),
    ensures
        b == (ts_named_descendant(p.lang(), p.src(), start as int, end as int) == Some(i as int)),
{
    let mut c = p.tree.walk();
    c.goto_descendant(i);
    p.tree.root_node().named_descendant_for_byte_range(start, end) == Some(c.node())
}

/// Whether the preorder node `i` is
/// `root.descendant_for_point_range(point, point)` for the point at `row`
/// and byte `column`.
#[verifier::external_body]
fn is_descendant_for_point(p: &ParsedSource, i: usize, row: usize, column: usize) -> (b: bool)
    requires
        i < ts_node_count(p.lang(), p.src()),
    ensures
        b == (ts_point_descendant(p.lang(), p.src(), row as int, column as int) == Some(i as int)),
{
    let point = tree_sitter::Point::new(row, column);
    let mut c = p.tree.walk();
    c.goto_descendant(i);
    p.tree.root_node().descendant_for_point_range(point, point) == Some(c.node())
}

/// One node of a syntax tree.
#[derive(Debug, Clone)]
pub struct SyntaxNode {
    pub kind: String,
    pub start: usize,
    pub end: usize,
    pub named: bool,
    pub extra: bool,
    pub error: bool,
    pub missing: bool,
    pub field: Option<String>,
    /// Index of the parent node; `None` for the root only.
    pub parent: Option<usize>,
    /// Index of the sibling just before this node, if any.
    pub prev_sibling: Option<usize>,
}

/// A syntax tree as a table of nodes in preorder; index 0 is the root.
#[derive(Debug, Clone)]
pub struct SyntaxTree {
    pub nodes: Vec<SyntaxNode>,
}

impl SyntaxTree {
    /// The table is a tree: a root at 0, every other node's parent and
    /// previous sibling come before it, the previous sibling shares the
    /// parent, and every node's range is in order.
    pub open spec fn wf(&self) -> bool {
        let n = self.nodes@;
        &&& n.len() > 0
        &&& n[0].parent is None
        &&& n[0].prev_sibling is None
        &&& forall|i: int| 0 < i < n.len() ==> ((#[trigger] n[i]).parent matches Some(p) && p < i)
        &&& forall|i: int|
            0 <= i < n.len() ==> ((#[trigger] n[i]).prev_sibling matches Some(q) ==> q < i
                && n[q as int].parent == n[i].parent)
        &&& forall|i: int| 0 <= i < n.len() ==> (#[trigger] n[i]).start <= n[i].end
    }

    /// Node `i` is the table's reading of the preorder node `i` of the parse.
    pub open spec fn reads(&self, lang: int, src: Seq<char>, i: int) -> bool {
        node_reads(self.nodes@[i], lang, src, i)
    }
}

/// The node's own fields are those of the preorder node `i`.
pub open spec fn fields_read(x: SyntaxNode, lang: int, src: Seq<char>, i: int) -> bool {
    &&& x.kind@ == ts_kind(lang, src, i)
    &&& x.start == ts_start(lang, src, i)
    &&& x.end == ts_end(lang, src, i)
    &&& x.named == ts_named(lang, src, i)
    &&& x.extra == ts_extra(lang, src, i)
    &&& x.error == ts_error(lang, src, i)
    &&& x.missing == ts_missing(lang, src, i)
    &&& (match x.field {
        Some(f) => ts_field(lang, src, i) == Some(f@),
        None => ts_field(lang, src, i) is None,
    })
}

/// `x` reads the preorder node `i`: its fields, and as parent the nearest
/// earlier node one level up.
pub open spec fn node_reads(x: SyntaxNode, lang: int, src: Seq<char>, i: int) -> bool {
    &&& fields_read(x, lang, src, i)
    &&& (match x.parent {
        Some(p) => ts_depth(lang, src, p as int) + 1 == ts_depth(lang, src, i) && forall|k: int|
            p < k < i ==> ts_depth(lang, src, k) >= ts_depth(lang, src, i),
        None => i == 0 && ts_depth(lang, src, 0) == 0,
    })
    &&& prev_reads(x, lang, src, i)
}

/// `x` has as previous sibling the nearest earlier node at its depth with no
/// shallower node between, or none when no such node follows its parent.
pub open spec fn prev_reads(x: SyntaxNode, lang: int, src: Seq<char>, i: int) -> bool {
    match x.prev_sibling {
        Some(q) => q < i && ts_depth(lang, src, q as int) == ts_depth(lang, src, i) && forall|k: int|
            q < k < i ==> ts_depth(lang, src, k) > ts_depth(lang, src, i),
        None => match x.parent {
            Some(p) => forall|k: int| p < k < i ==> ts_depth(lang, src, k) > ts_depth(lang, src, i),
            None => true,
        },
    }
}

/// `t` is the node table of the parse of `src` with grammar `lang`.
pub open spec fn reading_of(t: SyntaxTree, lang: int, src: Seq<char>) -> bool {
    &&& t.wf()
    &&& t.nodes@.len() == ts_node_count(lang, src)
    &&& forall|i: int| 0 <= i < t.nodes@.len() ==> #[trigger] t.reads(lang, src, i)
}

/// The text parses with grammar `lang` and the parse reads as a node table.
pub open spec fn parses_as_tree(lang: int, src: Seq<char>) -> bool {
    ts_parses(lang, src) && exists|t: SyntaxTree| reading_of(t, lang, src)
}

/// Two node tables of the same parse agree: node by node, the same kind,
/// range, flags, field, parent and previous sibling. A statement about
/// "the" table of a parse is therefore about one table.
pub proof fn lemma_readings_agree(t1: SyntaxTree, t2: SyntaxTree, lang: int, src: Seq<char>, i: int)
    requires
        reading_of(t1, lang, src),
        reading_of(t2, lang, src),
        0 <= i < t1.nodes@.len(),
    ensures
        t1.nodes@.len() == t2.nodes@.len(),
        ({
            let a = t1.nodes@[i];
            let b = t2.nodes@[i];
            &&& a.kind@ == b.kind@
            &&& a.start == b.start
            &&& a.end == b.end
            &&& a.named == b.named
            &&& a.extra == b.extra
            &&& a.error == b.error
            &&& a.missing == b.missing
            &&& opt_text(a.field) == opt_text(b.field)
            &&& a.parent == b.parent
            &&& a.prev_sibling == b.prev_sibling
        }),
{
    assert(t1.reads(lang, src, i));
    assert(t2.reads(lang, src, i));
    let a = t1.nodes@[i];
    let b = t2.nodes@[i];
    if i > 0 {
        let p1 = a.parent.unwrap();
        let p2 = b.parent.unwrap();
        if p1 < p2 {
            assert(p1 < p2 < i);
        } else if p2 < p1 {
            assert(p2 < p1 < i);
        }
        match (a.prev_sibling, b.prev_sibling) {
            (Some(q1), Some(q2)) => {
                if q1 < q2 {
                    assert(q1 < q2 < i);
                } else if q2 < q1 {
                    assert(q2 < q1 < i);
                }
            },
            (Some(q1), None) => {
                assert(t1.nodes@[q1 as int].parent == a.parent);
                assert(t1.nodes@[q1 as int].parent matches Some(z) && z < q1);
                assert(p1 < q1 < i);
            },
            (None, Some(q2)) => {
                assert(t2.nodes@[q2 as int].parent == b.parent);
                assert(t2.nodes@[q2 as int].parent matches Some(z) && z < q2);
                assert(p2 < q2 < i);
            },
            (None, None) => {},
        }
    }
}

/// Two nodes read the same: the same kind, range, flags, field, parent and
/// previous sibling.
pub open spec fn nodes_agree(a: SyntaxNode, b: SyntaxNode) -> bool {
    &&& a.kind@ == b.kind@
    &&& a.start == b.start
    &&& a.end == b.end
    &&& a.named == b.named
    &&& a.extra == b.extra
    &&& a.error == b.error
    &&& a.missing == b.missing
    &&& opt_text(a.field) == opt_text(b.field)
    &&& a.parent == b.parent
    &&& a.prev_sibling == b.prev_sibling
}

/// Two node tables read the same, node by node.
pub open spec fn tables_agree(t1: Seq<SyntaxNode>, t2: Seq<SyntaxNode>) -> bool {
    &&& t1.len() == t2.len()
    &&& forall|i: int| #![trigger t1[i]] #![trigger t2[i]] 0 <= i < t1.len() ==> nodes_agree(t1[i], t2[i])
}

/// Two node tables of the same parse read the same (see
/// [`lemma_readings_agree`]).
pub proof fn lemma_reading_tables_agree(t1: SyntaxTree, t2: SyntaxTree, lang: int, src: Seq<char>)
    requires
        reading_of(t1, lang, src),
        reading_of(t2, lang, src),
    ensures
        tables_agree(t1.nodes@, t2.nodes@),
        t1.nodes@.len() > 0,
{
    assert forall|i: int| 0 <= i < t1.nodes@.len() implies nodes_agree(t1.nodes@[i], t2.nodes@[i]) by {
        lemma_readings_agree(t1, t2, lang, src, i);
    }
}

/// A field name as text.
pub open spec fn opt_text(f: Option<String>) -> Option<Seq<char>> {
    match f {
        Some(x) => Some(x@),
        None => None,
    }
}

/// The shape a parse has at its preorder node `k`: a range in order, the
/// root at depth zero, any other node at least one deep and at most one
/// deeper than the node before it.
pub open spec fn shaped_at(lang: int, src: Seq<char>, k: int) -> bool {
    &&& ts_start(lang, src, k) <= ts_end(lang, src, k)
    &&& k == 0 ==> ts_depth(lang, src, 0) == 0
    &&& k > 0 ==> 1 <= ts_depth(lang, src, k) <= ts_depth(lang, src, k - 1) + 1
}

/// In a node table of a parse, every node but the root is at least one
/// level deep.
proof fn lemma_reading_depth(t: SyntaxTree, lang: int, src: Seq<char>, i: int)
    requires
        reading_of(t, lang, src),
        0 <= i < t.nodes@.len(),
    ensures
        i == 0 ==> ts_depth(lang, src, 0) == 0,
        i > 0 ==> ts_depth(lang, src, i) >= 1,
    decreases i,
{
    assert(t.reads(lang, src, i));
    if i > 0 {
        let q = t.nodes@[i].parent.unwrap();
        assert((q as int) < i);
        lemma_reading_depth(t, lang, src, q as int);
    }
}

/// The shape a node table of a parse gives the parse: the root at depth
/// zero, every other node at least one deep and at most one deeper than the
/// node before it, and every range in order.
proof fn lemma_reading_shape(t: SyntaxTree, lang: int, src: Seq<char>, i: int)
    requires
        reading_of(t, lang, src),
        0 <= i < t.nodes@.len(),
    ensures
        shaped_at(lang, src, i),
{
    assert(t.reads(lang, src, i));
    lemma_reading_depth(t, lang, src, i);
    if i > 0 {
        let q = t.nodes@[i].parent.unwrap();
        if (q as int) < i - 1 {
            assert(q < i - 1 < i);
        }
    }
}

/// Read the preorder node `i`, with the given parent and previous sibling.
fn read_node(p: &ParsedSource, i: usize, start: usize, end: usize, parent: Option<usize>, prev_sibling: Option<usize>) -> (x: SyntaxNode)
    requires
        i < ts_node_count(p.lang(), p.src()),
        start == ts_start(p.lang(), p.src(), i as int),
        end == ts_end(p.lang(), p.src(), i as int),
    ensures
        fields_read(x, p.lang(), p.src(), i as int),
        x.parent == parent,
        x.prev_sibling == prev_sibling,
{
    SyntaxNode {
        kind: node_kind(p, i),
        start,
        end,
        named: node_is_named(p, i),
        extra: node_is_extra(p, i),
        error: node_is_error(p, i),
        missing: node_is_missing(p, i),
        field: node_field(p, i),
        parent,
        prev_sibling,
    }
}

/// Read the parse into a node table. `None` when the parse does not have the
/// shape of a tree in preorder (a root at depth 0, each depth at most one
/// more than the one before) or a node's range is reversed.
#[verifier::rlimit(40)]
pub fn read_tree(p: &ParsedSource) -> (r: Option<SyntaxTree>)
    ensures
        r matches Some(t) ==> t.wf() && t.nodes@.len() == ts_node_count(p.lang(), p.src())
            && forall|i: int| 0 <= i < t.nodes@.len() ==> #[trigger] t.reads(p.lang(), p.src(), i),
        (exists|t: SyntaxTree| reading_of(t, p.lang(), p.src())) ==> r is Some,
{
    let ghost lang = p.lang();
    let ghost src = p.src();
    let ghost has = exists|t: SyntaxTree| reading_of(t, lang, src);
    proof {
        if has {
            let t0 = choose|t: SyntaxTree| reading_of(t, lang, src);
            assert forall|k: int| 0 <= k < ts_node_count(lang, src) implies #[trigger] shaped_at(lang, src, k) by {
                lemma_reading_shape(t0, lang, src, k);
            }
            assert(ts_node_count(lang, src) > 0);
        }
    }
    let count = node_count(p);
    if count == 0 {
        return None;
    }
    let mut nodes: Vec<SyntaxNode> = Vec::new();
    // stack[d]: the last node seen at depth d on the current path.
    let mut stack: Vec<usize> = Vec::new();
    // last[d]: the last node seen at depth d under stack[d - 1], if any.
    let mut i: usize = 0;
    while i < count
        invariant
            i <= count == ts_node_count(lang, src),
            lang == p.lang(),
            src == p.src(),
            nodes@.len() == i,
            i > 0 ==> stack@.len() == ts_depth(lang, src, i - 1) + 1,
            i == 0 ==> stack@.len() == 0,
            forall|d: int| 0 <= d < stack@.len() ==> (#[trigger] stack@[d]) < i && ts_depth(lang, src, stack@[d] as int) == d,
            forall|d: int, e: int| 0 <= d < e < stack@.len() ==> stack@[d] < stack@[e],
            forall|d: int, k: int| #![trigger stack@[d], ts_depth(lang, src, k)] 0 <= d < stack@.len() && stack@[d] < k < i ==> ts_depth(lang, src, k) > d,
            i > 0 ==> stack@[stack@.len() - 1] == i - 1,
            forall|d: int| 1 <= d < stack@.len() ==> nodes@[#[trigger] stack@[d] as int].parent == Some(stack@[d - 1]),
            nodes@.len() > 0 ==> nodes@[0].parent is None && nodes@[0].prev_sibling is None,
            forall|k: int| 0 < k < i ==> ((#[trigger] nodes@[k]).parent matches Some(q) && q < k),
            forall|k: int|
                0 <= k < i ==> ((#[trigger] nodes@[k]).prev_sibling matches Some(q) ==> q < k
                    && nodes@[q as int].parent == nodes@[k].parent),
            forall|k: int| 0 <= k < i ==> (#[trigger] nodes@[k]).start <= nodes@[k].end,
            forall|k: int| 0 <= k < i ==> node_reads(#[trigger] nodes@[k], lang, src, k),
            has == exists|t: SyntaxTree| reading_of(t, lang, src),
            has ==> forall|k: int| 0 <= k < count ==> #[trigger] shaped_at(lang, src, k),
        decreases count - i,
    {
        let depth = node_depth(p, i);
        let start = node_start(p, i);
        let end = node_end(p, i);
        proof {
            if has {
                assert(shaped_at(lang, src, i as int));
            }
        }
        if start > end {
            return None;
        }
        let (parent, prev_sibling) = if i == 0 {
            if depth != 0 {
                return None;
            }
            (None, None)
        } else {
            if depth == 0 || depth > stack.len() {
                return None;
            }
            let prev = if depth < stack.len() {
                Some(stack[depth])
            } else {
                None
            };
            let ghost before = stack@;
            proof {
                match prev {
                    Some(q) => {
                        assert(before[depth as int] == q);
                        assert forall|k: int| q < k < i implies ts_depth(lang, src, k) > depth by {
                            assert(before[depth as int] < k < i);
                        }
                    },
                    None => {
                        assert(before.len() == depth);
                        assert(before[depth - 1] == i - 1);
                    },
                }
            }
            while stack.len() > depth
                invariant
                    depth >= 1,
                    depth <= stack@.len(),
                    forall|d: int| 0 <= d < stack@.len() ==> (#[trigger] stack@[d]) < i && ts_depth(lang, src, stack@[d] as int) == d,
                    forall|d: int, e: int| 0 <= d < e < stack@.len() ==> stack@[d] < stack@[e],
                    forall|d: int, k: int| #![trigger stack@[d], ts_depth(lang, src, k)] 0 <= d < stack@.len() && stack@[d] < k < i ==> ts_depth(lang, src, k) > d,
                    forall|d: int| 1 <= d < stack@.len() ==> nodes@[#[trigger] stack@[d] as int].parent == Some(stack@[d - 1]),
                    nodes@.len() == i,
                decreases stack@.len(),
            {
                stack.pop();
            }
            assert(stack@[depth - 1] == before[depth - 1]) by {
                assert(stack@.len() == depth);
            }
            (Some(stack[depth - 1]), prev)
        };
        let node = read_node(p, i, start, end, parent, prev_sibling);
        assert(prev_reads(node, lang, src, i as int));
        nodes.push(node);
        stack.push(i);
        i += 1;
    }
    Some(SyntaxTree { nodes })
}

/// The table `t` is the reading of the parse `p`.
pub open spec fn tree_of(t: SyntaxTree, p: ParsedSource) -> bool {
    &&& t.wf()
    &&& t.nodes@.len() == ts_node_count(p.lang(), p.src())
    &&& forall|i: int| 0 <= i < t.nodes@.len() ==> #[trigger] t.reads(p.lang(), p.src(), i)
}

/// The node tree-sitter reports as `root.descendant_for_byte_range(start,
/// end)`, found in the table: `Some(i)` exactly when it is node `i`.
pub fn descendant_for_byte_range(p: &ParsedSource, t: &SyntaxTree, start: usize, end: usize) -> (r: Option<usize>)
    requires
        tree_of(*t, *p),
    ensures
        match r {
            Some(i) => i < t.nodes@.len() && ts_descendant(p.lang(), p.src(), start as int, end as int) == Some(i as int),
            None => forall|i: int| 0 <= i < t.nodes@.len() ==> ts_descendant(p.lang(), p.src(), start as int, end as int) != Some(i),
        },
{
    let mut i: usize = 0;
    while i < t.nodes.len()
        invariant
            i <= t.nodes@.len(),
            forall|k: int| 0 <= k < i ==> ts_descendant(p.lang(), p.src(), start as int, end as int) != Some(k),
            t.nodes@.len() == ts_node_count(p.lang(), p.src()),
        decreases t.nodes@.len() - i,
    {
        if is_descendant_for_range(p, i, start, end) {
            return Some(i);
        }
        i += 1;
    }
    None
}

/// The node tree-sitter reports as `root.descendant_for_point_range` for the
/// point at `row` and byte `column`, found in the table.
pub fn descendant_for_point(p: &ParsedSource, t: &SyntaxTree, row: usize, column: usize) -> (r: Option<usize>)
    requires
        tree_of(*t, *p),
    ensures
        match r {
            Some(i) => i < t.nodes@.len() && ts_point_descendant(p.lang(), p.src(), row as int, column as int) == Some(i as int),
            None => forall|i: int| 0 <= i < t.nodes@.len() ==> ts_point_descendant(p.lang(), p.src(), row as int, column as int) != Some(i),
        },
{
    let mut i: usize = 0;
    while i < t.nodes.len()
        invariant
            i <= t.nodes@.len(),
            forall|k: int| 0 <= k < i ==> ts_point_descendant(p.lang(), p.src(), row as int, column as int) != Some(k),
            t.nodes@.len() == ts_node_count(p.lang(), p.src()),
        decreases t.nodes@.len() - i,
    {
        if is_descendant_for_point(p, i, row, column) {
            return Some(i);
        }
        i += 1;
    }
    None
}

/// The node tree-sitter reports as `root.named_descendant_for_byte_range(start,
/// end)`, found in the table.
pub fn named_descendant_for_byte_range(p: &ParsedSource, t: &SyntaxTree, start: usize, end: usize) -> (r: Option<usize>)
    requires
        tree_of(*t, *p),
    ensures
        match r {
            Some(i) => i < t.nodes@.len() && ts_named_descendant(p.lang(), p.src(), start as int, end as int) == Some(i as int),
            None => forall|i: int| 0 <= i < t.nodes@.len() ==> ts_named_descendant(p.lang(), p.src(), start as int, end as int) != Some(i),
        },
{
    let mut i: usize = 0;
    while i < t.nodes.len()
        invariant
            i <= t.nodes@.len(),
            forall|k: int| 0 <= k < i ==> ts_named_descendant(p.lang(), p.src(), start as int, end as int) != Some(k),
            t.nodes@.len() == ts_node_count(p.lang(), p.src()),
        decreases t.nodes@.len() - i,
    {
        if is_named_descendant_for_range(p, i, start, end) {
            return Some(i);
        }
        i += 1;
    }
    None
}

/// The descendant lookup as the table sees it: the node index, or `None`
/// when no node of the table is the one reported.
pub open spec fn table_descendant(n: nat, d: Option<int>) -> Option<int> {
    match d {
        Some(i) => if 0 <= i < n {
            Some(i)
        } else {
            None
        },
        None => None,
    }
}

/// Climb from node `i` to the outermost enclosing run of extra ancestors
/// (the comment around a comment's inner tokens).
pub open spec fn climb_extra(t: Seq<SyntaxNode>, i: int) -> int
    decreases i,
{
    if 0 <= i < t.len() {
        match t[i].parent {
            Some(q) => if q < i && t[q as int].extra {
                climb_extra(t, q as int)
            } else {
                i
            },
            None => i,
        }
    } else {
        i
    }
}

/// The named children of `parent` among the first `n` nodes that overlap the
/// byte range `start..end`, in order.
pub open spec fn siblings_in_range_upto(t: Seq<SyntaxNode>, parent: int, start: int, end: int, n: int) -> Seq<usize>
    decreases n,
{
    if n <= 0 {
        seq![]
    } else {
        let before = siblings_in_range_upto(t, parent, start, end, n - 1);
        let x = t[n - 1];
        if x.parent == Some(parent as usize) && x.named && x.start < end && x.end > start {
            before.push((n - 1) as usize)
        } else {
            before
        }
    }
}

/// The named children of `parent` that overlap the byte range `start..end`.
pub open spec fn siblings_in_range(t: Seq<SyntaxNode>, parent: int, start: int, end: int) -> Seq<usize> {
    siblings_in_range_upto(t, parent, start, end, t.len() as int)
}

/// The first child of `node` among the first `n` nodes sitting in its `body`
/// field.
pub open spec fn body_child_upto(t: Seq<SyntaxNode>, node: int, n: int) -> Option<int>
    decreases n,
{
    if n <= 0 {
        None
    } else {
        match body_child_upto(t, node, n - 1) {
            Some(b) => Some(b),
            None => {
                let x = t[n - 1];
                if x.parent == Some(node as usize) && (x.field matches Some(f) && f@ == "body"@) {
                    Some(n - 1)
                } else {
                    None
                }
            },
        }
    }
}

proof fn lemma_body_child_stable(t: Seq<SyntaxNode>, node: int, n: int, m: int)
    requires
        n <= m,
        body_child_upto(t, node, n) is Some,
    ensures
        body_child_upto(t, node, m) == body_child_upto(t, node, n),
    decreases m - n,
{
    if n < m {
        lemma_body_child_stable(t, node, n, m - 1);
    }
}

/// An anchor starting at byte `start` lies in `node`'s header: before the
/// start of its `body` child. Nodes without a body have no header.
pub open spec fn anchor_in_header(t: Seq<SyntaxNode>, node: int, start: int) -> bool {
    match body_child_upto(t, node, t.len() as int) {
        Some(b) => start < t[b].start,
        None => false,
    }
}

impl SyntaxTree {
    /// Climb from node `i` through enclosing extra nodes.
    pub fn climb_extra(&self, i: usize) -> (r: usize)
        requires
            self.wf(),
            i < self.nodes@.len(),
        ensures
            r == climb_extra(self.nodes@, i as int),
            r < self.nodes@.len(),
    {
        let mut cur = i;
        while cur < self.nodes.len()
            invariant_except_break
                self.wf(),
                cur < self.nodes@.len(),
                climb_extra(self.nodes@, cur as int) == climb_extra(self.nodes@, i as int),
            ensures
                cur == climb_extra(self.nodes@, i as int),
                cur < self.nodes@.len(),
            decreases cur,
        {
            match self.nodes[cur].parent {
                Some(q) => {
                    if q < cur && self.nodes[q].extra {
                        cur = q;
                    } else {
                        break;
                    }
                },
                None => {
                    break;
                },
            }
        }
        cur
    }

    /// The named children of `parent` that overlap `start..end`.
    pub fn siblings_in_range(&self, parent: usize, start: usize, end: usize) -> (v: Vec<usize>)
        ensures
            v@ == siblings_in_range(self.nodes@, parent as int, start as int, end as int),
            forall|k: int| 0 <= k < v@.len() ==> (#[trigger] v@[k]) < self.nodes@.len(),
    {
        let mut v: Vec<usize> = Vec::new();
        let mut j: usize = 0;
        while j < self.nodes.len()
            invariant
                j <= self.nodes@.len(),
                v@ == siblings_in_range_upto(self.nodes@, parent as int, start as int, end as int, j as int),
                forall|k: int| 0 <= k < v@.len() ==> (#[trigger] v@[k]) < j,
            decreases self.nodes@.len() - j,
        {
            let x = &self.nodes[j];
            if x.parent == Some(parent) && x.named && x.start < end && x.end > start {
                v.push(j);
            }
            j += 1;
        }
        v
    }

    /// The child of `node` in its `body` field, if any.
    pub fn body_child(&self, node: usize) -> (r: Option<usize>)
        ensures
            match r {
                Some(b) => b < self.nodes@.len() && body_child_upto(self.nodes@, node as int, self.nodes@.len() as int) == Some(b as int),
                None => body_child_upto(self.nodes@, node as int, self.nodes@.len() as int) is None,
            },
    {
        let mut j: usize = 0;
        while j < self.nodes.len()
            invariant
                j <= self.nodes@.len(),
                body_child_upto(self.nodes@, node as int, j as int) is None,
            decreases self.nodes@.len() - j,
        {
            let x = &self.nodes[j];
            proof {
                reveal_strlit("body");
            }
            if x.parent == Some(node) {
                let is_body = match &x.field {
                    Some(f) => crate::item::chars_are(&crate::text::chars_of(f.as_str()), "body"),
                    None => false,
                };
                if is_body {
                    proof {
                        reveal_strlit("body");
                        lemma_body_child_stable(self.nodes@, node as int, j + 1, self.nodes@.len() as int);
                    }
                    return Some(j);
                }
            }
            j += 1;
        }
        None
    }

    /// Whether an anchor starting at byte `start` lies in `node`'s header.
    pub fn anchor_in_header(&self, node: usize, start: usize) -> (b: bool)
        requires
            self.wf(),
        ensures
            b == anchor_in_header(self.nodes@, node as int, start as int),
    {
        match self.body_child(node) {
            Some(b) => start < self.nodes[b].start,
            None => false,
        }
    }
}

/// The first child of `node` among the first `n` nodes that sits in field `f`.
pub open spec fn field_child_upto(t: Seq<SyntaxNode>, node: int, f: Seq<char>, n: int) -> Option<int>
    decreases n,
{
    if n <= 0 {
        None
    } else {
        match field_child_upto(t, node, f, n - 1) {
            Some(b) => Some(b),
            None => {
                let x = t[n - 1];
                if x.parent == Some(node as usize) && (x.field matches Some(g) && g@ == f) {
                    Some(n - 1)
                } else {
                    None
                }
            },
        }
    }
}

proof fn lemma_field_child_stable(t: Seq<SyntaxNode>, node: int, f: Seq<char>, n: int, m: int)
    requires
        n <= m,
        field_child_upto(t, node, f, n) is Some,
    ensures
        field_child_upto(t, node, f, m) == field_child_upto(t, node, f, n),
    decreases m - n,
{
    if n < m {
        lemma_field_child_stable(t, node, f, n, m - 1);
    }
}

/// The first node after `cur`, from `j` on, whose previous sibling is `cur`.
pub open spec fn next_sibling_from(t: Seq<SyntaxNode>, cur: int, j: int) -> Option<int>
    decreases t.len() - j,
{
    if j < 0 || j >= t.len() {
        None
    } else if t[j].prev_sibling == Some(cur as usize) {
        Some(j)
    } else {
        next_sibling_from(t, cur, j + 1)
    }
}

pub proof fn lemma_next_sibling_from(t: Seq<SyntaxNode>, cur: int, j: int)
    requires
        0 <= j,
    ensures
        next_sibling_from(t, cur, j) matches Some(k) ==> j <= k < t.len(),
    decreases t.len() - j,
{
    if j < t.len() && t[j].prev_sibling != Some(cur as usize) {
        lemma_next_sibling_from(t, cur, j + 1);
    }
}

impl SyntaxTree {
    /// The child of `node` in field `f`, if any.
    pub fn field_child(&self, node: usize, f: &str) -> (r: Option<usize>)
        ensures
            match r {
                Some(b) => b < self.nodes@.len() && field_child_upto(self.nodes@, node as int, f@, self.nodes@.len() as int) == Some(b as int),
                None => field_child_upto(self.nodes@, node as int, f@, self.nodes@.len() as int) is None,
            },
    {
        let mut j: usize = 0;
        while j < self.nodes.len()
            invariant
                j <= self.nodes@.len(),
                field_child_upto(self.nodes@, node as int, f@, j as int) is None,
            decreases self.nodes@.len() - j,
        {
            let x = &self.nodes[j];
            if x.parent == Some(node) {
                let hit = match &x.field {
                    Some(g) => crate::item::chars_equal(&crate::text::chars_of(g.as_str()), &crate::text::chars_of(f)),
                    None => false,
                };
                if hit {
                    proof {
                        lemma_field_child_stable(self.nodes@, node as int, f@, j + 1, self.nodes@.len() as int);
                    }
                    return Some(j);
                }
            }
            j += 1;
        }
        None
    }

    /// The sibling just after `cur`, if any.
    pub fn next_sibling(&self, cur: usize) -> (r: Option<usize>)
        ensures
            match r {
                Some(k) => next_sibling_from(self.nodes@, cur as int, cur + 1) == Some(k as int) && k < self.nodes@.len(),
                None => next_sibling_from(self.nodes@, cur as int, cur + 1) is None,
            },
    {
        if cur >= self.nodes.len() {
            return None;
        }
        let mut j: usize = cur + 1;
        while j < self.nodes.len()
            invariant
                cur < j <= self.nodes@.len(),
                next_sibling_from(self.nodes@, cur as int, cur + 1) == next_sibling_from(self.nodes@, cur as int, j as int),
            decreases self.nodes@.len() - j,
        {
            if self.nodes[j].prev_sibling == Some(cur) {
                return Some(j);
            }
            j += 1;
        }
        None
    }
}

} // verus!
