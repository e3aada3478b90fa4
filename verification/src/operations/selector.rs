//! Anchors and positions for text-anchored node selection, and the helpers
//! its messages use.
use vstd::prelude::*;
use crate::text::{
    byte_at, chars_of, is_whitespace, is_ws, push_char, push_str, slice_chars, string_from_chars,
    str_byte_len, byte_offsets, char_index_from, char_index_of_byte, lemma_char_index_bound,
};
use crate::item::{chars_contain, contains_text, offsets_of};

verus! {

/// Where content goes relative to a selected node.
#[derive(Debug, Clone, Copy, PartialEq, Eq, Structural)]
pub enum Position {
    Before,
    After,
    Replace,
    Around,
}

/// Which side of an anchor an insertion goes.
#[derive(Debug, Clone, Copy, PartialEq, Eq, Structural)]
pub enum InsertPosition {
    Before,
    After,
}

/// A text-anchored target: insert beside the anchor, or replace it.
#[derive(Debug, Clone)]
pub enum Selector {
    Insert { anchor: String, position: InsertPosition },
    Replace { anchor: String },
}

impl Selector {
    /// The operation's name: `Insert` or `Replace`.
    pub fn operation_name(&self) -> (s: &str)
        ensures
            s@ == (match self {
                Selector::Insert { .. } => "Insert"@,
                Selector::Replace { .. } => "Replace"@,
            }),
    {
        match self {
            Selector::Insert { .. } => "Insert",
            Selector::Replace { .. } => "Replace",
        }
    }
}

/// A node selector: the anchor text, the ancestor node type to walk up to,
/// and where the content goes.
#[derive(Debug, Clone)]
pub struct NodeSelector {
    pub position: Option<Position>,
    pub anchor_text: String,
    pub ancestor_node_type: Option<String>,
}

/// The 1-based line and column of byte `b`: one past the line breaks before
/// it, and one past the characters since the last of them.
pub open spec fn line_column_upto(s: Seq<char>, b: int, n: int) -> (int, int)
    decreases n,
{
    if n <= 0 {
        (1, 1)
    } else {
        let (l, c) = line_column_upto(s, b, n - 1);
        if byte_at(s, n - 1) >= b {
            (l, c)
        } else if s[n - 1] == '\n' {
            (l + 1, 1)
        } else {
            (l, c + 1)
        }
    }
}

/// Convert a byte position to a 1-based (line, column) for error reports.
pub fn byte_position_to_line_column(source_code: &str, byte_pos: usize) -> (r: (usize, usize))
    requires
        source_code@.len() < usize::MAX,
    ensures
        (r.0 as int, r.1 as int) == line_column_upto(source_code@, byte_pos as int, source_code@.len() as int),
{
    let c = chars_of(source_code);
    let _n = str_byte_len(source_code);
    let off = byte_offsets(&c);
    let mut line: usize = 1;
    let mut column: usize = 1;
    let mut i: usize = 0;
    while i < c.len()
        invariant
            i <= c@.len() < usize::MAX,
            c@ == source_code@,
            offsets_of(c@, off@),
            (line as int, column as int) == line_column_upto(c@, byte_pos as int, i as int),
            line <= i + 1,
            column <= i + 1,
        decreases c@.len() - i,
    {
        if off[i] < byte_pos {
            if c[i] == '\n' {
                line += 1;
                column = 1;
            } else {
                column += 1;
            }
        }
        i += 1;
    }
    (line, column)
}

/// `s` with line breaks and tabs written as `\\n` and `\\t`.
pub open spec fn escape_breaks(s: Seq<char>) -> Seq<char>
    decreases s.len(),
{
    if s.len() == 0 {
        seq![]
    } else {
        escape_breaks(s.drop_last()) + if s.last() == '\n' {
            seq!['\\', 'n']
        } else if s.last() == '\t' {
            seq!['\\', 't']
        } else {
            seq![s.last()]
        }
    }
}

pub(crate) fn push_escaped(out: &mut String, s: &Vec<char>, from: usize, to: usize)
    requires
        from <= to <= s@.len(),
    ensures
        final(out)@ == old(out)@ + escape_breaks(s@.subrange(from as int, to as int)),
{
    let ghost start = out@;
    let mut i = from;
    while i < to
        invariant
            from <= i <= to <= s@.len(),
            out@ == start + escape_breaks(s@.subrange(from as int, i as int)),
        decreases to - i,
    {
        proof {
            assert(s@.subrange(from as int, i + 1).drop_last() =~= s@.subrange(from as int, i as int));
        }
        if s[i] == '\n' {
            push_char(out, '\\');
            push_char(out, 'n');
        } else if s[i] == '\t' {
            push_char(out, '\\');
            push_char(out, 't');
        } else {
            push_char(out, s[i]);
        }
        i += 1;
        proof {
            assert(out@ =~= start + escape_breaks(s@.subrange(from as int, i as int)));
        }
    }
}

/// The first byte of the context window around `b`.
pub open spec fn context_start(b: int, ctx: int) -> int {
    if b >= ctx {
        b - ctx
    } else {
        0
    }
}

/// The end byte of the context window around `b` in `src`.
pub open spec fn context_end(src: Seq<char>, b: int, ctx: int) -> int {
    if b + ctx <= crate::text::byte_len(src) {
        b + ctx
    } else {
        crate::text::byte_len(src) as int
    }
}

/// The source around a byte position, `context_chars` bytes each way (cut at
/// the file's ends), with line breaks and tabs escaped. Both ends of the
/// window must be character boundaries, as slicing the source requires.
pub fn get_context_around_byte_position(source_code: &str, byte_pos: usize, context_chars: usize) -> (r: String)
    requires
        byte_pos + context_chars <= usize::MAX,
        char_index_from(source_code@, context_start(byte_pos as int, context_chars as int), 0) is Some,
        char_index_from(source_code@, context_end(source_code@, byte_pos as int, context_chars as int), 0) is Some,
        byte_pos <= crate::text::byte_len(source_code@),
    ensures
        r@ == escape_breaks(source_code@.subrange(
            char_index_from(source_code@, context_start(byte_pos as int, context_chars as int), 0).unwrap(),
            char_index_from(source_code@, context_end(source_code@, byte_pos as int, context_chars as int), 0).unwrap(),
        )),
{
    let c = chars_of(source_code);
    let n = str_byte_len(source_code);
    let off = byte_offsets(&c);
    let start = if byte_pos >= context_chars {
        byte_pos - context_chars
    } else {
        0
    };
    let end = if byte_pos + context_chars <= n {
        byte_pos + context_chars
    } else {
        n
    };
    let a = char_index_of_byte(&off, Ghost(c@), start).unwrap();
    let b = char_index_of_byte(&off, Ghost(c@), end).unwrap();
    proof {
        lemma_char_index_bound(c@, start as int, 0);
        lemma_char_index_bound(c@, end as int, 0);
        crate::text::lemma_byte_at_mono(c@, a as int, c@.len() as int);
        crate::text::lemma_byte_at_mono(c@, b as int, c@.len() as int);
        if a > b {
            crate::text::lemma_byte_at_strict(c@, b as int, a as int);
        }
    }
    let mut r = String::new();
    if a <= b {
        push_escaped(&mut r, &c, a, b);
    }
    r
}

/// The index of the last non-whitespace character among the first `k`.
pub open spec fn last_non_ws(s: Seq<char>, k: int) -> Option<int>
    decreases k,
{
    if k <= 0 {
        None
    } else if !is_ws(s[k - 1]) {
        Some(k - 1)
    } else {
        last_non_ws(s, k - 1)
    }
}

pub proof fn lemma_last_non_ws(s: Seq<char>, k: int)
    requires
        k <= s.len(),
    ensures
        last_non_ws(s, k) matches Some(p) ==> 0 <= p < k && !is_ws(s[p]),
        last_non_ws(s, k) is None ==> forall|q: int| 0 <= q < k ==> is_ws(#[trigger] s[q]),
    decreases k,
{
    if k > 0 && is_ws(s[k - 1]) {
        lemma_last_non_ws(s, k - 1);
    }
}

/// What `truncate` keeps of `s` when it is longer than `len` bytes: the text
/// before the last non-whitespace character of its first `len` bytes (or all
/// of those bytes when they are blank), then `...`.
pub open spec fn truncated(s: Seq<char>, len: int) -> Seq<char> {
    if crate::text::byte_len(s) <= len {
        s
    } else {
        let k = char_index_from(s, len, 0).unwrap();
        let cut = match last_non_ws(s, k) {
            Some(p) => p,
            None => k,
        };
        s.take(cut) + "..."@
    }
}

/// Shorten `s` to about `len` bytes, marking the cut with `...`. A string
/// that fits is returned as it is. `len` must fall on a character boundary
/// when the string is longer, as slicing there requires.
pub fn truncate(s: String, len: usize) -> (r: String)
    requires
        crate::text::byte_len(s@) > len ==> char_index_from(s@, len as int, 0) is Some,
    ensures
        r@ == truncated(s@, len as int),
{
    let n = str_byte_len(s.as_str());
    if n <= len {
        return s;
    }
    let c = chars_of(s.as_str());
    let off = byte_offsets(&c);
    let k = char_index_of_byte(&off, Ghost(c@), len).unwrap();
    proof {
        lemma_char_index_bound(c@, len as int, 0);
    }
    let mut p = k;
    while p > 0 && is_whitespace(c[p - 1])
        invariant
            p <= k <= c@.len(),
            last_non_ws(c@, k as int) == last_non_ws(c@, p as int),
        decreases p,
    {
        p -= 1;
    }
    let cut = if p > 0 { p - 1 } else { k };
    let mut r = string_from_chars(slice_chars(&c, 0, cut).as_slice());
    proof {
        reveal_strlit("...");
        assert(c@.subrange(0, cut as int) =~= c@.take(cut as int));
    }
    push_str(&mut r, "...");
    r
}

/// The edit distance between `a[..i]` and `b[..j]`: the fewest single
/// character insertions, deletions and substitutions that turn one into the
/// other.
pub open spec fn lev(a: Seq<char>, b: Seq<char>, i: nat, j: nat) -> nat
    decreases i + j,
{
    if i == 0 {
        j
    } else if j == 0 {
        i
    } else if a[i - 1] == b[j - 1] {
        lev(a, b, (i - 1) as nat, (j - 1) as nat)
    } else {
        let x = lev(a, b, (i - 1) as nat, j);
        let y = lev(a, b, i, (j - 1) as nat);
        let z = lev(a, b, (i - 1) as nat, (j - 1) as nat);
        let m = if x <= y { x } else { y };
        1 + if m <= z { m } else { z }
    }
}

proof fn lemma_lev_bound(a: Seq<char>, b: Seq<char>, i: nat, j: nat)
    ensures
        lev(a, b, i, j) <= if i >= j { i } else { j },
    decreases i + j,
{
    if i > 0 && j > 0 {
        lemma_lev_bound(a, b, (i - 1) as nat, (j - 1) as nat);
    }
}

/// The Levenshtein distance between two strings, in characters.
pub fn levenshtein_distance(a: &str, b: &str) -> (d: usize)
    ensures
        d == lev(a@, b@, a@.len(), b@.len()),
{
    let ac = chars_of(a);
    let bc = chars_of(b);
    let m = bc.len();
    let mut prev: Vec<usize> = Vec::new();
    prev.push(0);
    let mut col: usize = 0;
    while col < m
        invariant
            col <= m,
            m == bc@.len(),
            prev@.len() == col + 1,
            forall|q: int| 0 <= q <= col ==> prev@[q] == lev(ac@, bc@, 0, q as nat),
        decreases m - col,
    {
        col += 1;
        prev.push(col);
    }
    let mut row: usize = 0;
    while row < ac.len()
        invariant
            row <= ac@.len(),
            m == bc@.len(),
            prev@.len() == m + 1,
            forall|q: int| 0 <= q <= m ==> prev@[q] == lev(ac@, bc@, row as nat, q as nat),
        decreases ac@.len() - row,
    {
        row += 1;
        let mut cur: Vec<usize> = Vec::new();
        cur.push(row);
        let mut col: usize = 0;
        while col < m
            invariant
                1 <= row <= ac@.len(),
                col <= m,
                m == bc@.len(),
                prev@.len() == m + 1,
                cur@.len() == col + 1,
                forall|q: int| 0 <= q <= m ==> prev@[q] == lev(ac@, bc@, (row - 1) as nat, q as nat),
                forall|q: int| 0 <= q <= col ==> cur@[q] == lev(ac@, bc@, row as nat, q as nat),
            decreases m - col,
        {
            col += 1;
            proof {
                lemma_lev_bound(ac@, bc@, (row - 1) as nat, (col - 1) as nat);
            }
            let v = if ac[row - 1] == bc[col - 1] {
                prev[col - 1]
            } else {
                let x = prev[col];
                let y = cur[col - 1];
                let z = prev[col - 1];
                let mm = if x <= y { x } else { y };
                let mz = if mm <= z { mm } else { z };
                1 + mz
            };
            cur.push(v);
        }
        prev = cur;
    }
    prev[m]
}

/// Unicode lower case of `s`, as `str::to_lowercase` gives it.
pub uninterp spec fn lowercase(s: Seq<char>) -> Seq<char>;

/// `str::to_lowercase`: the string in Unicode lower case. Its result is a
/// function of the string alone, named `lowercase`.
#[verifier::external_body]
fn to_lowercase(s: &str) -> (r: String)
    ensures
        r@ == lowercase(s@),
{
    s.to_lowercase()
}

/// Whether `kind` is close to `target` (already lower-cased): it contains
/// it once lower-cased, or is within two edits of it.
pub open spec fn contains_lower(kind: Seq<char>, target_lower: Seq<char>) -> bool {
    contains_text(lowercase(kind), target_lower)
}

pub open spec fn near_lower(kind: Seq<char>, target_lower: Seq<char>) -> bool {
    lev(target_lower, lowercase(kind), target_lower.len(), lowercase(kind).len()) <= 2
}

/// Whether kind `k` qualifies: by distance, or by containment.
pub open spec fn qualifies(k: Seq<char>, target_lower: Seq<char>, by_distance: bool) -> bool {
    if by_distance {
        near_lower(k, target_lower)
    } else {
        contains_lower(k, target_lower)
    }
}

/// The first of `xs` that qualifies.
pub open spec fn first_qualifying(xs: Seq<Seq<char>>, target_lower: Seq<char>, by_distance: bool) -> Option<Seq<char>>
    decreases xs.len(),
{
    if xs.len() == 0 {
        None
    } else if qualifies(xs[0], target_lower, by_distance) {
        Some(xs[0])
    } else {
        first_qualifying(xs.drop_first(), target_lower, by_distance)
    }
}

/// The suggestion for a mistyped ancestor type: the first available kind that
/// contains the target (case-insensitively), else the first within two edits
/// of it, else none.
pub open spec fn suggestion(available: Seq<Seq<char>>, target: Seq<char>) -> Option<Seq<char>> {
    match first_qualifying(available, lowercase(target), false) {
        Some(k) => Some(k),
        None => first_qualifying(available, lowercase(target), true),
    }
}

pub open spec fn views(xs: Seq<String>) -> Seq<Seq<char>> {
    xs.map_values(|x: String| x@)
}

fn first_matching(available: &Vec<String>, t: &String, by_distance: bool) -> (r: Option<String>)
    ensures
        match r {
            Some(k) => first_qualifying(views(available@), t@, by_distance) == Some(k@),
            None => first_qualifying(views(available@), t@, by_distance) is None,
        },
{
    let tc = chars_of(t.as_str());
    let mut i: usize = 0;
    proof {
        assert(views(available@).skip(0) =~= views(available@));
    }
    while i < available.len()
        invariant
            i <= available@.len(),
            tc@ == t@,
            first_qualifying(views(available@), t@, by_distance)
                == first_qualifying(views(available@).skip(i as int), t@, by_distance),
        decreases available@.len() - i,
    {
        let lower = to_lowercase(available[i].as_str());
        let hit = if by_distance {
            levenshtein_distance(t.as_str(), lower.as_str()) <= 2
        } else {
            let lc = chars_of(lower.as_str());
            chars_contain(&lc, &tc)
        };
        proof {
            let rest = views(available@).skip(i as int);
            assert(rest[0] == available@[i as int]@);
            assert(rest.drop_first() =~= views(available@).skip(i + 1));
        }
        if hit {
            return Some(available[i].clone());
        }
        i += 1;
    }
    proof {
        assert(views(available@).skip(i as int).len() == 0);
    }
    None
}

/// Suggest an ancestor type close to the one asked for: the first available
/// kind that contains it case-insensitively, else the first within two edits
/// of it.
pub fn suggest_ancestor_type(available: &Vec<String>, target: &str) -> (r: Option<String>)
    ensures
        match r {
            Some(k) => suggestion(views(available@), target@) == Some(k@),
            None => suggestion(views(available@), target@) is None,
        },
{
    let t = to_lowercase(target);
    let first = first_matching(available, &t, false);
    if first.is_some() {
        return first;
    }
    first_matching(available, &t, true)
}

} // verus!
