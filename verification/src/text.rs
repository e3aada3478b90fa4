//! Character-level text primitives shared by the whole library.
//!
//! Source files are handled as sequences of `char`s. Positions handed to and
//! from callers are UTF-8 byte offsets, as they are in `str` slicing and in the
//! syntax trees; [`byte_len`] relates the two coordinate systems.
use vstd::prelude::*;
use vstd::utf8::*;
use vstd::string::StringSliceAdditionalSpecFns;

verus! {

/// Unicode `White_Space`: the set of characters `char::is_whitespace` accepts.
pub open spec fn is_ws(c: char) -> bool {
    let u = c as u32;
    ||| 0x9 <= u <= 0xd
    ||| u == 0x20
    ||| u == 0x85
    ||| u == 0xa0
    ||| u == 0x1680
    ||| 0x2000 <= u <= 0x200a
    ||| u == 0x2028
    ||| u == 0x2029
    ||| u == 0x202f
    ||| u == 0x205f
    ||| u == 0x3000
}

/// Whether `c` is Unicode whitespace.
pub fn is_whitespace(c: char) -> (b: bool)
    ensures
        b == is_ws(c),
{
    let u = c as u32;
    (0x9 <= u && u <= 0xd) || u == 0x20 || u == 0x85 || u == 0xa0 || u == 0x1680 || (0x2000 <= u
        && u <= 0x200a) || u == 0x2028 || u == 0x2029 || u == 0x202f || u == 0x205f || u == 0x3000
}

/// Number of bytes in the UTF-8 encoding of `c`.
pub open spec fn utf8_len(c: char) -> nat {
    let u = c as u32;
    if u < 0x80 {
        1
    } else if u < 0x800 {
        2
    } else if u < 0x10000 {
        3
    } else {
        4
    }
}

/// Number of bytes in the UTF-8 encoding of `s`.
pub open spec fn byte_len(s: Seq<char>) -> nat
    decreases s.len(),
{
    if s.len() == 0 {
        0
    } else {
        utf8_len(s[0]) + byte_len(s.drop_first())
    }
}

/// The byte offset of character index `i` of `s`.
pub open spec fn byte_at(s: Seq<char>, i: int) -> nat {
    byte_len(s.take(i))
}

/// The length of one character's UTF-8 encoding.
pub fn char_len_utf8(c: char) -> (n: usize)
    ensures
        n == utf8_len(c),
        1 <= n <= 4,
{
    let u = c as u32;
    if u < 0x80 {
        1
    } else if u < 0x800 {
        2
    } else if u < 0x10000 {
        3
    } else {
        4
    }
}

/// `utf8_len` is the length of vstd's encoding of a single scalar.
pub proof fn lemma_utf8_len_encode_scalar(c: char)
    ensures
        utf8_len(c) == encode_scalar(c as u32).len(),
{
    broadcast use char_is_scalar;

    assert(is_scalar(c as u32));
}

/// `byte_len` is the length of vstd's UTF-8 encoding.
pub proof fn lemma_byte_len_encode(s: Seq<char>)
    ensures
        byte_len(s) == encode_utf8(s).len(),
    decreases s.len(),
{
    if s.len() > 0 {
        lemma_utf8_len_encode_scalar(s[0]);
        lemma_byte_len_encode(s.drop_first());
    }
}

/// The byte length of a concatenation is the sum of the byte lengths.
pub proof fn lemma_byte_len_add(a: Seq<char>, b: Seq<char>)
    ensures
        byte_len(a + b) == byte_len(a) + byte_len(b),
    decreases a.len(),
{
    if a.len() == 0 {
        assert(a + b =~= b);
    } else {
        assert((a + b).drop_first() =~= a.drop_first() + b);
        lemma_byte_len_add(a.drop_first(), b);
    }
}

/// Appending one character adds its encoded length.
pub proof fn lemma_byte_len_push(a: Seq<char>, c: char)
    ensures
        byte_len(a.push(c)) == byte_len(a) + utf8_len(c),
{
    assert(a.push(c) =~= a + seq![c]);
    lemma_byte_len_add(a, seq![c]);
    assert(seq![c].drop_first() =~= Seq::<char>::empty());
    assert(byte_len(Seq::<char>::empty()) == 0);
    assert(byte_len(seq![c]) == utf8_len(c) + byte_len(seq![c].drop_first()));
}

/// Byte offsets grow with the character index.
pub proof fn lemma_byte_at_mono(s: Seq<char>, i: int, j: int)
    requires
        0 <= i <= j <= s.len(),
    ensures
        byte_at(s, i) <= byte_at(s, j),
        byte_at(s, j) <= byte_len(s),
{
    assert(s.take(j) =~= s.take(i) + s.subrange(i, j));
    lemma_byte_len_add(s.take(i), s.subrange(i, j));
    assert(s =~= s.take(j) + s.skip(j));
    lemma_byte_len_add(s.take(j), s.skip(j));
}

/// Byte offsets strictly grow with the character index: every character
/// takes at least one byte.
pub proof fn lemma_byte_at_strict(s: Seq<char>, i: int, j: int)
    requires
        0 <= i < j <= s.len(),
    ensures
        byte_at(s, i) < byte_at(s, j),
{
    assert(s.take(j) =~= s.take(i) + s.subrange(i, j));
    lemma_byte_len_add(s.take(i), s.subrange(i, j));
    assert(s.subrange(i, j).len() > 0);
    assert(byte_len(s.subrange(i, j)) >= 1);
}

/// The UTF-8 length of `s` in bytes, which is its `byte_len`.
pub fn str_byte_len(s: &str) -> (n: usize)
    ensures
        n == byte_len(s@),
{
    let b = s.as_bytes();
    proof {
        lemma_byte_len_encode(s@);
    }
    b.len()
}

/// Collect the characters of `s`.
pub fn chars_of(s: &str) -> (v: Vec<char>)
    ensures
        v@ == s@,
{
    let mut v: Vec<char> = Vec::new();
    for c in it: s.chars()
        invariant
            v@ == it.seq().take(it.index() as int),
            it.seq() == s@,
    {
        v.push(c);
    }
    v
}

/// A `String` holding exactly the given characters.
#[verifier::external_body]
pub fn string_from_chars(v: &[char]) -> (s: String)
    ensures
        s@ == v@,
{
    v.iter().collect()
}

/// Append one character to a `String` (`String::push`).
#[verifier::external_body]
pub fn push_char(s: &mut String, c: char)
    ensures
        final(s)@ == old(s)@.push(c),
{
    s.push(c)
}

/// Append a string slice to a `String`.
pub fn push_str(s: &mut String, t: &str)
    ensures
        final(s)@ == old(s)@ + t@,
{
    s.append(t);
}

/// Append the characters of `t` to `s`.
pub fn push_chars(s: &mut String, t: &[char])
    ensures
        final(s)@ == old(s)@ + t@,
{
    let ghost s0 = s@;
    let mut i: usize = 0;
    while i < t.len()
        invariant
            i <= t.len(),
            s@ == s0 + t@.take(i as int),
        decreases t.len() - i,
    {
        push_char(s, t[i]);
        i += 1;
        assert(t@.take(i as int) =~= t@.take(i - 1).push(t@[i - 1]));
    }
    assert(t@.take(t.len() as int) =~= t@);
}

/// The byte offset of each character index, `byte_at` computed in one pass:
/// `offsets[i]` is the byte offset of character `i`, for `i` up to `s.len()`.
pub fn byte_offsets(s: &[char]) -> (offsets: Vec<usize>)
    requires
        byte_len(s@) <= usize::MAX,
    ensures
        offsets@.len() == s@.len() + 1,
        forall|i: int| 0 <= i <= s@.len() ==> offsets@[i] == byte_at(s@, i),
{
    let mut offsets: Vec<usize> = Vec::new();
    let mut acc: usize = 0;
    offsets.push(0);
    assert(s@.take(0) =~= Seq::<char>::empty());
    let mut i: usize = 0;
    while i < s.len()
        invariant
            i <= s.len(),
            byte_len(s@) <= usize::MAX,
            acc == byte_at(s@, i as int),
            offsets@.len() == i + 1,
            forall|k: int| 0 <= k <= i ==> offsets@[k] == byte_at(s@, k),
        decreases s.len() - i,
    {
        proof {
            assert(s@.take(i + 1) =~= s@.take(i as int).push(s@[i as int]));
            lemma_byte_len_push(s@.take(i as int), s@[i as int]);
            lemma_byte_at_mono(s@, i + 1, s@.len() as int);
        }
        acc = acc + char_len_utf8(s[i]);
        i += 1;
        offsets.push(acc);
    }
    offsets
}

/// The characters `s[from..to]` as a new vector.
pub fn slice_chars(s: &[char], from: usize, to: usize) -> (v: Vec<char>)
    requires
        from <= to <= s.len(),
    ensures
        v@ == s@.subrange(from as int, to as int),
{
    let mut v: Vec<char> = Vec::new();
    let mut i = from;
    while i < to
        invariant
            from <= i <= to <= s.len(),
            v@ == s@.subrange(from as int, i as int),
        decreases to - i,
    {
        v.push(s[i]);
        i += 1;
        assert(v@ =~= s@.subrange(from as int, i as int));
    }
    v
}

/// Append `s[from..to]` to `out`.
pub fn append_chars(out: &mut Vec<char>, s: &[char], from: usize, to: usize)
    requires
        from <= to <= s.len(),
    ensures
        final(out)@ == old(out)@ + s@.subrange(from as int, to as int),
{
    let ghost start = out@;
    let mut i = from;
    while i < to
        invariant
            from <= i <= to <= s.len(),
            out@ == start + s@.subrange(from as int, i as int),
        decreases to - i,
    {
        out.push(s[i]);
        i += 1;
        assert(out@ =~= start + s@.subrange(from as int, i as int));
    }
}

/// Whether every character of `s` is whitespace (the empty sequence included).
pub open spec fn all_ws(s: Seq<char>) -> bool {
    forall|i: int| 0 <= i < s.len() ==> is_ws(#[trigger] s[i])
}

/// Whether `s[from..to]` is all whitespace.
pub fn is_blank(s: &[char], from: usize, to: usize) -> (b: bool)
    requires
        from <= to <= s.len(),
    ensures
        b == all_ws(s@.subrange(from as int, to as int)),
{
    let mut i = from;
    while i < to
        invariant
            from <= i <= to <= s.len(),
            all_ws(s@.subrange(from as int, i as int)),
        decreases to - i,
    {
        if !is_whitespace(s[i]) {
            assert(s@.subrange(from as int, to as int)[i - from] == s@[i as int]);
            return false;
        }
        i += 1;
        assert forall|k: int| 0 <= k < i - from implies is_ws(
            #[trigger] s@.subrange(from as int, i as int)[k],
        ) by {
            if k < i - 1 - from {
                assert(s@.subrange(from as int, i as int)[k] == s@.subrange(
                    from as int,
                    i - 1,
                )[k]);
            }
        }
    }
    true
}

/// Number of leading characters of `s` equal to `c`.
pub open spec fn leading_run(s: Seq<char>, c: char) -> nat
    decreases s.len(),
{
    if s.len() > 0 && s[0] == c {
        1 + leading_run(s.drop_first(), c)
    } else {
        0
    }
}

/// Count the leading characters of `s[from..to]` equal to `c`.
pub fn count_leading(s: &[char], from: usize, to: usize, c: char) -> (n: usize)
    requires
        from <= to <= s.len(),
    ensures
        n == leading_run(s@.subrange(from as int, to as int), c),
        n <= to - from,
    decreases to - from,
{
    if from < to && s[from] == c {
        let rest = count_leading(s, from + 1, to, c);
        assert(s@.subrange(from as int, to as int).drop_first() =~= s@.subrange(
            from + 1,
            to as int,
        ));
        rest + 1
    } else {
        0
    }
}

/// Index of the first `c` in `s` at or after `from`.
pub open spec fn find_from(s: Seq<char>, c: char, from: int) -> Option<int>
    decreases s.len() - from,
{
    if from < 0 || from >= s.len() {
        None
    } else if s[from] == c {
        Some(from)
    } else {
        find_from(s, c, from + 1)
    }
}

pub proof fn lemma_find_from(s: Seq<char>, c: char, from: int)
    requires
        0 <= from,
    ensures
        find_from(s, c, from) matches Some(i) ==> from <= i < s.len() && s[i] == c && forall|
            k: int,
        |
            from <= k < i ==> s[k] != c,
        find_from(s, c, from) is None ==> forall|k: int| from <= k < s.len() ==> s[k] != c,
    decreases s.len() - from,
{
    if from < s.len() && s[from] != c {
        lemma_find_from(s, c, from + 1);
    }
}

/// The first `c` at or after `from`, found by scanning.
pub fn find_char(s: &[char], c: char, from: usize) -> (r: Option<usize>)
    ensures
        r == (match find_from(s@, c, from as int) {
            Some(i) => Some(i as usize),
            None => None::<usize>,
        }),
    decreases s.len() - from,
{
    if from >= s.len() {
        None
    } else if s[from] == c {
        Some(from)
    } else {
        find_char(s, c, from + 1)
    }
}

/// Character ranges `[start, end)` of the lines of `s[from..]`, the line
/// terminators excluded as `lines_of` excludes them.
pub open spec fn line_spans(s: Seq<char>, from: int) -> Seq<(int, int)>
    decreases s.len() - from,
{
    if from < 0 || from >= s.len() {
        seq![]
    } else {
        match find_from(s, '\n', from) {
            Some(i) => {
                if from <= i < s.len() {
                    let end = if i > from && s[i - 1] == '\r' {
                        i - 1
                    } else {
                        i
                    };
                    seq![(from, end)] + line_spans(s, i + 1)
                } else {
                    seq![]
                }
            },
            None => seq![(from, s.len() as int)],
        }
    }
}

/// Every line span of `s[from..]` lies within `s`, in order.
pub proof fn lemma_line_spans_bounds(s: Seq<char>, from: int)
    requires
        0 <= from,
    ensures
        forall|k: int|
            0 <= k < line_spans(s, from).len() ==> from <= (#[trigger] line_spans(s, from)[k]).0
                <= line_spans(s, from)[k].1 <= s.len(),
    decreases s.len() - from,
{
    if from < s.len() {
        lemma_find_from(s, '\n', from);
        match find_from(s, '\n', from) {
            Some(i) => {
                lemma_line_spans_bounds(s, i + 1);
                let end = if i > from && s[i - 1] == '\r' {
                    i - 1
                } else {
                    i
                };
                assert forall|k: int| 0 <= k < line_spans(s, from).len() implies from <= (
                #[trigger] line_spans(s, from)[k]).0 <= line_spans(s, from)[k].1 <= s.len() by {
                    if k > 0 {
                        assert(line_spans(s, from)[k] == line_spans(s, i + 1)[k - 1]);
                    }
                }
            },
            None => {},
        }
    }
}

/// The line spans of `s`, computed.
pub fn line_spans_of(s: &[char]) -> (spans: Vec<(usize, usize)>)
    ensures
        spans@.len() == line_spans(s@, 0).len(),
        forall|k: int|
            0 <= k < spans@.len() ==> (#[trigger] spans@[k]).0 <= spans@[k].1 <= s.len(),
        forall|k: int|
            0 <= k < spans@.len() ==> (spans@[k].0 as int, spans@[k].1 as int) == line_spans(
                s@,
                0,
            )[k],
{
    let mut spans: Vec<(usize, usize)> = Vec::new();
    let mut from: usize = 0;
    while from < s.len()
        invariant
            from <= s.len(),
            line_spans(s@, 0) =~= spans@.map_values(|p: (usize, usize)| (p.0 as int, p.1 as int))
                + line_spans(s@, from as int),
        decreases s.len() - from,
    {
        let ghost before = spans@;
        proof {
            lemma_find_from(s@, '\n', from as int);
        }
        match find_char(s, '\n', from) {
            Some(i) => {
                let end = if i > from && s[i - 1] == '\r' {
                    i - 1
                } else {
                    i
                };
                spans.push((from, end));
                proof {
                    assert(line_spans(s@, from as int) =~= seq![(from as int, end as int)]
                        + line_spans(s@, i + 1));
                    assert(spans@.map_values(|p: (usize, usize)| (p.0 as int, p.1 as int))
                        =~= before.map_values(|p: (usize, usize)| (p.0 as int, p.1 as int)).push(
                        (from as int, end as int),
                    ));
                }
                from = i + 1;
            },
            None => {
                spans.push((from, s.len()));
                proof {
                    assert(line_spans(s@, from as int) =~= seq![(from as int, s.len() as int)]);
                    assert(line_spans(s@, s.len() as int) =~= Seq::<(int, int)>::empty());
                    assert(spans@.map_values(|p: (usize, usize)| (p.0 as int, p.1 as int))
                        =~= before.map_values(|p: (usize, usize)| (p.0 as int, p.1 as int)).push(
                        (from as int, s.len() as int),
                    ));
                }
                from = s.len();
            },
        }
    }
    proof {
        lemma_line_spans_bounds(s@, 0);
        assert(line_spans(s@, from as int) =~= Seq::<(int, int)>::empty());
        assert forall|k: int| 0 <= k < spans@.len() implies (
            spans@[k].0 as int,
            spans@[k].1 as int,
        ) == line_spans(s@, 0)[k] by {
            assert(spans@.map_values(|p: (usize, usize)| (p.0 as int, p.1 as int))[k] == (
                spans@[k].0 as int,
                spans@[k].1 as int,
            ));
        }
        assert forall|k: int| 0 <= k < spans@.len() implies (#[trigger] spans@[k]).0
            <= spans@[k].1 <= s.len() by {
            assert((spans@[k].0 as int, spans@[k].1 as int) == line_spans(s@, 0)[k]);
        }
    }
    spans
}

/// Number of leading whitespace characters of `l`.
pub open spec fn ws_prefix(l: Seq<char>) -> nat
    decreases l.len(),
{
    if l.len() > 0 && is_ws(l[0]) {
        1 + ws_prefix(l.drop_first())
    } else {
        0
    }
}

/// `l` without its leading whitespace, as `str::trim_start` gives it.
pub open spec fn trim_start(l: Seq<char>) -> Seq<char> {
    l.skip(ws_prefix(l) as int)
}

pub proof fn lemma_ws_prefix(l: Seq<char>)
    ensures
        ws_prefix(l) <= l.len(),
        all_ws(l.take(ws_prefix(l) as int)),
    decreases l.len(),
{
    if l.len() > 0 && is_ws(l[0]) {
        lemma_ws_prefix(l.drop_first());
        let k = ws_prefix(l) as int;
        assert forall|i: int| 0 <= i < k implies is_ws(#[trigger] l.take(k)[i]) by {
            if i > 0 {
                assert(l.take(k)[i] == l.drop_first().take(k - 1)[i - 1]);
            }
        }
    }
}

/// Number of leading whitespace characters of `s[from..to]`.
pub fn count_ws_prefix(s: &[char], from: usize, to: usize) -> (n: usize)
    requires
        from <= to <= s.len(),
    ensures
        n == ws_prefix(s@.subrange(from as int, to as int)),
        n <= to - from,
    decreases to - from,
{
    if from < to && is_whitespace(s[from]) {
        let rest = count_ws_prefix(s, from + 1, to);
        assert(s@.subrange(from as int, to as int).drop_first() =~= s@.subrange(
            from + 1,
            to as int,
        ));
        rest + 1
    } else {
        0
    }
}

/// Number of trailing whitespace characters of `l`.
pub open spec fn ws_suffix(l: Seq<char>) -> nat
    decreases l.len(),
{
    if l.len() > 0 && is_ws(l.last()) {
        1 + ws_suffix(l.drop_last())
    } else {
        0
    }
}

/// `l` without leading and trailing whitespace, as `str::trim` gives it.
pub open spec fn trim(l: Seq<char>) -> Seq<char> {
    let t = trim_start(l);
    t.take(t.len() - ws_suffix(t))
}

pub proof fn lemma_ws_suffix(l: Seq<char>)
    ensures
        ws_suffix(l) <= l.len(),
        all_ws(l.skip(l.len() - ws_suffix(l))),
        ws_suffix(l) < l.len() ==> !is_ws(l[l.len() - ws_suffix(l) - 1]),
    decreases l.len(),
{
    if l.len() > 0 && is_ws(l.last()) {
        lemma_ws_suffix(l.drop_last());
        let k = ws_suffix(l) as int;
        assert forall|i: int| 0 <= i < k implies is_ws(#[trigger] l.skip(l.len() - k)[i]) by {
            if i < k - 1 {
                assert(l.skip(l.len() - k)[i] == l.drop_last().skip(l.len() - k)[i]);
            }
        }
    }
}

/// Number of trailing whitespace characters of `s[from..to]`.
pub fn count_ws_suffix(s: &[char], from: usize, to: usize) -> (n: usize)
    requires
        from <= to <= s.len(),
    ensures
        n == ws_suffix(s@.subrange(from as int, to as int)),
        n <= to - from,
    decreases to - from,
{
    if from < to && is_whitespace(s[to - 1]) {
        let rest = count_ws_suffix(s, from, to - 1);
        assert(s@.subrange(from as int, to as int).drop_last() =~= s@.subrange(
            from as int,
            to - 1,
        ));
        rest + 1
    } else {
        0
    }
}

/// Bounds of `s[from..to]` trimmed: `trim` of the range is `s[a..b]`.
pub fn trim_range(s: &[char], from: usize, to: usize) -> (r: (usize, usize))
    requires
        from <= to <= s.len(),
    ensures
        from <= r.0 <= r.1 <= to,
        s@.subrange(r.0 as int, r.1 as int) == trim(s@.subrange(from as int, to as int)),
{
    let k = count_ws_prefix(s, from, to);
    let j = count_ws_suffix(s, from + k, to);
    proof {
        let l = s@.subrange(from as int, to as int);
        assert(trim_start(l) =~= s@.subrange(from + k, to as int));
        assert(s@.subrange(from + k, to - j) =~= trim_start(l).take(trim_start(l).len() - j));
    }
    (from + k, to - j)
}

/// How `{:?}` writes a string: quoted, with escapes.
pub uninterp spec fn debug_quoted(s: Seq<char>) -> Seq<char>;

/// The string quoted and escaped by its `Debug` impl (`format!("{:?}", s)`).
#[verifier::external_body]
pub fn debug_quote(s: &str) -> (r: String)
    ensures
        r@ == debug_quoted(s@),
{
    format!("{:?}", s)
}

/// The decimal digits of `n`.
pub open spec fn decimal(n: nat) -> Seq<char>
    decreases n,
{
    if n < 10 {
        seq![digit_char(n)]
    } else {
        decimal(n / 10).push(digit_char(n % 10))
    }
}

/// The character of a decimal digit.
pub open spec fn digit_char(d: nat) -> char {
    if d == 0 {
        '0'
    } else if d == 1 {
        '1'
    } else if d == 2 {
        '2'
    } else if d == 3 {
        '3'
    } else if d == 4 {
        '4'
    } else if d == 5 {
        '5'
    } else if d == 6 {
        '6'
    } else if d == 7 {
        '7'
    } else if d == 8 {
        '8'
    } else {
        '9'
    }
}

fn digit(d: usize) -> (c: char)
    requires
        d < 10,
    ensures
        c == digit_char(d as nat),
{
    if d == 0 {
        '0'
    } else if d == 1 {
        '1'
    } else if d == 2 {
        '2'
    } else if d == 3 {
        '3'
    } else if d == 4 {
        '4'
    } else if d == 5 {
        '5'
    } else if d == 6 {
        '6'
    } else if d == 7 {
        '7'
    } else if d == 8 {
        '8'
    } else {
        '9'
    }
}

/// Append the decimal digits of `n` to `out`.
pub fn push_decimal(out: &mut String, n: usize)
    ensures
        final(out)@ == old(out)@ + decimal(n as nat),
    decreases n,
{
    if n < 10 {
        push_char(out, digit(n));
        assert(decimal(n as nat) =~= seq![digit_char(n as nat)]);
    } else {
        push_decimal(out, n / 10);
        push_char(out, digit(n % 10));
    }
}

/// `n` written in decimal.
pub fn decimal_string(n: usize) -> (s: String)
    ensures
        s@ == decimal(n as nat),
{
    let mut s = String::new();
    push_decimal(&mut s, n);
    s
}

/// The first character index of `src`, at or after `k`, whose byte offset is
/// `b`.
pub open spec fn char_index_from(src: Seq<char>, b: int, k: int) -> Option<int>
    decreases src.len() + 1 - k,
{
    if k < 0 || k > src.len() {
        None
    } else if byte_at(src, k) == b {
        Some(k)
    } else {
        char_index_from(src, b, k + 1)
    }
}

/// `src.get(start..end)` in characters: the text between two byte offsets
/// that are character boundaries, in order.
pub open spec fn region(src: Seq<char>, start: int, end: int) -> Option<Seq<char>> {
    match (char_index_from(src, start, 0), char_index_from(src, end, 0)) {
        (Some(a), Some(b)) => if a <= b {
            Some(src.subrange(a, b))
        } else {
            None
        },
        _ => None,
    }
}

/// The character index of byte `b` in `src`, searching from `k`.
pub fn char_index_of_byte(offsets: &Vec<usize>, src: Ghost<Seq<char>>, b: usize) -> (r: Option<usize>)
    requires
        offsets@.len() == src@.len() + 1,
        forall|q: int| 0 <= q <= src@.len() ==> offsets@[q] == byte_at(src@, q),
    ensures
        match r {
            Some(k) => char_index_from(src@, b as int, 0) == Some(k as int),
            None => char_index_from(src@, b as int, 0) is None,
        },
{
    let mut k: usize = 0;
    while k < offsets.len()
        invariant
            k <= offsets@.len() == src@.len() + 1,
            forall|q: int| 0 <= q <= src@.len() ==> offsets@[q] == byte_at(src@, q),
            char_index_from(src@, b as int, 0) == char_index_from(src@, b as int, k as int),
        decreases offsets@.len() - k,
    {
        if offsets[k] == b {
            return Some(k);
        }
        k += 1;
    }
    None
}

pub proof fn lemma_char_index_bound(src: Seq<char>, b: int, k: int)
    requires
        0 <= k,
    ensures
        char_index_from(src, b, k) matches Some(x) ==> k <= x <= src.len() && byte_at(src, x) == b,
    decreases src.len() + 1 - k,
{
    if k <= src.len() && byte_at(src, k) != b {
        lemma_char_index_bound(src, b, k + 1);
    }
}

/// `src.get(start..end)`: the text between two byte offsets, when both are
/// character boundaries and in order.
pub fn text_between(src: &Vec<char>, offsets: &Vec<usize>, start: usize, end: usize) -> (r: Option<Vec<char>>)
    requires
        offsets@.len() == src@.len() + 1,
        forall|q: int| 0 <= q <= src@.len() ==> offsets@[q] == byte_at(src@, q),
    ensures
        match r {
            Some(x) => region(src@, start as int, end as int) == Some(x@),
            None => region(src@, start as int, end as int) is None,
        },
{
    let a = char_index_of_byte(offsets, Ghost(src@), start);
    let b = char_index_of_byte(offsets, Ghost(src@), end);
    match (a, b) {
        (Some(a), Some(b)) => {
            proof {
                lemma_char_index_bound(src@, start as int, 0);
                lemma_char_index_bound(src@, end as int, 0);
            }
            if a <= b {
                Some(slice_chars(src, a, b))
            } else {
                None
            }
        },
        _ => None,
    }
}

/// `s` with every occurrence of `p`, taken left to right without overlap,
/// replaced by `r` (`str::replace`).
pub open spec fn replace_all(s: Seq<char>, p: Seq<char>, r: Seq<char>) -> Seq<char>
    decreases s.len(),
{
    if p.len() == 0 || s.len() < p.len() {
        s
    } else if s.take(p.len() as int) == p {
        r + replace_all(s.skip(p.len() as int), p, r)
    } else {
        seq![s[0]] + replace_all(s.skip(1), p, r)
    }
}

/// Whether `p` occurs in `s` at `i`.
fn occurs_at(s: &Vec<char>, i: usize, p: &Vec<char>) -> (b: bool)
    requires
        i <= s@.len(),
    ensures
        b == (i + p@.len() <= s@.len() && s@.subrange(i as int, i + p@.len()) == p@),
{
    if p.len() > s.len() - i {
        return false;
    }
    let slen = s.len();
    let mut k: usize = 0;
    while k < p.len()
        invariant
            k <= p@.len(),
            slen == s@.len(),
            i + p@.len() <= s@.len(),
            forall|q: int| 0 <= q < k ==> s@[i + q] == p@[q],
        decreases p@.len() - k,
    {
        assert(i + k < s@.len());
        if s[i + k] != p[k] {
            assert(s@.subrange(i as int, i + p@.len())[k as int] != p@[k as int]);
            return false;
        }
        k += 1;
    }
    assert(s@.subrange(i as int, i + p@.len()) =~= p@);
    true
}

/// `s` with every occurrence of `p` replaced by `r` (see [`replace_all`]).
pub fn replace_all_chars(s: &Vec<char>, p: &Vec<char>, r: &Vec<char>) -> (o: Vec<char>)
    requires
        p@.len() > 0,
    ensures
        o@ == replace_all(s@, p@, r@),
{
    let mut o: Vec<char> = Vec::new();
    let mut i: usize = 0;
    assert(s@.skip(0) =~= s@);
    assert(o@ + replace_all(s@, p@, r@) =~= replace_all(s@, p@, r@));
    while i < s.len()
        invariant
            i <= s@.len(),
            p@.len() > 0,
            replace_all(s@, p@, r@) == o@ + replace_all(s@.skip(i as int), p@, r@),
        decreases s@.len() - i,
    {
        let ghost rest = s@.skip(i as int);
        if occurs_at(s, i, p) {
            assert(rest.take(p@.len() as int) =~= s@.subrange(i as int, i + p@.len()));
            assert(rest.skip(p@.len() as int) =~= s@.skip(i + p@.len()));
            let ghost o0 = o@;
            let mut k: usize = 0;
            while k < r.len()
                invariant
                    k <= r@.len(),
                    o@ == o0 + r@.take(k as int),
                decreases r@.len() - k,
            {
                o.push(r[k]);
                k += 1;
                assert(r@.take(k as int) =~= r@.take(k - 1).push(r@[k - 1]));
            }
            assert(r@.take(r@.len() as int) =~= r@);
            assert(o0 + (r@ + replace_all(s@.skip(i + p@.len()), p@, r@)) =~= o@ + replace_all(
                s@.skip(i + p@.len()),
                p@,
                r@,
            ));
            i = i + p.len();
        } else {
            proof {
                if rest.len() >= p@.len() {
                    assert(rest.take(p@.len() as int) =~= s@.subrange(i as int, i + p@.len()));
                }
            }
            assert(rest.skip(1) =~= s@.skip(i + 1));
            let ghost o0 = o@;
            o.push(s[i]);
            proof {
                if rest.len() < p@.len() {
                    assert(replace_all(rest, p@, r@) == rest);
                    assert(rest =~= seq![s@[i as int]] + rest.skip(1));
                    assert(rest.skip(1).len() < p@.len());
                    assert(replace_all(rest.skip(1), p@, r@) == rest.skip(1));
                }
            }
            assert(o0 + (seq![s@[i as int]] + replace_all(s@.skip(i + 1), p@, r@)) =~= o@ + replace_all(
                s@.skip(i + 1),
                p@,
                r@,
            ));
            i = i + 1;
        }
    }
    assert(s@.skip(i as int) =~= Seq::<char>::empty());
    assert(o@ + Seq::<char>::empty() =~= o@);
    o
}

} // verus!
