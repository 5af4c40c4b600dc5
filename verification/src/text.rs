//! Character-level text utilities shared by the crawler: conversion between
//! strings and character vectors, Unicode whitespace trimming, prefix and
//! substring tests, line splitting and lexicographic comparison.
use vstd::prelude::*;

verus! {

broadcast use vstd::string::group_string_axioms;

// ---------------------------------------------------------------------------
// Conversions
// ---------------------------------------------------------------------------

/// `String::push`: the string afterwards is the old one with `c` appended.
#[verifier::external_body]
pub(crate) fn push_char(s: &mut String, c: char)
    ensures
        final(s)@ == old(s)@.push(c),
{
    s.push(c);
}

/// The characters of `s`, in order.
pub fn chars_of(s: &str) -> (v: Vec<char>)
    ensures
        v@ == s@,
{
    let mut v: Vec<char> = Vec::new();
    for c in it: s.chars()
        invariant
            v@ == it.seq().take(it.index() as int),
            it.seq() == s@,
    {
        v.push(c);
    }
    v
}

/// The string made of the characters of `v`, in order.
pub fn string_of(v: &[char]) -> (s: String)
    ensures
        s@ == v@,
{
    let mut s = String::new();
    let mut i: usize = 0;
    while i < v.len()
        invariant
            i <= v@.len(),
            s@ == v@.take(i as int),
        decreases v@.len() - i,
    {
        push_char(&mut s, v[i]);
        i += 1;
        assert(s@ == v@.take(i as int));
    }
    assert(v@.take(v@.len() as int) == v@);
    s
}

/// Appends all characters of `v` to `s`.
pub fn push_chars(s: &mut String, v: &[char])
    ensures
        final(s)@ == old(s)@ + v@,
{
    let mut i: usize = 0;
    while i < v.len()
        invariant
            i <= v@.len(),
            s@ == old(s)@ + v@.take(i as int),
        decreases v@.len() - i,
    {
        push_char(s, v[i]);
        i += 1;
        assert(s@ == old(s)@ + v@.take(i as int));
    }
    assert(v@.take(v@.len() as int) == v@);
}

/// Appends all characters of `t` to `s`.
pub fn push_str(s: &mut String, t: &str)
    ensures
        final(s)@ == old(s)@ + t@,
{
    let v = chars_of(t);
    push_chars(s, v.as_slice());
}

/// The characters `v[from..to]` as a new vector.
pub fn sub_chars(v: &[char], from: usize, to: usize) -> (r: Vec<char>)
    requires
        from <= to <= v@.len(),
    ensures
        r@ == v@.subrange(from as int, to as int),
{
    let mut r: Vec<char> = Vec::new();
    let mut i = from;
    while i < to
        invariant
            from <= i <= to <= v@.len(),
            r@ == v@.subrange(from as int, i as int),
        decreases to - i,
    {
        r.push(v[i]);
        i += 1;
        assert(r@ == v@.subrange(from as int, i as int));
    }
    r
}

// ---------------------------------------------------------------------------
// Whitespace and trimming
// ---------------------------------------------------------------------------

/// Unicode `White_Space`, the property that `char::is_whitespace` tests.
pub open spec fn is_white_space(c: char) -> bool {
    let u = c as int;
    ||| 0x9 <= u <= 0xd
    ||| u == 0x20
    ||| u == 0x85
    ||| u == 0xa0
    ||| u == 0x1680
    ||| 0x2000 <= u <= 0x200a
    ||| u == 0x2028
    ||| u == 0x2029
    ||| u == 0x202f
    ||| u == 0x205f
    ||| u == 0x3000
}

/// Whether `c` is Unicode whitespace.
pub fn is_white_space_char(c: char) -> (b: bool)
    ensures
        b == is_white_space(c),
{
    let u = c as u32;
    (0x9 <= u && u <= 0xd) || u == 0x20 || u == 0x85 || u == 0xa0 || u == 0x1680 || (0x2000 <= u
        && u <= 0x200a) || u == 0x2028 || u == 0x2029 || u == 0x202f || u == 0x205f || u == 0x3000
}

/// `s` without its leading whitespace.
pub open spec fn trim_start(s: Seq<char>) -> Seq<char>
    decreases s.len(),
{
    if s.len() > 0 && is_white_space(s[0]) {
        trim_start(s.drop_first())
    } else {
        s
    }
}

/// `s` without its trailing whitespace.
pub open spec fn trim_end(s: Seq<char>) -> Seq<char>
    decreases s.len(),
{
    if s.len() > 0 && is_white_space(s.last()) {
        trim_end(s.drop_last())
    } else {
        s
    }
}

/// `s` without leading and trailing whitespace, as `str::trim` gives it.
pub open spec fn trim(s: Seq<char>) -> Seq<char> {
    trim_end(trim_start(s))
}

/// `trim_start` drops a prefix: it is `s` from some index on, and it does
/// not start with whitespace.
pub proof fn lemma_trim_start_range(s: Seq<char>) -> (a: int)
    ensures
        0 <= a <= s.len(),
        trim_start(s) == s.subrange(a, s.len() as int),
        trim_start(s).len() > 0 ==> !is_white_space(trim_start(s)[0]),
    decreases s.len(),
{
    if s.len() > 0 && is_white_space(s[0]) {
        let a = lemma_trim_start_range(s.drop_first());
        assert(s.drop_first().subrange(a, s.drop_first().len() as int) == s.subrange(
            a + 1,
            s.len() as int,
        ));
        a + 1
    } else {
        assert(s.subrange(0, s.len() as int) == s);
        0
    }
}

/// `trim_end` drops a suffix: it is `s` up to some index, and it does not
/// end with whitespace.
pub proof fn lemma_trim_end_range(s: Seq<char>) -> (b: int)
    ensures
        0 <= b <= s.len(),
        trim_end(s) == s.subrange(0, b),
        trim_end(s).len() > 0 ==> !is_white_space(trim_end(s).last()),
    decreases s.len(),
{
    if s.len() > 0 && is_white_space(s.last()) {
        let b = lemma_trim_end_range(s.drop_last());
        assert(s.drop_last().subrange(0, b) == s.subrange(0, b));
        b
    } else {
        assert(s.subrange(0, s.len() as int) == s);
        s.len() as int
    }
}

/// `trim` keeps a contiguous part of `s`, which neither starts nor ends
/// with whitespace.
pub proof fn lemma_trim_range(s: Seq<char>) -> (r: (int, int))
    ensures
        0 <= r.0 <= r.1 <= s.len(),
        trim(s) == s.subrange(r.0, r.1),
        trim(s).len() > 0 ==> !is_white_space(trim(s)[0]) && !is_white_space(trim(s).last()),
{
    let a = lemma_trim_start_range(s);
    let t = trim_start(s);
    let b = lemma_trim_end_range(t);
    assert(t.subrange(0, b) == s.subrange(a, a + b));
    if trim(s).len() > 0 {
        assert(trim(s)[0] == t[0]);
    }
    (a, a + b)
}

/// The characters of `v` without leading and trailing whitespace.
pub fn trim_chars(v: &[char]) -> (r: Vec<char>)
    ensures
        r@ == trim(v@),
{
    let n = v.len();
    let mut i: usize = 0;
    assert(v@.subrange(0, n as int) == v@);
    while i < n && is_white_space_char(v[i])
        invariant
            i <= n == v@.len(),
            trim_start(v@) == trim_start(v@.subrange(i as int, n as int)),
        decreases n - i,
    {
        assert(v@.subrange(i as int, n as int).drop_first() == v@.subrange(i + 1, n as int));
        i += 1;
    }
    assert(trim_start(v@) == v@.subrange(i as int, n as int));
    let mut j: usize = n;
    while j > i && is_white_space_char(v[j - 1])
        invariant
            i <= j <= n == v@.len(),
            trim(v@) == trim_end(v@.subrange(i as int, j as int)),
        decreases j,
    {
        assert(v@.subrange(i as int, j as int).drop_last() == v@.subrange(i as int, j - 1));
        j -= 1;
    }
    sub_chars(v, i, j)
}

/// `s` without leading and trailing whitespace.
pub fn trim_str(s: &str) -> (r: String)
    ensures
        r@ == trim(s@),
{
    let v = chars_of(s);
    let t = trim_chars(v.as_slice());
    string_of(t.as_slice())
}

// ---------------------------------------------------------------------------
// Prefixes and substrings
// ---------------------------------------------------------------------------

/// `p` is a prefix of `s`.
pub open spec fn has_prefix(s: Seq<char>, p: Seq<char>) -> bool {
    p.len() <= s.len() && s.subrange(0, p.len() as int) == p
}

/// `needle` occurs in `hay` starting at index `i`.
pub open spec fn occurs_at(hay: Seq<char>, needle: Seq<char>, i: int) -> bool {
    0 <= i && i + needle.len() <= hay.len() && hay.subrange(i, i + needle.len()) == needle
}

/// `needle` occurs somewhere in `hay`.
pub open spec fn contains_seq(hay: Seq<char>, needle: Seq<char>) -> bool {
    exists|i: int| #[trigger] occurs_at(hay, needle, i)
}

/// Whether `needle` occurs in `hay` at index `i`.
pub fn occurs_at_chars(hay: &[char], needle: &[char], i: usize) -> (b: bool)
    ensures
        b == occurs_at(hay@, needle@, i as int),
{
    let hl = hay.len();
    if i > hl || needle.len() > hl - i {
        return false;
    }
    let mut k: usize = 0;
    while k < needle.len()
        invariant
            hl == hay@.len(),
            i + needle@.len() <= hay@.len(),
            k <= needle@.len(),
            forall|m: int| 0 <= m < k ==> hay@[i + m] == needle@[m],
        decreases needle@.len() - k,
    {
        assert(i + k < hay@.len());
        if hay[i + k] != needle[k] {
            assert(hay@.subrange(i as int, i + needle@.len())[k as int] != needle@[k as int]);
            return false;
        }
        k += 1;
    }
    assert(hay@.subrange(i as int, i + needle@.len()) == needle@);
    true
}

/// Whether `a` and `b` hold the same characters.
pub fn same_text(a: &str, b: &str) -> (r: bool)
    ensures
        r == (a@ == b@),
{
    let x: String = a.to_owned();
    let y: String = b.to_owned();
    x == y
}

/// Whether `s` starts with `p`.
pub fn starts_with_chars(s: &[char], p: &[char]) -> (b: bool)
    ensures
        b == has_prefix(s@, p@),
{
    occurs_at_chars(s, p, 0)
}

/// Whether `s` starts with `p`.
pub fn starts_with_str(s: &str, p: &str) -> (b: bool)
    ensures
        b == has_prefix(s@, p@),
{
    let sv = chars_of(s);
    let pv = chars_of(p);
    starts_with_chars(sv.as_slice(), pv.as_slice())
}

/// The first index at which `needle` occurs in `hay`, if any.
pub fn find_chars(hay: &[char], needle: &[char]) -> (r: Option<usize>)
    ensures
        match r {
            Some(i) => occurs_at(hay@, needle@, i as int) && forall|j: int|
                0 <= j < i ==> !#[trigger] occurs_at(hay@, needle@, j),
            None => !contains_seq(hay@, needle@),
        },
{
    if needle.len() > hay.len() {
        return None;
    }
    let last = hay.len() - needle.len();
    let mut i: usize = 0;
    while i < last
        invariant
            last + needle@.len() == hay@.len(),
            i <= last,
            forall|j: int| 0 <= j < i ==> !#[trigger] occurs_at(hay@, needle@, j),
        decreases last - i,
    {
        if occurs_at_chars(hay, needle, i) {
            return Some(i);
        }
        i += 1;
    }
    if occurs_at_chars(hay, needle, last) {
        return Some(last);
    }
    assert forall|j: int| !#[trigger] occurs_at(hay@, needle@, j) by {
        if 0 <= j < last {
        } else if j == last {
        }
    }
    None
}

/// Whether `needle` occurs in `hay`.
pub fn contains_str(hay: &str, needle: &str) -> (b: bool)
    ensures
        b == contains_seq(hay@, needle@),
{
    let h = chars_of(hay);
    let n = chars_of(needle);
    find_chars(h.as_slice(), n.as_slice()).is_some()
}

// ---------------------------------------------------------------------------
// Lexicographic order
// ---------------------------------------------------------------------------

/// `a` sorts strictly before `b`: lexicographic order by code point, the
/// order of `String` (UTF-8 byte order and code point order agree).
pub open spec fn seq_less(a: Seq<char>, b: Seq<char>) -> bool
    decreases a.len(),
{
    if a.len() == 0 {
        b.len() > 0
    } else if b.len() == 0 {
        false
    } else if a[0] != b[0] {
        (a[0] as int) < (b[0] as int)
    } else {
        seq_less(a.drop_first(), b.drop_first())
    }
}

/// `seq_less` is irreflexive and asymmetric.
pub proof fn lemma_seq_less_asymmetric(a: Seq<char>, b: Seq<char>)
    ensures
        !(seq_less(a, b) && seq_less(b, a)),
        !seq_less(a, a),
    decreases a.len(),
{
    if a.len() > 0 && b.len() > 0 && a[0] == b[0] {
        lemma_seq_less_asymmetric(a.drop_first(), b.drop_first());
    }
    if a.len() > 0 {
        lemma_seq_less_asymmetric(a.drop_first(), a.drop_first());
    }
}

/// Any two sequences are equal or ordered one way or the other.
pub proof fn lemma_seq_less_total(a: Seq<char>, b: Seq<char>)
    ensures
        a == b || seq_less(a, b) || seq_less(b, a),
    decreases a.len(),
{
    if a.len() > 0 && b.len() > 0 && a[0] == b[0] {
        lemma_seq_less_total(a.drop_first(), b.drop_first());
        if a.drop_first() == b.drop_first() {
            assert(a == seq![a[0]] + a.drop_first());
            assert(b == seq![b[0]] + b.drop_first());
        }
    } else if a.len() > 0 && b.len() > 0 {
    } else if a.len() == 0 && b.len() == 0 {
        assert(a == b);
    }
}

/// `seq_less` is transitive.
pub proof fn lemma_seq_less_transitive(a: Seq<char>, b: Seq<char>, c: Seq<char>)
    requires
        seq_less(a, b),
        seq_less(b, c),
    ensures
        seq_less(a, c),
    decreases a.len(),
{
    if a.len() > 0 && b.len() > 0 && c.len() > 0 && a[0] == b[0] && b[0] == c[0] {
        lemma_seq_less_transitive(a.drop_first(), b.drop_first(), c.drop_first());
    }
}

/// Whether `a` sorts strictly before `b`.
pub fn chars_less(a: &[char], b: &[char]) -> (r: bool)
    ensures
        r == seq_less(a@, b@),
{
    let mut i: usize = 0;
    assert(a@.skip(0) == a@);
    assert(b@.skip(0) == b@);
    while i < a.len() && i < b.len() && a[i] == b[i]
        invariant
            i <= a@.len(),
            i <= b@.len(),
            seq_less(a@, b@) == seq_less(a@.skip(i as int), b@.skip(i as int)),
        decreases a@.len() - i,
    {
        assert(a@.skip(i as int).drop_first() == a@.skip(i + 1));
        assert(b@.skip(i as int).drop_first() == b@.skip(i + 1));
        i += 1;
    }
    if i == a.len() {
        i < b.len()
    } else if i == b.len() {
        false
    } else {
        let x = a[i];
        let y = b[i];
        assert(a@.skip(i as int)[0] == x && b@.skip(i as int)[0] == y);
        x < y
    }
}

// ---------------------------------------------------------------------------
// Lines
// ---------------------------------------------------------------------------

/// The index of the first `c` in `s`, or `s.len()` when there is none.
pub open spec fn stop_at(s: Seq<char>, c: char) -> int
    decreases s.len(),
{
    if s.len() == 0 {
        0
    } else if s[0] == c {
        0
    } else {
        1 + stop_at(s.drop_first(), c)
    }
}

/// A line without the `'\r'` that precedes its `'\n'`.
pub open spec fn strip_cr(line: Seq<char>, terminated: bool) -> Seq<char> {
    if terminated && line.len() > 0 && line.last() == '\r' {
        line.drop_last()
    } else {
        line
    }
}

/// The lines of `s` as `str::lines` yields them: split at `'\n'`, a `"\r\n"`
/// ending counts as one, and a final line ending adds no empty line.
pub open spec fn lines_of(s: Seq<char>) -> Seq<Seq<char>>
    decreases s.len(),
{
    if s.len() == 0 {
        seq![]
    } else {
        let k = stop_at(s, '\n');
        if k < s.len() {
            proof {
                lemma_stop_at_bounds(s, '\n');
            }
            seq![strip_cr(s.subrange(0, k), true)] + lines_of(s.subrange(k + 1, s.len() as int))
        } else {
            seq![strip_cr(s, false)]
        }
    }
}

/// `stop_at` points at a `c` or at the end, and no `c` comes before it.
pub proof fn lemma_stop_at_bounds(s: Seq<char>, c: char)
    ensures
        0 <= stop_at(s, c) <= s.len(),
        stop_at(s, c) < s.len() ==> s[stop_at(s, c)] == c,
        forall|j: int| 0 <= j < stop_at(s, c) ==> s[j] != c,
    decreases s.len(),
{
    if s.len() > 0 && s[0] != c {
        lemma_stop_at_bounds(s.drop_first(), c);
        assert forall|j: int| 0 <= j < stop_at(s, c) implies s[j] != c by {
            if j > 0 {
                assert(s[j] == s.drop_first()[j - 1]);
            }
        }
    }
}

/// `stop_at` is the first `c`.
pub proof fn lemma_stop_at_exact(s: Seq<char>, c: char, k: int)
    requires
        0 <= k <= s.len(),
        k < s.len() ==> s[k] == c,
        forall|j: int| 0 <= j < k ==> s[j] != c,
    ensures
        stop_at(s, c) == k,
    decreases s.len(),
{
    if s.len() > 0 && s[0] != c {
        lemma_stop_at_exact(s.drop_first(), c, k - 1);
    }
}

/// No line of `s` holds a `'\n'`.
pub proof fn lemma_lines_without_newline(s: Seq<char>)
    ensures
        forall|i: int, j: int|
            0 <= i < lines_of(s).len() && 0 <= j < lines_of(s)[i].len() ==> #[trigger] lines_of(
                s,
            )[i][j] != '\n',
    decreases s.len(),
{
    if s.len() > 0 {
        lemma_stop_at_bounds(s, '\n');
        let k = stop_at(s, '\n');
        if k < s.len() {
            let rest = s.subrange(k + 1, s.len() as int);
            lemma_lines_without_newline(rest);
            let first = strip_cr(s.subrange(0, k), true);
            assert(lines_of(s) == seq![first] + lines_of(rest));
            assert forall|i: int, j: int|
                0 <= i < lines_of(s).len() && 0 <= j < lines_of(s)[i].len() implies #[trigger] lines_of(
                s,
            )[i][j] != '\n' by {
                if i == 0 {
                    assert(lines_of(s)[0] == first);
                    assert(first[j] == s[j]);
                } else {
                    assert(lines_of(s)[i] == lines_of(rest)[i - 1]);
                }
            }
        } else {
            assert(lines_of(s) == seq![s]);
            assert forall|i: int, j: int|
                0 <= i < lines_of(s).len() && 0 <= j < lines_of(s)[i].len() implies #[trigger] lines_of(
                s,
            )[i][j] != '\n' by {
                assert(lines_of(s)[i] == s);
            }
        }
    }
}

/// The characters next to `s[i]`, when it is a line break, are line breaks
/// too or not whitespace.
pub open spec fn unpadded_at(s: Seq<char>, i: int) -> bool {
    s[i] == '\n' ==> (i > 0 ==> s[i - 1] == '\n' || !is_white_space(s[i - 1])) && (i + 1
        < s.len() ==> s[i + 1] == '\n' || !is_white_space(s[i + 1]))
}

/// Whitespace never pads a line break: the characters next to each `'\n'`
/// are line breaks too or not whitespace.
pub open spec fn lines_unpadded(s: Seq<char>) -> bool {
    forall|i: int| 0 <= i < s.len() ==> #[trigger] unpadded_at(s, i)
}

/// A sequence that neither starts nor ends with whitespace is its own trim.
pub proof fn lemma_trim_fixed(l: Seq<char>)
    requires
        l.len() > 0 ==> !is_white_space(l[0]) && !is_white_space(l.last()),
    ensures
        trim(l) == l,
{
}

/// When whitespace pads no line break and the text neither starts nor ends
/// with whitespace other than a line break, every line of the text is
/// trimmed.
pub proof fn lemma_lines_trimmed(s: Seq<char>)
    requires
        lines_unpadded(s),
        s.len() > 0 && s[0] != '\n' ==> !is_white_space(s[0]),
        s.len() > 0 && s.last() != '\n' ==> !is_white_space(s.last()),
    ensures
        forall|i: int| 0 <= i < lines_of(s).len() ==> trim(#[trigger] lines_of(s)[i]) == lines_of(s)[i],
    decreases s.len(),
{
    if s.len() > 0 {
        lemma_stop_at_bounds(s, '\n');
        let k = stop_at(s, '\n');
        if k < s.len() {
            let rest = s.subrange(k + 1, s.len() as int);
            let line = s.subrange(0, k);
            assert(unpadded_at(s, k));
            assert forall|i: int| 0 <= i < rest.len() implies #[trigger] unpadded_at(rest, i) by {
                assert(unpadded_at(s, i + k + 1));
                assert(rest[i] == s[i + k + 1]);
                if i > 0 {
                    assert(rest[i - 1] == s[i + k]);
                }
                if i + 1 < rest.len() {
                    assert(rest[i + 1] == s[i + k + 2]);
                }
            }
            if rest.len() > 0 && rest[0] != '\n' {
                assert(s[k + 1] == rest[0]);
            }
            lemma_lines_trimmed(rest);
            if k > 0 {
                assert(s[k - 1] != '\n');
                assert(line.last() == s[k - 1]);
                assert(line[0] == s[0]);
            }
            assert(strip_cr(line, true) == line);
            lemma_trim_fixed(line);
            assert(lines_of(s) == seq![line] + lines_of(rest));
            assert forall|i: int| 0 <= i < lines_of(s).len() implies trim(#[trigger] lines_of(s)[i])
                == lines_of(s)[i] by {
                if i > 0 {
                    assert(lines_of(s)[i] == lines_of(rest)[i - 1]);
                }
            }
        } else {
            assert(lines_of(s) == seq![s]);
            lemma_trim_fixed(s);
        }
    }
}

/// The lines of `s`, as `str::lines` yields them.
pub fn lines_chars(s: &[char]) -> (r: Vec<Vec<char>>)
    ensures
        r@.len() == lines_of(s@).len(),
        forall|i: int| 0 <= i < r@.len() ==> #[trigger] r@[i]@ == lines_of(s@)[i],
{
    let n = s.len();
    let mut r: Vec<Vec<char>> = Vec::new();
    let mut pos: usize = 0;
    let ghost done: Seq<Seq<char>> = seq![];
    assert(s@.subrange(0, n as int) == s@);
    assert(done + lines_of(s@) == lines_of(s@));
    while pos < n
        invariant
            pos <= n == s@.len(),
            r@.len() == done.len(),
            forall|i: int| 0 <= i < r@.len() ==> #[trigger] r@[i]@ == done[i],
            lines_of(s@) == done + lines_of(s@.subrange(pos as int, n as int)),
        decreases n - pos,
    {
        let ghost rest = s@.subrange(pos as int, n as int);
        let mut k = pos;
        while k < n && s[k] != '\n'
            invariant
                pos <= k <= n == s@.len(),
                forall|j: int| pos <= j < k ==> s@[j] != '\n',
            decreases n - k,
        {
            k += 1;
        }
        proof {
            lemma_stop_at_exact(rest, '\n', k - pos);
        }
        if k < n {
            let mut line = sub_chars(s, pos, k);
            if line.len() > 0 && line[line.len() - 1] == '\r' {
                line.pop();
            }
            proof {
                assert(rest.subrange(0, k - pos) == s@.subrange(pos as int, k as int));
                assert(rest.subrange(k - pos + 1, rest.len() as int) == s@.subrange(
                    k + 1,
                    n as int,
                ));
                assert(line@ == strip_cr(rest.subrange(0, k - pos), true));
                done = done.push(line@);
                assert(lines_of(rest) == seq![line@] + lines_of(
                    s@.subrange(k + 1, n as int),
                ));
                assert(done == (done.drop_last()) + seq![line@]);
            }
            r.push(line);
            pos = k + 1;
        } else {
            let line = sub_chars(s, pos, n);
            proof {
                assert(line@ == rest);
                done = done.push(line@);
                assert(lines_of(s@.subrange(n as int, n as int)) == Seq::<Seq<char>>::empty());
            }
            r.push(line);
            pos = n;
        }
    }
    proof {
        assert(s@.subrange(n as int, n as int).len() == 0);
        assert(done + lines_of(s@.subrange(n as int, n as int)) == done);
    }
    r
}

/// The pieces of `s` between occurrences of `c`, as `str::split(c)` yields
/// them (an empty string gives one empty piece).
pub open spec fn split_on(s: Seq<char>, c: char) -> Seq<Seq<char>>
    decreases s.len(),
{
    let k = stop_at(s, c);
    if k < s.len() {
        proof {
            lemma_stop_at_bounds(s, c);
        }
        seq![s.subrange(0, k)] + split_on(s.subrange(k + 1, s.len() as int), c)
    } else {
        seq![s]
    }
}

/// The pieces of `s` between occurrences of `c`.
pub fn split_chars(s: &[char], c: char) -> (r: Vec<Vec<char>>)
    ensures
        r@.len() == split_on(s@, c).len(),
        forall|i: int| 0 <= i < r@.len() ==> #[trigger] r@[i]@ == split_on(s@, c)[i],
{
    let n = s.len();
    let mut r: Vec<Vec<char>> = Vec::new();
    let mut pos: usize = 0;
    let ghost done: Seq<Seq<char>> = seq![];
    assert(s@.subrange(0, n as int) == s@);
    assert(done + split_on(s@, c) == split_on(s@, c));
    loop
        invariant
            pos <= n == s@.len(),
            r@.len() == done.len(),
            forall|i: int| 0 <= i < r@.len() ==> #[trigger] r@[i]@ == done[i],
            split_on(s@, c) == done + split_on(s@.subrange(pos as int, n as int), c),
        decreases n - pos,
    {
        let ghost rest = s@.subrange(pos as int, n as int);
        let mut k = pos;
        while k < n && s[k] != c
            invariant
                pos <= k <= n == s@.len(),
                forall|j: int| pos <= j < k ==> s@[j] != c,
            decreases n - k,
        {
            k += 1;
        }
        proof {
            lemma_stop_at_exact(rest, c, k - pos);
        }
        let piece = sub_chars(s, pos, k);
        proof {
            assert(piece@ == rest.subrange(0, k - pos));
            done = done.push(piece@);
        }
        r.push(piece);
        if k < n {
            proof {
                assert(rest.subrange(k - pos + 1, rest.len() as int) == s@.subrange(
                    k + 1,
                    n as int,
                ));
                assert(split_on(rest, c) == seq![piece@] + split_on(s@.subrange(k + 1, n as int), c));
                assert(done == done.drop_last() + seq![piece@]);
            }
            pos = k + 1;
        } else {
            proof {
                assert(split_on(rest, c) == seq![piece@]);
                assert(split_on(s@, c) == done);
            }
            return r;
        }
    }
}

// ---------------------------------------------------------------------------
// Case mapping
// ---------------------------------------------------------------------------

/// What `str::to_lowercase` returns for `s` (full Unicode lower-case mapping).
pub uninterp spec fn lowercase_of(s: Seq<char>) -> Seq<char>;

/// `str::to_lowercase`: the result is named by `lowercase_of`, a function of
/// the input alone. Nothing is claimed of its length or content beyond that.
#[verifier::external_body]
pub(crate) fn to_lowercase(s: &str) -> (r: String)
    ensures
        r@ == lowercase_of(s@),
{
    s.to_lowercase()
}

} // verus!
