//! Character-level text handling: the mathematical meaning of the string
//! operations the library relies on (line splitting, trimming, substring
//! search, ASCII case folding, decimal rendering) and executable versions
//! proved against them.

use vstd::prelude::*;

verus! {

// ---------------------------------------------------------------------
// Characters
// ---------------------------------------------------------------------

/// The Unicode `White_Space` property, which is what `char::is_whitespace`
/// and `str::trim` go by.
pub open spec fn is_ws(c: char) -> bool {
    ||| ('\u{9}' <= c && c <= '\u{d}')
    ||| c == ' '
    ||| c == '\u{85}'
    ||| c == '\u{a0}'
    ||| c == '\u{1680}'
    ||| ('\u{2000}' <= c && c <= '\u{200a}')
    ||| c == '\u{2028}'
    ||| c == '\u{2029}'
    ||| c == '\u{202f}'
    ||| c == '\u{205f}'
    ||| c == '\u{3000}'
}

/// Whether `c` is white space in the Unicode sense.
pub fn is_whitespace(c: char) -> (r: bool)
    ensures
        r == is_ws(c),
{
    ('\u{9}' <= c && c <= '\u{d}') || c == ' ' || c == '\u{85}' || c == '\u{a0}' || c
        == '\u{1680}' || ('\u{2000}' <= c && c <= '\u{200a}') || c == '\u{2028}' || c
        == '\u{2029}' || c == '\u{202f}' || c == '\u{205f}' || c == '\u{3000}'
}

/// ASCII case folding of one character: `A`..`Z` become `a`..`z`,
/// everything else is unchanged.
pub open spec fn ascii_lower_char(c: char) -> char {
    if 'A' <= c && c <= 'Z' {
        ((c as u32) + 32) as char
    } else {
        c
    }
}

/// ASCII case folding of a whole sequence.
pub open spec fn ascii_lower(s: Seq<char>) -> Seq<char> {
    s.map_values(|c: char| ascii_lower_char(c))
}

pub fn to_ascii_lower(c: char) -> (r: char)
    ensures
        r == ascii_lower_char(c),
{
    if 'A' <= c && c <= 'Z' {
        ((c as u8) + 32) as char
    } else {
        c
    }
}

// ---------------------------------------------------------------------
// Trimming
// ---------------------------------------------------------------------

/// Drop leading white space.
pub open spec fn trim_start_ws(s: Seq<char>) -> Seq<char>
    decreases s.len(),
{
    if s.len() > 0 && is_ws(s[0]) {
        trim_start_ws(s.drop_first())
    } else {
        s
    }
}

/// Drop trailing white space.
pub open spec fn trim_end_ws(s: Seq<char>) -> Seq<char>
    decreases s.len(),
{
    if s.len() > 0 && is_ws(s.last()) {
        trim_end_ws(s.drop_last())
    } else {
        s
    }
}

/// Drop leading and trailing white space (`str::trim`).
pub open spec fn trim_ws(s: Seq<char>) -> Seq<char> {
    trim_end_ws(trim_start_ws(s))
}

/// Drop every leading occurrence of `c`.
pub open spec fn strip_start(s: Seq<char>, c: char) -> Seq<char>
    decreases s.len(),
{
    if s.len() > 0 && s[0] == c {
        strip_start(s.drop_first(), c)
    } else {
        s
    }
}

/// Drop every trailing occurrence of `c` (`str::trim_end_matches` with a
/// character).
pub open spec fn strip_end(s: Seq<char>, c: char) -> Seq<char>
    decreases s.len(),
{
    if s.len() > 0 && s.last() == c {
        strip_end(s.drop_last(), c)
    } else {
        s
    }
}

/// Drop every leading and trailing occurrence of `c` (`str::trim_matches`
/// with a character).
pub open spec fn trim_char(s: Seq<char>, c: char) -> Seq<char> {
    strip_end(strip_start(s, c), c)
}

/// Index of the first character of `v[lo..hi]` that is not white space
/// (or `hi`), so that `v[r..hi]` is `v[lo..hi]` without its leading white space.
pub fn skip_ws_start(v: &Vec<char>, lo: usize, hi: usize) -> (r: usize)
    requires
        lo <= hi <= v@.len(),
    ensures
        lo <= r <= hi,
        v@.subrange(r as int, hi as int) == trim_start_ws(v@.subrange(lo as int, hi as int)),
{
    let mut i = lo;
    while i < hi && is_whitespace(v[i])
        invariant
            lo <= i <= hi,
            hi <= v@.len(),
            trim_start_ws(v@.subrange(lo as int, hi as int)) == trim_start_ws(
                v@.subrange(i as int, hi as int),
            ),
        decreases hi - i,
    {
        assert(v@.subrange(i as int, hi as int).drop_first() =~= v@.subrange(
            i + 1,
            hi as int,
        ));
        i = i + 1;
    }
    i
}

/// End of `v[lo..hi]` once its trailing white space is dropped.
pub fn skip_ws_end(v: &Vec<char>, lo: usize, hi: usize) -> (r: usize)
    requires
        lo <= hi <= v@.len(),
    ensures
        lo <= r <= hi,
        v@.subrange(lo as int, r as int) == trim_end_ws(v@.subrange(lo as int, hi as int)),
{
    let mut j = hi;
    while j > lo && is_whitespace(v[j - 1])
        invariant
            lo <= j <= hi,
            hi <= v@.len(),
            trim_end_ws(v@.subrange(lo as int, hi as int)) == trim_end_ws(
                v@.subrange(lo as int, j as int),
            ),
        decreases j - lo,
    {
        assert(v@.subrange(lo as int, j as int).drop_last() =~= v@.subrange(
            lo as int,
            j - 1,
        ));
        j = j - 1;
    }
    j
}

/// Bounds of `trim_ws(v[lo..hi])` inside `v`.
pub fn trim_ws_range(v: &Vec<char>, lo: usize, hi: usize) -> (r: (usize, usize))
    requires
        lo <= hi <= v@.len(),
    ensures
        lo <= r.0 <= r.1 <= hi,
        v@.subrange(r.0 as int, r.1 as int) == trim_ws(v@.subrange(lo as int, hi as int)),
{
    let a = skip_ws_start(v, lo, hi);
    let b = skip_ws_end(v, a, hi);
    (a, b)
}

/// Index past every leading `c` of `v[lo..hi]`.
pub fn skip_char_start(v: &Vec<char>, lo: usize, hi: usize, c: char) -> (r: usize)
    requires
        lo <= hi <= v@.len(),
    ensures
        lo <= r <= hi,
        v@.subrange(r as int, hi as int) == strip_start(v@.subrange(lo as int, hi as int), c),
{
    let mut i = lo;
    while i < hi && v[i] == c
        invariant
            lo <= i <= hi,
            hi <= v@.len(),
            strip_start(v@.subrange(lo as int, hi as int), c) == strip_start(
                v@.subrange(i as int, hi as int),
                c,
            ),
        decreases hi - i,
    {
        assert(v@.subrange(i as int, hi as int).drop_first() =~= v@.subrange(
            i + 1,
            hi as int,
        ));
        i = i + 1;
    }
    i
}

/// End of `v[lo..hi]` once every trailing `c` is dropped.
pub fn skip_char_end(v: &Vec<char>, lo: usize, hi: usize, c: char) -> (r: usize)
    requires
        lo <= hi <= v@.len(),
    ensures
        lo <= r <= hi,
        v@.subrange(lo as int, r as int) == strip_end(v@.subrange(lo as int, hi as int), c),
{
    let mut j = hi;
    while j > lo && v[j - 1] == c
        invariant
            lo <= j <= hi,
            hi <= v@.len(),
            strip_end(v@.subrange(lo as int, hi as int), c) == strip_end(
                v@.subrange(lo as int, j as int),
                c,
            ),
        decreases j - lo,
    {
        assert(v@.subrange(lo as int, j as int).drop_last() =~= v@.subrange(
            lo as int,
            j - 1,
        ));
        j = j - 1;
    }
    j
}

/// Bounds of `trim_char(v[lo..hi], c)` inside `v`.
pub fn trim_char_range(v: &Vec<char>, lo: usize, hi: usize, c: char) -> (r: (usize, usize))
    requires
        lo <= hi <= v@.len(),
    ensures
        lo <= r.0 <= r.1 <= hi,
        v@.subrange(r.0 as int, r.1 as int) == trim_char(v@.subrange(lo as int, hi as int), c),
{
    let a = skip_char_start(v, lo, hi, c);
    let b = skip_char_end(v, a, hi, c);
    (a, b)
}

// ---------------------------------------------------------------------
// Facts about trimming
// ---------------------------------------------------------------------

/// A piece of a piece is a piece.
pub proof fn lemma_occurs_trans(s: Seq<char>, t: Seq<char>, u: Seq<char>, a: int, b: int)
    requires
        occurs_at(s, t, a),
        occurs_at(t, u, b),
    ensures
        occurs_at(s, u, a + b),
{
    assert(s.subrange(a + b, a + b + u.len()) =~= t.subrange(b, b + u.len()));
}

/// What trimming leaves of the start is a suffix.
pub proof fn lemma_trim_start_ws_offset(s: Seq<char>) -> (a: int)
    ensures
        0 <= a <= s.len(),
        trim_start_ws(s) == s.subrange(a, s.len() as int),
    decreases s.len(),
{
    if s.len() > 0 && is_ws(s[0]) {
        let b = lemma_trim_start_ws_offset(s.drop_first());
        assert(s.drop_first().subrange(b, s.drop_first().len() as int) =~= s.subrange(
            b + 1,
            s.len() as int,
        ));
        b + 1
    } else {
        assert(s.subrange(0, s.len() as int) =~= s);
        0
    }
}

/// What trimming leaves of the end is a prefix.
pub proof fn lemma_trim_end_ws_len(s: Seq<char>) -> (b: int)
    ensures
        0 <= b <= s.len(),
        trim_end_ws(s) == s.subrange(0, b),
    decreases s.len(),
{
    if s.len() > 0 && is_ws(s.last()) {
        let b = lemma_trim_end_ws_len(s.drop_last());
        assert(s.drop_last().subrange(0, b) =~= s.subrange(0, b));
        b
    } else {
        assert(s.subrange(0, s.len() as int) =~= s);
        s.len() as int
    }
}

pub proof fn lemma_strip_start_offset(s: Seq<char>, c: char) -> (a: int)
    ensures
        0 <= a <= s.len(),
        strip_start(s, c) == s.subrange(a, s.len() as int),
    decreases s.len(),
{
    if s.len() > 0 && s[0] == c {
        let b = lemma_strip_start_offset(s.drop_first(), c);
        assert(s.drop_first().subrange(b, s.drop_first().len() as int) =~= s.subrange(
            b + 1,
            s.len() as int,
        ));
        b + 1
    } else {
        assert(s.subrange(0, s.len() as int) =~= s);
        0
    }
}

pub proof fn lemma_strip_end_len(s: Seq<char>, c: char) -> (b: int)
    ensures
        0 <= b <= s.len(),
        strip_end(s, c) == s.subrange(0, b),
    decreases s.len(),
{
    if s.len() > 0 && s.last() == c {
        let b = lemma_strip_end_len(s.drop_last(), c);
        assert(s.drop_last().subrange(0, b) =~= s.subrange(0, b));
        b
    } else {
        assert(s.subrange(0, s.len() as int) =~= s);
        s.len() as int
    }
}

/// `trim_ws(s)` is a piece of `s`.
pub proof fn lemma_trim_ws_piece(s: Seq<char>) -> (a: int)
    ensures
        occurs_at(s, trim_ws(s), a),
{
    let a = lemma_trim_start_ws_offset(s);
    let t = trim_start_ws(s);
    let b = lemma_trim_end_ws_len(t);
    assert(s.subrange(a, a + b) =~= t.subrange(0, b));
    a
}

/// `trim_char(s, c)` is a piece of `s`.
pub proof fn lemma_trim_char_piece(s: Seq<char>, c: char) -> (a: int)
    ensures
        occurs_at(s, trim_char(s, c), a),
{
    let a = lemma_strip_start_offset(s, c);
    let t = strip_start(s, c);
    let b = lemma_strip_end_len(t, c);
    assert(s.subrange(a, a + b) =~= t.subrange(0, b));
    a
}

/// Leading white space followed by a non-blank start trims to that start.
pub proof fn lemma_trim_start_ws_prefix(p: Seq<char>, r: Seq<char>)
    requires
        forall|k: int| 0 <= k < p.len() ==> is_ws(#[trigger] p[k]),
        r.len() == 0 || !is_ws(r[0]),
    ensures
        trim_start_ws(p + r) == r,
    decreases p.len(),
{
    if p.len() == 0 {
        assert(p + r =~= r);
    } else {
        assert((p + r)[0] == p[0]);
        assert((p + r).drop_first() =~= p.drop_first() + r);
        lemma_trim_start_ws_prefix(p.drop_first(), r);
    }
}

/// A non-blank end followed by trailing white space trims to that end.
pub proof fn lemma_trim_end_ws_suffix(r: Seq<char>, p: Seq<char>)
    requires
        forall|k: int| 0 <= k < p.len() ==> is_ws(#[trigger] p[k]),
        r.len() == 0 || !is_ws(r.last()),
    ensures
        trim_end_ws(r + p) == r,
    decreases p.len(),
{
    if p.len() == 0 {
        assert(r + p =~= r);
    } else {
        assert((r + p).last() == p.last());
        assert((r + p).drop_last() =~= r + p.drop_last());
        lemma_trim_end_ws_suffix(r, p.drop_last());
    }
}

/// A text whose ends are neither white space nor `c` is left as it is.
pub proof fn lemma_trims_noop(r: Seq<char>, c: char)
    requires
        r.len() == 0 || (!is_ws(r[0]) && !is_ws(r.last()) && r[0] != c && r.last() != c),
    ensures
        trim_ws(r) == r,
        strip_end(r, c) == r,
        trim_char(r, c) == r,
{
}

// ---------------------------------------------------------------------
// Substrings
// ---------------------------------------------------------------------

/// `pat` occurs in `s` starting at index `i`.
pub open spec fn occurs_at(s: Seq<char>, pat: Seq<char>, i: int) -> bool {
    0 <= i && i + pat.len() <= s.len() && s.subrange(i, i + pat.len()) == pat
}

/// `pat` occurs in `s` (`str::contains`).
pub open spec fn contains(s: Seq<char>, pat: Seq<char>) -> bool {
    exists|i: int| occurs_at(s, pat, i)
}

/// `i` is the first index at which `pat` occurs in `s`.
pub open spec fn is_first_at(s: Seq<char>, pat: Seq<char>, i: int) -> bool {
    &&& occurs_at(s, pat, i)
    &&& forall|j: int| 0 <= j < i ==> !occurs_at(s, pat, j)
}

/// The first index at which `pat` occurs in `s` (`str::find`); meaningful
/// where `contains(s, pat)`.
pub open spec fn first_at(s: Seq<char>, pat: Seq<char>) -> int {
    choose|i: int| is_first_at(s, pat, i)
}

/// There is at most one first occurrence, and where `pat` occurs there is one.
pub proof fn lemma_first_at(s: Seq<char>, pat: Seq<char>, i: int)
    requires
        is_first_at(s, pat, i),
    ensures
        first_at(s, pat) == i,
        contains(s, pat),
{
    let k = first_at(s, pat);
    assert(is_first_at(s, pat, k));
    if k < i {
        assert(!occurs_at(s, pat, k));
    }
    if i < k {
        assert(!occurs_at(s, pat, i));
    }
}

/// Whether `pat` occurs in `v` at `i`.
pub fn matches_at(v: &Vec<char>, pat: &Vec<char>, i: usize) -> (r: bool)
    requires
        i + pat@.len() <= v@.len(),
    ensures
        r == occurs_at(v@, pat@, i as int),
{
    let m = pat.len();
    let n = v.len();
    let mut k: usize = 0;
    while k < m
        invariant
            m == pat@.len(),
            n == v@.len(),
            i + m <= n,
            k <= m,
            forall|t: int| 0 <= t < k ==> v@[i + t] == pat@[t],
        decreases m - k,
    {
        if v[i + k] != pat[k] {
            assert(v@.subrange(i as int, i + m)[k as int] != pat@[k as int]);
            return false;
        }
        k = k + 1;
    }
    assert(v@.subrange(i as int, i + m) =~= pat@);
    true
}

/// The first index at which `pat` occurs in `v`, if any.
pub fn find_seq(v: &Vec<char>, pat: &Vec<char>) -> (r: Option<usize>)
    ensures
        match r {
            Some(i) => is_first_at(v@, pat@, i as int),
            None => !contains(v@, pat@),
        },
{
    let n = v.len();
    let m = pat.len();
    if m > n {
        return None;
    }
    let last = n - m;
    let mut i: usize = 0;
    while i < last
        invariant
            n == v@.len(),
            m == pat@.len(),
            last == n - m,
            i <= last,
            forall|j: int| 0 <= j < i ==> !occurs_at(v@, pat@, j),
        decreases last - i,
    {
        if matches_at(v, pat, i) {
            return Some(i);
        }
        i = i + 1;
    }
    if matches_at(v, pat, last) {
        return Some(last);
    }
    assert forall|j: int| !occurs_at(v@, pat@, j) by {
        if 0 <= j < i {
        }
    }
    None
}

/// Whether `pat` occurs anywhere in `v`.
pub fn contains_seq(v: &Vec<char>, pat: &Vec<char>) -> (r: bool)
    ensures
        r == contains(v@, pat@),
{
    match find_seq(v, pat) {
        Some(i) => {
            assert(occurs_at(v@, pat@, i as int));
            true
        },
        None => false,
    }
}

/// Whether `v[lo..hi]` equals `t`.
pub fn range_equals(v: &Vec<char>, lo: usize, hi: usize, t: &Vec<char>) -> (r: bool)
    requires
        lo <= hi <= v@.len(),
    ensures
        r == (v@.subrange(lo as int, hi as int) == t@),
{
    if hi - lo != t.len() {
        return false;
    }
    let r = matches_at(v, t, lo);
    proof {
        if r {
            assert(v@.subrange(lo as int, hi as int) =~= t@);
        }
    }
    r
}

/// Whether `v[lo..hi]`, folded to ASCII lower case, equals `t`.
pub fn range_lower_equals(v: &Vec<char>, lo: usize, hi: usize, t: &Vec<char>) -> (r: bool)
    requires
        lo <= hi <= v@.len(),
    ensures
        r == (ascii_lower(v@.subrange(lo as int, hi as int)) == t@),
{
    let ghost s = v@.subrange(lo as int, hi as int);
    if hi - lo != t.len() {
        assert(ascii_lower(s).len() != t@.len());
        return false;
    }
    let m = t.len();
    let mut k: usize = 0;
    while k < m
        invariant
            m == t@.len(),
            lo + m == hi,
            hi <= v@.len(),
            s == v@.subrange(lo as int, hi as int),
            k <= m,
            forall|x: int| 0 <= x < k ==> ascii_lower_char(v@[lo + x]) == t@[x],
        decreases m - k,
    {
        if to_ascii_lower(v[lo + k]) != t[k] {
            assert(ascii_lower(s)[k as int] != t@[k as int]);
            return false;
        }
        k = k + 1;
    }
    assert(ascii_lower(s) =~= t@);
    true
}

// ---------------------------------------------------------------------
// Lines
// ---------------------------------------------------------------------

/// Index of the first `'\n'` in `s`, or `s.len()` where there is none.
pub open spec fn first_newline(s: Seq<char>) -> nat
    decreases s.len(),
{
    if s.len() == 0 {
        0
    } else if s[0] == '\n' {
        0
    } else {
        1 + first_newline(s.drop_first())
    }
}

/// A line ended by `'\n'` loses a `'\r'` just before it.
pub open spec fn strip_cr(s: Seq<char>) -> Seq<char> {
    if s.len() > 0 && s.last() == '\r' {
        s.drop_last()
    } else {
        s
    }
}

/// The lines of `s`, as `str::lines` yields them: split at `'\n'`, a
/// `'\r'` before the `'\n'` dropped, and no empty line after a final `'\n'`.
pub open spec fn lines(s: Seq<char>) -> Seq<Seq<char>>
    decreases s.len(),
{
    if s.len() == 0 {
        seq![]
    } else {
        let k = first_newline(s);
        if k < s.len() {
            seq![strip_cr(s.take(k as int))] + lines(s.skip(k as int + 1))
        } else {
            seq![s]
        }
    }
}

pub proof fn lemma_first_newline(s: Seq<char>, k: int)
    requires
        0 <= k <= s.len(),
        forall|i: int| 0 <= i < k ==> s[i] != '\n',
        k == s.len() || s[k] == '\n',
    ensures
        first_newline(s) == k,
    decreases k,
{
    if k > 0 {
        lemma_first_newline(s.drop_first(), k - 1);
    }
}

/// A line without a line break, then a line break, then `rest`: that
/// line comes first, without a trailing carriage return, then the lines of `rest`.
pub proof fn lemma_split_line(line: Seq<char>, rest: Seq<char>)
    requires
        forall|i: int| 0 <= i < line.len() ==> #[trigger] line[i] != '\n',
    ensures
        lines(line + seq!['\n'] + rest) == seq![strip_cr(line)] + lines(rest),
{
    let out = line + seq!['\n'] + rest;
    assert forall|i: int| 0 <= i < line.len() implies out[i] != '\n' by {
        assert(out[i] == line[i]);
    }
    assert(out[line.len() as int] == '\n');
    lemma_first_newline(out, line.len() as int);
    assert(out.take(line.len() as int) =~= line);
    assert(out.skip(line.len() as int + 1) =~= rest);
}

pub proof fn lemma_first_newline_bound(s: Seq<char>)
    ensures
        first_newline(s) <= s.len(),
    decreases s.len(),
{
    if s.len() > 0 && s[0] != '\n' {
        lemma_first_newline_bound(s.drop_first());
    }
}

/// Every line is a piece of the text it came from: the returned index is
/// where it starts.
pub proof fn lemma_line_offset(s: Seq<char>, i: int) -> (a: int)
    requires
        0 <= i < lines(s).len(),
    ensures
        occurs_at(s, lines(s)[i], a),
    decreases s.len(),
{
    let k = first_newline(s);
    lemma_first_newline_bound(s);
    if k < s.len() {
        let head = strip_cr(s.take(k as int));
        let rest = s.skip(k as int + 1);
        assert(lines(s) == seq![head] + lines(rest));
        if i == 0 {
            assert(s.subrange(0, head.len() as int) =~= head);
            0
        } else {
            assert(lines(s)[i] == lines(rest)[i - 1]);
            let b = lemma_line_offset(rest, i - 1);
            let len = lines(rest)[i - 1].len();
            assert(s.subrange(b + k + 1, b + k + 1 + len) =~= rest.subrange(b, b + len));
            b + k + 1
        }
    } else {
        assert(lines(s) == seq![s]);
        assert(s.subrange(0, s.len() as int) =~= s);
        0
    }
}

/// The lines of `s`, each as its own `String`.
pub fn lines_of(s: &str) -> (r: Vec<String>)
    ensures
        r@.len() == lines(s@).len(),
        forall|i: int| 0 <= i < r@.len() ==> #[trigger] r@[i]@ == lines(s@)[i],
{
    let v = chars_of(s);
    let n = v.len();
    let mut out: Vec<String> = Vec::new();
    let mut pos: usize = 0;
    assert(v@.skip(0) =~= v@);
    while pos < n
        invariant
            n == v@.len(),
            v@ == s@,
            pos <= n,
            out@.len() + lines(v@.skip(pos as int)).len() == lines(v@).len(),
            forall|i: int| 0 <= i < out@.len() ==> #[trigger] out@[i]@ == lines(v@)[i],
            forall|i: int|
                0 <= i < lines(v@.skip(pos as int)).len() ==> #[trigger] lines(
                    v@.skip(pos as int),
                )[i] == lines(v@)[out@.len() + i],
        decreases n - pos,
    {
        let mut j = pos;
        while j < n && v[j] != '\n'
            invariant
                n == v@.len(),
                pos <= j <= n,
                forall|t: int| pos <= t < j ==> v@[t] != '\n',
            decreases n - j,
        {
            j = j + 1;
        }
        let ghost rest = v@.skip(pos as int);
        proof {
            lemma_first_newline(rest, j - pos);
        }
        let end = if j < n && j > pos && v[j - 1] == '\r' {
            j - 1
        } else {
            j
        };
        let line = String::from_str(s.substring_char(pos, end));
        let ghost old_out = out@;
        let next = if j < n {
            j + 1
        } else {
            n
        };
        proof {
            if j < n {
                assert(rest.take(j - pos) =~= v@.subrange(pos as int, j as int));
                assert(rest.skip(j - pos + 1) =~= v@.skip(j + 1));
                if j > pos && v@[j - 1] == '\r' {
                    assert(strip_cr(rest.take(j - pos)) =~= v@.subrange(pos as int, j - 1));
                } else {
                    assert(strip_cr(rest.take(j - pos)) =~= v@.subrange(pos as int, j as int));
                }
                assert(lines(rest) == seq![line@] + lines(v@.skip(next as int)));
            } else {
                assert(rest =~= v@.subrange(pos as int, n as int));
                assert(v@.skip(n as int) =~= Seq::<char>::empty());
                assert(lines(rest) == seq![line@]);
                assert(lines(rest) =~= seq![line@] + lines(v@.skip(next as int)));
            }
            assert(lines(rest)[0] == line@);
        }
        out.push(line);
        pos = next;
        proof {
            assert forall|i: int| 0 <= i < out@.len() implies #[trigger] out@[i]@ == lines(
                v@,
            )[i] by {
                if i < old_out.len() {
                    assert(out@[i] == old_out[i]);
                } else {
                    assert(lines(rest)[0] == lines(v@)[old_out.len() as int]);
                }
            }
            assert forall|i: int|
                0 <= i < lines(v@.skip(pos as int)).len() implies #[trigger] lines(
                v@.skip(pos as int),
            )[i] == lines(v@)[out@.len() + i] by {
                assert(lines(v@.skip(pos as int))[i] == lines(rest)[i + 1]);
            }
        }
    }
    proof {
        assert(v@.skip(pos as int) =~= Seq::<char>::empty());
    }
    out
}

// ---------------------------------------------------------------------
// Conversions
// ---------------------------------------------------------------------

/// The characters of `s`, one by one.
pub fn chars_of(s: &str) -> (v: Vec<char>)
    ensures
        v@ == s@,
{
    let n = s.unicode_len();
    let mut v: Vec<char> = Vec::new();
    let mut i: usize = 0;
    while i < n
        invariant
            n == s@.len(),
            i <= n,
            v@ == s@.take(i as int),
        decreases n - i,
    {
        v.push(s.get_char(i));
        i = i + 1;
        assert(v@ =~= s@.take(i as int));
    }
    assert(s@.take(n as int) =~= s@);
    v
}

/// The decimal digit `d` as a character.
pub open spec fn digit_char(d: nat) -> char {
    if d == 0 {
        '0'
    } else if d == 1 {
        '1'
    } else if d == 2 {
        '2'
    } else if d == 3 {
        '3'
    } else if d == 4 {
        '4'
    } else if d == 5 {
        '5'
    } else if d == 6 {
        '6'
    } else if d == 7 {
        '7'
    } else if d == 8 {
        '8'
    } else {
        '9'
    }
}

/// The decimal notation of `n`, without sign or leading zeros.
pub open spec fn decimal(n: nat) -> Seq<char>
    decreases n,
{
    if n < 10 {
        seq![digit_char(n)]
    } else {
        decimal(n / 10) + seq![digit_char(n % 10)]
    }
}

/// The decimal notation of a signed integer, with a `-` where it is negative.
pub open spec fn signed_decimal(i: int) -> Seq<char> {
    if i < 0 {
        seq!['-'] + decimal((-i) as nat)
    } else {
        decimal(i as nat)
    }
}

fn digit_str(d: u64) -> (r: &'static str)
    requires
        d < 10,
    ensures
        r@ == seq![digit_char(d as nat)],
{
    proof {
        reveal_strlit("0");
        reveal_strlit("1");
        reveal_strlit("2");
        reveal_strlit("3");
        reveal_strlit("4");
        reveal_strlit("5");
        reveal_strlit("6");
        reveal_strlit("7");
        reveal_strlit("8");
        reveal_strlit("9");
    }
    if d == 0 {
        "0"
    } else if d == 1 {
        "1"
    } else if d == 2 {
        "2"
    } else if d == 3 {
        "3"
    } else if d == 4 {
        "4"
    } else if d == 5 {
        "5"
    } else if d == 6 {
        "6"
    } else if d == 7 {
        "7"
    } else if d == 8 {
        "8"
    } else {
        "9"
    }
}

/// Append the decimal notation of `n` to `out`.
pub fn push_decimal(out: &mut String, n: u64)
    ensures
        final(out)@ == old(out)@ + decimal(n as nat),
    decreases n,
{
    if n < 10 {
        out.append(digit_str(n));
    } else {
        push_decimal(out, n / 10);
        out.append(digit_str(n % 10));
        assert(out@ =~= old(out)@ + decimal(n as nat));
    }
}

/// Append the decimal notation of a signed integer to `out`.
pub fn push_signed_decimal(out: &mut String, i: i32)
    ensures
        final(out)@ == old(out)@ + signed_decimal(i as int),
{
    if i < 0 {
        out.append("-");
        proof {
            reveal_strlit("-");
        }
        let m: i64 = i as i64;
        push_decimal(out, (-m) as u64);
        assert(out@ =~= old(out)@ + signed_decimal(i as int));
    } else {
        push_decimal(out, i as u64);
    }
}

} // verus!
