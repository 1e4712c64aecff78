//! Character classification and basic text operations on `str` and `String`.

use vstd::prelude::*;

verus! {

/// Whether `c` has the Unicode `Lowercase` property, as `char::is_lowercase` decides.
pub uninterp spec fn char_is_lowercase(c: char) -> bool;

/// Whether `c` is in a Unicode numeric category, as `char::is_numeric` decides.
pub uninterp spec fn char_is_numeric(c: char) -> bool;

/// Whether `c` has the Unicode `White_Space` property, as `char::is_whitespace` decides.
pub uninterp spec fn char_is_whitespace(c: char) -> bool;

/// Whether `c` is alphabetic or numeric, as `char::is_alphanumeric` decides.
pub uninterp spec fn char_is_alphanumeric(c: char) -> bool;

/// Calls `char::is_lowercase`. Trusted: the result is the named predicate
/// `char_is_lowercase`; on ASCII characters it is true exactly for `'a'..='z'`,
/// as the standard documentation of the `Lowercase` property shows.
#[verifier::external_body]
pub(crate) fn is_lowercase(c: char) -> (r: bool)
    ensures
        r == char_is_lowercase(c),
        (c as u32) < 128 ==> (r <==> ('a' <= c && c <= 'z')),
{
    c.is_lowercase()
}

/// Calls `char::is_numeric`. Trusted: the result is the named predicate
/// `char_is_numeric`; on ASCII characters it is true exactly for `'0'..='9'`.
#[verifier::external_body]
pub(crate) fn is_numeric(c: char) -> (r: bool)
    ensures
        r == char_is_numeric(c),
        (c as u32) < 128 ==> (r <==> ('0' <= c && c <= '9')),
{
    c.is_numeric()
}

/// Calls `char::is_whitespace`. Trusted: the result is the named predicate
/// `char_is_whitespace`; on ASCII characters it is true exactly for space,
/// tab, line feed, vertical tab, form feed and carriage return.
#[verifier::external_body]
pub(crate) fn is_whitespace(c: char) -> (r: bool)
    ensures
        r == char_is_whitespace(c),
        (c as u32) < 128 ==> (r <==> (c == ' ' || c == '\t' || c == '\n' || c == '\x0B'
            || c == '\x0C' || c == '\r')),
{
    c.is_whitespace()
}

/// Calls `char::is_alphanumeric`. Trusted: the result is the named
/// predicate `char_is_alphanumeric`; on ASCII characters it is true exactly
/// for letters and digits.
#[verifier::external_body]
pub(crate) fn is_alphanumeric(c: char) -> (r: bool)
    ensures
        r == char_is_alphanumeric(c),
        (c as u32) < 128 ==> (r <==> (('a' <= c && c <= 'z') || ('A' <= c && c <= 'Z') || ('0'
            <= c && c <= '9'))),
{
    c.is_alphanumeric()
}

/// Appends one character with `String::push`. Trusted: the string grows by exactly `c`.
#[verifier::external_body]
pub(crate) fn push_char(s: &mut String, c: char)
    ensures
        final(s)@ == old(s)@.push(c),
{
    s.push(c);
}

/// The characters of `s`, one per element.
pub fn chars_of(s: &str) -> (v: Vec<char>)
    ensures
        v@ == s@,
{
    let mut v: Vec<char> = Vec::new();
    for c in it: s.chars()
        invariant
            v@ == it.seq().take(it.index() as int),
            it.seq() == s@,
    {
        v.push(c);
    }
    v
}

/// The string made of the characters `v[lo..hi]`.
pub fn string_from_range(v: &[char], lo: usize, hi: usize) -> (s: String)
    requires
        lo <= hi <= v@.len(),
    ensures
        s@ == v@.subrange(lo as int, hi as int),
{
    let mut s = String::new();
    let mut i = lo;
    while i < hi
        invariant
            lo <= i <= hi <= v@.len(),
            s@ == v@.subrange(lo as int, i as int),
        decreases hi - i,
    {
        push_char(&mut s, v[i]);
        i = i + 1;
        assert(s@ =~= v@.subrange(lo as int, i as int));
    }
    s
}

/// The string made of the characters of `v`.
pub fn string_from_chars(v: &[char]) -> (s: String)
    ensures
        s@ == v@,
{
    let s = string_from_range(v, 0, v.len());
    assert(v@.subrange(0, v@.len() as int) =~= v@);
    s
}

/// Appends the characters of `t` to `s`.
pub fn append_chars(s: &mut String, t: &[char])
    ensures
        final(s)@ == old(s)@ + t@,
{
    let mut i: usize = 0;
    while i < t.len()
        invariant
            i <= t@.len(),
            s@ == old(s)@ + t@.take(i as int),
        decreases t.len() - i,
    {
        push_char(s, t[i]);
        i = i + 1;
        assert(s@ =~= old(s)@ + t@.take(i as int));
    }
    assert(t@.take(t@.len() as int) =~= t@);
}

/// Appends the text `t` to `s`.
pub fn append_str(s: &mut String, t: &str)
    ensures
        final(s)@ == old(s)@ + t@,
{
    let v = chars_of(t);
    append_chars(s, v.as_slice());
}

/// Whether two character sequences are equal.
pub fn chars_eq(a: &[char], b: &[char]) -> (r: bool)
    ensures
        r == (a@ == b@),
{
    if a.len() != b.len() {
        return false;
    }
    let mut i: usize = 0;
    while i < a.len()
        invariant
            a@.len() == b@.len(),
            i <= a@.len(),
            forall|k: int| 0 <= k < i ==> a@[k] == b@[k],
        decreases a.len() - i,
    {
        if a[i] != b[i] {
            return false;
        }
        i = i + 1;
    }
    assert(a@ =~= b@);
    true
}

/// Whether two texts are equal.
pub fn str_eq(a: &str, b: &str) -> (r: bool)
    ensures
        r == (a@ == b@),
{
    let va = chars_of(a);
    let vb = chars_of(b);
    chars_eq(va.as_slice(), vb.as_slice())
}

/// `p` occurs in `s` starting at position `i`.
pub open spec fn occurs_at(s: Seq<char>, p: Seq<char>, i: int) -> bool {
    0 <= i && i + p.len() <= s.len() && s.subrange(i, i + p.len()) == p
}

/// `p` occurs somewhere in `s` (the empty text occurs in every text).
pub open spec fn contains_text(s: Seq<char>, p: Seq<char>) -> bool {
    exists|i: int| occurs_at(s, p, i)
}

/// Whether `p` occurs in `s` at position `i`.
pub fn matches_at(s: &[char], p: &[char], i: usize) -> (r: bool)
    ensures
        r == occurs_at(s@, p@, i as int),
{
    if i > s.len() || p.len() > s.len() - i {
        return false;
    }
    let mut k: usize = 0;
    while k < p.len()
        invariant
            i + p@.len() <= s.len(),
            k <= p@.len(),
            forall|j: int| 0 <= j < k ==> s@[i + j] == p@[j],
        decreases p.len() - k,
    {
        if s[i + k] != p[k] {
            assert(s@.subrange(i as int, i + p@.len())[k as int] != p@[k as int]);
            return false;
        }
        k = k + 1;
    }
    assert(s@.subrange(i as int, i + p@.len()) =~= p@);
    true
}

/// Whether `p` occurs anywhere in `s`.
pub fn contains_chars(s: &[char], p: &[char]) -> (r: bool)
    ensures
        r == contains_text(s@, p@),
{
    if p.len() > s.len() {
        assert(!contains_text(s@, p@));
        return false;
    }
    let last = s.len() - p.len();
    let mut i: usize = 0;
    while i < last
        invariant
            p@.len() <= s@.len(),
            last == s@.len() - p@.len(),
            i <= last,
            forall|j: int| 0 <= j < i ==> !occurs_at(s@, p@, j),
        decreases last - i,
    {
        if matches_at(s, p, i) {
            return true;
        }
        i = i + 1;
    }
    if matches_at(s, p, last) {
        return true;
    }
    assert forall|j: int| !occurs_at(s@, p@, j) by {
        if 0 <= j && j + p@.len() <= s@.len() {
            assert(j < i || j == last);
        }
    }
    false
}

/// Whether the character `c` occurs in `s`.
pub fn contains_char(s: &[char], c: char) -> (r: bool)
    ensures
        r == s@.contains(c),
{
    let mut i: usize = 0;
    while i < s.len()
        invariant
            i <= s@.len(),
            forall|j: int| 0 <= j < i ==> s@[j] != c,
        decreases s.len() - i,
    {
        if s[i] == c {
            return true;
        }
        i = i + 1;
    }
    false
}

/// `s` without its leading whitespace.
pub open spec fn trim_start(s: Seq<char>) -> Seq<char>
    decreases s.len(),
{
    if s.len() > 0 && char_is_whitespace(s[0]) {
        trim_start(s.drop_first())
    } else {
        s
    }
}

/// `s` without its trailing whitespace.
pub open spec fn trim_end(s: Seq<char>) -> Seq<char>
    decreases s.len(),
{
    if s.len() > 0 && char_is_whitespace(s.last()) {
        trim_end(s.drop_last())
    } else {
        s
    }
}

/// `s` without leading and trailing whitespace, as `str::trim` gives it.
pub open spec fn trim(s: Seq<char>) -> Seq<char> {
    trim_end(trim_start(s))
}

proof fn lemma_trim_start_skip(s: Seq<char>, i: int)
    requires
        0 <= i <= s.len(),
        forall|j: int| 0 <= j < i ==> char_is_whitespace(s[j]),
        i == s.len() || !char_is_whitespace(s[i]),
    ensures
        trim_start(s) == s.subrange(i, s.len() as int),
    decreases i,
{
    if i == 0 {
        assert(s.subrange(0, s.len() as int) =~= s);
    } else {
        lemma_trim_start_skip(s.drop_first(), i - 1);
        assert(s.drop_first().subrange(i - 1, s.drop_first().len() as int) =~= s.subrange(
            i,
            s.len() as int,
        ));
    }
}

proof fn lemma_trim_end_take(s: Seq<char>, e: int)
    requires
        0 <= e <= s.len(),
        forall|j: int| e <= j < s.len() ==> char_is_whitespace(s[j]),
        e == 0 || !char_is_whitespace(s[e - 1]),
    ensures
        trim_end(s) == s.subrange(0, e),
    decreases s.len() - e,
{
    if e == s.len() {
        assert(s.subrange(0, e) =~= s);
    } else {
        lemma_trim_end_take(s.drop_last(), e);
        assert(s.drop_last().subrange(0, e) =~= s.subrange(0, e));
    }
}

/// The bounds `(lo, hi)` of the text that `str::trim` keeps of `v[from..to]`.
pub fn trim_bounds(v: &[char], from: usize, to: usize) -> (r: (usize, usize))
    requires
        from <= to <= v@.len(),
    ensures
        from <= r.0 <= r.1 <= to,
        v@.subrange(r.0 as int, r.1 as int) == trim(v@.subrange(from as int, to as int)),
{
    let ghost s = v@.subrange(from as int, to as int);
    let mut lo = from;
    while lo < to && is_whitespace(v[lo])
        invariant
            from <= lo <= to <= v@.len(),
            s == v@.subrange(from as int, to as int),
            forall|j: int| from <= j < lo ==> char_is_whitespace(v@[j]),
        decreases to - lo,
    {
        lo = lo + 1;
    }
    proof {
        lemma_trim_start_skip(s, lo - from);
        assert(s.subrange(lo - from, s.len() as int) =~= v@.subrange(lo as int, to as int));
    }
    let mut hi = to;
    while hi > lo && is_whitespace(v[hi - 1])
        invariant
            from <= lo <= hi <= to <= v@.len(),
            forall|j: int| hi <= j < to ==> char_is_whitespace(v@[j]),
        decreases hi - lo,
    {
        hi = hi - 1;
    }
    proof {
        let t = v@.subrange(lo as int, to as int);
        lemma_trim_end_take(t, hi - lo);
        assert(t.subrange(0, hi - lo) =~= v@.subrange(lo as int, hi as int));
    }
    (lo, hi)
}

/// The text of `s` without leading and trailing whitespace.
pub fn trimmed(s: &[char]) -> (r: Vec<char>)
    ensures
        r@ == trim(s@),
{
    let (lo, hi) = trim_bounds(s, 0, s.len());
    assert(s@.subrange(0, s@.len() as int) =~= s@);
    let mut r: Vec<char> = Vec::new();
    let mut i = lo;
    while i < hi
        invariant
            lo <= i <= hi <= s@.len(),
            r@ == s@.subrange(lo as int, i as int),
        decreases hi - i,
    {
        r.push(s[i]);
        i = i + 1;
        assert(r@ =~= s@.subrange(lo as int, i as int));
    }
    r
}

/// The first position at or after `i` where `d` occurs in `s`, or -1.
pub open spec fn first_occurrence(s: Seq<char>, d: Seq<char>, i: int) -> int
    decreases s.len() - i,
{
    if i < 0 || i + d.len() > s.len() {
        -1
    } else if occurs_at(s, d, i) {
        i
    } else if i >= s.len() {
        -1
    } else {
        first_occurrence(s, d, i + 1)
    }
}

/// A found occurrence lies at or after the start of the search and really is one.
pub proof fn lemma_first_occurrence(s: Seq<char>, d: Seq<char>, i: int)
    ensures
        first_occurrence(s, d, i) == -1 || (i <= first_occurrence(s, d, i) && occurs_at(
            s,
            d,
            first_occurrence(s, d, i),
        )),
    decreases s.len() - i,
{
    if !(i < 0 || i + d.len() > s.len()) && !occurs_at(s, d, i) && i < s.len() {
        lemma_first_occurrence(s, d, i + 1);
    }
}

/// The pieces of `s[start..]` between the occurrences of the non-empty
/// separator `d`, found left to right (what `str::split` gives).
pub open spec fn split_from(s: Seq<char>, d: Seq<char>, start: int) -> Seq<Seq<char>>
    decreases s.len() - start,
{
    if d.len() == 0 || start < 0 || start > s.len() {
        Seq::empty()
    } else {
        let p = first_occurrence(s, d, start);
        if p < 0 {
            seq![s.subrange(start, s.len() as int)]
        } else {
            proof {
                lemma_first_occurrence(s, d, start);
            }
            seq![s.subrange(start, p)] + split_from(s, d, p + d.len())
        }
    }
}

/// The pieces of `s` around the separator `d`, as `str::split` gives them:
/// an empty separator matches at every character boundary, so it yields an
/// empty piece, each character, and another empty piece.
pub open spec fn split_text(s: Seq<char>, d: Seq<char>) -> Seq<Seq<char>> {
    if d.len() == 0 {
        seq![Seq::<char>::empty()] + Seq::new(s.len(), |i: int| seq![s[i]]) + seq![
            Seq::<char>::empty(),
        ]
    } else {
        split_from(s, d, 0)
    }
}

/// The texts of a list of character vectors.
pub open spec fn pieces(v: Seq<Vec<char>>) -> Seq<Seq<char>> {
    v.map_values(|c: Vec<char>| c@)
}

/// A copy of `s[lo..hi]`.
pub fn copy_range(s: &[char], lo: usize, hi: usize) -> (r: Vec<char>)
    requires
        lo <= hi <= s@.len(),
    ensures
        r@ == s@.subrange(lo as int, hi as int),
{
    let mut r: Vec<char> = Vec::new();
    let mut i = lo;
    while i < hi
        invariant
            lo <= i <= hi <= s@.len(),
            r@ == s@.subrange(lo as int, i as int),
        decreases hi - i,
    {
        r.push(s[i]);
        i = i + 1;
        assert(r@ =~= s@.subrange(lo as int, i as int));
    }
    r
}

/// Splits `s` around the separator `d` (see `split_text`).
pub fn split_by(s: &[char], d: &[char]) -> (r: Vec<Vec<char>>)
    ensures
        pieces(r@) == split_text(s@, d@),
{
    let n = s.len();
    let mut r: Vec<Vec<char>> = Vec::new();
    if d.len() == 0 {
        r.push(Vec::new());
        let mut i: usize = 0;
        while i < n
            invariant
                n == s@.len(),
                i <= n,
                pieces(r@) == seq![Seq::<char>::empty()] + Seq::new(i as nat, |k: int| seq![s@[k]]),
            decreases n - i,
        {
            let mut one: Vec<char> = Vec::new();
            one.push(s[i]);
            let ghost before = pieces(r@);
            r.push(one);
            assert(pieces(r@) =~= before.push(seq![s@[i as int]]));
            i = i + 1;
            assert(pieces(r@) =~= seq![Seq::<char>::empty()] + Seq::new(i as nat, |k: int| seq![s@[k]]));
        }
        let ghost before = pieces(r@);
        r.push(Vec::new());
        assert(pieces(r@) =~= before.push(Seq::<char>::empty()));
        assert(pieces(r@) =~= split_text(s@, d@));
        return r;
    }
    let dl = d.len();
    let mut start: usize = 0;
    let mut pos: usize = 0;
    while pos < n && dl <= n - pos
        invariant
            n == s@.len(),
            dl == d@.len(),
            dl > 0,
            start <= pos <= n,
            pieces(r@) + split_from(s@, d@, start as int) == split_from(s@, d@, 0),
            first_occurrence(s@, d@, start as int) == first_occurrence(s@, d@, pos as int),
        decreases n - pos,
    {
        if matches_at(s, d, pos) {
            let piece = copy_range(s, start, pos);
            let ghost before = pieces(r@);
            assert(first_occurrence(s@, d@, pos as int) == pos);
            assert(split_from(s@, d@, start as int) == seq![s@.subrange(start as int, pos as int)]
                + split_from(s@, d@, pos + dl));
            r.push(piece);
            assert(pieces(r@) =~= before.push(s@.subrange(start as int, pos as int)));
            assert(pieces(r@) + split_from(s@, d@, pos + dl) =~= before + split_from(
                s@,
                d@,
                start as int,
            ));
            pos = pos + dl;
            start = pos;
        } else {
            pos = pos + 1;
        }
    }
    assert(first_occurrence(s@, d@, pos as int) == -1);
    let piece = copy_range(s, start, n);
    let ghost before = pieces(r@);
    r.push(piece);
    assert(pieces(r@) =~= before + split_from(s@, d@, start as int));
    r
}

/// The line `s[start..end]` of a text, without the carriage return of a
/// `\r\n` ending when it was ended by a line feed.
pub open spec fn line_text(s: Seq<char>, start: int, end: int, terminated: bool) -> Seq<char> {
    if terminated && end > start && s[end - 1] == '\r' {
        s.subrange(start, end - 1)
    } else {
        s.subrange(start, end)
    }
}

/// The lines of `s[start..]`, as `str::lines` gives them: split at each
/// line feed, a `\r\n` ending counting as one, and no empty line after a
/// final line feed.
pub open spec fn lines_from(s: Seq<char>, start: int) -> Seq<Seq<char>>
    decreases s.len() - start,
{
    if start < 0 || start >= s.len() {
        Seq::empty()
    } else {
        let p = first_occurrence(s, seq!['\n'], start);
        if p < 0 {
            seq![line_text(s, start, s.len() as int, false)]
        } else {
            proof {
                lemma_first_occurrence(s, seq!['\n'], start);
            }
            seq![line_text(s, start, p, true)] + lines_from(s, p + 1)
        }
    }
}

/// Splits a text into its lines (see `lines_from`).
pub fn split_lines(s: &[char]) -> (r: Vec<Vec<char>>)
    ensures
        pieces(r@) == lines_from(s@, 0),
{
    let ghost nl = seq!['\n'];
    let n = s.len();
    let mut r: Vec<Vec<char>> = Vec::new();
    let mut start: usize = 0;
    let mut pos: usize = 0;
    while pos < n
        invariant
            n == s@.len(),
            nl == seq!['\n'],
            start <= pos <= n,
            pieces(r@) + lines_from(s@, start as int) == lines_from(s@, 0),
            first_occurrence(s@, nl, start as int) == first_occurrence(s@, nl, pos as int),
        decreases n - pos,
    {
        assert(occurs_at(s@, nl, pos as int) == (s@[pos as int] == '\n')) by {
            if s@[pos as int] == '\n' {
                assert(s@.subrange(pos as int, pos + 1) =~= nl);
            } else {
                assert(s@.subrange(pos as int, pos + 1)[0] != nl[0]);
            }
        }
        if s[pos] == '\n' {
            let end = if pos > start && s[pos - 1] == '\r' {
                pos - 1
            } else {
                pos
            };
            let line = copy_range(s, start, end);
            let ghost before = pieces(r@);
            assert(line@ == line_text(s@, start as int, pos as int, true));
            r.push(line);
            assert(pieces(r@) =~= before.push(line_text(s@, start as int, pos as int, true)));
            assert(pieces(r@) + lines_from(s@, pos + 1) =~= before + lines_from(s@, start as int));
            pos = pos + 1;
            start = pos;
        } else {
            pos = pos + 1;
        }
    }
    if start < n {
        assert(first_occurrence(s@, nl, pos as int) == -1);
        let line = copy_range(s, start, n);
        let ghost before = pieces(r@);
        r.push(line);
        assert(pieces(r@) =~= before + lines_from(s@, start as int));
    } else {
        assert(pieces(r@) =~= pieces(r@) + lines_from(s@, start as int));
    }
    r
}

/// An ASCII decimal digit.
pub open spec fn is_digit(c: char) -> bool {
    '0' <= c && c <= '9'
}

/// The number the decimal digits `d` write.
pub open spec fn digits_value(d: Seq<char>) -> nat
    decreases d.len(),
{
    if d.len() == 0 {
        0
    } else {
        digits_value(d.drop_last()) * 10 + ((d.last() as nat) - ('0' as nat)) as nat
    }
}

/// The digits of a number text: the text without a leading `+`.
pub open spec fn digits_part(t: Seq<char>) -> Seq<char> {
    if t.len() > 0 && t[0] == '+' {
        t.drop_first()
    } else {
        t
    }
}

/// Every character of `d` is an ASCII digit.
pub open spec fn all_digits(d: Seq<char>) -> bool {
    forall|i: int| 0 <= i < d.len() ==> is_digit(#[trigger] d[i])
}

/// A `u32` as `str::parse::<u32>` reads it: an optional `+`, then one or
/// more ASCII digits whose value fits in 32 bits.
pub open spec fn parse_u32_text(t: Seq<char>) -> Option<u32> {
    let d = digits_part(t);
    if d.len() > 0 && all_digits(d) && digits_value(d) <= u32::MAX {
        Some(digits_value(d) as u32)
    } else {
        None
    }
}

proof fn lemma_digits_monotone(d: Seq<char>, i: int)
    requires
        0 <= i <= d.len(),
    ensures
        digits_value(d.take(i)) <= digits_value(d),
    decreases d.len() - i,
{
    if i < d.len() {
        lemma_digits_monotone(d, i + 1);
        assert(d.take(i + 1).drop_last() =~= d.take(i));
    } else {
        assert(d.take(i) =~= d);
    }
}

/// Reads a `u32` (see `parse_u32_text`).
pub fn parse_u32(t: &[char]) -> (r: Option<u32>)
    ensures
        r == parse_u32_text(t@),
{
    let ghost d = digits_part(t@);
    let start: usize = if t.len() > 0 && t[0] == '+' {
        1
    } else {
        0
    };
    assert(d =~= t@.subrange(start as int, t@.len() as int));
    if start >= t.len() {
        return None;
    }
    let mut value: u64 = 0;
    let mut i = start;
    while i < t.len()
        invariant
            start <= i <= t@.len(),
            d == t@.subrange(start as int, t@.len() as int),
            d == digits_part(t@),
            forall|k: int| 0 <= k < i - start ==> is_digit(#[trigger] d[k]),
            value == digits_value(d.take(i - start)),
            value <= u32::MAX,
        decreases t.len() - i,
    {
        let ghost k: int = i - start;
        let c = t[i];
        assert(d[k] == c);
        if !('0' <= c && c <= '9') {
            assert(!is_digit(d[k]));
            return None;
        }
        assert(d.take(k + 1).drop_last() =~= d.take(k));
        assert(d.take(k + 1).last() == c);
        let digit = (c as u32 - '0' as u32) as u64;
        value = value * 10 + digit;
        i = i + 1;
        if value > 0xffff_ffff {
            proof {
                lemma_digits_monotone(d, k + 1);
            }
            return None;
        }
    }
    assert(d.take(d.len() as int) =~= d);
    Some(value as u32)
}

} // verus!
