//! Character-level helpers over `Seq<char>`: Unicode whitespace, trimming,
//! decimal numerals, and conversions between `&str`, `String` and `Vec<char>`.

use vstd::prelude::*;

verus! {

/// Unicode `White_Space`: the characters that `char::is_whitespace` accepts.
pub open spec fn is_ws(c: char) -> bool {
    ||| ('\u{9}' <= c && c <= '\u{d}')
    ||| c == ' '
    ||| c == '\u{85}'
    ||| c == '\u{a0}'
    ||| c == '\u{1680}'
    ||| ('\u{2000}' <= c && c <= '\u{200a}')
    ||| c == '\u{2028}'
    ||| c == '\u{2029}'
    ||| c == '\u{202f}'
    ||| c == '\u{205f}'
    ||| c == '\u{3000}'
}

/// Whether `c` is Unicode whitespace.
pub fn is_whitespace(c: char) -> (r: bool)
    ensures
        r == is_ws(c),
{
    ('\u{9}' <= c && c <= '\u{d}') || c == ' ' || c == '\u{85}' || c == '\u{a0}' || c
        == '\u{1680}' || ('\u{2000}' <= c && c <= '\u{200a}') || c == '\u{2028}' || c
        == '\u{2029}' || c == '\u{202f}' || c == '\u{205f}' || c == '\u{3000}'
}

/// Every character of `s` is whitespace (so `s.trim()` is empty).
pub open spec fn all_ws(s: Seq<char>) -> bool {
    forall|i: int| 0 <= i < s.len() ==> is_ws(#[trigger] s[i])
}

/// Index of the first whitespace character of `s` at or after `i`, or `s.len()`.
pub open spec fn first_ws_from(s: Seq<char>, i: int) -> int
    decreases s.len() - i,
{
    if i < 0 || i >= s.len() {
        s.len() as int
    } else if is_ws(s[i]) {
        i
    } else {
        first_ws_from(s, i + 1)
    }
}

/// Index of the first non-whitespace character of `s` at or after `i`, or `s.len()`.
pub open spec fn first_non_ws_from(s: Seq<char>, i: int) -> int
    decreases s.len() - i,
{
    if i < 0 || i >= s.len() {
        s.len() as int
    } else if is_ws(s[i]) {
        first_non_ws_from(s, i + 1)
    } else {
        i
    }
}

/// `s` with its leading whitespace removed (`str::trim_start`).
pub open spec fn trim_start(s: Seq<char>) -> Seq<char> {
    s.subrange(first_non_ws_from(s, 0), s.len() as int)
}

/// `s` with its trailing whitespace removed (`str::trim_end`).
pub open spec fn trim_end(s: Seq<char>) -> Seq<char>
    decreases s.len(),
{
    if s.len() > 0 && is_ws(s.last()) {
        trim_end(s.drop_last())
    } else {
        s
    }
}

/// `s` with whitespace removed at both ends (`str::trim`).
pub open spec fn trim(s: Seq<char>) -> Seq<char> {
    trim_start(trim_end(s))
}

/// The decimal numeral of `n`, without sign or leading zeros.
pub open spec fn decimal(n: nat) -> Seq<char>
    decreases n,
{
    if n < 10 {
        seq![digit_char(n)]
    } else {
        decimal(n / 10).push(digit_char(n % 10))
    }
}

/// The ASCII digit for `d < 10`.
pub open spec fn digit_char(d: nat) -> char {
    if d == 0 {
        '0'
    } else if d == 1 {
        '1'
    } else if d == 2 {
        '2'
    } else if d == 3 {
        '3'
    } else if d == 4 {
        '4'
    } else if d == 5 {
        '5'
    } else if d == 6 {
        '6'
    } else if d == 7 {
        '7'
    } else if d == 8 {
        '8'
    } else {
        '9'
    }
}

/// The characters of a string slice, in order.
pub fn chars_of(s: &str) -> (r: Vec<char>)
    ensures
        r@ == s@,
{
    let mut r: Vec<char> = Vec::new();
    for c in it: s.chars()
        invariant
            r@ == it.seq().take(it.index()),
    {
        r.push(c);
        assert(r@ =~= it.seq().take(it.index() + 1));
    }
    r
}

/// Appends one character to a `String` (`String::push`).
#[verifier::external_body]
pub(crate) fn push_char(s: &mut String, c: char)
    ensures
        final(s)@ == old(s)@.push(c),
{
    s.push(c);
}

/// Appends the characters `v[lo..hi]` to `out`.
pub fn push_chars(out: &mut String, v: &Vec<char>, lo: usize, hi: usize)
    requires
        lo <= hi <= v.len(),
    ensures
        final(out)@ == old(out)@ + v@.subrange(lo as int, hi as int),
{
    let mut i = lo;
    while i < hi
        invariant
            lo <= i <= hi <= v.len(),
            out@ == old(out)@ + v@.subrange(lo as int, i as int),
        decreases hi - i,
    {
        push_char(out, v[i]);
        i = i + 1;
        assert(out@ =~= old(out)@ + v@.subrange(lo as int, i as int));
    }
}

/// A `String` holding the characters `v[lo..hi]`.
pub fn string_of(v: &Vec<char>, lo: usize, hi: usize) -> (r: String)
    requires
        lo <= hi <= v.len(),
    ensures
        r@ == v@.subrange(lo as int, hi as int),
{
    let mut r = String::new();
    push_chars(&mut r, v, lo, hi);
    assert(r@ =~= v@.subrange(lo as int, hi as int));
    r
}

/// A `Vec<char>` holding the characters `v[lo..hi]`.
pub fn copy_range(v: &Vec<char>, lo: usize, hi: usize) -> (r: Vec<char>)
    requires
        lo <= hi <= v.len(),
    ensures
        r@ == v@.subrange(lo as int, hi as int),
{
    let mut r: Vec<char> = Vec::new();
    let mut i = lo;
    while i < hi
        invariant
            lo <= i <= hi <= v.len(),
            r@ == v@.subrange(lo as int, i as int),
        decreases hi - i,
    {
        r.push(v[i]);
        i = i + 1;
        assert(r@ =~= v@.subrange(lo as int, i as int));
    }
    r
}

/// Appends a string slice to `out`.
pub fn push_str(out: &mut String, s: &str)
    ensures
        final(out)@ == old(out)@ + s@,
{
    let v = chars_of(s);
    push_chars(out, &v, 0, v.len());
    assert(v@.subrange(0, v@.len() as int) =~= v@);
}

/// Whether `v[lo..hi]` spells exactly `s`.
pub fn range_is(v: &Vec<char>, lo: usize, hi: usize, s: &str) -> (r: bool)
    requires
        lo <= hi <= v.len(),
    ensures
        r == (v@.subrange(lo as int, hi as int) == s@),
{
    let w = chars_of(s);
    if hi - lo != w.len() {
        return false;
    }
    let mut i: usize = 0;
    while i < w.len()
        invariant
            lo <= hi <= v.len(),
            hi - lo == w.len(),
            w@ == s@,
            0 <= i <= w.len(),
            forall|k: int| 0 <= k < i ==> v@[lo + k] == w@[k],
        decreases w.len() - i,
    {
        if v[lo + i] != w[i] {
            assert(v@.subrange(lo as int, hi as int)[i as int] != s@[i as int]);
            return false;
        }
        i = i + 1;
    }
    assert(v@.subrange(lo as int, hi as int) =~= s@);
    true
}

/// Whether `v` spells exactly `s`.
pub fn chars_are(v: &Vec<char>, s: &str) -> (r: bool)
    ensures
        r == (v@ == s@),
{
    assert(v@.subrange(0, v@.len() as int) =~= v@);
    range_is(v, 0, v.len(), s)
}

/// The decimal numeral of `n`.
pub fn decimal_string(n: usize) -> (r: String)
    ensures
        r@ == decimal(n as nat),
    decreases n,
{
    if n < 10 {
        let mut r = String::new();
        push_char(&mut r, digit(n));
        assert(r@ =~= decimal(n as nat));
        r
    } else {
        let mut r = decimal_string(n / 10);
        push_char(&mut r, digit(n % 10));
        r
    }
}

/// The ASCII digit for `d < 10`.
fn digit(d: usize) -> (c: char)
    requires
        d < 10,
    ensures
        c == digit_char(d as nat),
{
    if d == 0 {
        '0'
    } else if d == 1 {
        '1'
    } else if d == 2 {
        '2'
    } else if d == 3 {
        '3'
    } else if d == 4 {
        '4'
    } else if d == 5 {
        '5'
    } else if d == 6 {
        '6'
    } else if d == 7 {
        '7'
    } else if d == 8 {
        '8'
    } else {
        '9'
    }
}

/// Index of the first whitespace character of `v` at or after `i`.
pub fn find_ws(v: &Vec<char>, i: usize) -> (r: usize)
    requires
        i <= v.len(),
    ensures
        r == first_ws_from(v@, i as int),
        i <= r <= v.len(),
{
    let mut j = i;
    while j < v.len() && !is_whitespace(v[j])
        invariant
            i <= j <= v.len(),
            first_ws_from(v@, i as int) == first_ws_from(v@, j as int),
        decreases v.len() - j,
    {
        j = j + 1;
    }
    j
}

/// Index of the first non-whitespace character of `v` at or after `i`.
pub fn skip_ws(v: &Vec<char>, i: usize) -> (r: usize)
    requires
        i <= v.len(),
    ensures
        r == first_non_ws_from(v@, i as int),
        i <= r <= v.len(),
{
    let mut j = i;
    while j < v.len() && is_whitespace(v[j])
        invariant
            i <= j <= v.len(),
            first_non_ws_from(v@, i as int) == first_non_ws_from(v@, j as int),
        decreases v.len() - j,
    {
        j = j + 1;
    }
    j
}

/// End of `v[lo..hi]` once trailing whitespace is removed.
pub fn trim_end_index(v: &Vec<char>, lo: usize, hi: usize) -> (r: usize)
    requires
        lo <= hi <= v.len(),
    ensures
        lo <= r <= hi,
        v@.subrange(lo as int, r as int) == trim_end(v@.subrange(lo as int, hi as int)),
{
    let mut j = hi;
    while j > lo && is_whitespace(v[j - 1])
        invariant
            lo <= j <= hi <= v.len(),
            trim_end(v@.subrange(lo as int, hi as int)) == trim_end(
                v@.subrange(lo as int, j as int),
            ),
        decreases j,
    {
        assert(v@.subrange(lo as int, j as int).drop_last() =~= v@.subrange(
            lo as int,
            j - 1,
        ));
        j = j - 1;
    }
    j
}

/// Trimming `s[lo..hi]` at both ends: with `start` the first non-whitespace
/// index from `lo` and `end` the end once trailing whitespace is gone, the
/// result is `s[start..end]`, or empty when `end <= start`.
pub proof fn lemma_trim_via_indices(s: Seq<char>, lo: int, hi: int, start: int, end: int)
    requires
        0 <= lo <= hi <= s.len(),
        start == first_non_ws_from(s, lo),
        lo <= end <= hi,
        s.subrange(lo, end) == trim_end(s.subrange(lo, hi)),
    ensures
        start < end ==> trim(s.subrange(lo, hi)) == s.subrange(start, end),
        start >= end ==> trim(s.subrange(lo, hi)).len() == 0,
{
    let t = s.subrange(lo, end);
    lemma_first_non_ws_shift(s, lo, end, lo);
    lemma_first_non_ws_ge(s, lo);
    if start < end {
        assert(first_non_ws_from(t, 0) == start - lo);
        assert(t.subrange(start - lo, t.len() as int) =~= s.subrange(start, end));
    } else {
        assert(first_non_ws_from(t, 0) == t.len());
    }
}

/// Scanning for non-whitespace inside `s[lo..end]` agrees with scanning `s`,
/// up to `end`.
proof fn lemma_first_non_ws_shift(s: Seq<char>, lo: int, end: int, i: int)
    requires
        0 <= lo <= i <= end <= s.len(),
    ensures
        first_non_ws_from(s.subrange(lo, end), i - lo) == if first_non_ws_from(s, i) < end {
            first_non_ws_from(s, i) - lo
        } else {
            end - lo
        },
    decreases end - i,
{
    if i < end {
        if is_ws(s[i]) {
            lemma_first_non_ws_shift(s, lo, end, i + 1);
        }
    } else {
        lemma_first_non_ws_ge(s, i);
    }
}

/// The first non-whitespace index at or after `i` is not before `i`.
proof fn lemma_first_non_ws_ge(s: Seq<char>, i: int)
    requires
        0 <= i <= s.len(),
    ensures
        i <= first_non_ws_from(s, i) <= s.len(),
    decreases s.len() - i,
{
    if i < s.len() && is_ws(s[i]) {
        lemma_first_non_ws_ge(s, i + 1);
    }
}

} // verus!
