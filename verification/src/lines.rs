//! Splitting a source text into lines: the BOM is dropped, each line gets its
//! number, its indentation width and its text without indentation or trailing
//! whitespace; TAB indentation and indentation that is not a multiple of two
//! spaces are rejected.

use vstd::prelude::*;

use crate::error::{ErrV, ParseError};
use crate::message::{msg_odd_indent, msg_tab, odd_indent_message, owned};
use crate::text::{all_ws, is_whitespace, trim_end, trim_end_index};

verus! {

/// A preprocessed line.
pub struct Line {
    /// Line number, from 1.
    pub number: usize,
    /// Indentation width in spaces; 0 for a blank line.
    pub indent: usize,
    /// The text after the indentation, without trailing whitespace; empty for a
    /// blank line.
    pub content: Vec<char>,
}

/// Model of a preprocessed line.
pub struct LineV {
    pub number: int,
    pub indent: int,
    pub content: Seq<char>,
}

impl View for Line {
    type V = LineV;

    open spec fn view(&self) -> LineV {
        LineV { number: self.number as int, indent: self.indent as int, content: self.content@ }
    }
}

/// The models of a sequence of lines.
pub open spec fn lines_view(ls: Seq<Line>) -> Seq<LineV> {
    ls.map_values(|l: Line| l@)
}

/// `s` without a leading byte-order mark.
pub open spec fn strip_bom(s: Seq<char>) -> Seq<char> {
    if s.len() > 0 && s[0] == '\u{feff}' {
        s.drop_first()
    } else {
        s
    }
}

/// `l` without one trailing carriage return.
pub open spec fn strip_cr(l: Seq<char>) -> Seq<char> {
    if l.len() > 0 && l.last() == '\r' {
        l.drop_last()
    } else {
        l
    }
}

/// The lines of `s` as `str::lines` gives them: split at `\n`, a `\r` right
/// before a `\n` dropped, and no empty line after a final `\n`. `cur` holds the
/// text of the line under way, `acc` the lines before it.
pub open spec fn lines_from(s: Seq<char>, i: int, cur: Seq<char>, acc: Seq<Seq<char>>) -> Seq<
    Seq<char>,
>
    decreases s.len() - i,
{
    if i < 0 || i >= s.len() {
        if cur.len() > 0 {
            acc.push(cur)
        } else {
            acc
        }
    } else if s[i] == '\n' {
        lines_from(s, i + 1, seq![], acc.push(strip_cr(cur)))
    } else {
        lines_from(s, i + 1, cur.push(s[i]), acc)
    }
}

/// The raw lines of `s`.
pub open spec fn raw_lines(s: Seq<char>) -> Seq<Seq<char>> {
    lines_from(s, 0, seq![], seq![])
}

/// Index of the first character of `r` at or after `i` that is not a space.
pub open spec fn spaces_end(r: Seq<char>, i: int) -> int
    decreases r.len() - i,
{
    if i < 0 || i >= r.len() {
        r.len() as int
    } else if r[i] == ' ' {
        spaces_end(r, i + 1)
    } else {
        i
    }
}

/// The preprocessed form of raw line `r`, numbered `number`.
pub open spec fn line_model(r: Seq<char>, number: int) -> Result<LineV, ErrV> {
    if all_ws(r) {
        Ok(LineV { number, indent: 0, content: seq![] })
    } else {
        let n = spaces_end(r, 0);
        if n < r.len() && r[n] == '\t' {
            Err(ErrV { line: number as nat, message: msg_tab() })
        } else if n % 2 != 0 {
            Err(ErrV { line: number as nat, message: msg_odd_indent(n as nat) })
        } else {
            Ok(LineV { number, indent: n, content: trim_end(r.subrange(n, r.len() as int)) })
        }
    }
}

/// The preprocessed forms of `raw[k..]` appended to `acc`, or the first failure.
pub open spec fn lines_model_from(raw: Seq<Seq<char>>, k: int, acc: Seq<LineV>) -> Result<
    Seq<LineV>,
    ErrV,
>
    decreases raw.len() - k,
{
    if k < 0 || k >= raw.len() {
        Ok(acc)
    } else {
        match line_model(raw[k], k + 1) {
            Err(e) => Err(e),
            Ok(l) => lines_model_from(raw, k + 1, acc.push(l)),
        }
    }
}

/// The preprocessed lines of source text `s`, or the first failing line.
pub open spec fn preprocess_model(s: Seq<char>) -> Result<Seq<LineV>, ErrV> {
    lines_model_from(raw_lines(strip_bom(s)), 0, seq![])
}

/// Splits `s` (from index `start`) into raw lines as `str::lines` does.
fn split_lines(s: &Vec<char>, start: usize) -> (r: Vec<Vec<char>>)
    requires
        start <= s.len(),
    ensures
        r@.map_values(|l: Vec<char>| l@) == lines_from(
            s@.subrange(start as int, s.len() as int),
            0,
            seq![],
            seq![],
        ),
{
    let ghost t = s@.subrange(start as int, s.len() as int);
    let mut acc: Vec<Vec<char>> = Vec::new();
    let mut cur: Vec<char> = Vec::new();
    let mut i = start;
    assert(acc@.map_values(|l: Vec<char>| l@) =~= Seq::<Seq<char>>::empty());
    assert(cur@ =~= Seq::<char>::empty());
    assert(t.subrange(0, t.len() as int) =~= t);
    while i < s.len()
        invariant
            start <= i <= s.len(),
            t == s@.subrange(start as int, s.len() as int),
            lines_from(t, 0, seq![], seq![]) == lines_from(
                t,
                i - start,
                cur@,
                acc@.map_values(|l: Vec<char>| l@),
            ),
        decreases s.len() - i,
    {
        if s[i] == '\n' {
            let mut line = cur;
            if line.len() > 0 && line[line.len() - 1] == '\r' {
                line.pop();
                assert(line@ =~= strip_cr(cur@));
            }
            let ghost old_acc = acc@;
            acc.push(line);
            assert(acc@.map_values(|l: Vec<char>| l@) =~= old_acc.map_values(
                |l: Vec<char>| l@,
            ).push(strip_cr(cur@)));
            cur = Vec::new();
            assert(cur@ =~= Seq::<char>::empty());
        } else {
            cur.push(s[i]);
        }
        i = i + 1;
    }
    if cur.len() > 0 {
        let ghost old_acc = acc@;
        let ghost c = cur@;
        acc.push(cur);
        assert(acc@.map_values(|l: Vec<char>| l@) =~= old_acc.map_values(|l: Vec<char>| l@).push(
            c,
        ));
    }
    acc
}

/// Whether every character of `r` is whitespace.
fn is_blank(r: &Vec<char>) -> (b: bool)
    ensures
        b == all_ws(r@),
{
    let mut i: usize = 0;
    while i < r.len()
        invariant
            0 <= i <= r.len(),
            forall|k: int| 0 <= k < i ==> crate::text::is_ws(#[trigger] r@[k]),
        decreases r.len() - i,
    {
        if !is_whitespace(r[i]) {
            return false;
        }
        i = i + 1;
    }
    true
}

/// The preprocessed form of raw line `r`, numbered `number`.
fn line_of(r: &Vec<char>, number: usize) -> (res: Result<Line, ParseError>)
    ensures
        match res {
            Ok(l) => line_model(r@, number as int) == Ok::<LineV, ErrV>(l@),
            Err(e) => line_model(r@, number as int) == Err::<LineV, ErrV>(e@),
        },
{
    if is_blank(r) {
        let l = Line { number, indent: 0, content: Vec::new() };
        assert(l@.content =~= Seq::<char>::empty());
        return Ok(l);
    }
    let mut n: usize = 0;
    while n < r.len() && r[n] == ' '
        invariant
            0 <= n <= r.len(),
            spaces_end(r@, 0) == spaces_end(r@, n as int),
        decreases r.len() - n,
    {
        n = n + 1;
    }
    if n < r.len() && r[n] == '\t' {
        return Err(ParseError::new(number, owned("缩进只能用空格，不能用 TAB")));
    }
    if n % 2 != 0 {
        return Err(ParseError::new(number, odd_indent_message(n)));
    }
    let end = trim_end_index(r, n, r.len());
    let content = crate::text::copy_range(r, n, end);
    Ok(Line { number, indent: n, content })
}

/// Preprocesses source text `source` into lines.
pub fn preprocess(source: &Vec<char>) -> (res: Result<Vec<Line>, ParseError>)
    ensures
        match res {
            Ok(ls) => preprocess_model(source@) == Ok::<Seq<LineV>, ErrV>(lines_view(ls@)),
            Err(e) => preprocess_model(source@) == Err::<Seq<LineV>, ErrV>(e@),
        },
{
    let start: usize = if source.len() > 0 && source[0] == '\u{feff}' {
        1
    } else {
        0
    };
    assert(strip_bom(source@) =~= source@.subrange(start as int, source@.len() as int));
    let raw = split_lines(source, start);
    let ghost rv = raw@.map_values(|l: Vec<char>| l@);
    let mut out: Vec<Line> = Vec::new();
    let mut k: usize = 0;
    assert(lines_view(out@) =~= Seq::<LineV>::empty());
    while k < raw.len()
        invariant
            0 <= k <= raw.len(),
            rv == raw@.map_values(|l: Vec<char>| l@),
            rv == raw_lines(strip_bom(source@)),
            preprocess_model(source@) == lines_model_from(rv, k as int, lines_view(out@)),
        decreases raw.len() - k,
    {
        assert(rv[k as int] == raw@[k as int]@);
        match line_of(&raw[k], k + 1) {
            Err(e) => {
                return Err(e);
            },
            Ok(l) => {
                let ghost old_out = out@;
                out.push(l);
                assert(lines_view(out@) =~= lines_view(old_out).push(l@));
            },
        }
        k = k + 1;
    }
    Ok(out)
}

/// `s` with every `\n` written as `\r\n`, as a Windows editor saves it.
pub open spec fn with_crlf(s: Seq<char>) -> Seq<char>
    decreases s.len(),
{
    if s.len() == 0 {
        seq![]
    } else if s[0] == '\n' {
        seq!['\r', '\n'] + with_crlf(s.drop_first())
    } else {
        seq![s[0]] + with_crlf(s.drop_first())
    }
}

/// The lines of `u` after the line `cur` under way and the lines `acc`,
/// reading `u` from its first character on.
spec fn lines_rest(u: Seq<char>, cur: Seq<char>, acc: Seq<Seq<char>>) -> Seq<Seq<char>>
    decreases u.len(),
{
    if u.len() == 0 {
        if cur.len() > 0 {
            acc.push(cur)
        } else {
            acc
        }
    } else if u[0] == '\n' {
        lines_rest(u.drop_first(), seq![], acc.push(strip_cr(cur)))
    } else {
        lines_rest(u.drop_first(), cur.push(u[0]), acc)
    }
}

proof fn lemma_lines_rest(s: Seq<char>, i: int, cur: Seq<char>, acc: Seq<Seq<char>>)
    requires
        0 <= i <= s.len(),
    ensures
        lines_from(s, i, cur, acc) == lines_rest(s.subrange(i, s.len() as int), cur, acc),
    decreases s.len() - i,
{
    let u = s.subrange(i, s.len() as int);
    if i < s.len() {
        assert(u.drop_first() =~= s.subrange(i + 1, s.len() as int));
        if s[i] == '\n' {
            lemma_lines_rest(s, i + 1, seq![], acc.push(strip_cr(cur)));
        } else {
            lemma_lines_rest(s, i + 1, cur.push(s[i]), acc);
        }
    }
}

/// Whether line `a` of a Windows text stands for line `b`: the same, or with
/// one more `\r` at its end.
pub open spec fn same_line(a: Seq<char>, b: Seq<char>) -> bool {
    a == b || a == b.push('\r')
}

/// Whether two lists of lines stand line for line for each other.
pub open spec fn same_lines(a: Seq<Seq<char>>, b: Seq<Seq<char>>) -> bool {
    a.len() == b.len() && forall|k: int| 0 <= k < a.len() ==> same_line(#[trigger] a[k], b[k])
}

proof fn lemma_crlf_lines(u: Seq<char>, cur: Seq<char>, a: Seq<Seq<char>>, b: Seq<Seq<char>>)
    requires
        same_lines(a, b),
    ensures
        same_lines(lines_rest(with_crlf(u), cur, a), lines_rest(u, cur, b)),
    decreases u.len(),
{
    if u.len() > 0 {
        let w = with_crlf(u.drop_first());
        if u[0] == '\n' {
            let x = seq!['\r', '\n'] + w;
            assert(with_crlf(u) == x);
            assert(x.drop_first() =~= seq!['\n'] + w);
            assert((seq!['\n'] + w).drop_first() =~= w);
            assert(strip_cr(cur.push('\r')) =~= cur);
            assert(lines_rest(x, cur, a) == lines_rest(seq!['\n'] + w, cur.push('\r'), a));
            assert(lines_rest(seq!['\n'] + w, cur.push('\r'), a) == lines_rest(w, seq![], a.push(cur)));
            let a2 = a.push(cur);
            let b2 = b.push(strip_cr(cur));
            assert(same_line(cur, strip_cr(cur))) by {
                if cur.len() > 0 && cur.last() == '\r' {
                    assert(cur =~= cur.drop_last().push('\r'));
                }
            }
            assert(same_lines(a2, b2)) by {
                assert forall|k: int| 0 <= k < a2.len() implies same_line(#[trigger] a2[k], b2[k]) by {
                    if k < a.len() {
                        assert(a2[k] == a[k] && b2[k] == b[k]);
                    }
                }
            }
            lemma_crlf_lines(u.drop_first(), seq![], a2, b2);
        } else {
            let x = seq![u[0]] + w;
            assert(with_crlf(u) == x);
            assert(x.drop_first() =~= w);
            assert(lines_rest(x, cur, a) == lines_rest(w, cur.push(u[0]), a));
            lemma_crlf_lines(u.drop_first(), cur.push(u[0]), a, b);
        }
    } else {
        if cur.len() > 0 {
            let a2 = a.push(cur);
            let b2 = b.push(cur);
            assert forall|k: int| 0 <= k < a2.len() implies same_line(#[trigger] a2[k], b2[k]) by {
                if k < a.len() {
                    assert(a2[k] == a[k] && b2[k] == b[k]);
                }
            }
        }
    }
}

proof fn lemma_spaces_end_push(r: Seq<char>, c: char, j: int)
    requires
        0 <= j <= r.len(),
        spaces_end(r, j) < r.len(),
    ensures
        spaces_end(r.push(c), j) == spaces_end(r, j),
    decreases r.len() - j,
{
    if j < r.len() && r[j] == ' ' {
        lemma_spaces_end_push(r, c, j + 1);
    }
}

proof fn lemma_spaces_end_bound(r: Seq<char>, j: int)
    requires
        0 <= j <= r.len(),
    ensures
        j <= spaces_end(r, j) <= r.len(),
    decreases r.len() - j,
{
    if j < r.len() {
        lemma_spaces_end_bound(r, j + 1);
    }
}

proof fn lemma_spaces_end_all(r: Seq<char>, j: int)
    requires
        0 <= j <= r.len(),
        spaces_end(r, j) == r.len(),
    ensures
        forall|k: int| j <= k < r.len() ==> r[k] == ' ',
    decreases r.len() - j,
{
    if j < r.len() {
        lemma_spaces_end_all(r, j + 1);
    }
}

proof fn lemma_line_model_cr(r: Seq<char>, number: int)
    ensures
        line_model(r.push('\r'), number) == line_model(r, number),
{
    let r2 = r.push('\r');
    assert(all_ws(r2) == all_ws(r)) by {
        if all_ws(r) {
            assert forall|i: int| 0 <= i < r2.len() implies crate::text::is_ws(#[trigger] r2[i]) by {
                if i < r.len() {
                    assert(r2[i] == r[i]);
                }
            }
        }
        if all_ws(r2) {
            assert forall|i: int| 0 <= i < r.len() implies crate::text::is_ws(#[trigger] r[i]) by {
                assert(r2[i] == r[i]);
            }
        }
    }
    if !all_ws(r) {
        if spaces_end(r, 0) == r.len() {
            lemma_spaces_end_all(r, 0);
            assert forall|i: int| 0 <= i < r.len() implies crate::text::is_ws(#[trigger] r[i]) by {
                assert(r[i] == ' ');
            }
            assert(false);
        }
        lemma_spaces_end_bound(r, 0);
        lemma_spaces_end_push(r, '\r', 0);
        let n = spaces_end(r, 0);
        assert(r2[n] == r[n]);
        let x = r.subrange(n, r.len() as int);
        assert(r2.subrange(n, r2.len() as int) =~= x.push('\r'));
        assert(x.push('\r').drop_last() =~= x);
    }
}

proof fn lemma_same_lines_model(a: Seq<Seq<char>>, b: Seq<Seq<char>>, k: int, acc: Seq<LineV>)
    requires
        same_lines(a, b),
        0 <= k <= a.len(),
    ensures
        lines_model_from(a, k, acc) == lines_model_from(b, k, acc),
    decreases a.len() - k,
{
    if k < a.len() {
        assert(same_line(a[k], b[k]));
        if a[k] != b[k] {
            lemma_line_model_cr(b[k], k + 1);
        }
        match line_model(a[k], k + 1) {
            Err(e) => {},
            Ok(l) => {
                lemma_same_lines_model(a, b, k + 1, acc.push(l));
            },
        }
    }
}

/// Windows line endings change nothing: a source saved with `\r\n` for every
/// line break gives the same lines, or the same error, as with `\n`.
pub proof fn law_windows_line_endings_preprocess_alike(source: Seq<char>)
    ensures
        preprocess_model(with_crlf(source)) == preprocess_model(source),
{
    let t = strip_bom(source);
    assert(strip_bom(with_crlf(source)) == with_crlf(t)) by {
        if source.len() > 0 && source[0] == '\u{feff}' {
            assert((seq![source[0]] + with_crlf(source.drop_first())).drop_first() =~= with_crlf(
                source.drop_first(),
            ));
        } else if source.len() > 0 {
            if source[0] == '\n' {
                assert(with_crlf(source)[0] == '\r');
            } else {
                assert(with_crlf(source)[0] == source[0]);
            }
        }
    }
    let w = with_crlf(t);
    lemma_lines_rest(w, 0, seq![], seq![]);
    lemma_lines_rest(t, 0, seq![], seq![]);
    assert(w.subrange(0, w.len() as int) =~= w);
    assert(t.subrange(0, t.len() as int) =~= t);
    lemma_crlf_lines(t, seq![], seq![], seq![]);
    lemma_same_lines_model(raw_lines(w), raw_lines(t), 0, seq![]);
}

} // verus!
