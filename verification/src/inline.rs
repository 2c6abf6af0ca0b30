//! Rich content: a content block's lines become paragraphs (split at blank
//! lines, lines of one paragraph joined by `\n`), and each line becomes inline
//! nodes: text, `@math{…}`, `@image{…}` and the bare token `@blank`. Inline
//! elements never span lines; braces inside them nest, and a backslash escapes
//! the character after it.

use vstd::prelude::*;

use crate::ast::{Content, Inline, InlineV, Paragraph};
use crate::error::{ErrV, ParseError};
use crate::message::{
    around_chars, msg_blank_value, msg_image_empty, msg_math_empty, msg_needs_brace, msg_unclosed,
    msg_unknown_inline, owned,
};
use crate::text::{push_str, range_is, string_of};

verus! {

/// An ASCII letter.
pub open spec fn is_ascii_alpha(c: char) -> bool {
    ('a' <= c && c <= 'z') || ('A' <= c && c <= 'Z')
}

/// Index of the first character of `s` at or after `i` that is not an ASCII
/// letter, or `s.len()`.
pub open spec fn name_end(s: Seq<char>, i: int) -> int
    decreases s.len() - i,
{
    if i < 0 || i >= s.len() {
        s.len() as int
    } else if is_ascii_alpha(s[i]) {
        name_end(s, i + 1)
    } else {
        i
    }
}

/// The index of the `}` that closes a brace group whose body starts at `j`,
/// `depth` groups deep; `None` when the line ends first. A backslash escapes
/// the character after it.
pub open spec fn close_from(s: Seq<char>, j: int, depth: nat) -> Option<int>
    decreases s.len() - j,
{
    if j < 0 || j >= s.len() {
        None
    } else if s[j] == '\\' {
        if j + 1 < s.len() {
            close_from(s, j + 2, depth)
        } else {
            None
        }
    } else if s[j] == '{' {
        close_from(s, j + 1, depth + 1)
    } else if s[j] == '}' {
        if depth == 0 {
            Some(j)
        } else {
            close_from(s, j + 1, (depth - 1) as nat)
        }
    } else {
        close_from(s, j + 1, depth)
    }
}

pub proof fn lemma_name_end_bounds(s: Seq<char>, i: int)
    requires
        0 <= i <= s.len(),
    ensures
        i <= name_end(s, i) <= s.len(),
    decreases s.len() - i,
{
    if i < s.len() && is_ascii_alpha(s[i]) {
        lemma_name_end_bounds(s, i + 1);
    }
}

pub proof fn lemma_close_bounds(s: Seq<char>, j: int, depth: nat)
    requires
        0 <= j,
    ensures
        close_from(s, j, depth) matches Some(c) ==> j <= c < s.len(),
    decreases s.len() - j,
{
    if j < s.len() {
        if s[j] == '\\' {
            if j + 1 < s.len() {
                lemma_close_bounds(s, j + 2, depth);
            }
        } else if s[j] == '{' {
            lemma_close_bounds(s, j + 1, depth + 1);
        } else if s[j] == '}' {
            if depth != 0 {
                lemma_close_bounds(s, j + 1, (depth - 1) as nat);
            }
        } else {
            lemma_close_bounds(s, j + 1, depth);
        }
    }
}

/// `acc`, then a text node for `text` unless `text` is empty.
pub open spec fn flush(acc: Seq<InlineV>, text: Seq<char>) -> Seq<InlineV> {
    if text.len() == 0 {
        acc
    } else {
        acc.push(InlineV::Text(text))
    }
}

/// The inline nodes of line `s` from index `i`, where `text` is the pending
/// plain text and `acc` the nodes before it; or the message of the first error.
pub open spec fn scan_from(s: Seq<char>, i: int, text: Seq<char>, acc: Seq<InlineV>) -> Result<
    Seq<InlineV>,
    Seq<char>,
>
    decreases s.len() - i,
{
    if i < 0 || i >= s.len() {
        Ok(flush(acc, text))
    } else if s[i] == '@' && i + 1 < s.len() && is_ascii_alpha(s[i + 1]) {
        let e = name_end(s, i + 1);
        let name = s.subrange(i + 1, e);
        proof {
            lemma_name_end_bounds(s, i + 1);
        }
        if name == "math"@ || name == "image"@ {
            if e >= s.len() || s[e] != '{' {
                Err(msg_needs_brace(name))
            } else {
                proof {
                    lemma_close_bounds(s, e + 1, 0);
                }
                match close_from(s, e + 1, 0) {
                    None => Err(msg_unclosed(name)),
                    Some(c) => {
                        if c == e + 1 {
                            if name == "math"@ {
                                Err(msg_math_empty())
                            } else {
                                Err(msg_image_empty())
                            }
                        } else {
                            let body = s.subrange(e + 1, c);
                            let node = if name == "math"@ {
                                InlineV::Math(body)
                            } else {
                                InlineV::Image(body)
                            };
                            scan_from(s, c + 1, seq![], flush(acc, text).push(node))
                        }
                    },
                }
            }
        } else if name == "blank"@ {
            if e < s.len() && s[e] == '{' {
                Err(msg_blank_value())
            } else {
                scan_from(s, e, seq![], flush(acc, text).push(InlineV::Blank))
            }
        } else {
            Err(msg_unknown_inline(name))
        }
    } else {
        scan_from(s, i + 1, text.push(s[i]), acc)
    }
}

/// The inline nodes of one line of content, or the message of its first error.
pub open spec fn scan_model(s: Seq<char>) -> Result<Seq<InlineV>, Seq<char>> {
    scan_from(s, 0, seq![], seq![])
}

/// `acc` with node `x` appended; text next to text merges into one node.
pub open spec fn merge(acc: Seq<InlineV>, x: InlineV) -> Seq<InlineV> {
    match x {
        InlineV::Text(t) => if acc.len() > 0 {
            match acc.last() {
                InlineV::Text(u) => acc.drop_last().push(InlineV::Text(u + t)),
                _ => acc.push(x),
            }
        } else {
            acc.push(x)
        },
        _ => acc.push(x),
    }
}

/// `acc` with the nodes `xs` merged in, in order.
pub open spec fn merge_all(acc: Seq<InlineV>, xs: Seq<InlineV>) -> Seq<InlineV>
    decreases xs.len(),
{
    if xs.len() == 0 {
        acc
    } else {
        merge(merge_all(acc, xs.drop_last()), xs.last())
    }
}

/// A paragraph under way continued by a line with nodes `xs`.
pub open spec fn join_line(cur: Option<Seq<InlineV>>, xs: Seq<InlineV>) -> Seq<InlineV> {
    match cur {
        None => xs,
        Some(c) => merge_all(merge(c, InlineV::Text(seq!['\n'])), xs),
    }
}

/// `paras` with the paragraph under way, if any, appended.
pub open spec fn close_paragraph(paras: Seq<Seq<InlineV>>, cur: Option<Seq<InlineV>>) -> Seq<
    Seq<InlineV>,
> {
    match cur {
        None => paras,
        Some(c) => paras.push(c),
    }
}

/// The paragraphs of the numbered content lines `raw[k..]`, after `paras` and
/// the paragraph under way `cur`; or the first error, at its line.
pub open spec fn content_from(
    raw: Seq<(int, Seq<char>)>,
    k: int,
    paras: Seq<Seq<InlineV>>,
    cur: Option<Seq<InlineV>>,
) -> Result<Seq<Seq<InlineV>>, ErrV>
    decreases raw.len() - k,
{
    if k < 0 || k >= raw.len() {
        Ok(close_paragraph(paras, cur))
    } else if raw[k].1.len() == 0 {
        content_from(raw, k + 1, close_paragraph(paras, cur), None)
    } else {
        match scan_model(raw[k].1) {
            Err(m) => Err(ErrV { line: raw[k].0 as nat, message: m }),
            Ok(xs) => content_from(raw, k + 1, paras, Some(join_line(cur, xs))),
        }
    }
}

/// The content of numbered lines `raw` (blank lines are empty).
pub open spec fn content_model(raw: Seq<(int, Seq<char>)>) -> Result<Seq<Seq<InlineV>>, ErrV> {
    content_from(raw, 0, seq![], None)
}

/// The models of a sequence of inline nodes.
pub open spec fn inlines_view(v: Seq<Inline>) -> Seq<InlineV> {
    v.map_values(|x: Inline| x@)
}

/// The models of numbered content lines.
pub open spec fn raw_view(v: Seq<(usize, Vec<char>)>) -> Seq<(int, Seq<char>)> {
    v.map_values(|p: (usize, Vec<char>)| (p.0 as int, p.1@))
}

/// Whether `c` is an ASCII letter.
fn ascii_alpha(c: char) -> (r: bool)
    ensures
        r == is_ascii_alpha(c),
{
    ('a' <= c && c <= 'z') || ('A' <= c && c <= 'Z')
}

/// Appends a text node for `text[..]` to `acc` unless `text` is empty.
fn flush_text(acc: &mut Vec<Inline>, text: &Vec<char>)
    ensures
        inlines_view(final(acc)@) == flush(inlines_view(old(acc)@), text@),
{
    if text.len() > 0 {
        let ghost before = acc@;
        let t = string_of(text, 0, text.len());
        assert(text@.subrange(0, text@.len() as int) =~= text@);
        acc.push(Inline::Text(t));
        assert(inlines_view(acc@) =~= inlines_view(before).push(InlineV::Text(text@)));
    }
}

/// The index of the `}` closing a group whose body starts at `j`.
fn find_close(s: &Vec<char>, j: usize) -> (r: Option<usize>)
    requires
        j <= s.len(),
    ensures
        r matches Some(c) ==> close_from(s@, j as int, 0) == Some(c as int) && j <= c < s.len(),
        r is None ==> close_from(s@, j as int, 0) is None,
{
    proof {
        lemma_close_bounds(s@, j as int, 0);
    }
    let mut k = j;
    let mut depth: usize = 0;
    while k < s.len()
        invariant
            j <= k <= s.len(),
            depth <= k,
            close_from(s@, j as int, 0) == close_from(s@, k as int, depth as nat),
        decreases s.len() - k,
    {
        if s[k] == '\\' {
            if k + 1 < s.len() {
                k = k + 2;
            } else {
                return None;
            }
        } else if s[k] == '{' {
            depth = depth + 1;
            k = k + 1;
        } else if s[k] == '}' {
            if depth == 0 {
                return Some(k);
            }
            depth = depth - 1;
            k = k + 1;
        } else {
            k = k + 1;
        }
    }
    None
}

/// The inline nodes of one line of content.
pub fn scan_line(s: &Vec<char>) -> (r: Result<Vec<Inline>, String>)
    ensures
        match r {
            Ok(v) => scan_model(s@) == Ok::<Seq<InlineV>, Seq<char>>(inlines_view(v@)),
            Err(m) => scan_model(s@) == Err::<Seq<InlineV>, Seq<char>>(m@),
        },
{
    let mut acc: Vec<Inline> = Vec::new();
    let mut text: Vec<char> = Vec::new();
    let mut i: usize = 0;
    assert(inlines_view(acc@) =~= Seq::<InlineV>::empty());
    assert(text@ =~= Seq::<char>::empty());
    while i < s.len()
        invariant
            0 <= i <= s.len(),
            scan_model(s@) == scan_from(s@, i as int, text@, inlines_view(acc@)),
        decreases s.len() - i,
    {
        if s[i] == '@' && i + 1 < s.len() && ascii_alpha(s[i + 1]) {
            let mut e = i + 1;
            while e < s.len() && ascii_alpha(s[e])
                invariant
                    i + 1 <= e <= s.len(),
                    name_end(s@, i + 1) == name_end(s@, e as int),
                decreases s.len() - e,
            {
                e = e + 1;
            }
            let is_math = range_is(s, i + 1, e, "math");
            let is_image = range_is(s, i + 1, e, "image");
            if is_math || is_image {
                let name = crate::text::copy_range(s, i + 1, e);
                if e >= s.len() || s[e] != '{' {
                    return Err(around_chars("「@", &name, "」后面要紧跟「{」"));
                }
                match find_close(s, e + 1) {
                    None => {
                        return Err(around_chars("「@", &name, "{」缺少配对的「}」；行内元素不能跨行"));
                    },
                    Some(c) => {
                        if c == e + 1 {
                            if is_math {
                                return Err(owned("「@math{}」的公式为空"));
                            } else {
                                return Err(owned("「@image{}」缺少图片路径"));
                            }
                        }
                        let body = string_of(s, e + 1, c);
                        let node = if is_math {
                            Inline::Math(body)
                        } else {
                            Inline::Image(body)
                        };
                        let ghost nv = node@;
                        flush_text(&mut acc, &text);
                        let ghost before = acc@;
                        acc.push(node);
                        assert(inlines_view(acc@) =~= inlines_view(before).push(nv));
                        text = Vec::new();
                        assert(text@ =~= Seq::<char>::empty());
                        i = c + 1;
                    },
                }
            } else if range_is(s, i + 1, e, "blank") {
                if e < s.len() && s[e] == '{' {
                    return Err(owned("「@blank」不带取值，直接写「@blank」即可"));
                }
                flush_text(&mut acc, &text);
                let ghost before = acc@;
                acc.push(Inline::Blank);
                assert(inlines_view(acc@) =~= inlines_view(before).push(InlineV::Blank));
                text = Vec::new();
                assert(text@ =~= Seq::<char>::empty());
                i = e;
            } else {
                let name = crate::text::copy_range(s, i + 1, e);
                return Err(
                    around_chars("未知的行内元素「@", &name, "」；可用的有 @math{…}、@image{…} 与 @blank"),
                );
            }
        } else {
            text.push(s[i]);
            i = i + 1;
        }
    }
    flush_text(&mut acc, &text);
    Ok(acc)
}

/// Appends node `x` to `acc`, merging text next to text.
fn merge_into(acc: &mut Vec<Inline>, x: Inline)
    ensures
        inlines_view(final(acc)@) == merge(inlines_view(old(acc)@), x@),
{
    let ghost before = inlines_view(acc@);
    let ghost xv = x@;
    match x {
        Inline::Text(t) => {
            if acc.len() > 0 {
                let last = acc.pop().unwrap();
                let ghost rest = acc@;
                assert(inlines_view(rest) =~= before.drop_last());
                match last {
                    Inline::Text(u) => {
                        let mut u = u;
                        let ghost uv = u@;
                        push_str(&mut u, t.as_str());
                        acc.push(Inline::Text(u));
                        assert(inlines_view(acc@) =~= inlines_view(rest).push(
                            InlineV::Text(uv + t@),
                        ));
                    },
                    other => {
                        let ghost ov = other@;
                        acc.push(other);
                        acc.push(Inline::Text(t));
                        assert(inlines_view(acc@) =~= before.push(xv));
                    },
                }
            } else {
                acc.push(Inline::Text(t));
                assert(inlines_view(acc@) =~= before.push(xv));
            }
        },
        other => {
            acc.push(other);
            assert(inlines_view(acc@) =~= before.push(xv));
        },
    }
}

/// Appends the nodes `xs` to `acc` in order, merging text next to text.
fn merge_all_into(acc: &mut Vec<Inline>, xs: Vec<Inline>)
    ensures
        inlines_view(final(acc)@) == merge_all(inlines_view(old(acc)@), inlines_view(xs@)),
{
    let ghost start = inlines_view(acc@);
    let ghost xv = inlines_view(xs@);
    assert(xv.take(0) =~= Seq::<InlineV>::empty());
    for x in it: xs
        invariant
            xv == inlines_view(it.seq()),
            inlines_view(acc@) == merge_all(start, xv.take(it.index())),
    {
        proof {
            assert(xv.take(it.index() + 1).drop_last() =~= xv.take(it.index()));
            assert(xv.take(it.index() + 1).last() == x@);
        }
        merge_into(acc, x);
    }
    assert(xv.take(xv.len() as int) =~= xv);
}

/// The paragraphs of `paras`.
pub open spec fn paragraphs_view(paras: Seq<Paragraph>) -> Seq<Seq<InlineV>> {
    paras.map_values(|p: Paragraph| p@)
}

/// Appends the paragraph under way, if any, to `paras`.
fn close_into(paras: &mut Vec<Paragraph>, cur: Option<Vec<Inline>>)
    ensures
        paragraphs_view(final(paras)@) == close_paragraph(
            paragraphs_view(old(paras)@),
            match cur {
                Some(c) => Some(inlines_view(c@)),
                None => None,
            },
        ),
{
    match cur {
        Some(c) => {
            let ghost before = paragraphs_view(paras@);
            let ghost cv = inlines_view(c@);
            paras.push(Paragraph(c));
            assert(paragraphs_view(paras@) =~= before.push(cv));
        },
        None => {},
    }
}

/// The content of numbered lines `raw` (blank lines are empty).
pub fn build_content(raw: &Vec<(usize, Vec<char>)>) -> (r: Result<Content, ParseError>)
    ensures
        match r {
            Ok(c) => content_model(raw_view(raw@)) == Ok::<Seq<Seq<InlineV>>, ErrV>(c@),
            Err(e) => content_model(raw_view(raw@)) == Err::<Seq<Seq<InlineV>>, ErrV>(e@),
        },
{
    let ghost rv = raw_view(raw@);
    let mut paras: Vec<Paragraph> = Vec::new();
    let mut cur: Option<Vec<Inline>> = None;
    let mut k: usize = 0;
    assert(paragraphs_view(paras@) =~= Seq::<Seq<InlineV>>::empty());
    while k < raw.len()
        invariant
            0 <= k <= raw.len(),
            rv == raw_view(raw@),
            content_model(rv) == content_from(
                rv,
                k as int,
                paragraphs_view(paras@),
                match cur {
                    Some(c) => Some(inlines_view(c@)),
                    None => None,
                },
            ),
        decreases raw.len() - k,
    {
        let number = raw[k].0;
        let line = &raw[k].1;
        assert(rv[k as int] == (number as int, line@));
        if line.len() == 0 {
            close_into(&mut paras, cur);
            cur = None;
        } else {
            match scan_line(line) {
                Err(m) => {
                    return Err(ParseError::new(number, m));
                },
                Ok(xs) => {
                    let ghost xsv = inlines_view(xs@);
                    match cur {
                        None => {
                            cur = Some(xs);
                        },
                        Some(c) => {
                            let mut c = c;
                            let ghost cv = inlines_view(c@);
                            let mut nl = String::new();
                            crate::text::push_char(&mut nl, '\n');
                            assert(nl@ =~= seq!['\n']);
                            merge_into(&mut c, Inline::Text(nl));
                            merge_all_into(&mut c, xs);
                            cur = Some(c);
                        },
                    }
                },
            }
        }
        k = k + 1;
    }
    close_into(&mut paras, cur);
    Ok(Content { paragraphs: paras })
}

proof fn lemma_content_shift(
    pre: Seq<(int, Seq<char>)>,
    raw: Seq<(int, Seq<char>)>,
    k: int,
    paras: Seq<Seq<InlineV>>,
    cur: Option<Seq<InlineV>>,
)
    requires
        0 <= k <= raw.len(),
    ensures
        content_from(pre + raw, pre.len() + k, paras, cur) == content_from(raw, k, paras, cur),
    decreases raw.len() - k,
{
    let all = pre + raw;
    if k < raw.len() {
        assert(all[pre.len() + k] == raw[k]);
        if raw[k].1.len() == 0 {
            lemma_content_shift(pre, raw, k + 1, close_paragraph(paras, cur), None);
        } else {
            match scan_model(raw[k].1) {
                Err(_) => {},
                Ok(xs) => {
                    lemma_content_shift(pre, raw, k + 1, paras, Some(join_line(cur, xs)));
                },
            }
        }
    }
}

proof fn lemma_content_trailing_blank(
    raw: Seq<(int, Seq<char>)>,
    blank: (int, Seq<char>),
    k: int,
    paras: Seq<Seq<InlineV>>,
    cur: Option<Seq<InlineV>>,
)
    requires
        0 <= k <= raw.len(),
        blank.1.len() == 0,
    ensures
        content_from(raw.push(blank), k, paras, cur) == content_from(raw, k, paras, cur),
    decreases raw.len() - k,
{
    let all = raw.push(blank);
    if k < raw.len() {
        assert(all[k] == raw[k]);
        if raw[k].1.len() == 0 {
            lemma_content_trailing_blank(raw, blank, k + 1, close_paragraph(paras, cur), None);
        } else {
            match scan_model(raw[k].1) {
                Err(_) => {},
                Ok(xs) => {
                    lemma_content_trailing_blank(raw, blank, k + 1, paras, Some(join_line(cur, xs)));
                },
            }
        }
    } else {
        assert(all[k] == blank);
        assert(content_from(all, k + 1, close_paragraph(paras, cur), None) == Ok::<
            Seq<Seq<InlineV>>,
            ErrV,
        >(close_paragraph(paras, cur)));
    }
}

/// Blank lines around content change nothing: content with a blank line
/// added before it, or after it, has the same paragraphs (or the same error),
/// so trimming blank lines off its ends is idempotent on what it means.
pub proof fn law_blank_lines_around_content_change_nothing(
    raw: Seq<(int, Seq<char>)>,
    blank: (int, Seq<char>),
)
    requires
        blank.1.len() == 0,
    ensures
        content_model(seq![blank] + raw) == content_model(raw),
        content_model(raw.push(blank)) == content_model(raw),
{
    let all = seq![blank] + raw;
    assert(all[0] == blank);
    lemma_content_shift(seq![blank], raw, 0, seq![], None);
    lemma_content_trailing_blank(raw, blank, 0, seq![], None);
}

} // verus!
