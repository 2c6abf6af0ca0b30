//! Parsing one question block: `@question`, then at field indentation its
//! `@stem`, four `@option`s in the order A–D, `@answer` and an optional
//! `@explanation`. Content fields take their first line after the keyword and
//! continuation lines one level deeper.

use vstd::prelude::*;

use crate::ast::{choice_letter, Choice, Content, InlineV, SingleChoice, SingleV};
use crate::error::{ErrV, ParseError};
use crate::inline::{build_content, content_model, raw_view, scan_line, scan_model, inlines_view};
use crate::lines::{lines_view, Line, LineV};
use crate::message::{
    around_chars, around_char, content_deeper_message, expected_option_message, missing_option_message,
    msg_after_explanation, msg_answer_before_options, msg_answer_letter, msg_content_deeper,
    msg_expected_answer, msg_expected_option, msg_expected_stem, msg_explanation_before_answer,
    msg_explanation_empty, msg_keyword_in_content, msg_missing_option, msg_no_answer, msg_no_stem,
    msg_option_empty, msg_option_letter, msg_option_order, msg_question_value, msg_repeated_answer,
    one, option_letter, option_order_message, owned,
};
use crate::syntax::{
    is_known_keyword, keyword, keyword_of, known_keyword, lemma_skip_blank, line_indent_error,
    misplaced, misplaced_content, indent_error, next_non_blank, skip_blank, value, value_of,
    FIELD_INDENT, INDENT,
};
use crate::text::{first_ws_from, find_ws, trim, trim_end_index, skip_ws};

verus! {

/// Content of a question's field: its paragraphs.
pub type ContentV = Seq<Seq<InlineV>>;

/// The next field line of a question block at or after `i`: its index, and its
/// keyword; no keyword when the block has ended (a shallower structural line,
/// or the end of the document).
pub open spec fn next_field(ls: Seq<LineV>, i: int) -> Result<(int, Option<Seq<char>>), ErrV> {
    let j = skip_blank(ls, i);
    if j >= ls.len() {
        Ok((j, None))
    } else {
        let l = ls[j];
        if l.indent < FIELD_INDENT {
            if keyword_of(l.content) is Some {
                Ok((j, None))
            } else {
                Err(misplaced_content(l))
            }
        } else if l.indent > FIELD_INDENT {
            Err(line_indent_error(l, FIELD_INDENT as nat))
        } else {
            match keyword_of(l.content) {
                Some(k) => Ok((j, Some(k))),
                None => Err(misplaced_content(l)),
            }
        }
    }
}

/// The numbered lines of a content block from line `i`, after `acc`: blank
/// lines, and lines exactly at indentation `ci` that do not start with a
/// keyword of the format. The block ends at a shallower line.
pub open spec fn collect_from(
    ls: Seq<LineV>,
    i: int,
    ci: int,
    kw: Seq<char>,
    acc: Seq<(int, Seq<char>)>,
) -> Result<(Seq<(int, Seq<char>)>, int), ErrV>
    decreases ls.len() - i,
{
    if i < 0 || i >= ls.len() {
        Ok((acc, i))
    } else {
        let l = ls[i];
        if l.content.len() == 0 {
            collect_from(ls, i + 1, ci, kw, acc.push((l.number, l.content)))
        } else if l.indent < ci {
            Ok((acc, i))
        } else if l.indent > ci {
            Err(ErrV { line: l.number as nat, message: msg_content_deeper(kw, ci as nat) })
        } else {
            match keyword_of(l.content) {
                Some(k) => if is_known_keyword(k) {
                    Err(ErrV { line: l.number as nat, message: msg_keyword_in_content(k) })
                } else {
                    collect_from(ls, i + 1, ci, kw, acc.push((l.number, l.content)))
                },
                None => collect_from(ls, i + 1, ci, kw, acc.push((l.number, l.content))),
            }
        }
    }
}

/// The content of the field `kw` whose keyword line is `h`: the value on the
/// keyword line, then the continuation lines; and the line after the block.
pub open spec fn content_field(ls: Seq<LineV>, h: int, kw: Seq<char>) -> Result<(ContentV, int), ErrV> {
    match collect_from(ls, h + 1, ls[h].indent + INDENT, kw, seq![(ls[h].number, value_of(ls[h].content))]) {
        Err(e) => Err(e),
        Ok((raw, end)) => match content_model(raw) {
            Err(e) => Err(e),
            Ok(c) => Ok((c, end)),
        },
    }
}

/// The stem of a question whose header is at line number `start`.
pub open spec fn stem_model(ls: Seq<LineV>, i: int, start: int) -> Result<(ContentV, int), ErrV> {
    match next_field(ls, i) {
        Err(e) => Err(e),
        Ok((_, None)) => Err(ErrV { line: start as nat, message: msg_no_stem() }),
        Ok((j, Some(k))) => if k != "stem"@ {
            Err(ErrV { line: ls[j].number as nat, message: msg_expected_stem(k) })
        } else {
            match content_field(ls, j, "stem"@) {
                Err(e) => Err(e),
                Ok((c, end)) => if c.len() == 0 {
                    Err(ErrV { line: ls[j].number as nat, message: msg_no_stem() })
                } else {
                    Ok((c, end))
                },
            }
        },
    }
}

/// The choice spelled exactly by `v`.
pub open spec fn choice_of(v: Seq<char>) -> Option<Choice> {
    if v == seq!['A'] {
        Some(Choice::A)
    } else if v == seq!['B'] {
        Some(Choice::B)
    } else if v == seq!['C'] {
        Some(Choice::C)
    } else if v == seq!['D'] {
        Some(Choice::D)
    } else {
        None
    }
}

/// The letter token of an option's value: up to the first whitespace.
pub open spec fn option_letter_of(v: Seq<char>) -> Seq<char> {
    v.subrange(0, first_ws_from(v, 0))
}

/// The text of an option's value: after the letter token and one whitespace
/// character, trimmed.
pub open spec fn option_text_of(v: Seq<char>) -> Seq<char> {
    let p = first_ws_from(v, 0);
    if p < v.len() {
        trim(v.subrange(p + 1, v.len() as int))
    } else {
        seq![]
    }
}

/// Options `n..4` of a question whose header is at line number `start`, read
/// from line `i`, after the options `acc`.
pub open spec fn options_from(ls: Seq<LineV>, i: int, start: int, n: nat, acc: Seq<ContentV>) -> Result<
    (Seq<ContentV>, int),
    ErrV,
>
    decreases 4 - n,
{
    if n >= 4 {
        Ok((acc, i))
    } else {
        let expected = option_letter(n);
        match next_field(ls, i) {
            Err(e) => Err(e),
            Ok((_, None)) => Err(ErrV { line: start as nat, message: msg_missing_option(expected) }),
            Ok((j, Some(k))) => {
                let l = ls[j];
                if k == "option"@ {
                    let v = value_of(l.content);
                    let letter = option_letter_of(v);
                    let text = option_text_of(v);
                    if choice_of(letter) is None {
                        Err(ErrV { line: l.number as nat, message: msg_option_letter(letter) })
                    } else if letter != one(expected) {
                        Err(ErrV { line: l.number as nat, message: msg_option_order(expected, letter) })
                    } else if text.len() == 0 {
                        Err(ErrV { line: l.number as nat, message: msg_option_empty(expected) })
                    } else {
                        match scan_model(text) {
                            Err(m) => Err(ErrV { line: l.number as nat, message: m }),
                            Ok(xs) => options_from(ls, j + 1, start, n + 1, acc.push(seq![xs])),
                        }
                    }
                } else if k == "answer"@ {
                    Err(ErrV { line: l.number as nat, message: msg_answer_before_options() })
                } else if k == "explanation"@ {
                    Err(ErrV { line: l.number as nat, message: msg_explanation_before_answer() })
                } else {
                    Err(ErrV { line: l.number as nat, message: msg_expected_option(expected, k) })
                }
            },
        }
    }
}

/// The answer of a question whose header is at line number `start`.
pub open spec fn answer_model(ls: Seq<LineV>, i: int, start: int) -> Result<(Choice, int), ErrV> {
    match next_field(ls, i) {
        Err(e) => Err(e),
        Ok((_, None)) => Err(ErrV { line: start as nat, message: msg_no_answer() }),
        Ok((j, Some(k))) => {
            let l = ls[j];
            if k == "answer"@ {
                let v = value_of(l.content);
                match choice_of(v) {
                    None => Err(ErrV { line: l.number as nat, message: msg_answer_letter(v) }),
                    Some(c) => Ok((c, j + 1)),
                }
            } else if k == "explanation"@ {
                Err(ErrV { line: l.number as nat, message: msg_explanation_before_answer() })
            } else {
                Err(ErrV { line: l.number as nat, message: msg_expected_answer(k) })
            }
        },
    }
}

/// The optional explanation that ends a question block.
pub open spec fn explanation_model(ls: Seq<LineV>, i: int) -> Result<(Option<ContentV>, int), ErrV> {
    match next_field(ls, i) {
        Err(e) => Err(e),
        Ok((j, None)) => Ok((None, j)),
        Ok((j, Some(k))) => {
            let l = ls[j];
            if k == "explanation"@ {
                match content_field(ls, j, "explanation"@) {
                    Err(e) => Err(e),
                    Ok((c, end)) => if c.len() == 0 {
                        Err(ErrV { line: l.number as nat, message: msg_explanation_empty() })
                    } else {
                        Ok((Some(c), end))
                    },
                }
            } else if k == "answer"@ {
                Err(ErrV { line: l.number as nat, message: msg_repeated_answer() })
            } else {
                Err(ErrV { line: l.number as nat, message: msg_after_explanation(k) })
            }
        },
    }
}

/// The question whose `@question` line is `h`, numbered `number`; and the line
/// after its block.
pub open spec fn question_model(ls: Seq<LineV>, h: int, number: nat) -> Result<(SingleV, int), ErrV> {
    let l = ls[h];
    if value_of(l.content).len() > 0 {
        Err(ErrV { line: l.number as nat, message: msg_question_value() })
    } else {
        match stem_model(ls, h + 1, l.number) {
            Err(e) => Err(e),
            Ok((stem, i1)) => match options_from(ls, i1, l.number, 0, seq![]) {
                Err(e) => Err(e),
                Ok((options, i2)) => match answer_model(ls, i2, l.number) {
                    Err(e) => Err(e),
                    Ok((answer, i3)) => match explanation_model(ls, i3) {
                        Err(e) => Err(e),
                        Ok((explanation, i4)) => Ok(
                            (SingleV { number, stem, options, answer, explanation }, i4),
                        ),
                    },
                },
            },
        }
    }
}

pub proof fn lemma_next_field(ls: Seq<LineV>, i: int)
    ensures
        next_field(ls, i) matches Ok((j, k)) ==> i <= j && (i <= ls.len() ==> j <= ls.len()) && (k is Some ==> j < ls.len()),
{
    lemma_skip_blank(ls, i);
}

pub proof fn lemma_collect(ls: Seq<LineV>, i: int, ci: int, kw: Seq<char>, acc: Seq<(int, Seq<char>)>)
    ensures
        collect_from(ls, i, ci, kw, acc) matches Ok((_, e)) ==> i <= e && (i <= ls.len() ==> e <= ls.len()),
    decreases ls.len() - i,
{
    if 0 <= i < ls.len() {
        let l = ls[i];
        lemma_collect(ls, i + 1, ci, kw, acc.push((l.number, l.content)));
    }
}

pub proof fn lemma_content_field(ls: Seq<LineV>, h: int, kw: Seq<char>)
    ensures
        content_field(ls, h, kw) matches Ok((_, e)) ==> h < e && (h < ls.len() ==> e <= ls.len()),
{
    lemma_collect(ls, h + 1, ls[h].indent + INDENT, kw, seq![(ls[h].number, value_of(ls[h].content))]);
}

pub proof fn lemma_question(ls: Seq<LineV>, h: int, number: nat)
    ensures
        question_model(ls, h, number) matches Ok((_, e)) ==> h < e && (h < ls.len() ==> e <= ls.len()),
{
    lemma_next_field(ls, h + 1);
    let j = skip_blank(ls, h + 1);
    lemma_skip_blank(ls, h + 1);
    lemma_content_field(ls, j, "stem"@);
    if let Ok((_, i1)) = stem_model(ls, h + 1, ls[h].number) {
        lemma_options(ls, i1, ls[h].number, 0, seq![]);
        if let Ok((_, i2)) = options_from(ls, i1, ls[h].number, 0, seq![]) {
            lemma_next_field(ls, i2);
            if let Ok((_, i3)) = answer_model(ls, i2, ls[h].number) {
                lemma_next_field(ls, i3);
                lemma_skip_blank(ls, i3);
                let j3 = skip_blank(ls, i3);
                lemma_content_field(ls, j3, "explanation"@);
            }
        }
    }
}

pub proof fn lemma_options(ls: Seq<LineV>, i: int, start: int, n: nat, acc: Seq<ContentV>)
    ensures
        options_from(ls, i, start, n, acc) matches Ok((_, e)) ==> i <= e && (i <= ls.len() ==> e <= ls.len()),
    decreases 4 - n,
{
    if n < 4 {
        lemma_next_field(ls, i);
        if let Ok((j, Some(k))) = next_field(ls, i) {
            let v = value_of(ls[j].content);
            if let Ok(xs) = scan_model(option_text_of(v)) {
                lemma_options(ls, j + 1, start, n + 1, acc.push(seq![xs]));
            }
        }
    }
}

/// The view of an optional character vector.
pub open spec fn opt_chars(o: Option<Vec<char>>) -> Option<Seq<char>> {
    match o {
        Some(v) => Some(v@),
        None => None,
    }
}

/// Whether `x < base + INDENT`, without overflow.
fn shallower(x: usize, base: usize) -> (r: bool)
    ensures
        r == (x < base + INDENT),
{
    if base <= usize::MAX - INDENT {
        x < base + INDENT
    } else {
        true
    }
}

/// The next field line of a question block at or after `i`.
pub fn field(ls: &Vec<Line>, i: usize) -> (r: Result<(usize, Option<Vec<char>>), ParseError>)
    requires
        i <= ls.len(),
    ensures
        match r {
            Ok((j, k)) => next_field(lines_view(ls@), i as int) == Ok::<(int, Option<Seq<char>>), ErrV>(
                (j as int, opt_chars(k)),
            ) && i <= j <= ls.len() && (k is Some ==> j < ls.len()),
            Err(e) => next_field(lines_view(ls@), i as int) == Err::<(int, Option<Seq<char>>), ErrV>(
                e@,
            ),
        },
{
    let j = next_non_blank(ls, i);
    if j >= ls.len() {
        return Ok((j, None));
    }
    let l = &ls[j];
    assert(lines_view(ls@)[j as int] == l@);
    if l.indent < FIELD_INDENT {
        if keyword(&l.content).is_some() {
            Ok((j, None))
        } else {
            Err(misplaced(l))
        }
    } else if l.indent > FIELD_INDENT {
        Err(indent_error(l, FIELD_INDENT))
    } else {
        match keyword(&l.content) {
            Some(k) => Ok((j, Some(k))),
            None => Err(misplaced(l)),
        }
    }
}

/// The view of numbered content lines.
pub open spec fn raw_of(v: Vec<(usize, Vec<char>)>) -> Seq<(int, Seq<char>)> {
    raw_view(v@)
}

/// The numbered lines of the content block of field `kw` at line `h`.
fn collect(ls: &Vec<Line>, h: usize, kw: &str) -> (r: Result<(Vec<(usize, Vec<char>)>, usize), ParseError>)
    requires
        h < ls.len(),
    ensures
        match r {
            Ok((raw, e)) => collect_from(
                lines_view(ls@),
                h + 1,
                ls@[h as int].indent + INDENT,
                kw@,
                seq![(ls@[h as int].number as int, value_of(ls@[h as int].content@))],
            ) == Ok::<(Seq<(int, Seq<char>)>, int), ErrV>((raw_view(raw@), e as int)) && h < e <= ls.len(),
            Err(e) => collect_from(
                lines_view(ls@),
                h + 1,
                ls@[h as int].indent + INDENT,
                kw@,
                seq![(ls@[h as int].number as int, value_of(ls@[h as int].content@))],
            ) == Err::<(Seq<(int, Seq<char>)>, int), ErrV>(e@),
        },
{
    let ghost lv = lines_view(ls@);
    let base = ls[h].indent;
    let mut raw: Vec<(usize, Vec<char>)> = Vec::new();
    raw.push((ls[h].number, value(&ls[h].content)));
    let ghost first = seq![(ls@[h as int].number as int, value_of(ls@[h as int].content@))];
    assert(raw_view(raw@) =~= first);
    let mut i = h + 1;
    while i < ls.len()
        invariant
            h < i <= ls.len(),
            lv == lines_view(ls@),
            base == ls@[h as int].indent,
            first == seq![(ls@[h as int].number as int, value_of(ls@[h as int].content@))],
            collect_from(lv, h + 1, base + INDENT, kw@, first) == collect_from(
                lv,
                i as int,
                base + INDENT,
                kw@,
                raw_view(raw@),
            ),
        ensures
            h < i <= ls.len(),
            collect_from(lv, h + 1, base + INDENT, kw@, first) == Ok::<(Seq<(int, Seq<char>)>, int), ErrV>(
                (raw_view(raw@), i as int),
            ),
        decreases ls.len() - i,
    {
        let l = &ls[i];
        assert(lv[i as int] == l@);
        let ghost before = raw_view(raw@);
        if l.content.len() == 0 {
            assert(l.content@ =~= Seq::<char>::empty());
            raw.push((l.number, Vec::new()));
            assert(raw_view(raw@) =~= before.push((l.number as int, l.content@)));
        } else if shallower(l.indent, base) {
            break;
        } else if l.indent > base + INDENT {
            return Err(ParseError::new(l.number, content_deeper_message(kw, base + INDENT)));
        } else {
            match keyword(&l.content) {
                Some(k) => {
                    if known_keyword(&k) {
                        return Err(ParseError::new(l.number, around_chars("「@", &k, "」不能出现在内容行里")));
                    }
                },
                None => {},
            }
            raw.push((l.number, crate::text::copy_range(&l.content, 0, l.content.len())));
            assert(l.content@.subrange(0, l.content@.len() as int) =~= l.content@);
            assert(raw_view(raw@) =~= before.push((l.number as int, l.content@)));
        }
        i = i + 1;
    }
    Ok((raw, i))
}

/// The content of field `kw` at line `h`, and the line after its block.
pub fn field_content(ls: &Vec<Line>, h: usize, kw: &str) -> (r: Result<(Content, usize), ParseError>)
    requires
        h < ls.len(),
    ensures
        match r {
            Ok((c, e)) => content_field(lines_view(ls@), h as int, kw@) == Ok::<(ContentV, int), ErrV>(
                (c@, e as int),
            ) && h < e <= ls.len(),
            Err(e) => content_field(lines_view(ls@), h as int, kw@) == Err::<(ContentV, int), ErrV>(
                e@,
            ),
        },
{
    assert(lines_view(ls@)[h as int] == ls@[h as int]@);
    match collect(ls, h, kw) {
        Err(e) => Err(e),
        Ok((raw, end)) => match build_content(&raw) {
            Err(e) => Err(e),
            Ok(c) => Ok((c, end)),
        },
    }
}

/// The stem of a question whose header is at line number `start`.
fn parse_stem(ls: &Vec<Line>, i: usize, start: usize) -> (r: Result<(Content, usize), ParseError>)
    requires
        i <= ls.len(),
    ensures
        match r {
            Ok((c, e)) => stem_model(lines_view(ls@), i as int, start as int) == Ok::<(ContentV, int), ErrV>(
                (c@, e as int),
            ) && i < e <= ls.len(),
            Err(e) => stem_model(lines_view(ls@), i as int, start as int) == Err::<(ContentV, int), ErrV>(
                e@,
            ),
        },
{
    match field(ls, i)? {
        (_, None) => Err(ParseError::new(start, owned("题目缺少题干"))),
        (j, Some(k)) => {
            assert(lines_view(ls@)[j as int] == ls@[j as int]@);
            if !crate::text::chars_are(&k, "stem") {
                return Err(ParseError::new(ls[j].number, around_chars("此处应为「@stem」，实际是「@", &k, "」")));
            }
            let (c, end) = field_content(ls, j, "stem")?;
            if c.paragraphs.len() == 0 {
                return Err(ParseError::new(ls[j].number, owned("题目缺少题干")));
            }
            Ok((c, end))
        },
    }
}

/// The models of a sequence of contents.
pub open spec fn contents_view(v: Seq<Content>) -> Seq<ContentV> {
    v.map_values(|c: Content| c@)
}

/// The answer letter spelled exactly by `v`: `A`, `B`, `C` or `D`, and
/// nothing else, reads as that choice.
pub fn choice(v: &Vec<char>) -> (r: Option<Choice>)
    ensures
        r == choice_of(v@),
{
    if v.len() != 1 {
        assert(v@ != seq!['A'] && v@ != seq!['B'] && v@ != seq!['C'] && v@ != seq!['D']);
        return None;
    }
    let c = v[0];
    if c == 'A' {
        assert(v@ =~= seq!['A']);
        Some(Choice::A)
    } else if c == 'B' {
        assert(v@ =~= seq!['B']);
        Some(Choice::B)
    } else if c == 'C' {
        assert(v@ =~= seq!['C']);
        Some(Choice::C)
    } else if c == 'D' {
        assert(v@ =~= seq!['D']);
        Some(Choice::D)
    } else {
        assert(v@[0] != seq!['A'][0]);
        assert(v@[0] != seq!['B'][0]);
        assert(v@[0] != seq!['C'][0]);
        assert(v@[0] != seq!['D'][0]);
        None
    }
}

/// The letter of the `n`-th option.
fn letter_at(n: usize) -> (c: char)
    requires
        n < 4,
    ensures
        c == option_letter(n as nat),
{
    if n == 0 {
        'A'
    } else if n == 1 {
        'B'
    } else if n == 2 {
        'C'
    } else {
        'D'
    }
}

/// The text of an option's value, trimmed, after its letter token.
fn option_text(v: &Vec<char>, p: usize) -> (r: Vec<char>)
    requires
        p == first_ws_from(v@, 0),
        p <= v.len(),
    ensures
        r@ == option_text_of(v@),
{
    if p < v.len() {
        let end = trim_end_index(v, p + 1, v.len());
        let start = skip_ws(v, p + 1);
        proof {
            let t = v@.subrange(p + 1, v@.len() as int);
            crate::text::lemma_trim_via_indices(v@, p + 1, v@.len() as int, start as int, end as int);
        }
        if start < end {
            crate::text::copy_range(v, start, end)
        } else {
            let r: Vec<char> = Vec::new();
            assert(r@ =~= option_text_of(v@));
            r
        }
    } else {
        let r: Vec<char> = Vec::new();
        assert(r@ =~= Seq::<char>::empty());
        r
    }
}

/// The four options of a question whose header is at line number `start`.
fn parse_options(ls: &Vec<Line>, i: usize, start: usize) -> (r: Result<([Content; 4], usize), ParseError>)
    requires
        i <= ls.len(),
    ensures
        match r {
            Ok((opts, e)) => options_from(lines_view(ls@), i as int, start as int, 0, seq![]) == Ok::<(Seq<ContentV>, int), ErrV>(
                (contents_view(opts@), e as int),
            ) && i <= e <= ls.len(),
            Err(e) => options_from(lines_view(ls@), i as int, start as int, 0, seq![]) == Err::<(Seq<ContentV>, int), ErrV>(
                e@,
            ),
        },
{
    let ghost lv = lines_view(ls@);
    let mut acc: Vec<Content> = Vec::new();
    let mut idx = i;
    let mut n: usize = 0;
    assert(contents_view(acc@) =~= Seq::<ContentV>::empty());
    while n < 4
        invariant
            0 <= n <= 4,
            acc.len() == n,
            i <= idx <= ls.len(),
            lv == lines_view(ls@),
            options_from(lv, i as int, start as int, 0, seq![]) == options_from(
                lv,
                idx as int,
                start as int,
                n as nat,
                contents_view(acc@),
            ),
        decreases 4 - n,
    {
        let expected = letter_at(n);
        let (j, k) = field(ls, idx)?;
        let k = match k {
            None => {
                return Err(ParseError::new(start, missing_option_message(expected)));
            },
            Some(k) => k,
        };
        let l = &ls[j];
        assert(lv[j as int] == l@);
        if crate::text::chars_are(&k, "option") {
            let v = value(&l.content);
            let p = find_ws(&v, 0);
            let letter = crate::text::copy_range(&v, 0, p);
            let text = option_text(&v, p);
            match choice(&letter) {
                None => {
                    return Err(ParseError::new(l.number, around_chars("选项字母必须是 A、B、C、D 之一（当前「", &letter, "」）")));
                },
                Some(_) => {},
            }
            if !(letter.len() == 1 && letter[0] == expected) {
                assert(letter@ != seq![expected]);
                return Err(ParseError::new(l.number, option_order_message(expected, &letter)));
            }
            assert(letter@ =~= seq![expected]);
            if text.len() == 0 {
                return Err(ParseError::new(l.number, around_char("选项 ", expected, " 的内容为空")));
            }
            match scan_line(&text) {
                Err(m) => {
                    return Err(ParseError::new(l.number, m));
                },
                Ok(xs) => {
                    let ghost xsv = inlines_view(xs@);
                    let mut paras: Vec<crate::ast::Paragraph> = Vec::new();
                    paras.push(crate::ast::Paragraph(xs));
                    let c = Content { paragraphs: paras };
                    assert(c@ =~= seq![xsv]);
                    let ghost before = contents_view(acc@);
                    acc.push(c);
                    assert(contents_view(acc@) =~= before.push(seq![xsv]));
                },
            }
        } else if crate::text::chars_are(&k, "answer") {
            return Err(ParseError::new(l.number, owned("答案必须位于选项之后")));
        } else if crate::text::chars_are(&k, "explanation") {
            return Err(ParseError::new(l.number, owned("解析必须位于答案之后")));
        } else {
            return Err(ParseError::new(l.number, expected_option_message(expected, &k)));
        }
        idx = j + 1;
        n = n + 1;
    }
    let ghost all = acc@;
    let d = acc.pop().unwrap();
    let c = acc.pop().unwrap();
    let b = acc.pop().unwrap();
    let a = acc.pop().unwrap();
    assert(all =~= seq![a, b, c, d]);
    let opts = [a, b, c, d];
    assert(opts@ =~= all);
    Ok((opts, idx))
}

/// The answer of a question whose header is at line number `start`.
fn parse_answer(ls: &Vec<Line>, i: usize, start: usize) -> (r: Result<(Choice, usize), ParseError>)
    requires
        i <= ls.len(),
    ensures
        match r {
            Ok((c, e)) => answer_model(lines_view(ls@), i as int, start as int) == Ok::<(Choice, int), ErrV>(
                (c, e as int),
            ) && i < e <= ls.len(),
            Err(e) => answer_model(lines_view(ls@), i as int, start as int) == Err::<(Choice, int), ErrV>(
                e@,
            ),
        },
{
    match field(ls, i)? {
        (_, None) => Err(ParseError::new(start, owned("题目缺少答案"))),
        (j, Some(k)) => {
            let l = &ls[j];
            assert(lines_view(ls@)[j as int] == l@);
            if crate::text::chars_are(&k, "answer") {
                let v = value(&l.content);
                match choice(&v) {
                    None => Err(ParseError::new(l.number, around_chars("答案必须是 A、B、C、D 之一（当前「", &v, "」）"))),
                    Some(c) => Ok((c, j + 1)),
                }
            } else if crate::text::chars_are(&k, "explanation") {
                Err(ParseError::new(l.number, owned("解析必须位于答案之后")))
            } else {
                Err(ParseError::new(l.number, around_chars("此处应为「@answer」，实际是「@", &k, "」")))
            }
        },
    }
}

/// The view of optional content.
pub open spec fn opt_content(o: Option<Content>) -> Option<ContentV> {
    match o {
        Some(c) => Some(c@),
        None => None,
    }
}

/// The optional explanation that ends a question block.
fn parse_explanation(ls: &Vec<Line>, i: usize) -> (r: Result<(Option<Content>, usize), ParseError>)
    requires
        i <= ls.len(),
    ensures
        match r {
            Ok((c, e)) => explanation_model(lines_view(ls@), i as int) == Ok::<(Option<ContentV>, int), ErrV>(
                (opt_content(c), e as int),
            ) && i <= e <= ls.len(),
            Err(e) => explanation_model(lines_view(ls@), i as int) == Err::<(Option<ContentV>, int), ErrV>(
                e@,
            ),
        },
{
    match field(ls, i)? {
        (j, None) => Ok((None, j)),
        (j, Some(k)) => {
            let l = &ls[j];
            assert(lines_view(ls@)[j as int] == l@);
            if crate::text::chars_are(&k, "explanation") {
                let (c, end) = field_content(ls, j, "explanation")?;
                if c.paragraphs.len() == 0 {
                    return Err(ParseError::new(l.number, owned("解析内容为空")));
                }
                Ok((Some(c), end))
            } else if crate::text::chars_are(&k, "answer") {
                Err(ParseError::new(l.number, owned("题目中出现了多个答案")))
            } else {
                Err(ParseError::new(l.number, around_chars("这里不能出现「@", &k, "」；题目块以「@explanation」收尾")))
            }
        },
    }
}

/// The question whose `@question` line is `h`, numbered `number`, and the
/// line after its block.
pub fn parse_question(ls: &Vec<Line>, h: usize, number: usize) -> (r: Result<(SingleChoice, usize), ParseError>)
    requires
        h < ls.len(),
    ensures
        match r {
            Ok((q, e)) => question_model(lines_view(ls@), h as int, number as nat) == Ok::<(SingleV, int), ErrV>(
                (q@, e as int),
            ) && h < e <= ls.len(),
            Err(e) => question_model(lines_view(ls@), h as int, number as nat) == Err::<(SingleV, int), ErrV>(
                e@,
            ),
        },
{
    let l = &ls[h];
    assert(lines_view(ls@)[h as int] == l@);
    let v = value(&l.content);
    if v.len() > 0 {
        return Err(ParseError::new(l.number, owned("「@question」不接受取值")));
    }
    let (stem, i1) = parse_stem(ls, h + 1, l.number)?;
    let (options, i2) = parse_options(ls, i1, l.number)?;
    let (answer, i3) = parse_answer(ls, i2, l.number)?;
    let (explanation, i4) = parse_explanation(ls, i3)?;
    let q = SingleChoice { number, stem, options, answer, explanation };
    assert(q@.options == contents_view(options@));
    Ok((q, i4))
}

/// Reading an answer letter and writing a choice's letter are inverse: a
/// choice reads back from its letter, a letter that reads as a choice is that
/// choice's letter, and exactly `A`, `B`, `C` and `D` read as choices.
pub proof fn law_choice_letters_round_trip(c: Choice, v: Seq<char>)
    ensures
        choice_of(seq![choice_letter(c)]) == Some(c),
        choice_of(v) matches Some(d) ==> v == seq![choice_letter(d)],
        choice_of(v) is Some <==> (v == seq!['A'] || v == seq!['B'] || v == seq!['C'] || v
            == seq!['D']),
{
    let a = seq!['A'];
    let b = seq!['B'];
    let cc = seq!['C'];
    let d = seq!['D'];
    assert(a[0] != b[0] && a[0] != cc[0] && a[0] != d[0] && b[0] != cc[0] && b[0] != d[0] && cc[0]
        != d[0]);
    assert(seq![choice_letter(c)] =~= match c {
        Choice::A => a,
        Choice::B => b,
        Choice::C => cc,
        Choice::D => d,
    });
    if let Some(x) = choice_of(v) {
        assert(v =~= seq![choice_letter(x)]);
    }
}

} // verus!
