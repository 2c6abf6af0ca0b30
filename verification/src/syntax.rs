//! The line-level vocabulary of the format: keywords, values, the metadata keys,
//! blank-line skipping and the indentation errors.

use vstd::prelude::*;

use crate::error::{ErrV, ParseError};
use crate::lines::{lines_view, Line, LineV};
use crate::message::{
    msg_misplaced_content, msg_wrong_indent, owned, wrong_indent_message,
};
use crate::text::{find_ws, first_non_ws_from, first_ws_from, skip_ws};

verus! {

/// Width of one indentation level.
pub const INDENT: usize = 2;

/// Indentation of the fields of a question.
pub const FIELD_INDENT: usize = 4;

/// The keyword of a line: `@` followed by the text up to the first whitespace.
pub open spec fn keyword_of(c: Seq<char>) -> Option<Seq<char>> {
    if c.len() > 0 && c[0] == '@' {
        Some(c.subrange(1, first_ws_from(c, 1)))
    } else {
        None
    }
}

/// The value of a line: what follows the first whitespace, without leading
/// whitespace; empty when the line has no whitespace.
pub open spec fn value_of(c: Seq<char>) -> Seq<char> {
    let i = first_ws_from(c, 0);
    if i >= c.len() {
        seq![]
    } else {
        c.subrange(first_non_ws_from(c, i), c.len() as int)
    }
}

/// The position of a metadata key among `title`, `exam`, `year`, `paper`,
/// `region`, `source`, `duration`, `score`.
pub open spec fn metadata_key_index(k: Seq<char>) -> Option<nat> {
    if k == "title"@ {
        Some(0)
    } else if k == "exam"@ {
        Some(1)
    } else if k == "year"@ {
        Some(2)
    } else if k == "paper"@ {
        Some(3)
    } else if k == "region"@ {
        Some(4)
    } else if k == "source"@ {
        Some(5)
    } else if k == "duration"@ {
        Some(6)
    } else if k == "score"@ {
        Some(7)
    } else {
        None
    }
}

/// Whether `k` is a keyword of the format.
pub open spec fn is_known_keyword(k: Seq<char>) -> bool {
    ||| metadata_key_index(k) is Some
    ||| k == "module"@
    ||| k == "subcategory"@
    ||| k == "question"@
    ||| k == "material"@
    ||| k == "stem"@
    ||| k == "option"@
    ||| k == "answer"@
    ||| k == "explanation"@
}

/// The first line at or after `i` that is not blank.
pub open spec fn skip_blank(ls: Seq<LineV>, i: int) -> int
    decreases ls.len() - i,
{
    if 0 <= i < ls.len() && ls[i].content.len() == 0 {
        skip_blank(ls, i + 1)
    } else {
        i
    }
}

pub proof fn lemma_skip_blank(ls: Seq<LineV>, i: int)
    ensures
        i <= skip_blank(ls, i),
        i <= ls.len() ==> skip_blank(ls, i) <= ls.len(),
        0 <= skip_blank(ls, i) < ls.len() ==> ls[skip_blank(ls, i)].content.len() > 0,
    decreases ls.len() - i,
{
    if 0 <= i < ls.len() && ls[i].content.len() == 0 {
        lemma_skip_blank(ls, i + 1);
    }
}

/// A content line where a structural line belongs.
pub open spec fn misplaced_content(l: LineV) -> ErrV {
    ErrV { line: l.number as nat, message: msg_misplaced_content() }
}

/// A structural line indented otherwise than `expected`.
pub open spec fn line_indent_error(l: LineV, expected: nat) -> ErrV {
    match keyword_of(l.content) {
        Some(k) => ErrV { line: l.number as nat, message: msg_wrong_indent(k, expected, l.indent as nat) },
        None => misplaced_content(l),
    }
}

/// The keyword of `c`.
pub fn keyword(c: &Vec<char>) -> (r: Option<Vec<char>>)
    ensures
        match r {
            Some(k) => keyword_of(c@) == Some(k@),
            None => keyword_of(c@) is None,
        },
{
    if c.len() > 0 && c[0] == '@' {
        let e = find_ws(c, 1);
        Some(crate::text::copy_range(c, 1, e))
    } else {
        None
    }
}

/// The value of `c`.
pub fn value(c: &Vec<char>) -> (r: Vec<char>)
    ensures
        r@ == value_of(c@),
{
    let i = find_ws(c, 0);
    if i >= c.len() {
        let r: Vec<char> = Vec::new();
        assert(r@ =~= Seq::<char>::empty());
        r
    } else {
        let j = skip_ws(c, i);
        crate::text::copy_range(c, j, c.len())
    }
}

/// The position of metadata key `k`.
pub fn metadata_key(k: &Vec<char>) -> (r: Option<usize>)
    ensures
        match r {
            Some(i) => metadata_key_index(k@) == Some(i as nat),
            None => metadata_key_index(k@) is None,
        },
{
    if crate::text::chars_are(k, "title") {
        Some(0)
    } else if crate::text::chars_are(k, "exam") {
        Some(1)
    } else if crate::text::chars_are(k, "year") {
        Some(2)
    } else if crate::text::chars_are(k, "paper") {
        Some(3)
    } else if crate::text::chars_are(k, "region") {
        Some(4)
    } else if crate::text::chars_are(k, "source") {
        Some(5)
    } else if crate::text::chars_are(k, "duration") {
        Some(6)
    } else if crate::text::chars_are(k, "score") {
        Some(7)
    } else {
        None
    }
}

/// Whether `k` is a keyword of the format.
pub fn known_keyword(k: &Vec<char>) -> (r: bool)
    ensures
        r == is_known_keyword(k@),
{
    metadata_key(k).is_some() || crate::text::chars_are(k, "module") || crate::text::chars_are(
        k,
        "subcategory",
    ) || crate::text::chars_are(k, "question") || crate::text::chars_are(k, "material")
        || crate::text::chars_are(k, "stem") || crate::text::chars_are(k, "option")
        || crate::text::chars_are(k, "answer") || crate::text::chars_are(k, "explanation")
}

/// The first non-blank line at or after `i`.
pub fn next_non_blank(ls: &Vec<Line>, i: usize) -> (r: usize)
    requires
        i <= ls.len(),
    ensures
        r == skip_blank(lines_view(ls@), i as int),
        i <= r <= ls.len(),
{
    proof {
        lemma_skip_blank(lines_view(ls@), i as int);
    }
    let mut j = i;
    while j < ls.len() && ls[j].content.len() == 0
        invariant
            i <= j <= ls.len(),
            skip_blank(lines_view(ls@), i as int) == skip_blank(lines_view(ls@), j as int),
        decreases ls.len() - j,
    {
        assert(lines_view(ls@)[j as int] == ls@[j as int]@);
        j = j + 1;
    }
    if j < ls.len() {
        assert(lines_view(ls@)[j as int] == ls@[j as int]@);
    }
    j
}

/// The error for a content line where a structural line belongs.
pub fn misplaced(l: &Line) -> (e: ParseError)
    ensures
        e@ == misplaced_content(l@),
{
    ParseError::new(l.number, owned("内容行必须写在关键字之下，并比它的关键字深一级"))
}

/// The error for a structural line indented otherwise than `expected`.
pub fn indent_error(l: &Line, expected: usize) -> (e: ParseError)
    ensures
        e@ == line_indent_error(l@, expected as nat),
{
    match keyword(&l.content) {
        Some(k) => ParseError::new(l.number, wrong_indent_message(&k, expected, l.indent)),
        None => misplaced(l),
    }
}

} // verus!
