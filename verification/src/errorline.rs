//! Where parse errors point: every error names a line of the source, counted
//! from 1 (an empty source has its error on line 1).

use vstd::prelude::*;

use crate::category::{Module, SubCategory};
use crate::error::ErrV;
use crate::inline::content_from;
use crate::lines::{line_model, lines_model_from, preprocess_model, raw_lines, strip_bom, LineV};
use crate::parser::{close_material, metadata_from, parse_model, resolve_sub, section_from, sections_from, PendingV};
use crate::question::{answer_model, collect_from, content_field, next_field, options_from, question_model, stem_model, ContentV};
use crate::syntax::{keyword_of, lemma_skip_blank, metadata_key_index, skip_blank, value_of, INDENT};
use crate::ast::QuestionV;

verus! {

/// Line number `n` names a line of `ls`, or is line 1.
pub open spec fn names_line(ls_len: int, n: int) -> bool {
    1 <= n && (n <= ls_len || n == 1)
}

/// Every line of `ls` is numbered within `1..=ls.len()`.
pub open spec fn numbers_ok(ls: Seq<LineV>) -> bool {
    forall|k: int| 0 <= k < ls.len() ==> names_line(ls.len() as int, (#[trigger] ls[k]).number)
}

/// Every numbered content line names a line of a document of `n` lines.
pub open spec fn raw_ok(raw: Seq<(int, Seq<char>)>, n: int) -> bool {
    forall|k: int| 0 <= k < raw.len() ==> names_line(n, (#[trigger] raw[k]).0)
}

/// A failure names a line of a document of `n` lines.
pub open spec fn err_ok<T>(r: Result<T, ErrV>, n: int) -> bool {
    r matches Err(e) ==> names_line(n, e.line as int)
}

proof fn lemma_next_field(ls: Seq<LineV>, i: int)
    requires
        numbers_ok(ls),
        0 <= i,
    ensures
        err_ok(next_field(ls, i), ls.len() as int),
{
    lemma_skip_blank(ls, i);
}

proof fn lemma_collect(ls: Seq<LineV>, i: int, ci: int, kw: Seq<char>, acc: Seq<(int, Seq<char>)>)
    requires
        numbers_ok(ls),
        raw_ok(acc, ls.len() as int),
    ensures
        err_ok(collect_from(ls, i, ci, kw, acc), ls.len() as int),
        collect_from(ls, i, ci, kw, acc) matches Ok((raw, _)) ==> raw_ok(raw, ls.len() as int),
    decreases ls.len() - i,
{
    if 0 <= i < ls.len() {
        let l = ls[i];
        let acc2 = acc.push((l.number, l.content));
        assert forall|k: int| 0 <= k < acc2.len() implies names_line(ls.len() as int, (#[trigger] acc2[k]).0) by {
            if k < acc.len() {
                assert(acc2[k] == acc[k]);
            }
        }
        lemma_collect(ls, i + 1, ci, kw, acc2);
    }
}

proof fn lemma_content(raw: Seq<(int, Seq<char>)>, n: int, k: int, paras: Seq<Seq<crate::ast::InlineV>>, cur: Option<Seq<crate::ast::InlineV>>)
    requires
        raw_ok(raw, n),
    ensures
        err_ok(content_from(raw, k, paras, cur), n),
    decreases raw.len() - k,
{
    if 0 <= k < raw.len() {
        if raw[k].1.len() == 0 {
            lemma_content(raw, n, k + 1, crate::inline::close_paragraph(paras, cur), None);
        } else if let Ok(xs) = crate::inline::scan_model(raw[k].1) {
            lemma_content(raw, n, k + 1, paras, Some(crate::inline::join_line(cur, xs)));
        }
    }
}

proof fn lemma_content_field(ls: Seq<LineV>, h: int, kw: Seq<char>)
    requires
        numbers_ok(ls),
        0 <= h < ls.len(),
    ensures
        err_ok(content_field(ls, h, kw), ls.len() as int),
{
    let first = seq![(ls[h].number, value_of(ls[h].content))];
    assert(first[0] == (ls[h].number, value_of(ls[h].content)));
    lemma_collect(ls, h + 1, ls[h].indent + INDENT, kw, first);
    if let Ok((raw, _)) = collect_from(ls, h + 1, ls[h].indent + INDENT, kw, first) {
        lemma_content(raw, ls.len() as int, 0, seq![], None);
    }
}

proof fn lemma_stem(ls: Seq<LineV>, i: int, start: int)
    requires
        numbers_ok(ls),
        0 <= i,
        names_line(ls.len() as int, start),
    ensures
        err_ok(stem_model(ls, i, start), ls.len() as int),
{
    lemma_next_field(ls, i);
    crate::question::lemma_next_field(ls, i);
    if let Ok((j, Some(k))) = next_field(ls, i) {
        lemma_skip_blank(ls, i);
        if 0 <= j {
            lemma_content_field(ls, j, "stem"@);
        }
    }
}

proof fn lemma_options(ls: Seq<LineV>, i: int, start: int, n: nat, acc: Seq<ContentV>)
    requires
        numbers_ok(ls),
        0 <= i,
        names_line(ls.len() as int, start),
    ensures
        err_ok(options_from(ls, i, start, n, acc), ls.len() as int),
    decreases 4 - n,
{
    if n < 4 {
        lemma_next_field(ls, i);
        crate::question::lemma_next_field(ls, i);
        lemma_skip_blank(ls, i);
        if let Ok((j, Some(k))) = next_field(ls, i) {
            let v = value_of(ls[j].content);
            if let Ok(xs) = crate::inline::scan_model(crate::question::option_text_of(v)) {
                lemma_options(ls, j + 1, start, n + 1, acc.push(seq![xs]));
            }
        }
    }
}

proof fn lemma_question(ls: Seq<LineV>, h: int, number: nat)
    requires
        numbers_ok(ls),
        0 <= h < ls.len(),
    ensures
        err_ok(question_model(ls, h, number), ls.len() as int),
{
    let l = ls[h];
    lemma_stem(ls, h + 1, l.number);
    crate::question::lemma_next_field(ls, h + 1);
    lemma_skip_blank(ls, h + 1);
    crate::question::lemma_content_field(ls, skip_blank(ls, h + 1), "stem"@);
    if let Ok((_, i1)) = stem_model(ls, h + 1, l.number) {
        lemma_options(ls, i1, l.number, 0, seq![]);
        crate::question::lemma_options(ls, i1, l.number, 0, seq![]);
        if let Ok((_, i2)) = options_from(ls, i1, l.number, 0, seq![]) {
            lemma_next_field(ls, i2);
            crate::question::lemma_next_field(ls, i2);
            if let Ok((_, i3)) = answer_model(ls, i2, l.number) {
                lemma_next_field(ls, i3);
                crate::question::lemma_next_field(ls, i3);
                lemma_skip_blank(ls, i3);
                if let Ok((j, Some(k))) = next_field(ls, i3) {
                    if 0 <= j {
                        lemma_content_field(ls, j, "explanation"@);
                    }
                }
            }
        }
    }
}

/// A material under way names a line of `ls`.
pub open spec fn pending_line_ok(mat: Option<PendingV>, n: int) -> bool {
    mat matches Some(p) ==> names_line(n, p.line)
}

proof fn lemma_section(
    ls: Seq<LineV>,
    i: int,
    module: Module,
    header: int,
    sub: Option<SubCategory>,
    items: Seq<QuestionV>,
    mat: Option<PendingV>,
    next: nat,
)
    requires
        numbers_ok(ls),
        names_line(ls.len() as int, header),
        pending_line_ok(mat, ls.len() as int),
    ensures
        err_ok(section_from(ls, i, module, header, sub, items, mat, next), ls.len() as int),
    decreases ls.len() - i,
{
    let j = skip_blank(ls, i);
    lemma_skip_blank(ls, i);
    if j < 0 || j >= ls.len() || ls[j].indent == 0 {
        return;
    }
    let l = ls[j];
    if let Some(k) = keyword_of(l.content) {
        if k == "subcategory"@ && l.indent == INDENT {
            let v = value_of(l.content);
            if let Ok(sc) = resolve_sub(module, v) {
                lemma_section(ls, j + 1, module, header, Some(sc), items, mat, next);
            }
        } else if k == "question"@ && l.indent == INDENT {
            crate::question::lemma_question(ls, j, next);
            lemma_question(ls, j, next);
            if let Ok((q, e)) = question_model(ls, j, next) {
                match mat {
                    None => lemma_section(ls, e, module, header, sub, items.push(QuestionV::Single(q)), None, next + 1),
                    Some(p) => lemma_section(
                        ls,
                        e,
                        module,
                        header,
                        sub,
                        items,
                        Some(PendingV { content: p.content, line: p.line, questions: p.questions.push(q) }),
                        next + 1,
                    ),
                }
            }
        } else if k == "material"@ && l.indent == INDENT {
            crate::question::lemma_content_field(ls, j, "material"@);
            lemma_content_field(ls, j, "material"@);
            if let Ok(closed) = close_material(items, mat) {
                if let Ok((c, e)) = content_field(ls, j, "material"@) {
                    lemma_section(
                        ls,
                        e,
                        module,
                        header,
                        sub,
                        closed,
                        Some(PendingV { content: c, line: l.number, questions: seq![] }),
                        next,
                    );
                }
            }
        }
    }
}

proof fn lemma_sections(ls: Seq<LineV>, i: int, next: nat, acc: Seq<crate::ast::SectionV>)
    requires
        numbers_ok(ls),
    ensures
        err_ok(sections_from(ls, i, next, acc), ls.len() as int),
    decreases ls.len() - i,
{
    let j = skip_blank(ls, i);
    lemma_skip_blank(ls, i);
    if j < 0 || j >= ls.len() || ls[j].indent != 0 {
        return;
    }
    let l = ls[j];
    if let Some(k) = keyword_of(l.content) {
        if k == "module"@ {
            let v = value_of(l.content);
            if let Some(m) = crate::category::module_named(v) {
                crate::parser::lemma_section(ls, j + 1, m, l.number, None, seq![], None, next);
                lemma_section(ls, j + 1, m, l.number, None, seq![], None, next);
                if let Ok((s, e, n)) = section_from(ls, j + 1, m, l.number, None, seq![], None, next) {
                    lemma_sections(ls, e, n, acc.push(s));
                }
            }
        }
    }
}

proof fn lemma_metadata(ls: Seq<LineV>, i: int, meta: Seq<Option<Seq<char>>>)
    requires
        numbers_ok(ls),
    ensures
        err_ok(metadata_from(ls, i, meta), ls.len() as int),
    decreases ls.len() - i,
{
    let j = skip_blank(ls, i);
    lemma_skip_blank(ls, i);
    if 0 <= j < ls.len() && ls[j].indent == 0 {
        let l = ls[j];
        if let Some(k) = keyword_of(l.content) {
            if let Some(x) = metadata_key_index(k) {
                let v = value_of(l.content);
                lemma_metadata(ls, j + 1, meta.update(x as int, Some(v)));
            }
        }
    }
}

proof fn lemma_preprocess(raw: Seq<Seq<char>>, k: int, acc: Seq<LineV>)
    requires
        0 <= k <= raw.len(),
        acc.len() == k,
        forall|x: int| 0 <= x < acc.len() ==> (#[trigger] acc[x]).number == x + 1,
    ensures
        err_ok(lines_model_from(raw, k, acc), raw.len() as int),
        lines_model_from(raw, k, acc) matches Ok(ls) ==> ls.len() == raw.len() && forall|x: int|
            0 <= x < ls.len() ==> (#[trigger] ls[x]).number == x + 1,
    decreases raw.len() - k,
{
    if k < raw.len() {
        if let Ok(l) = line_model(raw[k], k + 1) {
            let acc2 = acc.push(l);
            assert forall|x: int| 0 <= x < acc2.len() implies (#[trigger] acc2[x]).number == x + 1 by {
                if x < acc.len() {
                    assert(acc2[x] == acc[x]);
                }
            }
            lemma_preprocess(raw, k + 1, acc2);
        }
    }
}

/// Every parse error names a line of the source: its line number is at least
/// 1 and at most the number of lines (an empty source fails on line 1).
pub proof fn law_errors_name_a_source_line(source: Seq<char>)
    ensures
        parse_model(source) matches Err(e) ==> 1 <= e.line && (e.line <= raw_lines(strip_bom(source)).len()
            || e.line == 1),
{
    let raw = raw_lines(strip_bom(source));
    lemma_preprocess(raw, 0, seq![]);
    if let Ok(ls) = preprocess_model(source) {
        assert(numbers_ok(ls));
        lemma_metadata(ls, 0, crate::parser::no_metadata());
        if let Ok((meta, i)) = metadata_from(ls, 0, crate::parser::no_metadata()) {
            lemma_sections(ls, i, 1, seq![]);
        }
    }
}

} // verus!
