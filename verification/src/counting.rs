//! How many questions a parsed document holds: exactly one for each
//! `@question` line of its source, numbered 1, 2, 3, … in document order.

use vstd::prelude::*;

use crate::ast::{QuestionV, SectionV};
use crate::category::{Module, SubCategory};
use crate::inline::scan_model;
use crate::lines::{preprocess_model, LineV};
use crate::parser::{
    close_material, metadata_from, no_metadata, parse_model, resolve_sub, section_from,
    sections_from, PendingV,
};
use crate::question::{
    answer_model, collect_from, content_field, explanation_model, next_field, option_text_of,
    options_from, question_model, stem_model, ContentV,
};
use crate::syntax::{keyword_of, lemma_skip_blank, skip_blank, value_of, FIELD_INDENT, INDENT};
use crate::wellformed::{
    law_parsed_documents_are_well_formed, numbered, pending_singles, questions_singles,
    sections_singles,
};

verus! {

/// Whether a line opens a question: `@question` at the indentation of a
/// section's items.
pub open spec fn is_question_line(l: LineV) -> bool {
    l.indent == INDENT && keyword_of(l.content) == Some("question"@)
}

/// How many of the lines `ls[lo..hi]` open a question.
pub open spec fn question_lines(ls: Seq<LineV>, lo: int, hi: int) -> nat
    decreases hi - lo,
{
    if hi <= lo {
        0
    } else {
        question_lines(ls, lo, hi - 1) + if is_question_line(ls[hi - 1]) {
            1nat
        } else {
            0nat
        }
    }
}

/// Every line of `ls[lo..hi]` is blank or deeper than a section's items.
spec fn deep(ls: Seq<LineV>, lo: int, hi: int) -> bool {
    forall|k: int| lo <= k < hi ==> (#[trigger] ls[k]).content.len() == 0 || ls[k].indent > INDENT
}

proof fn lemma_lines_split(ls: Seq<LineV>, lo: int, mid: int, hi: int)
    requires
        lo <= mid <= hi,
    ensures
        question_lines(ls, lo, hi) == question_lines(ls, lo, mid) + question_lines(ls, mid, hi),
    decreases hi - mid,
{
    if hi > mid {
        lemma_lines_split(ls, lo, mid, hi - 1);
    }
}

proof fn lemma_one_line(ls: Seq<LineV>, j: int)
    ensures
        question_lines(ls, j, j + 1) == if is_question_line(ls[j]) {
            1nat
        } else {
            0nat
        },
{
    assert(question_lines(ls, j, j) == 0);
}

proof fn lemma_deep_none(ls: Seq<LineV>, lo: int, hi: int)
    requires
        deep(ls, lo, hi),
    ensures
        question_lines(ls, lo, hi) == 0,
    decreases hi - lo,
{
    if hi > lo {
        lemma_deep_none(ls, lo, hi - 1);
        assert(ls[hi - 1].content.len() == 0 || ls[hi - 1].indent > INDENT);
    }
}

proof fn lemma_deep_join(ls: Seq<LineV>, a: int, b: int, c: int)
    requires
        deep(ls, a, b),
        deep(ls, b, c),
    ensures
        deep(ls, a, c),
{
    assert forall|k: int| a <= k < c implies (#[trigger] ls[k]).content.len() == 0 || ls[k].indent
        > INDENT by {
        if k < b {
            assert(deep(ls, a, b));
        } else {
            assert(deep(ls, b, c));
        }
    }
}

proof fn lemma_skip_deep(ls: Seq<LineV>, i: int)
    ensures
        deep(ls, i, skip_blank(ls, i)),
    decreases ls.len() - i,
{
    if 0 <= i < ls.len() && ls[i].content.len() == 0 {
        lemma_skip_deep(ls, i + 1);
    }
}

proof fn lemma_collect_deep(
    ls: Seq<LineV>,
    i: int,
    ci: int,
    kw: Seq<char>,
    acc: Seq<(int, Seq<char>)>,
)
    requires
        ci > INDENT,
    ensures
        collect_from(ls, i, ci, kw, acc) matches Ok((_, e)) ==> deep(ls, i, e),
    decreases ls.len() - i,
{
    if 0 <= i < ls.len() {
        let l = ls[i];
        lemma_collect_deep(ls, i + 1, ci, kw, acc.push((l.number, l.content)));
    }
}

proof fn lemma_field_deep(ls: Seq<LineV>, h: int, kw: Seq<char>)
    requires
        0 <= h < ls.len(),
        ls[h].indent >= INDENT,
    ensures
        content_field(ls, h, kw) matches Ok((_, e)) ==> deep(ls, h + 1, e),
{
    lemma_collect_deep(
        ls,
        h + 1,
        ls[h].indent + INDENT,
        kw,
        seq![(ls[h].number, value_of(ls[h].content))],
    );
}

proof fn lemma_next_field_deep(ls: Seq<LineV>, i: int)
    requires
        0 <= i,
    ensures
        next_field(ls, i) matches Ok((j, k)) ==> deep(ls, i, j) && (k is Some ==> 0 <= j < ls.len()
            && ls[j].indent == FIELD_INDENT && deep(ls, i, j + 1)),
{
    lemma_skip_deep(ls, i);
    lemma_skip_blank(ls, i);
    let j = skip_blank(ls, i);
    if 0 <= j < ls.len() && ls[j].indent == FIELD_INDENT {
        assert forall|k: int| i <= k < j + 1 implies (#[trigger] ls[k]).content.len() == 0
            || ls[k].indent > INDENT by {
            if k < j {
                assert(deep(ls, i, j));
            }
        }
    }
}

proof fn lemma_stem_deep(ls: Seq<LineV>, i: int, start: int)
    requires
        0 <= i,
    ensures
        stem_model(ls, i, start) matches Ok((_, e)) ==> deep(ls, i, e),
{
    lemma_next_field_deep(ls, i);
    if let Ok((j, Some(k))) = next_field(ls, i) {
        lemma_field_deep(ls, j, "stem"@);
        if let Ok((_, e)) = content_field(ls, j, "stem"@) {
            lemma_deep_join(ls, i, j + 1, e);
        }
    }
}

proof fn lemma_options_deep(ls: Seq<LineV>, i: int, start: int, n: nat, acc: Seq<ContentV>)
    requires
        0 <= i,
    ensures
        options_from(ls, i, start, n, acc) matches Ok((_, e)) ==> deep(ls, i, e),
    decreases 4 - n,
{
    if n < 4 {
        lemma_next_field_deep(ls, i);
        if let Ok((j, Some(k))) = next_field(ls, i) {
            let v = value_of(ls[j].content);
            if let Ok(xs) = scan_model(option_text_of(v)) {
                lemma_options_deep(ls, j + 1, start, n + 1, acc.push(seq![xs]));
                if let Ok((_, e)) = options_from(ls, j + 1, start, n + 1, acc.push(seq![xs])) {
                    lemma_deep_join(ls, i, j + 1, e);
                }
            }
        }
    }
}

proof fn lemma_answer_deep(ls: Seq<LineV>, i: int, start: int)
    requires
        0 <= i,
    ensures
        answer_model(ls, i, start) matches Ok((_, e)) ==> deep(ls, i, e),
{
    lemma_next_field_deep(ls, i);
}

proof fn lemma_explanation_deep(ls: Seq<LineV>, i: int)
    requires
        0 <= i,
    ensures
        explanation_model(ls, i) matches Ok((_, e)) ==> deep(ls, i, e),
{
    lemma_next_field_deep(ls, i);
    if let Ok((j, Some(k))) = next_field(ls, i) {
        lemma_field_deep(ls, j, "explanation"@);
        if let Ok((_, e)) = content_field(ls, j, "explanation"@) {
            lemma_deep_join(ls, i, j + 1, e);
        }
    }
}

proof fn lemma_question_deep(ls: Seq<LineV>, h: int, number: nat)
    requires
        0 <= h < ls.len(),
    ensures
        question_model(ls, h, number) matches Ok((_, e)) ==> deep(ls, h + 1, e),
{
    let l = ls[h];
    crate::question::lemma_question(ls, h, number);
    lemma_stem_deep(ls, h + 1, l.number);
    if let Ok((_, i1)) = stem_model(ls, h + 1, l.number) {
        crate::question::lemma_content_field(ls, skip_blank(ls, h + 1), "stem"@);
        lemma_skip_blank(ls, h + 1);
        crate::question::lemma_next_field(ls, h + 1);
        lemma_options_deep(ls, i1, l.number, 0, seq![]);
        crate::question::lemma_options(ls, i1, l.number, 0, seq![]);
        if let Ok((_, i2)) = options_from(ls, i1, l.number, 0, seq![]) {
            lemma_answer_deep(ls, i2, l.number);
            crate::question::lemma_next_field(ls, i2);
            if let Ok((_, i3)) = answer_model(ls, i2, l.number) {
                lemma_explanation_deep(ls, i3);
                lemma_deep_join(ls, h + 1, i1, i2);
                lemma_deep_join(ls, h + 1, i2, i3);
                if let Ok((_, i4)) = explanation_model(ls, i3) {
                    lemma_deep_join(ls, h + 1, i3, i4);
                }
            }
        }
    }
}

proof fn lemma_push_singles(items: Seq<QuestionV>, q: QuestionV)
    ensures
        questions_singles(items.push(q)) == questions_singles(items) + crate::wellformed::question_singles(q),
{
    assert(items.push(q).drop_last() =~= items);
}

proof fn lemma_close_count(items: Seq<QuestionV>, mat: Option<PendingV>)
    ensures
        close_material(items, mat) matches Ok(q) ==> questions_singles(q).len() == questions_singles(
            items,
        ).len() + pending_singles(mat).len(),
{
    if let Some(p) = mat {
        lemma_push_singles(items, QuestionV::Material(p.content, p.questions));
    }
}

/// What `lemma_section_count` states.
spec fn section_counted(
    ls: Seq<LineV>,
    i: int,
    module: Module,
    header: int,
    sub: Option<SubCategory>,
    items: Seq<QuestionV>,
    mat: Option<PendingV>,
    next: nat,
) -> bool {
    section_from(ls, i, module, header, sub, items, mat, next) matches Ok((s, e, _)) ==> i <= e
        <= ls.len() && questions_singles(s.questions).len() == questions_singles(items).len()
        + pending_singles(mat).len() + question_lines(ls, i, e)
}

proof fn lemma_section_count(
    ls: Seq<LineV>,
    i: int,
    module: Module,
    header: int,
    sub: Option<SubCategory>,
    items: Seq<QuestionV>,
    mat: Option<PendingV>,
    next: nat,
)
    requires
        0 <= i <= ls.len(),
    ensures
        section_counted(ls, i, module, header, sub, items, mat, next),
    decreases ls.len() - i, 1nat,
{
    reveal_strlit("question");
    reveal_strlit("subcategory");
    reveal_strlit("material");
    let j = skip_blank(ls, i);
    lemma_skip_blank(ls, i);
    lemma_skip_deep(ls, i);
    lemma_deep_none(ls, i, j);
    crate::parser::lemma_section(ls, i, module, header, sub, items, mat, next);
    lemma_close_count(items, mat);
    if 0 <= j < ls.len() && ls[j].indent != 0 {
        let l = ls[j];
        if let Some(k) = keyword_of(l.content) {
            if k == "subcategory"@ && l.indent == INDENT {
                lemma_sub_case(ls, i, j, module, header, sub, items, mat, next);
            } else if k == "question"@ && l.indent == INDENT {
                lemma_question_case(ls, i, j, module, header, sub, items, mat, next);
            } else if k == "material"@ && l.indent == INDENT {
                lemma_material_case(ls, i, j, module, header, sub, items, mat, next);
            }
        }
    }
}

proof fn lemma_sub_case(
    ls: Seq<LineV>,
    i: int,
    j: int,
    module: Module,
    header: int,
    sub: Option<SubCategory>,
    items: Seq<QuestionV>,
    mat: Option<PendingV>,
    next: nat,
)
    requires
        0 <= i <= j < ls.len(),
        j == skip_blank(ls, i),
        question_lines(ls, i, j) == 0,
        ls[j].indent == INDENT,
        keyword_of(ls[j].content) == Some("subcategory"@),
    ensures
        section_counted(ls, i, module, header, sub, items, mat, next),
    decreases ls.len() - i, 0nat,
{
    reveal_strlit("question");
    reveal_strlit("subcategory");
    let l = ls[j];
    assert("subcategory"@[0] != "question"@[0]);
    assert(!is_question_line(l));
    lemma_one_line(ls, j);
    let v = value_of(l.content);
    if let Ok(sc) = resolve_sub(module, v) {
        lemma_section_count(ls, j + 1, module, header, Some(sc), items, mat, next);
        if let Ok((s, e, _)) = section_from(ls, j + 1, module, header, Some(sc), items, mat, next) {
            lemma_lines_split(ls, i, j, e);
            lemma_lines_split(ls, j, j + 1, e);
        }
    }
}

proof fn lemma_question_case(
    ls: Seq<LineV>,
    i: int,
    j: int,
    module: Module,
    header: int,
    sub: Option<SubCategory>,
    items: Seq<QuestionV>,
    mat: Option<PendingV>,
    next: nat,
)
    requires
        0 <= i <= j < ls.len(),
        j == skip_blank(ls, i),
        question_lines(ls, i, j) == 0,
        ls[j].indent == INDENT,
        keyword_of(ls[j].content) == Some("question"@),
    ensures
        section_counted(ls, i, module, header, sub, items, mat, next),
    decreases ls.len() - i, 0nat,
{
    reveal_strlit("question");
    reveal_strlit("subcategory");
    assert("subcategory"@[0] != "question"@[0]);
    let l = ls[j];
    assert(is_question_line(l));
    lemma_one_line(ls, j);
    crate::question::lemma_question(ls, j, next);
    lemma_question_deep(ls, j, next);
    if let Ok((q, qe)) = question_model(ls, j, next) {
        lemma_deep_none(ls, j + 1, qe);
        match mat {
            None => {
                let items2 = items.push(QuestionV::Single(q));
                lemma_push_singles(items, QuestionV::Single(q));
                assert(crate::wellformed::question_singles(QuestionV::Single(q)).len() == 1);
                lemma_section_count(ls, qe, module, header, sub, items2, None, next + 1);
                if let Ok((s, e, _)) = section_from(ls, qe, module, header, sub, items2, None, next + 1) {
                    lemma_lines_split(ls, i, j, e);
                    lemma_lines_split(ls, j, j + 1, e);
                    lemma_lines_split(ls, j + 1, qe, e);
                }
            },
            Some(p) => {
                let mat2 = Some(
                    PendingV { content: p.content, line: p.line, questions: p.questions.push(q) },
                );
                lemma_section_count(ls, qe, module, header, sub, items, mat2, next + 1);
                if let Ok((s, e, _)) = section_from(ls, qe, module, header, sub, items, mat2, next + 1) {
                    lemma_lines_split(ls, i, j, e);
                    lemma_lines_split(ls, j, j + 1, e);
                    lemma_lines_split(ls, j + 1, qe, e);
                }
            },
        }
    }
}

proof fn lemma_material_case(
    ls: Seq<LineV>,
    i: int,
    j: int,
    module: Module,
    header: int,
    sub: Option<SubCategory>,
    items: Seq<QuestionV>,
    mat: Option<PendingV>,
    next: nat,
)
    requires
        0 <= i <= j < ls.len(),
        j == skip_blank(ls, i),
        question_lines(ls, i, j) == 0,
        ls[j].indent == INDENT,
        keyword_of(ls[j].content) == Some("material"@),
    ensures
        section_counted(ls, i, module, header, sub, items, mat, next),
    decreases ls.len() - i, 0nat,
{
    reveal_strlit("question");
    reveal_strlit("subcategory");
    reveal_strlit("material");
    assert("subcategory"@[0] != "question"@[0]);
    assert("material"@[0] != "question"@[0]);
    assert("material"@[0] != "subcategory"@[0]);
    let l = ls[j];
    assert(!is_question_line(l));
    lemma_one_line(ls, j);
    lemma_close_count(items, mat);
    crate::question::lemma_content_field(ls, j, "material"@);
    lemma_field_deep(ls, j, "material"@);
    if let Ok(closed) = close_material(items, mat) {
        if let Ok((c, ce)) = content_field(ls, j, "material"@) {
            lemma_deep_none(ls, j + 1, ce);
            let mat2 = Some(PendingV { content: c, line: l.number, questions: seq![] });
            lemma_section_count(ls, ce, module, header, sub, closed, mat2, next);
            if let Ok((s, e, _)) = section_from(ls, ce, module, header, sub, closed, mat2, next) {
                lemma_lines_split(ls, i, j, e);
                lemma_lines_split(ls, j, j + 1, e);
                lemma_lines_split(ls, j + 1, ce, e);
            }
        }
    }
}

proof fn lemma_sections_count(ls: Seq<LineV>, i: int, next: nat, acc: Seq<SectionV>)
    requires
        0 <= i <= ls.len(),
    ensures
        sections_from(ls, i, next, acc) matches Ok(secs) ==> sections_singles(secs).len()
            == sections_singles(acc).len() + question_lines(ls, i, ls.len() as int),
    decreases ls.len() - i,
{
    let j = skip_blank(ls, i);
    lemma_skip_blank(ls, i);
    lemma_skip_deep(ls, i);
    lemma_deep_none(ls, i, j);
    if 0 <= j < ls.len() {
        let l = ls[j];
        if l.indent == 0 {
            if let Some(k) = keyword_of(l.content) {
                let v = value_of(l.content);
                if let Some(m) = crate::category::module_named(v) {
                    lemma_section_count(ls, j + 1, m, l.number, None, seq![], None, next);
                    if let Ok((s, e, n)) = section_from(ls, j + 1, m, l.number, None, seq![], None, next) {
                        lemma_sections_count(ls, e, n, acc.push(s));
                        assert(acc.push(s).drop_last() =~= acc);
                        assert(questions_singles(Seq::<QuestionV>::empty()).len() == 0);
                        lemma_lines_split(ls, i, j, ls.len() as int);
                        lemma_lines_split(ls, j, j + 1, ls.len() as int);
                        lemma_one_line(ls, j);
                        lemma_lines_split(ls, j + 1, e, ls.len() as int);
                    }
                }
            }
        }
    }
}

proof fn lemma_metadata_count(ls: Seq<LineV>, i: int, meta: Seq<Option<Seq<char>>>)
    requires
        0 <= i <= ls.len(),
    ensures
        metadata_from(ls, i, meta) matches Ok((_, e)) ==> i <= e <= ls.len() && question_lines(
            ls,
            i,
            e,
        ) == 0,
    decreases ls.len() - i,
{
    let j = skip_blank(ls, i);
    lemma_skip_blank(ls, i);
    lemma_skip_deep(ls, i);
    lemma_deep_none(ls, i, j);
    assert(i <= j <= ls.len());
    assert(question_lines(ls, i, j) == 0);
    if 0 <= j < ls.len() {
        let l = ls[j];
        if l.indent == 0 {
            if let Some(k) = keyword_of(l.content) {
                if let Some(x) = crate::syntax::metadata_key_index(k) {
                    let v = value_of(l.content);
                    let m2 = meta.update(x as int, Some(v));
                    lemma_metadata_count(ls, j + 1, m2);
                    if let Ok((_, e)) = metadata_from(ls, j + 1, m2) {
                        lemma_lines_split(ls, i, j, e);
                        lemma_lines_split(ls, j, j + 1, e);
                            lemma_one_line(ls, j);
                    }
                }
            }
        }
    }
}

/// A parsed document holds one question for each `@question` line of its
/// source, and they are numbered 1, 2, 3, … in document order: the numbers
/// run from 1 up to the number of `@question` lines.
pub proof fn law_one_question_per_question_line(source: Seq<char>)
    ensures
        parse_model(source) matches Ok(d) ==> preprocess_model(source) matches Ok(ls)
            && sections_singles(d.sections).len() == question_lines(ls, 0, ls.len() as int)
            && numbered(sections_singles(d.sections), 1),
{
    law_parsed_documents_are_well_formed(source);
    if let Ok(ls) = preprocess_model(source) {
        lemma_metadata_count(ls, 0, no_metadata());
        if let Ok((_, i0)) = metadata_from(ls, 0, no_metadata()) {
            lemma_sections_count(ls, i0, 1, seq![]);
            lemma_lines_split(ls, 0, i0, ls.len() as int);
        }
    }
}

} // verus!
