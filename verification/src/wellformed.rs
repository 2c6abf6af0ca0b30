//! What every parsed document satisfies: each section holds at least one
//! question and, where it declares a sub-category, one of its own module's;
//! each material binds at least one question; stems, options, explanations
//! and materials are never empty; every question has exactly four options;
//! and the questions are numbered 1, 2, 3, … in document order.

use vstd::prelude::*;

use crate::ast::{DocumentV, QuestionV, SectionV, SingleV};
use crate::category::{sub_category_module, Module, SubCategory};

use crate::lines::LineV;
use crate::parser::{close_material, parse_model, resolve_sub, section_from, sections_from, PendingV};
use crate::question::{content_field, lemma_question, next_field, options_from, question_model, stem_model, ContentV};
use crate::syntax::{keyword_of, lemma_skip_blank, skip_blank, value_of, INDENT};

verus! {

/// Content with at least one paragraph.
pub open spec fn content_ok(c: ContentV) -> bool {
    c.len() > 0
}

/// A single-choice question with a stem, four options and, if any, an
/// explanation, none of them empty.
pub open spec fn single_ok(q: SingleV) -> bool {
    &&& content_ok(q.stem)
    &&& q.options.len() == 4
    &&& forall|i: int| 0 <= i < 4 ==> content_ok(#[trigger] q.options[i])
    &&& (q.explanation matches Some(c) ==> content_ok(c))
}

/// Every question of `qs` is well formed.
pub open spec fn singles_ok(qs: Seq<SingleV>) -> bool {
    forall|i: int| 0 <= i < qs.len() ==> single_ok(#[trigger] qs[i])
}

/// A well-formed question; a material is not empty and binds at least one
/// question.
pub open spec fn question_ok(q: QuestionV) -> bool {
    match q {
        QuestionV::Single(s) => single_ok(s),
        QuestionV::Material(c, qs) => content_ok(c) && qs.len() > 0 && singles_ok(qs),
    }
}

/// Every question of `qs` is well formed.
pub open spec fn questions_ok(qs: Seq<QuestionV>) -> bool {
    forall|i: int| 0 <= i < qs.len() ==> question_ok(#[trigger] qs[i])
}

/// A well-formed section: not empty, and its sub-category, if any, is one of
/// its module's.
pub open spec fn section_ok(s: SectionV) -> bool {
    &&& s.questions.len() > 0
    &&& (s.sub_category matches Some(sc) ==> sub_category_module(sc) == s.module)
    &&& questions_ok(s.questions)
}

/// Every section of `ss` is well formed.
pub open spec fn sections_ok(ss: Seq<SectionV>) -> bool {
    forall|i: int| 0 <= i < ss.len() ==> section_ok(#[trigger] ss[i])
}

/// The single-choice questions of a question: itself, or a material's.
pub open spec fn question_singles(q: QuestionV) -> Seq<SingleV> {
    match q {
        QuestionV::Single(s) => seq![s],
        QuestionV::Material(_, qs) => qs,
    }
}

/// The single-choice questions of `qs`, in order.
pub open spec fn questions_singles(qs: Seq<QuestionV>) -> Seq<SingleV>
    decreases qs.len(),
{
    if qs.len() == 0 {
        seq![]
    } else {
        questions_singles(qs.drop_last()) + question_singles(qs.last())
    }
}

/// The single-choice questions of sections `ss`, in document order.
pub open spec fn sections_singles(ss: Seq<SectionV>) -> Seq<SingleV>
    decreases ss.len(),
{
    if ss.len() == 0 {
        seq![]
    } else {
        sections_singles(ss.drop_last()) + questions_singles(ss.last().questions)
    }
}

/// The questions `qs` are numbered `start`, `start + 1`, … in order.
pub open spec fn numbered(qs: Seq<SingleV>, start: nat) -> bool {
    forall|i: int| 0 <= i < qs.len() ==> (#[trigger] qs[i]).number == start + i
}

/// A well-formed document: at least one section, every section well formed,
/// and its questions numbered from 1 in document order.
pub open spec fn document_ok(d: DocumentV) -> bool {
    &&& d.sections.len() > 0
    &&& sections_ok(d.sections)
    &&& numbered(sections_singles(d.sections), 1)
}

proof fn lemma_options_ok(ls: Seq<LineV>, i: int, start: int, n: nat, acc: Seq<ContentV>)
    requires
        n <= 4,
        acc.len() == n,
        forall|k: int| 0 <= k < acc.len() ==> content_ok(#[trigger] acc[k]),
    ensures
        options_from(ls, i, start, n, acc) matches Ok((os, _)) ==> os.len() == 4 && forall|k: int|
            0 <= k < 4 ==> content_ok(#[trigger] os[k]),
    decreases 4 - n,
{
    if n < 4 {
        if let Ok((j, Some(k))) = next_field(ls, i) {
            let v = value_of(ls[j].content);
            if let Ok(xs) = crate::inline::scan_model(crate::question::option_text_of(v)) {
                let acc2 = acc.push(seq![xs]);
                assert forall|k: int| 0 <= k < acc2.len() implies content_ok(#[trigger] acc2[k]) by {
                    if k < acc.len() {
                        assert(acc2[k] == acc[k]);
                    }
                }
                lemma_options_ok(ls, j + 1, start, n + 1, acc2);
            }
        }
    }
}

proof fn lemma_question_ok(ls: Seq<LineV>, h: int, number: nat)
    ensures
        question_model(ls, h, number) matches Ok((q, _)) ==> single_ok(q) && q.number == number,
{
    let l = ls[h];
    if let Ok((_, i1)) = stem_model(ls, h + 1, l.number) {
        lemma_options_ok(ls, i1, l.number, 0, seq![]);
    }
}

/// The single-choice questions of a material under way.
pub open spec fn pending_singles(mat: Option<PendingV>) -> Seq<SingleV> {
    match mat {
        Some(p) => p.questions,
        None => seq![],
    }
}

/// A material under way is not empty and its questions are well formed.
pub open spec fn pending_ok(mat: Option<PendingV>) -> bool {
    mat matches Some(p) ==> content_ok(p.content) && singles_ok(p.questions)
}

proof fn lemma_close_material(items: Seq<QuestionV>, mat: Option<PendingV>)
    requires
        questions_ok(items),
        pending_ok(mat),
    ensures
        close_material(items, mat) matches Ok(closed) ==> questions_ok(closed) && questions_singles(closed)
            == questions_singles(items) + pending_singles(mat),
{
    if let Ok(closed) = close_material(items, mat) {
        match mat {
            None => {
                assert(questions_singles(items) + pending_singles(mat) =~= questions_singles(items));
            },
            Some(p) => {
                assert(closed.drop_last() =~= items);
                assert forall|k: int| 0 <= k < closed.len() implies question_ok(#[trigger] closed[k]) by {
                    if k < items.len() {
                        assert(closed[k] == items[k]);
                    }
                }
            },
        }
    }
}

proof fn lemma_section_ok(
    ls: Seq<LineV>,
    i: int,
    module: Module,
    header: int,
    sub: Option<SubCategory>,
    items: Seq<QuestionV>,
    mat: Option<PendingV>,
    next: nat,
    first: nat,
)
    requires
        sub matches Some(sc) ==> sub_category_module(sc) == module,
        questions_ok(items),
        pending_ok(mat),
        numbered(questions_singles(items) + pending_singles(mat), first),
        (questions_singles(items) + pending_singles(mat)).len() == next - first,
    ensures
        section_from(ls, i, module, header, sub, items, mat, next) matches Ok((s, _, n)) ==> {
            &&& section_ok(s)
            &&& s.module == module
            &&& numbered(questions_singles(s.questions), first)
            &&& questions_singles(s.questions).len() == n - first
        },
    decreases ls.len() - i,
{
    let j = skip_blank(ls, i);
    lemma_skip_blank(ls, i);
    lemma_close_material(items, mat);
    if j < 0 || j >= ls.len() || ls[j].indent == 0 {
        return;
    }
    let l = ls[j];
    if let Some(k) = keyword_of(l.content) {
        if k == "subcategory"@ && l.indent == INDENT {
            let v = value_of(l.content);
            if let Ok(sc) = resolve_sub(module, v) {
                lemma_section_ok(ls, j + 1, module, header, Some(sc), items, mat, next, first);
            }
        } else if k == "question"@ && l.indent == INDENT {
            lemma_question(ls, j, next);
            lemma_question_ok(ls, j, next);
            if let Ok((q, e)) = question_model(ls, j, next) {
                let before = questions_singles(items) + pending_singles(mat);
                match mat {
                    None => {
                        let items2 = items.push(QuestionV::Single(q));
                        assert(items2.drop_last() =~= items);
                        assert forall|x: int| 0 <= x < items2.len() implies question_ok(#[trigger] items2[x]) by {
                            if x < items.len() {
                                assert(items2[x] == items[x]);
                            }
                        }
                        let after = questions_singles(items2) + pending_singles(None);
                        assert(after =~= before.push(q));
                        assert forall|x: int| 0 <= x < after.len() implies (#[trigger] after[x]).number == first + x by {
                            if x < before.len() {
                                assert(after[x] == before[x]);
                            }
                        }
                        lemma_section_ok(ls, e, module, header, sub, items2, None, next + 1, first);
                    },
                    Some(p) => {
                        let p2 = PendingV { content: p.content, line: p.line, questions: p.questions.push(q) };
                        assert forall|x: int| 0 <= x < p2.questions.len() implies single_ok(#[trigger] p2.questions[x]) by {
                            if x < p.questions.len() {
                                assert(p2.questions[x] == p.questions[x]);
                            }
                        }
                        let after = questions_singles(items) + pending_singles(Some(p2));
                        assert(after =~= before.push(q));
                        assert forall|x: int| 0 <= x < after.len() implies (#[trigger] after[x]).number == first + x by {
                            if x < before.len() {
                                assert(after[x] == before[x]);
                            }
                        }
                        lemma_section_ok(ls, e, module, header, sub, items, Some(p2), next + 1, first);
                    },
                }
            }
        } else if k == "material"@ && l.indent == INDENT {
            if let Ok(closed) = close_material(items, mat) {
                if let Ok((c, e)) = content_field(ls, j, "material"@) {
                    crate::question::lemma_content_field(ls, j, "material"@);
                    if c.len() == 0 {
                        return;
                    }
                    let p = PendingV { content: c, line: l.number, questions: seq![] };
                    assert(questions_singles(closed) + pending_singles(Some(p)) =~= questions_singles(
                        closed,
                    ));
                    lemma_section_ok(ls, e, module, header, sub, closed, Some(p), next, first);
                }
            }
        }
    }
}

proof fn lemma_sections_ok(ls: Seq<LineV>, i: int, next: nat, acc: Seq<SectionV>)
    requires
        sections_ok(acc),
        numbered(sections_singles(acc), 1),
        sections_singles(acc).len() == next - 1,
    ensures
        sections_from(ls, i, next, acc) matches Ok(ss) ==> sections_ok(ss) && numbered(sections_singles(ss), 1),
    decreases ls.len() - i,
{
    let j = skip_blank(ls, i);
    lemma_skip_blank(ls, i);
    if j < 0 || j >= ls.len() || ls[j].indent != 0 {
        return;
    }
    let l = ls[j];
    if let Some(k) = keyword_of(l.content) {
        if k == "module"@ {
            let v = value_of(l.content);
            if let Some(m) = crate::category::module_named(v) {
                crate::parser::lemma_section(ls, j + 1, m, l.number, None, seq![], None, next);
                assert(questions_singles(seq![]) + pending_singles(None) =~= Seq::<SingleV>::empty());
                lemma_section_ok(ls, j + 1, m, l.number, None, seq![], None, next, next);
                if let Ok((s, e, n)) = section_from(ls, j + 1, m, l.number, None, seq![], None, next) {
                    let acc2 = acc.push(s);
                    assert(acc2.drop_last() =~= acc);
                    assert forall|x: int| 0 <= x < acc2.len() implies section_ok(#[trigger] acc2[x]) by {
                        if x < acc.len() {
                            assert(acc2[x] == acc[x]);
                        }
                    }
                    let before = sections_singles(acc);
                    let added = questions_singles(s.questions);
                    let after = sections_singles(acc2);
                    assert(after =~= before + added);
                    assert forall|x: int| 0 <= x < after.len() implies (#[trigger] after[x]).number == 1 + x by {
                        if x < before.len() {
                            assert(after[x] == before[x]);
                        } else {
                            assert(after[x] == added[x - before.len()]);
                        }
                    }
                    lemma_sections_ok(ls, e, n, acc2);
                }
            }
        }
    }
}

/// Every document the parser returns is well formed: it has at least one
/// section; each section holds at least one question, and declares, if any, a
/// sub-category of its own module; each material binds at least one question;
/// stems, options, explanations and materials are never empty; each question
/// has exactly four options; and questions are numbered 1, 2, 3, … in document
/// order across sections and materials.
pub proof fn law_parsed_documents_are_well_formed(source: Seq<char>)
    ensures
        parse_model(source) matches Ok(d) ==> document_ok(d),
{
    if let Ok(ls) = crate::lines::preprocess_model(source) {
        if let Ok((meta, i)) = crate::parser::metadata_from(ls, 0, crate::parser::no_metadata()) {
            assert(sections_singles(Seq::<SectionV>::empty()) =~= Seq::<SingleV>::empty());
            lemma_sections_ok(ls, i, 1, seq![]);
        }
    }
}

} // verus!
