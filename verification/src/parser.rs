//! The parser of question documents.
//!
//! Grammar:
//!
//! ```text
//! @title 题名              ← metadata (indent 0, closed set of keys)
//! @module 模块名            ← module section (indent 0)
//!   @subcategory 子分类      ← optional, before any question
//!   @material              ← optional shared material (indent 2)
//!     材料正文               ← content lines (indent 4)
//!   @question              ← question (indent 2)
//!     @stem 题干首行         ← fields (indent 4)
//!       题干续行             ← content lines (indent 6)
//!     @option A 选项
//!     @answer B
//!     @explanation 解析
//! ```
//!
//! Indentation is part of the structure: two spaces per level, content lines one
//! level deeper than their keyword. A material binds the questions that follow
//! it, up to the next material or the end of its section. Questions are numbered
//! from 1 in document order.

use vstd::prelude::*;

use crate::ast::{
    Content, Document, DocumentV, Metadata, MaterialQuestion, Question, QuestionV, Section, SectionV,
    SingleChoice, SingleV,
};
use crate::category::{
    module_named, module_sub_categories, sub_category_module, sub_category_named, Module,
    SubCategory,
};
use crate::error::{ErrV, ParseError};
use crate::lines::{lines_view, preprocess, preprocess_model, Line, LineV};
use crate::message::{
    msg_empty_document, msg_material_empty, msg_material_value, msg_material_without_questions,
    msg_metadata_late, msg_metadata_repeated, msg_metadata_without_value, msg_module_without_name,
    msg_module_without_subs, msg_no_sections, msg_only_in_question, msg_outside_section,
    msg_section_empty, msg_sub_after_question, msg_sub_other_module, msg_sub_repeated,
    msg_sub_without_name, msg_unknown_keyword, msg_unknown_module, msg_unknown_sub,
    msg_unrecognized_line,
};
use crate::question::{content_field, lemma_content_field, lemma_question, question_model, ContentV};
use crate::syntax::{
    is_known_keyword, keyword_of, lemma_skip_blank, line_indent_error, metadata_key_index,
    misplaced_content, skip_blank, value_of, INDENT,
};

verus! {

/// A material under way: its content, its line number and the questions bound
/// to it so far.
pub struct PendingV {
    pub content: ContentV,
    pub line: int,
    pub questions: Seq<SingleV>,
}

/// The section's questions with the material under way, if any, closed; a
/// material must bind at least one question.
pub open spec fn close_material(items: Seq<QuestionV>, mat: Option<PendingV>) -> Result<
    Seq<QuestionV>,
    ErrV,
> {
    match mat {
        None => Ok(items),
        Some(p) => if p.questions.len() == 0 {
            Err(ErrV { line: p.line as nat, message: msg_material_without_questions() })
        } else {
            Ok(items.push(QuestionV::Material(p.content, p.questions)))
        },
    }
}

/// The sub-category named `v` declared in a section of `module`, or the
/// message that rejects it.
pub open spec fn resolve_sub(module: Module, v: Seq<char>) -> Result<SubCategory, Seq<char>> {
    match sub_category_named(v) {
        Some(sc) => if sub_category_module(sc) == module {
            Ok(sc)
        } else {
            Err(msg_sub_other_module(v, sub_category_module(sc), module))
        },
        None => if module_sub_categories(module).len() == 0 {
            Err(msg_module_without_subs(module, v))
        } else {
            Err(msg_unknown_sub(module, v))
        },
    }
}

/// The end of a section at line `j`.
pub open spec fn finish_section(
    module: Module,
    header: int,
    sub: Option<SubCategory>,
    items: Seq<QuestionV>,
    mat: Option<PendingV>,
    j: int,
    next: nat,
) -> Result<(SectionV, int, nat), ErrV> {
    match close_material(items, mat) {
        Err(e) => Err(e),
        Ok(questions) => if questions.len() == 0 {
            Err(ErrV { line: header as nat, message: msg_section_empty(module) })
        } else {
            Ok((SectionV { module, sub_category: sub, questions }, j, next))
        },
    }
}

/// The rest of a section of `module` declared at line number `header`, from
/// line `i`: `sub` is its sub-category so far, `items` its questions, `mat` the
/// material under way and `next` the number of the next question. Yields the
/// section, the line after it and the next question number.
pub open spec fn section_from(
    ls: Seq<LineV>,
    i: int,
    module: Module,
    header: int,
    sub: Option<SubCategory>,
    items: Seq<QuestionV>,
    mat: Option<PendingV>,
    next: nat,
) -> Result<(SectionV, int, nat), ErrV>
    decreases ls.len() - i,
{
    let j = skip_blank(ls, i);
    proof {
        lemma_skip_blank(ls, i);
    }
    if j < 0 || j >= ls.len() {
        finish_section(module, header, sub, items, mat, j, next)
    } else {
        let l = ls[j];
        if l.indent == 0 {
            if keyword_of(l.content) is None {
                Err(ErrV { line: l.number as nat, message: msg_unrecognized_line() })
            } else {
                finish_section(module, header, sub, items, mat, j, next)
            }
        } else {
            match keyword_of(l.content) {
                None => Err(misplaced_content(l)),
                Some(k) => if k == "subcategory"@ && l.indent == INDENT {
                    if items.len() > 0 || mat is Some {
                        Err(ErrV { line: l.number as nat, message: msg_sub_after_question() })
                    } else if sub is Some {
                        Err(ErrV { line: l.number as nat, message: msg_sub_repeated() })
                    } else {
                        let v = value_of(l.content);
                        if v.len() == 0 {
                            Err(ErrV { line: l.number as nat, message: msg_sub_without_name() })
                        } else {
                            match resolve_sub(module, v) {
                                Err(m) => Err(ErrV { line: l.number as nat, message: m }),
                                Ok(sc) => section_from(ls, j + 1, module, header, Some(sc), items, mat, next),
                            }
                        }
                    }
                } else if k == "question"@ && l.indent == INDENT {
                    proof {
                        lemma_question(ls, j, next);
                    }
                    match question_model(ls, j, next) {
                        Err(e) => Err(e),
                        Ok((q, e)) => match mat {
                            None => section_from(
                                ls,
                                e,
                                module,
                                header,
                                sub,
                                items.push(QuestionV::Single(q)),
                                None,
                                next + 1,
                            ),
                            Some(p) => section_from(
                                ls,
                                e,
                                module,
                                header,
                                sub,
                                items,
                                Some(PendingV { content: p.content, line: p.line, questions: p.questions.push(q) }),
                                next + 1,
                            ),
                        },
                    }
                } else if k == "material"@ && l.indent == INDENT {
                    match close_material(items, mat) {
                        Err(e) => Err(e),
                        Ok(closed) => if value_of(l.content).len() > 0 {
                            Err(ErrV { line: l.number as nat, message: msg_material_value() })
                        } else {
                            proof {
                                lemma_content_field(ls, j, "material"@);
                            }
                            match content_field(ls, j, "material"@) {
                                Err(e) => Err(e),
                                Ok((c, e)) => if c.len() == 0 {
                                    Err(ErrV { line: l.number as nat, message: msg_material_empty() })
                                } else {
                                    section_from(
                                        ls,
                                        e,
                                        module,
                                        header,
                                        sub,
                                        closed,
                                        Some(PendingV { content: c, line: l.number, questions: seq![] }),
                                        next,
                                    )
                                },
                            }
                        },
                    }
                } else if is_known_keyword(k) {
                    Err(ErrV { line: l.number as nat, message: msg_only_in_question(k) })
                } else {
                    Err(ErrV { line: l.number as nat, message: msg_unknown_keyword(k) })
                },
            }
        }
    }
}

pub proof fn lemma_section(
    ls: Seq<LineV>,
    i: int,
    module: Module,
    header: int,
    sub: Option<SubCategory>,
    items: Seq<QuestionV>,
    mat: Option<PendingV>,
    next: nat,
)
    ensures
        section_from(ls, i, module, header, sub, items, mat, next) matches Ok((_, e, _)) ==> i <= e && (i <= ls.len() ==> e <= ls.len()),
    decreases ls.len() - i,
{
    let j = skip_blank(ls, i);
    lemma_skip_blank(ls, i);
    if 0 <= j < ls.len() {
        let l = ls[j];
        if l.indent != 0 {
            if let Some(k) = keyword_of(l.content) {
                if k == "subcategory"@ && l.indent == INDENT {
                    let v = value_of(l.content);
                    if let Ok(sc) = resolve_sub(module, v) {
                        lemma_section(ls, j + 1, module, header, Some(sc), items, mat, next);
                    }
                } else if k == "question"@ && l.indent == INDENT {
                    lemma_question(ls, j, next);
                    if let Ok((q, e)) = question_model(ls, j, next) {
                        match mat {
                            None => lemma_section(ls, e, module, header, sub, items.push(QuestionV::Single(q)), None, next + 1),
                            Some(p) => lemma_section(
                                ls,
                                e,
                                module,
                                header,
                                sub,
                                items,
                                Some(PendingV { content: p.content, line: p.line, questions: p.questions.push(q) }),
                                next + 1,
                            ),
                        }
                    }
                } else if k == "material"@ && l.indent == INDENT {
                    lemma_content_field(ls, j, "material"@);
                    if let Ok(closed) = close_material(items, mat) {
                        if let Ok((c, e)) = content_field(ls, j, "material"@) {
                            lemma_section(
                                ls,
                                e,
                                module,
                                header,
                                sub,
                                closed,
                                Some(PendingV { content: c, line: l.number, questions: seq![] }),
                                next,
                            );
                        }
                    }
                }
            }
        }
    }
}

/// The sections from line `i`, after `acc`; `next` is the number of the next
/// question.
pub open spec fn sections_from(ls: Seq<LineV>, i: int, next: nat, acc: Seq<SectionV>) -> Result<
    Seq<SectionV>,
    ErrV,
>
    decreases ls.len() - i,
{
    let j = skip_blank(ls, i);
    proof {
        lemma_skip_blank(ls, i);
    }
    if j < 0 || j >= ls.len() {
        Ok(acc)
    } else {
        let l = ls[j];
        if l.indent != 0 {
            Err(line_indent_error(l, 0))
        } else {
            match keyword_of(l.content) {
                None => Err(ErrV { line: l.number as nat, message: msg_unrecognized_line() }),
                Some(k) => if k == "module"@ {
                    let v = value_of(l.content);
                    if v.len() == 0 {
                        Err(ErrV { line: l.number as nat, message: msg_module_without_name() })
                    } else {
                        match module_named(v) {
                            None => Err(ErrV { line: l.number as nat, message: msg_unknown_module(v) }),
                            Some(m) => {
                                proof {
                                    lemma_section(ls, j + 1, m, l.number, None, seq![], None, next);
                                }
                                match section_from(ls, j + 1, m, l.number, None, seq![], None, next) {
                                    Err(e) => Err(e),
                                    Ok((s, e, n)) => sections_from(ls, e, n, acc.push(s)),
                                }
                            },
                        }
                    }
                } else if k == "subcategory"@ || k == "question"@ || k == "material"@ {
                    Err(ErrV { line: l.number as nat, message: msg_outside_section(k) })
                } else if metadata_key_index(k) is Some {
                    Err(ErrV { line: l.number as nat, message: msg_metadata_late() })
                } else if is_known_keyword(k) {
                    Err(ErrV { line: l.number as nat, message: msg_only_in_question(k) })
                } else {
                    Err(ErrV { line: l.number as nat, message: msg_unknown_keyword(k) })
                },
            }
        }
    }
}

/// The metadata lines from line `i`, added to `meta`; parsing stops at the
/// first line that is not a metadata line at indentation 0.
pub open spec fn metadata_from(ls: Seq<LineV>, i: int, meta: Seq<Option<Seq<char>>>) -> Result<
    (Seq<Option<Seq<char>>>, int),
    ErrV,
>
    decreases ls.len() - i,
{
    let j = skip_blank(ls, i);
    proof {
        lemma_skip_blank(ls, i);
    }
    if j < 0 || j >= ls.len() {
        Ok((meta, j))
    } else {
        let l = ls[j];
        if l.indent != 0 {
            Ok((meta, j))
        } else {
            match keyword_of(l.content) {
                None => Ok((meta, j)),
                Some(k) => match metadata_key_index(k) {
                    None => Ok((meta, j)),
                    Some(x) => {
                        let v = value_of(l.content);
                        if v.len() == 0 {
                            Err(ErrV { line: l.number as nat, message: msg_metadata_without_value(k) })
                        } else if meta[x as int] is Some {
                            Err(ErrV { line: l.number as nat, message: msg_metadata_repeated(k) })
                        } else {
                            metadata_from(ls, j + 1, meta.update(x as int, Some(v)))
                        }
                    },
                },
            }
        }
    }
}

/// Metadata with no value.
pub open spec fn no_metadata() -> Seq<Option<Seq<char>>> {
    seq![None, None, None, None, None, None, None, None]
}

/// Whether every line is blank.
pub open spec fn all_blank(ls: Seq<LineV>) -> bool {
    forall|k: int| 0 <= k < ls.len() ==> (#[trigger] ls[k]).content.len() == 0
}

/// The document of preprocessed lines `ls`.
pub open spec fn document_model(ls: Seq<LineV>) -> Result<DocumentV, ErrV> {
    if all_blank(ls) {
        Err(ErrV { line: 1, message: msg_empty_document() })
    } else {
        match metadata_from(ls, 0, no_metadata()) {
            Err(e) => Err(e),
            Ok((metadata, i)) => match sections_from(ls, i, 1, seq![]) {
                Err(e) => Err(e),
                Ok(sections) => if sections.len() == 0 {
                    Err(ErrV { line: 1, message: msg_no_sections() })
                } else {
                    Ok(DocumentV { metadata, sections })
                },
            },
        }
    }
}

/// The document of source text `source`, or the first error in it.
pub open spec fn parse_model(source: Seq<char>) -> Result<DocumentV, ErrV> {
    match preprocess_model(source) {
        Err(e) => Err(e),
        Ok(ls) => document_model(ls),
    }
}

/// The view of a material under way.
pub open spec fn pending_view(p: Option<(Content, usize, Vec<SingleChoice>)>) -> Option<PendingV> {
    match p {
        Some((c, line, qs)) => Some(
            PendingV { content: c@, line: line as int, questions: qs@.map_values(|q: SingleChoice| q@) },
        ),
        None => None,
    }
}

/// The views of a sequence of questions.
pub open spec fn questions_view(v: Seq<Question>) -> Seq<QuestionV> {
    v.map_values(|q: Question| q@)
}

/// Closes the material under way, if any, into `items`.
fn close_pending(items: &mut Vec<Question>, mat: Option<(Content, usize, Vec<SingleChoice>)>) -> (r: Result<(), ParseError>)
    ensures
        match r {
            Ok(()) => close_material(questions_view(old(items)@), pending_view(mat)) == Ok::<Seq<QuestionV>, ErrV>(
                questions_view(final(items)@),
            ),
            Err(e) => close_material(questions_view(old(items)@), pending_view(mat)) == Err::<Seq<QuestionV>, ErrV>(
                e@,
            ),
        },
{
    match mat {
        None => Ok(()),
        Some((c, line, qs)) => {
            if qs.len() == 0 {
                return Err(ParseError::new(line, crate::message::owned("材料之后至少要有一道题目")));
            }
            let ghost before = questions_view(items@);
            let q = Question::Material(MaterialQuestion { material: c, questions: qs });
            let ghost qv = q@;
            items.push(q);
            assert(questions_view(items@) =~= before.push(qv));
            Ok(())
        },
    }
}

/// The end of a section at line `j`.
fn finish(
    module: Module,
    header: usize,
    sub: Option<SubCategory>,
    items: Vec<Question>,
    mat: Option<(Content, usize, Vec<SingleChoice>)>,
    j: usize,
    next: usize,
) -> (r: Result<(Section, usize, usize), ParseError>)
    ensures
        match r {
            Ok((s, e, n)) => finish_section(module, header as int, sub, questions_view(items@), pending_view(mat), j as int, next as nat)
                == Ok::<(SectionV, int, nat), ErrV>((s@, e as int, n as nat)) && e == j && n == next,
            Err(e) => finish_section(module, header as int, sub, questions_view(items@), pending_view(mat), j as int, next as nat)
                == Err::<(SectionV, int, nat), ErrV>(e@),
        },
{
    let mut items = items;
    close_pending(&mut items, mat)?;
    if items.len() == 0 {
        return Err(ParseError::new(header, crate::message::section_empty_message(module)));
    }
    Ok((Section { module, sub_category: sub, questions: items }, j, next))
}

/// The sub-category named `v` declared in a section of `module`.
fn resolve_sub_category(module: Module, v: &Vec<char>) -> (r: Result<SubCategory, String>)
    ensures
        match r {
            Ok(sc) => resolve_sub(module, v@) == Ok::<SubCategory, Seq<char>>(sc),
            Err(m) => resolve_sub(module, v@) == Err::<SubCategory, Seq<char>>(m@),
        },
{
    let name = crate::text::string_of(v, 0, v.len());
    assert(v@.subrange(0, v@.len() as int) =~= v@);
    match SubCategory::from_name(name.as_str()) {
        Some(sc) => {
            if sc.module() == module {
                Ok(sc)
            } else {
                Err(crate::message::sub_other_module_message(v, sc.module(), module))
            }
        },
        None => {
            if module.sub_categories().len() == 0 {
                Err(crate::message::module_without_subs_message(module, v))
            } else {
                Err(crate::message::unknown_sub_message(module, v))
            }
        },
    }
}

/// The section of `module` declared at line number `header`, from line `i`;
/// `next` is the number of the next question. Yields the section, the line
/// after it and the next question number.
fn parse_section(ls: &Vec<Line>, i: usize, module: Module, header: usize, next: usize) -> (r: Result<(Section, usize, usize), ParseError>)
    requires
        next <= i <= ls.len(),
    ensures
        match r {
            Ok((s, e, n)) => section_from(lines_view(ls@), i as int, module, header as int, None, seq![], None, next as nat)
                == Ok::<(SectionV, int, nat), ErrV>((s@, e as int, n as nat)) && i <= e <= ls.len() && n <= e,
            Err(e) => section_from(lines_view(ls@), i as int, module, header as int, None, seq![], None, next as nat)
                == Err::<(SectionV, int, nat), ErrV>(e@),
        },
{
    let ghost lv = lines_view(ls@);
    let mut idx = i;
    let mut number = next;
    let mut sub: Option<SubCategory> = None;
    let mut items: Vec<Question> = Vec::new();
    let mut mat: Option<(Content, usize, Vec<SingleChoice>)> = None;
    assert(questions_view(items@) =~= Seq::<QuestionV>::empty());
    loop
        invariant
            i <= idx <= ls.len(),
            number <= idx,
            lv == lines_view(ls@),
            section_from(lv, i as int, module, header as int, None, seq![], None, next as nat)
                == section_from(lv, idx as int, module, header as int, sub, questions_view(items@), pending_view(mat), number as nat),
        decreases ls.len() - idx,
    {
        let j = crate::syntax::next_non_blank(ls, idx);
        if j >= ls.len() {
            return finish(module, header, sub, items, mat, j, number);
        }
        let l = &ls[j];
        assert(lv[j as int] == l@);
        if l.indent == 0 {
            if crate::syntax::keyword(&l.content).is_none() {
                return Err(ParseError::new(l.number, crate::message::owned("无法识别的行：结构行必须以 @ 开头，且顶格书写")));
            }
            return finish(module, header, sub, items, mat, j, number);
        }
        let k = match crate::syntax::keyword(&l.content) {
            None => {
                return Err(crate::syntax::misplaced(l));
            },
            Some(k) => k,
        };
        if crate::text::chars_are(&k, "subcategory") && l.indent == INDENT {
            if items.len() > 0 || mat.is_some() {
                return Err(ParseError::new(l.number, crate::message::owned("子分类必须用「@subcategory」写在题目之前")));
            }
            if sub.is_some() {
                return Err(ParseError::new(l.number, crate::message::owned("「@subcategory」重复")));
            }
            let v = crate::syntax::value(&l.content);
            if v.len() == 0 {
                return Err(ParseError::new(l.number, crate::message::owned("「@subcategory」缺少子分类名")));
            }
            match resolve_sub_category(module, &v) {
                Err(m) => {
                    return Err(ParseError::new(l.number, m));
                },
                Ok(sc) => {
                    sub = Some(sc);
                },
            }
            idx = j + 1;
        } else if crate::text::chars_are(&k, "question") && l.indent == INDENT {
            let (q, e) = crate::question::parse_question(ls, j, number)?;
            let ghost qv = q@;
            match mat {
                None => {
                    let ghost before = questions_view(items@);
                    items.push(Question::Single(q));
                    assert(questions_view(items@) =~= before.push(QuestionV::Single(qv)));
                    mat = None;
                },
                Some((c, line, qs)) => {
                    let mut qs = qs;
                    let ghost before = qs@.map_values(|x: SingleChoice| x@);
                    qs.push(q);
                    assert(qs@.map_values(|x: SingleChoice| x@) =~= before.push(qv));
                    mat = Some((c, line, qs));
                },
            }
            idx = e;
            number = number + 1;
        } else if crate::text::chars_are(&k, "material") && l.indent == INDENT {
            let line = l.number;
            close_pending(&mut items, mat)?;
            let v = crate::syntax::value(&l.content);
            if v.len() > 0 {
                return Err(ParseError::new(line, crate::message::owned("「@material」不接受取值")));
            }
            let (c, e) = crate::question::field_content(ls, j, "material")?;
            if c.paragraphs.len() == 0 {
                return Err(ParseError::new(line, crate::message::owned("材料内容为空")));
            }
            let qs: Vec<SingleChoice> = Vec::new();
            assert(qs@.map_values(|x: SingleChoice| x@) =~= Seq::<SingleV>::empty());
            mat = Some((c, line, qs));
            idx = e;
        } else if crate::syntax::known_keyword(&k) {
            return Err(ParseError::new(l.number, crate::message::around_chars("「@", &k, "」只能出现在题目块内，且缩进 4 个空格")));
        } else {
            return Err(ParseError::new(l.number, crate::message::around_chars("未知关键字「@", &k, "」")));
        }
    }
}

/// The views of a sequence of sections.
pub open spec fn sections_view(v: Seq<Section>) -> Seq<SectionV> {
    v.map_values(|s: Section| s@)
}

/// The sections from line `i`.
fn parse_sections(ls: &Vec<Line>, i: usize) -> (r: Result<Vec<Section>, ParseError>)
    requires
        i <= ls.len(),
    ensures
        match r {
            Ok(ss) => sections_from(lines_view(ls@), i as int, 1, seq![]) == Ok::<Seq<SectionV>, ErrV>(
                sections_view(ss@),
            ),
            Err(e) => sections_from(lines_view(ls@), i as int, 1, seq![]) == Err::<Seq<SectionV>, ErrV>(
                e@,
            ),
        },
{
    let ghost lv = lines_view(ls@);
    let mut idx = i;
    let mut number: usize = 1;
    let mut acc: Vec<Section> = Vec::new();
    assert(sections_view(acc@) =~= Seq::<SectionV>::empty());
    loop
        invariant
            i <= idx <= ls.len(),
            number <= idx + 1,
            lv == lines_view(ls@),
            sections_from(lv, i as int, 1, seq![]) == sections_from(lv, idx as int, number as nat, sections_view(acc@)),
        decreases ls.len() - idx,
    {
        let j = crate::syntax::next_non_blank(ls, idx);
        if j >= ls.len() {
            return Ok(acc);
        }
        let l = &ls[j];
        assert(lv[j as int] == l@);
        if l.indent != 0 {
            return Err(crate::syntax::indent_error(l, 0));
        }
        let k = match crate::syntax::keyword(&l.content) {
            None => {
                return Err(ParseError::new(l.number, crate::message::owned("无法识别的行：结构行必须以 @ 开头，且顶格书写")));
            },
            Some(k) => k,
        };
        if crate::text::chars_are(&k, "module") {
            let v = crate::syntax::value(&l.content);
            if v.len() == 0 {
                return Err(ParseError::new(l.number, crate::message::owned("模块分节缺少模块名")));
            }
            let name = crate::text::string_of(&v, 0, v.len());
            assert(v@.subrange(0, v@.len() as int) =~= v@);
            match Module::from_name(name.as_str()) {
                None => {
                    return Err(ParseError::new(l.number, crate::message::around_chars("未知模块「", &v, "」；官方模块为：言语理解与表达、判断推理、数量关系、资料分析")));
                },
                Some(m) => {
                    let (s, e, n) = parse_section(ls, j + 1, m, l.number, number)?;
                    let ghost before = sections_view(acc@);
                    let ghost sv = s@;
                    acc.push(s);
                    assert(sections_view(acc@) =~= before.push(sv));
                    idx = e;
                    number = n;
                },
            }
        } else if crate::text::chars_are(&k, "subcategory") || crate::text::chars_are(&k, "question")
            || crate::text::chars_are(&k, "material") {
            return Err(ParseError::new(l.number, crate::message::around_chars("「@", &k, "」必须位于模块分节之内，且缩进 2 个空格")));
        } else if crate::syntax::metadata_key(&k).is_some() {
            return Err(ParseError::new(l.number, crate::message::owned("元数据必须写在文档开头")));
        } else if crate::syntax::known_keyword(&k) {
            return Err(ParseError::new(l.number, crate::message::around_chars("「@", &k, "」只能出现在题目块内，且缩进 4 个空格")));
        } else {
            return Err(ParseError::new(l.number, crate::message::around_chars("未知关键字「@", &k, "」")));
        }
    }
}

/// Whether metadata field `x` already has a value.
fn metadata_has(meta: &Metadata, x: usize) -> (r: bool)
    requires
        x < 8,
    ensures
        r == (meta@[x as int] is Some),
{
    if x == 0 {
        meta.title.is_some()
    } else if x == 1 {
        meta.exam.is_some()
    } else if x == 2 {
        meta.year.is_some()
    } else if x == 3 {
        meta.paper.is_some()
    } else if x == 4 {
        meta.region.is_some()
    } else if x == 5 {
        meta.source.is_some()
    } else if x == 6 {
        meta.duration.is_some()
    } else {
        meta.score.is_some()
    }
}

/// Sets metadata field `x` to `v`.
pub(crate) fn metadata_set(meta: &mut Metadata, x: usize, v: String)
    requires
        x < 8,
    ensures
        final(meta)@ == old(meta)@.update(x as int, Some(v@)),
{
    let ghost before = meta@;
    if x == 0 {
        meta.title = Some(v);
    } else if x == 1 {
        meta.exam = Some(v);
    } else if x == 2 {
        meta.year = Some(v);
    } else if x == 3 {
        meta.paper = Some(v);
    } else if x == 4 {
        meta.region = Some(v);
    } else if x == 5 {
        meta.source = Some(v);
    } else if x == 6 {
        meta.duration = Some(v);
    } else {
        meta.score = Some(v);
    }
    assert(meta@ =~= before.update(x as int, Some(v@)));
}

/// The metadata at the head of the document, and the line after it.
fn parse_metadata(ls: &Vec<Line>) -> (r: Result<(Metadata, usize), ParseError>)
    ensures
        match r {
            Ok((m, e)) => metadata_from(lines_view(ls@), 0, no_metadata()) == Ok::<(Seq<Option<Seq<char>>>, int), ErrV>(
                (m@, e as int),
            ) && e <= ls.len(),
            Err(e) => metadata_from(lines_view(ls@), 0, no_metadata()) == Err::<(Seq<Option<Seq<char>>>, int), ErrV>(
                e@,
            ),
        },
{
    let ghost lv = lines_view(ls@);
    let mut meta = Metadata::new();
    assert(meta@ =~= no_metadata());
    let mut idx: usize = 0;
    loop
        invariant
            idx <= ls.len(),
            lv == lines_view(ls@),
            metadata_from(lv, 0, no_metadata()) == metadata_from(lv, idx as int, meta@),
        decreases ls.len() - idx,
    {
        let j = crate::syntax::next_non_blank(ls, idx);
        if j >= ls.len() {
            return Ok((meta, j));
        }
        let l = &ls[j];
        assert(lv[j as int] == l@);
        if l.indent != 0 {
            return Ok((meta, j));
        }
        let k = match crate::syntax::keyword(&l.content) {
            None => {
                return Ok((meta, j));
            },
            Some(k) => k,
        };
        let x = match crate::syntax::metadata_key(&k) {
            None => {
                return Ok((meta, j));
            },
            Some(x) => x,
        };
        let v = crate::syntax::value(&l.content);
        if v.len() == 0 {
            return Err(ParseError::new(l.number, crate::message::around_chars("「@", &k, "」缺少取值")));
        }
        if metadata_has(&meta, x) {
            return Err(ParseError::new(l.number, crate::message::around_chars("元数据「@", &k, "」重复")));
        }
        let value = crate::text::string_of(&v, 0, v.len());
        assert(v@.subrange(0, v@.len() as int) =~= v@);
        metadata_set(&mut meta, x, value);
        idx = j + 1;
    }
}

/// The document of preprocessed lines `ls`.
fn parse_document(ls: &Vec<Line>) -> (r: Result<Document, ParseError>)
    ensures
        match r {
            Ok(d) => document_model(lines_view(ls@)) == Ok::<DocumentV, ErrV>(d@),
            Err(e) => document_model(lines_view(ls@)) == Err::<DocumentV, ErrV>(e@),
        },
{
    let ghost lv = lines_view(ls@);
    let mut k: usize = 0;
    while k < ls.len()
        invariant
            k <= ls.len(),
            lv == lines_view(ls@),
            forall|m: int| 0 <= m < k ==> (#[trigger] lv[m]).content.len() == 0,
        ensures
            k <= ls.len(),
            forall|m: int| 0 <= m < k ==> (#[trigger] lv[m]).content.len() == 0,
            k < ls.len() ==> lv[k as int].content.len() != 0,
        decreases ls.len() - k,
    {
        assert(lv[k as int] == ls@[k as int]@);
        if ls[k].content.len() != 0 {
            break;
        }
        k = k + 1;
    }
    if k >= ls.len() {
        return Err(ParseError::new(1, crate::message::owned("文档为空")));
    }
    let (metadata, i) = parse_metadata(ls)?;
    let sections = parse_sections(ls, i)?;
    if sections.len() == 0 {
        return Err(ParseError::new(1, crate::message::owned("文档不含任何模块分节")));
    }
    Ok(Document { metadata, sections })
}

/// Parses a question document.
pub fn parse(source: &str) -> (r: Result<Document, ParseError>)
    ensures
        match r {
            Ok(d) => parse_model(source@) == Ok::<DocumentV, ErrV>(d@),
            Err(e) => parse_model(source@) == Err::<DocumentV, ErrV>(e@),
        },
{
    let chars = crate::text::chars_of(source);
    let ls = preprocess(&chars)?;
    parse_document(&ls)
}

/// A byte-order mark in front of a source changes nothing: the document, or
/// the error, is the same as without it.
pub proof fn law_bom_is_ignored(source: Seq<char>)
    requires
        source.len() == 0 || source[0] != '\u{feff}',
    ensures
        parse_model(seq!['\u{feff}'] + source) == parse_model(source),
{
    let with = seq!['\u{feff}'] + source;
    assert(crate::lines::strip_bom(with) =~= source);
    assert(crate::lines::strip_bom(source) == source);
}

/// Windows line endings change nothing: a source saved with `\r\n` for every
/// line break parses to the same document, or the same error, as with `\n`.
pub proof fn law_windows_line_endings_parse_alike(source: Seq<char>)
    ensures
        parse_model(crate::lines::with_crlf(source)) == parse_model(source),
{
    crate::lines::law_windows_line_endings_preprocess_alike(source);
}

} // verus!
