//! Rendering a document to one complete, stand-alone HTML document.
//!
//! Rendering reads the AST only. Each image reference is written where the
//! caller's resolver maps it; the resolver is asked once per image, in
//! document order, before any HTML is written.

use vstd::prelude::*;

use crate::ast::{
    choice_letter, Content, Document, DocumentV, Inline, InlineV, Metadata, Paragraph, Question,
    QuestionV, Section, SectionV, SingleChoice, SingleV,
};
use crate::category::{module_name, sub_category_name};
use crate::html::{escape, escaped, ln, push_escaped, text_html, Html};
use crate::message::option_letter;
use crate::question::ContentV;
use crate::inline::inlines_view;
use crate::text::{decimal, decimal_string, push_char, push_str};

verus! {

/// The image paths of an inline node.
pub open spec fn inline_images(x: InlineV) -> Seq<Seq<char>> {
    match x {
        InlineV::Image(p) => seq![p],
        _ => seq![],
    }
}

/// The image paths of the items of `s`, item by item, where `f` gives those
/// of one item.
pub open spec fn flat_map<T>(s: Seq<T>, f: spec_fn(T) -> Seq<Seq<char>>) -> Seq<Seq<char>>
    decreases s.len(),
{
    if s.len() == 0 {
        seq![]
    } else {
        flat_map(s.drop_last(), f) + f(s.last())
    }
}

/// A prefix of the items has no more image paths than all of them.
pub proof fn lemma_flat_map_prefix<T>(s: Seq<T>, f: spec_fn(T) -> Seq<Seq<char>>, i: int)
    requires
        0 <= i <= s.len(),
    ensures
        flat_map(s.take(i), f).len() <= flat_map(s, f).len(),
    decreases s.len(),
{
    if i < s.len() {
        assert(s.drop_last().take(i) =~= s.take(i));
        lemma_flat_map_prefix(s.drop_last(), f, i);
    } else {
        assert(s.take(i) =~= s);
    }
}

/// The image paths of the first `i + 1` items: those of the first `i`, then
/// those of item `i`.
pub proof fn lemma_flat_map_step<T>(s: Seq<T>, f: spec_fn(T) -> Seq<Seq<char>>, i: int)
    requires
        0 <= i < s.len(),
    ensures
        flat_map(s.take(i + 1), f) == flat_map(s.take(i), f) + f(s[i]),
{
    assert(s.take(i + 1).drop_last() =~= s.take(i));
}

/// The image paths of inline nodes, in order.
pub open spec fn inlines_images(xs: Seq<InlineV>) -> Seq<Seq<char>> {
    flat_map(xs, |x: InlineV| inline_images(x))
}

/// The image paths of content, in order.
pub open spec fn content_images(c: ContentV) -> Seq<Seq<char>> {
    flat_map(c, |p: Seq<InlineV>| inlines_images(p))
}

/// The image paths of several contents, in order.
pub open spec fn contents_images(cs: Seq<ContentV>) -> Seq<Seq<char>> {
    flat_map(cs, |c: ContentV| content_images(c))
}

/// The image paths of an optional content.
pub open spec fn opt_images(c: Option<ContentV>) -> Seq<Seq<char>> {
    match c {
        Some(c) => content_images(c),
        None => seq![],
    }
}

/// The image paths of a single-choice question: stem, options, explanation.
pub open spec fn single_images(q: SingleV) -> Seq<Seq<char>> {
    content_images(q.stem) + contents_images(q.options) + opt_images(q.explanation)
}

/// The image paths of single-choice questions, in order.
pub open spec fn singles_images(qs: Seq<SingleV>) -> Seq<Seq<char>> {
    flat_map(qs, |q: SingleV| single_images(q))
}

/// The image paths of a question: a material's own, then its sub-questions'.
pub open spec fn question_images(q: QuestionV) -> Seq<Seq<char>> {
    match q {
        QuestionV::Single(s) => single_images(s),
        QuestionV::Material(c, qs) => content_images(c) + singles_images(qs),
    }
}

/// The image paths of questions, in order.
pub open spec fn questions_images(qs: Seq<QuestionV>) -> Seq<Seq<char>> {
    flat_map(qs, |q: QuestionV| question_images(q))
}

/// The image paths of sections, in order.
pub open spec fn sections_images(ss: Seq<SectionV>) -> Seq<Seq<char>> {
    flat_map(ss, |s: SectionV| questions_images(s.questions))
}

/// The image paths of a document, in document order.
pub open spec fn document_images(d: DocumentV) -> Seq<Seq<char>> {
    sections_images(d.sections)
}

/// An inline node in HTML; an image is written at `res[k]`.
pub open spec fn inline_html(x: InlineV, res: Seq<Seq<char>>, k: int) -> Seq<char> {
    match x {
        InlineV::Text(t) => text_html(t),
        InlineV::Math(s) => "<span class=\"math\">"@ + escape(s) + "</span>"@,
        InlineV::Image(_) => "<img src=\""@ + escape(res[k]) + "\" alt=\"\">"@,
        InlineV::Blank => "<span class=\"blank\"></span>"@,
    }
}

/// Inline nodes in HTML; their images are written at `res[k..]`.
pub open spec fn inlines_html(xs: Seq<InlineV>, res: Seq<Seq<char>>, k: int) -> Seq<char>
    decreases xs.len(),
{
    if xs.len() == 0 {
        seq![]
    } else {
        inlines_html(xs.drop_last(), res, k) + inline_html(
            xs.last(),
            res,
            k + inlines_images(xs.drop_last()).len(),
        )
    }
}

/// Content on one line of HTML, paragraph after paragraph, with a blank line
/// between two paragraphs: one `<br>` ends the line, a second leaves it empty.
pub open spec fn content_html(c: ContentV, res: Seq<Seq<char>>, k: int) -> Seq<char>
    decreases c.len(),
{
    if c.len() == 0 {
        seq![]
    } else if c.len() == 1 {
        inlines_html(c[0], res, k)
    } else {
        content_html(c.drop_last(), res, k) + "<br><br>"@ + inlines_html(
            c.last(),
            res,
            k + content_images(c.drop_last()).len(),
        )
    }
}

/// One `<p>` line per paragraph at depth `d`: `open` starts each, `first`
/// follows it in the first paragraph only.
pub open spec fn paragraph_lines(
    d: nat,
    c: ContentV,
    res: Seq<Seq<char>>,
    k: int,
    open: Seq<char>,
    first: Seq<char>,
) -> Seq<char>
    decreases c.len(),
{
    if c.len() == 0 {
        seq![]
    } else {
        paragraph_lines(d, c.drop_last(), res, k, open, first) + ln(
            d,
            open + (if c.len() == 1 {
                first
            } else {
                seq![]
            }) + inlines_html(c.last(), res, k + content_images(c.drop_last()).len()) + "</p>"@,
        )
    }
}

/// One `<li>` line per option at depth `d`, lettered A, B, C, D.
pub open spec fn option_lines(d: nat, cs: Seq<ContentV>, res: Seq<Seq<char>>, k: int) -> Seq<char>
    decreases cs.len(),
{
    if cs.len() == 0 {
        seq![]
    } else {
        option_lines(d, cs.drop_last(), res, k) + ln(
            d,
            "<li><span class=\"option-letter\">"@ + seq![option_letter((cs.len() - 1) as nat)]
                + ".</span> "@ + content_html(cs.last(), res, k + contents_images(cs.drop_last()).len())
                + "</li>"@,
        )
    }
}

/// The number of a question before its stem.
pub open spec fn number_span(n: nat) -> Seq<char> {
    "<span class=\"question-number\">"@ + decimal(n) + ".</span> "@
}

/// The explanation block of a question at depth `d`.
pub open spec fn explanation_lines(d: nat, c: Option<ContentV>, res: Seq<Seq<char>>, k: int) -> Seq<char> {
    match c {
        None => seq![],
        Some(c) => ln(d, "<div class=\"explanation\">"@) + paragraph_lines(
            d + 1,
            c,
            res,
            k,
            "<p>"@,
            "<span class=\"label\">解析：</span>"@,
        ) + ln(d, "</div>"@),
    }
}

/// A single-choice question at depth `d`; its images are written at `res[k..]`.
#[verifier::opaque]
pub open spec fn single_lines(d: nat, q: SingleV, res: Seq<Seq<char>>, k: int) -> Seq<char> {
    let k1 = k + content_images(q.stem).len();
    let k2 = k1 + contents_images(q.options).len();
    ln(d, "<article class=\"question\">"@) + paragraph_lines(
        d + 1,
        q.stem,
        res,
        k,
        "<p class=\"stem\">"@,
        number_span(q.number),
    ) + ln(d + 1, "<ul class=\"options\">"@) + option_lines(d + 2, q.options, res, k1) + ln(
        d + 1,
        "</ul>"@,
    ) + ln(d + 1, "<p class=\"answer\">答案："@ + seq![choice_letter(q.answer)] + "</p>"@)
        + explanation_lines(d + 1, q.explanation, res, k2) + ln(d, "</article>"@)
}

/// Single-choice questions at depth `d`, in order.
pub open spec fn singles_lines(d: nat, qs: Seq<SingleV>, res: Seq<Seq<char>>, k: int) -> Seq<char>
    decreases qs.len(),
{
    if qs.len() == 0 {
        seq![]
    } else {
        singles_lines(d, qs.drop_last(), res, k) + single_lines(
            d,
            qs.last(),
            res,
            k + singles_images(qs.drop_last()).len(),
        )
    }
}

/// A question at depth `d`.
#[verifier::opaque]
pub open spec fn question_lines(d: nat, q: QuestionV, res: Seq<Seq<char>>, k: int) -> Seq<char> {
    match q {
        QuestionV::Single(s) => single_lines(d, s, res, k),
        QuestionV::Material(c, qs) => ln(d, "<div class=\"material-question\">"@) + ln(
            d + 1,
            "<div class=\"material\">"@,
        ) + paragraph_lines(d + 2, c, res, k, "<p>"@, seq![]) + ln(d + 1, "</div>"@)
            + singles_lines(d + 1, qs, res, k + content_images(c).len()) + ln(d, "</div>"@),
    }
}

/// Questions at depth `d`, in order.
pub open spec fn questions_lines(d: nat, qs: Seq<QuestionV>, res: Seq<Seq<char>>, k: int) -> Seq<char>
    decreases qs.len(),
{
    if qs.len() == 0 {
        seq![]
    } else {
        questions_lines(d, qs.drop_last(), res, k) + question_lines(
            d,
            qs.last(),
            res,
            k + questions_images(qs.drop_last()).len(),
        )
    }
}

/// A section at depth `d`.
#[verifier::opaque]
pub open spec fn section_lines(d: nat, s: SectionV, res: Seq<Seq<char>>, k: int) -> Seq<char> {
    ln(d, "<section class=\"module\">"@) + ln(d + 1, "<h2>"@ + escape(module_name(s.module)) + "</h2>"@)
        + (match s.sub_category {
        Some(sc) => ln(d + 1, "<h3 class=\"sub-category\">"@ + escape(sub_category_name(sc)) + "</h3>"@),
        None => seq![],
    }) + questions_lines(d + 1, s.questions, res, k) + ln(d, "</section>"@)
}

/// Sections at depth `d`, in order.
pub open spec fn sections_lines(d: nat, ss: Seq<SectionV>, res: Seq<Seq<char>>, k: int) -> Seq<char>
    decreases ss.len(),
{
    if ss.len() == 0 {
        seq![]
    } else {
        sections_lines(d, ss.drop_last(), res, k) + section_lines(
            d,
            ss.last(),
            res,
            k + sections_images(ss.drop_last()).len(),
        )
    }
}

/// The title of a document; `题目文档` when it has none.
pub open spec fn title_of(d: DocumentV) -> Seq<char> {
    match d.metadata[0] {
        Some(t) => t,
        None => "题目文档"@,
    }
}

/// The values of the header's metadata line, in order: exam, year, paper,
/// region, source.
pub open spec fn meta_values(meta: Seq<Option<Seq<char>>>) -> Seq<Option<Seq<char>>> {
    meta.subrange(1, 6)
}

/// The present values among `vs`, escaped.
pub open spec fn present_escaped(vs: Seq<Option<Seq<char>>>) -> Seq<Seq<char>>
    decreases vs.len(),
{
    if vs.len() == 0 {
        seq![]
    } else {
        match vs.last() {
            None => present_escaped(vs.drop_last()),
            Some(v) => present_escaped(vs.drop_last()).push(escape(v)),
        }
    }
}

/// `parts` joined by `sep`.
pub open spec fn join(parts: Seq<Seq<char>>, sep: Seq<char>) -> Seq<char>
    decreases parts.len(),
{
    if parts.len() == 0 {
        seq![]
    } else if parts.len() == 1 {
        parts[0]
    } else {
        join(parts.drop_last(), sep) + sep + parts.last()
    }
}

/// The metadata line: the values present, escaped, joined by ` · `.
pub open spec fn meta_join(vs: Seq<Option<Seq<char>>>) -> Seq<char> {
    join(present_escaped(vs), " · "@)
}

/// The header of a document at depth `d`.
pub open spec fn header_lines(d: nat, doc: DocumentV) -> Seq<char> {
    let meta = meta_join(meta_values(doc.metadata));
    ln(d, "<header class=\"paper-header\">"@) + ln(d + 1, "<h1>"@ + escape(title_of(doc)) + "</h1>"@)
        + (if meta.len() > 0 {
        ln(d + 1, "<p class=\"paper-meta\">"@ + meta + "</p>"@)
    } else {
        seq![]
    }) + ln(d, "</header>"@)
}

/// The rules of the minimal style sheet, one per line.
pub open spec fn style_rules() -> Seq<Seq<char>> {
    seq![
        "body { margin: 0 auto; max-width: 40rem; padding: 2rem 1rem; font-family: system-ui, sans-serif; line-height: 1.8; color: #222; }"@,
        "h1 { font-size: 1.4rem; }"@,
        "h2 { font-size: 1.15rem; margin-top: 2.5rem; }"@,
        "h3 { font-size: 1rem; color: #666; }"@,
        ".paper-meta { color: #666; font-size: .9rem; }"@,
        ".question { margin: 1.5rem 0; }"@,
        ".options { list-style: none; padding: 0; }"@,
        ".options li { margin: .25rem 0; }"@,
        ".answer { font-weight: 600; }"@,
        ".explanation { color: #444; }"@,
        ".material { margin: 1.5rem 0 0; }"@,
        ".blank { display: inline-block; width: 4em; height: 1em; border-bottom: 1px solid currentColor; }"@,
    ]
}

/// Lines at depth `d`, in order.
pub open spec fn lines_at(d: nat, rules: Seq<Seq<char>>) -> Seq<char>
    decreases rules.len(),
{
    if rules.len() == 0 {
        seq![]
    } else {
        lines_at(d, rules.drop_last()) + ln(d, rules.last())
    }
}

/// The complete HTML document for `doc`, its images written at `res` in
/// document order.
pub open spec fn render_model(doc: DocumentV, res: Seq<Seq<char>>) -> Seq<char> {
    ln(0, "<!DOCTYPE html>"@) + ln(0, "<html lang=\"zh-CN\">"@) + ln(1, "<head>"@) + ln(
        2,
        "<meta charset=\"utf-8\">"@,
    ) + ln(2, "<meta name=\"viewport\" content=\"width=device-width, initial-scale=1\">"@) + ln(
        2,
        "<title>"@ + escape(title_of(doc)) + "</title>"@,
    ) + ln(2, "<style>"@) + lines_at(3, style_rules()) + ln(2, "</style>"@) + ln(1, "</head>"@)
        + ln(1, "<body>"@) + ln(2, "<article class=\"paper\">"@) + header_lines(3, doc)
        + sections_lines(3, doc.sections, res, 0) + ln(2, "</article>"@) + ln(1, "</body>"@) + ln(
        0,
        "</html>"@,
    )
}

/// The views of a sequence of strings.
pub open spec fn strings_view(v: Seq<String>) -> Seq<Seq<char>> {
    v.map_values(|s: String| s@)
}

/// Appends an inline node in HTML; an image is written at `res[k]`.
fn push_inline(out: &mut String, x: &Inline, res: &Vec<String>, k: usize) -> (r: usize)
    requires
        k + inline_images(x@).len() <= res.len(),
    ensures
        final(out)@ == old(out)@ + inline_html(x@, strings_view(res@), k as int),
        r == k + inline_images(x@).len(),
{
    match x {
        Inline::Text(t) => {
            push_escaped(out, t.as_str(), true);
            k
        },
        Inline::Math(m) => {
            push_str(out, "<span class=\"math\">");
            push_escaped(out, m.as_str(), false);
            push_str(out, "</span>");
            k
        },
        Inline::Image(_) => {
            assert(strings_view(res@)[k as int] == res@[k as int]@);
            push_str(out, "<img src=\"");
            push_escaped(out, res[k].as_str(), false);
            push_str(out, "\" alt=\"\">");
            k + 1
        },
        Inline::Blank => {
            push_str(out, "<span class=\"blank\"></span>");
            k
        },
    }
}

/// Appends inline nodes in HTML; their images are written at `res[k..]`.
/// Returns the index after their images.
fn push_inlines(out: &mut String, xs: &Vec<Inline>, res: &Vec<String>, k: usize) -> (r: usize)
    requires
        k + inlines_images(inlines_view(xs@)).len() <= res.len(),
    ensures
        final(out)@ == old(out)@ + inlines_html(inlines_view(xs@), strings_view(res@), k as int),
        r == k + inlines_images(inlines_view(xs@)).len(),
{
    let ghost xv = inlines_view(xs@);
    let ghost f = |x: InlineV| inline_images(x);
    let mut i: usize = 0;
    let mut at = k;
    assert(xv.take(0) =~= Seq::<InlineV>::empty());
    while i < xs.len()
        invariant
            0 <= i <= xs.len(),
            xv == inlines_view(xs@),
            f == (|x: InlineV| inline_images(x)),
            k + flat_map(xv, f).len() <= res.len(),
            at == k + flat_map(xv.take(i as int), f).len(),
            out@ == old(out)@ + inlines_html(xv.take(i as int), strings_view(res@), k as int),
        decreases xs.len() - i,
    {
        proof {
            lemma_flat_map_step(xv, f, i as int);
            lemma_flat_map_prefix(xv, f, i + 1);
            assert(xv.take(i + 1).drop_last() =~= xv.take(i as int));
            assert(xv[i as int] == xs@[i as int]@);
        }
        at = push_inline(out, &xs[i], res, at);
        i = i + 1;
    }
    assert(xv.take(xv.len() as int) =~= xv);
    at
}

/// The views of a sequence of paragraphs.
pub open spec fn paras_view(v: Seq<Paragraph>) -> Seq<Seq<InlineV>> {
    v.map_values(|p: Paragraph| p@)
}

/// Appends content on one line, with a blank line (`<br><br>`) between two
/// paragraphs. Returns the index after its images.
fn push_content(out: &mut String, c: &Content, res: &Vec<String>, k: usize) -> (r: usize)
    requires
        k + content_images(c@).len() <= res.len(),
    ensures
        final(out)@ == old(out)@ + content_html(c@, strings_view(res@), k as int),
        r == k + content_images(c@).len(),
{
    let ghost cv = c@;
    let ghost f = |p: Seq<InlineV>| inlines_images(p);
    let mut i: usize = 0;
    let mut at = k;
    assert(cv.take(0) =~= Seq::<Seq<InlineV>>::empty());
    while i < c.paragraphs.len()
        invariant
            0 <= i <= c.paragraphs.len(),
            cv == c@,
            cv.len() == c.paragraphs.len(),
            f == (|p: Seq<InlineV>| inlines_images(p)),
            k + flat_map(cv, f).len() <= res.len(),
            at == k + flat_map(cv.take(i as int), f).len(),
            out@ == old(out)@ + content_html(cv.take(i as int), strings_view(res@), k as int),
        decreases c.paragraphs.len() - i,
    {
        proof {
            lemma_flat_map_step(cv, f, i as int);
            lemma_flat_map_prefix(cv, f, i + 1);
            assert(cv.take(i + 1).drop_last() =~= cv.take(i as int));
            assert(cv[i as int] == c.paragraphs@[i as int]@);
            if i == 0 {
                assert(cv.take(1)[0] == cv[0]);
            }
        }
        if i > 0 {
            push_str(out, "<br><br>");
        }
        at = push_inlines(out, &c.paragraphs[i].0, res, at);
        i = i + 1;
    }
    assert(cv.take(cv.len() as int) =~= cv);
    at
}

/// Writes one `<p>` line per paragraph: `open` starts each, `first` follows it
/// in the first paragraph only. Returns the index after the images.
fn write_paragraphs(h: &mut Html, c: &Content, res: &Vec<String>, k: usize, open: &str, first: &str) -> (r: usize)
    requires
        k + content_images(c@).len() <= res.len(),
    ensures
        final(h).output@ == old(h).output@ + paragraph_lines(
            old(h).depth as nat,
            c@,
            strings_view(res@),
            k as int,
            open@,
            first@,
        ),
        final(h).depth == old(h).depth,
        r == k + content_images(c@).len(),
{
    let ghost cv = c@;
    let ghost f = |p: Seq<InlineV>| inlines_images(p);
    let mut i: usize = 0;
    let mut at = k;
    assert(cv.take(0) =~= Seq::<Seq<InlineV>>::empty());
    while i < c.paragraphs.len()
        invariant
            0 <= i <= c.paragraphs.len(),
            cv == c@,
            cv.len() == c.paragraphs.len(),
            f == (|p: Seq<InlineV>| inlines_images(p)),
            k + flat_map(cv, f).len() <= res.len(),
            at == k + flat_map(cv.take(i as int), f).len(),
            h.depth == old(h).depth,
            h.output@ == old(h).output@ + paragraph_lines(
                h.depth as nat,
                cv.take(i as int),
                strings_view(res@),
                k as int,
                open@,
                first@,
            ),
        decreases c.paragraphs.len() - i,
    {
        proof {
            lemma_flat_map_step(cv, f, i as int);
            lemma_flat_map_prefix(cv, f, i + 1);
            assert(cv.take(i + 1).drop_last() =~= cv.take(i as int));
            assert(cv[i as int] == c.paragraphs@[i as int]@);
        }
        let mut markup = String::new();
        push_str(&mut markup, open);
        if i == 0 {
            push_str(&mut markup, first);
        }
        let ghost before = markup@;
        at = push_inlines(&mut markup, &c.paragraphs[i].0, res, at);
        push_str(&mut markup, "</p>");
        proof {
            if i == 0 {
                assert(before == open@ + first@);
            } else {
                assert(before =~= open@ + Seq::<char>::empty());
            }
        }
        h.line(markup.as_str());
        i = i + 1;
    }
    assert(cv.take(cv.len() as int) =~= cv);
    at
}

/// Writes the four options, lettered A to D. Returns the index after their
/// images.
fn write_options(h: &mut Html, opts: &[Content; 4], res: &Vec<String>, k: usize) -> (r: usize)
    requires
        k + contents_images(opts@.map_values(|c: Content| c@)).len() <= res.len(),
    ensures
        final(h).output@ == old(h).output@ + option_lines(
            old(h).depth as nat,
            opts@.map_values(|c: Content| c@),
            strings_view(res@),
            k as int,
        ),
        final(h).depth == old(h).depth,
        r == k + contents_images(opts@.map_values(|c: Content| c@)).len(),
{
    let ghost ov = opts@.map_values(|c: Content| c@);
    let ghost f = |c: ContentV| content_images(c);
    let mut i: usize = 0;
    let mut at = k;
    assert(ov.take(0) =~= Seq::<ContentV>::empty());
    while i < 4
        invariant
            0 <= i <= 4,
            ov == opts@.map_values(|c: Content| c@),
            ov.len() == 4,
            f == (|c: ContentV| content_images(c)),
            k + flat_map(ov, f).len() <= res.len(),
            at == k + flat_map(ov.take(i as int), f).len(),
            h.depth == old(h).depth,
            h.output@ == old(h).output@ + option_lines(h.depth as nat, ov.take(i as int), strings_view(res@), k as int),
        decreases 4 - i,
    {
        proof {
            lemma_flat_map_step(ov, f, i as int);
            lemma_flat_map_prefix(ov, f, i + 1);
            assert(ov.take(i + 1).drop_last() =~= ov.take(i as int));
            assert(ov[i as int] == opts@[i as int]@);
        }
        let letter = if i == 0 {
            'A'
        } else if i == 1 {
            'B'
        } else if i == 2 {
            'C'
        } else {
            'D'
        };
        let mut markup = String::new();
        push_str(&mut markup, "<li><span class=\"option-letter\">");
        push_char(&mut markup, letter);
        push_str(&mut markup, ".</span> ");
        at = push_content(&mut markup, &opts[i], res, at);
        push_str(&mut markup, "</li>");
        h.line(markup.as_str());
        i = i + 1;
    }
    assert(ov.take(4) =~= ov);
    at
}

/// Writes the explanation block, if any. Returns the index after its images.
fn write_explanation(h: &mut Html, c: &Option<Content>, res: &Vec<String>, k: usize) -> (r: usize)
    requires
        k + opt_images(crate::question::opt_content(*c)).len() <= res.len(),
        old(h).depth < 1000,
    ensures
        final(h).output@ == old(h).output@ + explanation_lines(
            old(h).depth as nat,
            crate::question::opt_content(*c),
            strings_view(res@),
            k as int,
        ),
        final(h).depth == old(h).depth,
        r == k + opt_images(crate::question::opt_content(*c)).len(),
{
    match c {
        None => {
            assert(h.output@ =~= h.output@ + Seq::<char>::empty());
            k
        },
        Some(c) => {
            h.open("<div class=\"explanation\">");
            let r = write_paragraphs(h, c, res, k, "<p>", "<span class=\"label\">解析：</span>");
            h.close("</div>");
            r
        },
    }
}

/// The view of optional content.
pub open spec fn single_options(q: SingleChoice) -> Seq<ContentV> {
    q.options@.map_values(|c: Content| c@)
}

/// Writes a single-choice question. Returns the index after its images.
#[verifier::rlimit(60)]
fn write_single(h: &mut Html, q: &SingleChoice, res: &Vec<String>, k: usize) -> (r: usize)
    requires
        k + single_images(q@).len() <= res.len(),
        old(h).depth < 999,
    ensures
        final(h).output@ == old(h).output@ + single_lines(old(h).depth as nat, q@, strings_view(res@), k as int),
        final(h).depth == old(h).depth,
        r == k + single_images(q@).len(),
{
    let ghost d = h.depth as nat;
    let ghost o = h.output@;
    let ghost rv = strings_view(res@);
    let ghost qv = q@;
    let ghost k1v = k + content_images(qv.stem).len();
    let ghost k2v = k1v + contents_images(qv.options).len();
    let ghost p1 = ln(d, "<article class=\"question\">"@);
    h.open("<article class=\"question\">");
    let mut number = String::new();
    push_str(&mut number, "<span class=\"question-number\">");
    let n = decimal_string(q.number);
    push_str(&mut number, n.as_str());
    push_str(&mut number, ".</span> ");
    let ghost o1 = h.output@;
    let k1 = write_paragraphs(h, &q.stem, res, k, "<p class=\"stem\">", number.as_str());
    let ghost p2 = p1 + paragraph_lines(d + 1, qv.stem, rv, k as int, "<p class=\"stem\">"@, number_span(qv.number));
    assert(h.output@ =~= o + p2);
    h.open("<ul class=\"options\">");
    let ghost p3 = p2 + ln(d + 1, "<ul class=\"options\">"@);
    assert(h.output@ =~= o + p3);
    let k2 = write_options(h, &q.options, res, k1);
    let ghost p4 = p3 + option_lines(d + 2, qv.options, rv, k1v);
    assert(h.output@ =~= o + p4);
    h.close("</ul>");
    let ghost p5 = p4 + ln(d + 1, "</ul>"@);
    assert(h.output@ =~= o + p5);
    let mut answer = String::new();
    push_str(&mut answer, "<p class=\"answer\">答案：");
    push_char(&mut answer, q.answer.letter());
    push_str(&mut answer, "</p>");
    h.line(answer.as_str());
    let ghost p6 = p5 + ln(d + 1, "<p class=\"answer\">答案："@ + seq![choice_letter(qv.answer)] + "</p>"@);
    assert(h.output@ =~= o + p6);
    let k3 = write_explanation(h, &q.explanation, res, k2);
    let ghost p7 = p6 + explanation_lines(d + 1, qv.explanation, rv, k2v);
    assert(h.output@ =~= o + p7);
    h.close("</article>");
    let ghost p8 = p7 + ln(d, "</article>"@);
    assert(h.output@ =~= o + p8);
    proof {
        reveal(single_lines);
        assert(p8 == single_lines(d, qv, rv, k as int));
    }
    k3
}

/// Writes single-choice questions in order. Returns the index after their
/// images.
fn write_singles(h: &mut Html, qs: &Vec<SingleChoice>, res: &Vec<String>, k: usize) -> (r: usize)
    requires
        k + singles_images(qs@.map_values(|q: SingleChoice| q@)).len() <= res.len(),
        old(h).depth < 999,
    ensures
        final(h).output@ == old(h).output@ + singles_lines(
            old(h).depth as nat,
            qs@.map_values(|q: SingleChoice| q@),
            strings_view(res@),
            k as int,
        ),
        final(h).depth == old(h).depth,
        r == k + singles_images(qs@.map_values(|q: SingleChoice| q@)).len(),
{
    let ghost qv = qs@.map_values(|q: SingleChoice| q@);
    let ghost f = |q: SingleV| single_images(q);
    let mut i: usize = 0;
    let mut at = k;
    assert(qv.take(0) =~= Seq::<SingleV>::empty());
    while i < qs.len()
        invariant
            0 <= i <= qs.len(),
            qv == qs@.map_values(|q: SingleChoice| q@),
            f == (|q: SingleV| single_images(q)),
            k + flat_map(qv, f).len() <= res.len(),
            at == k + flat_map(qv.take(i as int), f).len(),
            h.depth == old(h).depth,
            h.depth < 999,
            h.output@ == old(h).output@ + singles_lines(h.depth as nat, qv.take(i as int), strings_view(res@), k as int),
        decreases qs.len() - i,
    {
        proof {
            lemma_flat_map_step(qv, f, i as int);
            lemma_flat_map_prefix(qv, f, i + 1);
            assert(qv.take(i + 1).drop_last() =~= qv.take(i as int));
            assert(qv[i as int] == qs@[i as int]@);
        }
        at = write_single(h, &qs[i], res, at);
        i = i + 1;
    }
    assert(qv.take(qv.len() as int) =~= qv);
    at
}

/// Writes a question. Returns the index after its images.
fn write_question(h: &mut Html, q: &Question, res: &Vec<String>, k: usize) -> (r: usize)
    requires
        k + question_images(q@).len() <= res.len(),
        old(h).depth < 998,
    ensures
        final(h).output@ == old(h).output@ + question_lines(old(h).depth as nat, q@, strings_view(res@), k as int),
        final(h).depth == old(h).depth,
        r == k + question_images(q@).len(),
{
    match q {
        Question::Single(s) => {
            proof {
                reveal(question_lines);
            }
            write_single(h, s, res, k)
        },
        Question::Material(m) => {
            let ghost d = h.depth as nat;
            let ghost o = h.output@;
            let ghost rv = strings_view(res@);
            let ghost cv = m.material@;
            let ghost qsv = m.questions@.map_values(|q: SingleChoice| q@);
            h.open("<div class=\"material-question\">");
            let ghost p1 = ln(d, "<div class=\"material-question\">"@);
            h.open("<div class=\"material\">");
            let ghost p2 = p1 + ln(d + 1, "<div class=\"material\">"@);
            assert(h.output@ =~= o + p2);
            proof {
                reveal_strlit("");
                assert(""@ =~= Seq::<char>::empty());
            }
            let k1 = write_paragraphs(h, &m.material, res, k, "<p>", "");
            let ghost p3 = p2 + paragraph_lines(d + 2, cv, rv, k as int, "<p>"@, seq![]);
            assert(h.output@ =~= o + p3);
            h.close("</div>");
            let ghost p4 = p3 + ln(d + 1, "</div>"@);
            assert(h.output@ =~= o + p4);
            let k2 = write_singles(h, &m.questions, res, k1);
            let ghost p5 = p4 + singles_lines(d + 1, qsv, rv, k + content_images(cv).len());
            assert(h.output@ =~= o + p5);
            h.close("</div>");
            let ghost p6 = p5 + ln(d, "</div>"@);
            assert(h.output@ =~= o + p6);
            proof {
                reveal(question_lines);
            }
            k2
        },
    }
}

/// Writes questions in order. Returns the index after their images.
#[verifier::rlimit(80)]
fn write_questions(h: &mut Html, qs: &Vec<Question>, res: &Vec<String>, k: usize) -> (r: usize)
    requires
        k + questions_images(qs@.map_values(|q: Question| q@)).len() <= res.len(),
        old(h).depth < 998,
    ensures
        final(h).output@ == old(h).output@ + questions_lines(
            old(h).depth as nat,
            qs@.map_values(|q: Question| q@),
            strings_view(res@),
            k as int,
        ),
        final(h).depth == old(h).depth,
        r == k + questions_images(qs@.map_values(|q: Question| q@)).len(),
{
    let ghost qv = qs@.map_values(|q: Question| q@);
    let ghost f = |q: QuestionV| question_images(q);
    let mut i: usize = 0;
    let mut at = k;
    assert(qv.take(0) =~= Seq::<QuestionV>::empty());
    while i < qs.len()
        invariant
            0 <= i <= qs.len(),
            qv == qs@.map_values(|q: Question| q@),
            f == (|q: QuestionV| question_images(q)),
            k + flat_map(qv, f).len() <= res.len(),
            at == k + flat_map(qv.take(i as int), f).len(),
            h.depth == old(h).depth,
            h.depth < 998,
            h.output@ == old(h).output@ + questions_lines(h.depth as nat, qv.take(i as int), strings_view(res@), k as int),
        decreases qs.len() - i,
    {
        proof {
            lemma_flat_map_step(qv, f, i as int);
            lemma_flat_map_prefix(qv, f, i + 1);
            assert(qv.take(i + 1).drop_last() =~= qv.take(i as int));
            assert(qv[i as int] == qs@[i as int]@);
        }
        at = write_question(h, &qs[i], res, at);
        i = i + 1;
    }
    assert(qv.take(qv.len() as int) =~= qv);
    at
}

/// Writes a section. Returns the index after its images.
fn write_section(h: &mut Html, s: &Section, res: &Vec<String>, k: usize) -> (r: usize)
    requires
        k + questions_images(s@.questions).len() <= res.len(),
        old(h).depth < 997,
    ensures
        final(h).output@ == old(h).output@ + section_lines(old(h).depth as nat, s@, strings_view(res@), k as int),
        final(h).depth == old(h).depth,
        r == k + questions_images(s@.questions).len(),
{
    let ghost d = h.depth as nat;
    let ghost o = h.output@;
    let ghost rv = strings_view(res@);
    let ghost sv = s@;
    h.open("<section class=\"module\">");
    let ghost p1 = ln(d, "<section class=\"module\">"@);
    let mut heading = String::new();
    push_str(&mut heading, "<h2>");
    push_escaped(&mut heading, s.module.name(), false);
    push_str(&mut heading, "</h2>");
    h.line(heading.as_str());
    let ghost p2 = p1 + ln(d + 1, "<h2>"@ + escape(module_name(sv.module)) + "</h2>"@);
    assert(h.output@ =~= o + p2);
    let ghost p3 = p2 + match sv.sub_category {
        Some(sc) => ln(d + 1, "<h3 class=\"sub-category\">"@ + escape(sub_category_name(sc)) + "</h3>"@),
        None => seq![],
    };
    match s.sub_category {
        Some(sc) => {
            let mut sub = String::new();
            push_str(&mut sub, "<h3 class=\"sub-category\">");
            push_escaped(&mut sub, sc.name(), false);
            push_str(&mut sub, "</h3>");
            h.line(sub.as_str());
        },
        None => {},
    }
    assert(h.output@ =~= o + p3);
    let r = write_questions(h, &s.questions, res, k);
    let ghost p4 = p3 + questions_lines(d + 1, sv.questions, rv, k as int);
    assert(h.output@ =~= o + p4);
    h.close("</section>");
    let ghost p5 = p4 + ln(d, "</section>"@);
    assert(h.output@ =~= o + p5);
    proof {
        reveal(section_lines);
    }
    r
}

/// Writes sections in order. Returns the index after their images.
#[verifier::rlimit(80)]
fn write_sections(h: &mut Html, ss: &Vec<Section>, res: &Vec<String>, k: usize) -> (r: usize)
    requires
        k + sections_images(ss@.map_values(|s: Section| s@)).len() <= res.len(),
        old(h).depth < 997,
    ensures
        final(h).output@ == old(h).output@ + sections_lines(
            old(h).depth as nat,
            ss@.map_values(|s: Section| s@),
            strings_view(res@),
            k as int,
        ),
        final(h).depth == old(h).depth,
        r == k + sections_images(ss@.map_values(|s: Section| s@)).len(),
{
    let ghost sv = ss@.map_values(|s: Section| s@);
    let ghost f = |s: SectionV| questions_images(s.questions);
    let mut i: usize = 0;
    let mut at = k;
    assert(sv.take(0) =~= Seq::<SectionV>::empty());
    while i < ss.len()
        invariant
            0 <= i <= ss.len(),
            sv == ss@.map_values(|s: Section| s@),
            f == (|s: SectionV| questions_images(s.questions)),
            k + flat_map(sv, f).len() <= res.len(),
            at == k + flat_map(sv.take(i as int), f).len(),
            h.depth == old(h).depth,
            h.depth < 997,
            h.output@ == old(h).output@ + sections_lines(h.depth as nat, sv.take(i as int), strings_view(res@), k as int),
        decreases ss.len() - i,
    {
        proof {
            lemma_flat_map_step(sv, f, i as int);
            lemma_flat_map_prefix(sv, f, i + 1);
            assert(sv.take(i + 1).drop_last() =~= sv.take(i as int));
            assert(sv[i as int] == ss@[i as int]@);
        }
        at = write_section(h, &ss[i], res, at);
        i = i + 1;
    }
    assert(sv.take(sv.len() as int) =~= sv);
    at
}

/// The value of metadata field `x`.
fn metadata_field(meta: &crate::ast::Metadata, x: usize) -> (r: &Option<String>)
    requires
        x < 8,
    ensures
        crate::ast::opt_view(*r) == meta@[x as int],
{
    if x == 0 {
        &meta.title
    } else if x == 1 {
        &meta.exam
    } else if x == 2 {
        &meta.year
    } else if x == 3 {
        &meta.paper
    } else if x == 4 {
        &meta.region
    } else if x == 5 {
        &meta.source
    } else if x == 6 {
        &meta.duration
    } else {
        &meta.score
    }
}

/// The metadata line of the header.
fn meta_line(meta: &crate::ast::Metadata) -> (r: String)
    ensures
        r@ == meta_join(meta_values(meta@)),
{
    let ghost vs = meta_values(meta@);
    let mut parts: Vec<String> = Vec::new();
    let mut x: usize = 1;
    assert(vs.take(0) =~= Seq::<Option<Seq<char>>>::empty());
    assert(strings_view(parts@) =~= Seq::<Seq<char>>::empty());
    while x < 6
        invariant
            1 <= x <= 6,
            vs == meta_values(meta@),
            vs.len() == 5,
            strings_view(parts@) == present_escaped(vs.take(x - 1)),
        decreases 6 - x,
    {
        proof {
            assert(vs.take(x as int).drop_last() =~= vs.take(x - 1));
            assert(vs.take(x as int).last() == meta@[x as int]);
        }
        match metadata_field(meta, x) {
            Some(v) => {
                let e = escaped(v.as_str());
                let ghost before = strings_view(parts@);
                parts.push(e);
                assert(strings_view(parts@) =~= before.push(escape(v@)));
            },
            None => {},
        }
        x = x + 1;
    }
    assert(vs.take(5) =~= vs);
    let ghost pv = strings_view(parts@);
    let mut r = String::new();
    let mut i: usize = 0;
    assert(pv.take(0) =~= Seq::<Seq<char>>::empty());
    while i < parts.len()
        invariant
            0 <= i <= parts.len(),
            pv == strings_view(parts@),
            r@ == join(pv.take(i as int), " · "@),
        decreases parts.len() - i,
    {
        proof {
            assert(pv.take(i + 1).drop_last() =~= pv.take(i as int));
            assert(pv[i as int] == parts@[i as int]@);
        }
        if i > 0 {
            push_str(&mut r, " · ");
        } else {
            assert(r@ =~= Seq::<char>::empty());
        }
        push_str(&mut r, parts[i].as_str());
        i = i + 1;
    }
    assert(pv.take(pv.len() as int) =~= pv);
    r
}

/// The title of a document.
fn title(doc: &Document) -> (r: &str)
    ensures
        r@ == title_of(doc@),
{
    match &doc.metadata.title {
        Some(t) => t.as_str(),
        None => "题目文档",
    }
}

/// Writes the header of a document.
fn write_header(h: &mut Html, doc: &Document)
    requires
        old(h).depth < 1000,
    ensures
        final(h).output@ == old(h).output@ + header_lines(old(h).depth as nat, doc@),
        final(h).depth == old(h).depth,
{
    let ghost d = h.depth as nat;
    let ghost o = h.output@;
    h.open("<header class=\"paper-header\">");
    let ghost p1 = ln(d, "<header class=\"paper-header\">"@);
    let mut heading = String::new();
    push_str(&mut heading, "<h1>");
    push_escaped(&mut heading, title(doc), false);
    push_str(&mut heading, "</h1>");
    h.line(heading.as_str());
    let ghost p2 = p1 + ln(d + 1, "<h1>"@ + escape(title_of(doc@)) + "</h1>"@);
    assert(h.output@ =~= o + p2);
    let meta = meta_line(&doc.metadata);
    if !meta.as_str().is_empty() {
        let mut line = String::new();
        push_str(&mut line, "<p class=\"paper-meta\">");
        push_str(&mut line, meta.as_str());
        push_str(&mut line, "</p>");
        h.line(line.as_str());
    }
    let ghost m = meta_join(meta_values(doc@.metadata));
    let ghost p3 = p2 + (if m.len() > 0 {
        ln(d + 1, "<p class=\"paper-meta\">"@ + m + "</p>"@)
    } else {
        seq![]
    });
    assert(h.output@ =~= o + p3);
    h.close("</header>");
    let ghost p4 = p3 + ln(d, "</header>"@);
    assert(h.output@ =~= o + p4);
}

/// The views of a sequence of string slices.
pub open spec fn strs_view(v: Seq<&str>) -> Seq<Seq<char>> {
    v.map_values(|s: &str| s@)
}

/// Writes the style sheet, one rule per line.
fn write_style(h: &mut Html)
    ensures
        final(h).output@ == old(h).output@ + lines_at(old(h).depth as nat, style_rules()),
        final(h).depth == old(h).depth,
{
    let rules: [&str; 12] = [
        "body { margin: 0 auto; max-width: 40rem; padding: 2rem 1rem; font-family: system-ui, sans-serif; line-height: 1.8; color: #222; }",
        "h1 { font-size: 1.4rem; }",
        "h2 { font-size: 1.15rem; margin-top: 2.5rem; }",
        "h3 { font-size: 1rem; color: #666; }",
        ".paper-meta { color: #666; font-size: .9rem; }",
        ".question { margin: 1.5rem 0; }",
        ".options { list-style: none; padding: 0; }",
        ".options li { margin: .25rem 0; }",
        ".answer { font-weight: 600; }",
        ".explanation { color: #444; }",
        ".material { margin: 1.5rem 0 0; }",
        ".blank { display: inline-block; width: 4em; height: 1em; border-bottom: 1px solid currentColor; }",
    ];
    let ghost rv = strs_view(rules@);
    assert(rv =~= style_rules());
    let mut i: usize = 0;
    assert(rv.take(0) =~= Seq::<Seq<char>>::empty());
    while i < 12
        invariant
            0 <= i <= 12,
            rv == strs_view(rules@),
            rv.len() == 12,
            h.depth == old(h).depth,
            h.output@ == old(h).output@ + lines_at(h.depth as nat, rv.take(i as int)),
        decreases 12 - i,
    {
        proof {
            assert(rv.take(i + 1).drop_last() =~= rv.take(i as int));
            assert(rv[i as int] == rules@[i as int]@);
        }
        h.line(rules[i]);
        i = i + 1;
    }
    assert(rv.take(12) =~= rv);
}

/// The complete HTML document for `doc`, its images written at `res` in
/// document order.
pub fn render_resolved(doc: &Document, res: &Vec<String>) -> (r: String)
    requires
        res.len() == document_images(doc@).len(),
    ensures
        r@ == render_model(doc@, strings_view(res@)),
{
    let ghost dv = doc@;
    let ghost rv = strings_view(res@);
    let mut h = Html::new();
    h.line("<!DOCTYPE html>");
    let ghost p = ln(0, "<!DOCTYPE html>"@);
    assert(h.output@ =~= p);
    h.open("<html lang=\"zh-CN\">");
    let ghost p = p + ln(0, "<html lang=\"zh-CN\">"@);
    assert(h.output@ =~= p);
    h.open("<head>");
    let ghost p = p + ln(1, "<head>"@);
    assert(h.output@ =~= p);
    h.line("<meta charset=\"utf-8\">");
    let ghost p = p + ln(2, "<meta charset=\"utf-8\">"@);
    assert(h.output@ =~= p);
    h.line("<meta name=\"viewport\" content=\"width=device-width, initial-scale=1\">");
    let ghost p = p + ln(2, "<meta name=\"viewport\" content=\"width=device-width, initial-scale=1\">"@);
    assert(h.output@ =~= p);
    let mut t = String::new();
    push_str(&mut t, "<title>");
    push_escaped(&mut t, title(doc), false);
    push_str(&mut t, "</title>");
    h.line(t.as_str());
    let ghost p = p + ln(2, "<title>"@ + escape(title_of(dv)) + "</title>"@);
    assert(h.output@ =~= p);
    h.open("<style>");
    let ghost p = p + ln(2, "<style>"@);
    assert(h.output@ =~= p);
    write_style(&mut h);
    let ghost p = p + lines_at(3, style_rules());
    assert(h.output@ =~= p);
    h.close("</style>");
    let ghost p = p + ln(2, "</style>"@);
    assert(h.output@ =~= p);
    h.close("</head>");
    let ghost p = p + ln(1, "</head>"@);
    assert(h.output@ =~= p);
    h.open("<body>");
    let ghost p = p + ln(1, "<body>"@);
    assert(h.output@ =~= p);
    h.open("<article class=\"paper\">");
    let ghost p = p + ln(2, "<article class=\"paper\">"@);
    assert(h.output@ =~= p);
    write_header(&mut h, doc);
    let ghost p = p + header_lines(3, dv);
    assert(h.output@ =~= p);
    write_sections(&mut h, &doc.sections, res, 0);
    let ghost p = p + sections_lines(3, dv.sections, rv, 0);
    assert(h.output@ =~= p);
    h.close("</article>");
    let ghost p = p + ln(2, "</article>"@);
    assert(h.output@ =~= p);
    h.close("</body>");
    let ghost p = p + ln(1, "</body>"@);
    assert(h.output@ =~= p);
    h.close("</html>");
    let ghost p = p + ln(0, "</html>"@);
    assert(h.output@ =~= p);
    h.finish()
}

/// Appends the image paths of inline nodes to `acc`.
fn gather_inlines(acc: &mut Vec<String>, xs: &Vec<Inline>)
    ensures
        strings_view(final(acc)@) == strings_view(old(acc)@) + inlines_images(inlines_view(xs@)),
{
    let ghost xv = inlines_view(xs@);
    let ghost f = |x: InlineV| inline_images(x);
    let ghost start = strings_view(acc@);
    let mut i: usize = 0;
    assert(xv.take(0) =~= Seq::<InlineV>::empty());
    assert(strings_view(acc@) =~= start + flat_map(xv.take(0), f));
    while i < xs.len()
        invariant
            0 <= i <= xs.len(),
            xv == inlines_view(xs@),
            f == (|x: InlineV| inline_images(x)),
            strings_view(acc@) == start + flat_map(xv.take(i as int), f),
        decreases xs.len() - i,
    {
        proof {
            lemma_flat_map_step(xv, f, i as int);
            assert(xv[i as int] == xs@[i as int]@);
        }
        let ghost before = strings_view(acc@);
        match &xs[i] {
            Inline::Image(p) => {
                acc.push(p.clone());
                assert(strings_view(acc@) =~= before + seq![p@]);
            },
            _ => {
                assert(before + inline_images(xv[i as int]) =~= before);
            },
        }
        assert(strings_view(acc@) =~= start + flat_map(xv.take(i + 1), f));
        i = i + 1;
    }
    assert(xv.take(xv.len() as int) =~= xv);
}

/// Appends the image paths of content to `acc`.
fn gather_content(acc: &mut Vec<String>, c: &Content)
    ensures
        strings_view(final(acc)@) == strings_view(old(acc)@) + content_images(c@),
{
    let ghost cv = c@;
    let ghost f = |p: Seq<InlineV>| inlines_images(p);
    let ghost start = strings_view(acc@);
    let mut i: usize = 0;
    assert(cv.take(0) =~= Seq::<Seq<InlineV>>::empty());
    assert(strings_view(acc@) =~= start + flat_map(cv.take(0), f));
    while i < c.paragraphs.len()
        invariant
            0 <= i <= c.paragraphs.len(),
            cv == c@,
            cv.len() == c.paragraphs.len(),
            f == (|p: Seq<InlineV>| inlines_images(p)),
            strings_view(acc@) == start + flat_map(cv.take(i as int), f),
        decreases c.paragraphs.len() - i,
    {
        proof {
            lemma_flat_map_step(cv, f, i as int);
            assert(cv[i as int] == c.paragraphs@[i as int]@);
        }
        gather_inlines(acc, &c.paragraphs[i].0);
        assert(strings_view(acc@) =~= start + flat_map(cv.take(i + 1), f));
        i = i + 1;
    }
    assert(cv.take(cv.len() as int) =~= cv);
}

/// Appends the image paths of a single-choice question to `acc`.
fn gather_single(acc: &mut Vec<String>, q: &SingleChoice)
    ensures
        strings_view(final(acc)@) == strings_view(old(acc)@) + single_images(q@),
{
    let ghost start = strings_view(acc@);
    let ghost qv = q@;
    gather_content(acc, &q.stem);
    let ghost ov = single_options(*q);
    let ghost f = |c: ContentV| content_images(c);
    let ghost mid = strings_view(acc@);
    let mut i: usize = 0;
    assert(ov.take(0) =~= Seq::<ContentV>::empty());
    assert(strings_view(acc@) =~= mid + flat_map(ov.take(0), f));
    while i < 4
        invariant
            0 <= i <= 4,
            ov == q.options@.map_values(|c: Content| c@),
            ov.len() == 4,
            f == (|c: ContentV| content_images(c)),
            strings_view(acc@) == mid + flat_map(ov.take(i as int), f),
        decreases 4 - i,
    {
        proof {
            lemma_flat_map_step(ov, f, i as int);
            assert(ov[i as int] == q.options@[i as int]@);
        }
        gather_content(acc, &q.options[i]);
        assert(strings_view(acc@) =~= mid + flat_map(ov.take(i + 1), f));
        i = i + 1;
    }
    assert(ov.take(4) =~= ov);
    let ghost after_options = strings_view(acc@);
    match &q.explanation {
        Some(c) => {
            gather_content(acc, c);
        },
        None => {},
    }
    assert(strings_view(acc@) =~= start + single_images(qv));
}

/// Appends the image paths of a question to `acc`.
fn gather_question(acc: &mut Vec<String>, q: &Question)
    ensures
        strings_view(final(acc)@) == strings_view(old(acc)@) + question_images(q@),
{
    match q {
        Question::Single(s) => {
            gather_single(acc, s);
        },
        Question::Material(m) => {
            let ghost start = strings_view(acc@);
            gather_content(acc, &m.material);
            let ghost mid = strings_view(acc@);
            let ghost qv = m.questions@.map_values(|x: SingleChoice| x@);
            let ghost f = |x: SingleV| single_images(x);
            let mut i: usize = 0;
            assert(qv.take(0) =~= Seq::<SingleV>::empty());
            assert(strings_view(acc@) =~= mid + flat_map(qv.take(0), f));
            while i < m.questions.len()
                invariant
                    0 <= i <= m.questions.len(),
                    qv == m.questions@.map_values(|x: SingleChoice| x@),
                    f == (|x: SingleV| single_images(x)),
                    strings_view(acc@) == mid + flat_map(qv.take(i as int), f),
                decreases m.questions.len() - i,
            {
                proof {
                    lemma_flat_map_step(qv, f, i as int);
                    assert(qv[i as int] == m.questions@[i as int]@);
                }
                gather_single(acc, &m.questions[i]);
                assert(strings_view(acc@) =~= mid + flat_map(qv.take(i + 1), f));
                i = i + 1;
            }
            assert(qv.take(qv.len() as int) =~= qv);
            assert(strings_view(acc@) =~= start + question_images(q@));
        },
    }
}

/// The image paths of a document, in document order.
pub fn document_image_paths(doc: &Document) -> (r: Vec<String>)
    ensures
        strings_view(r@) == document_images(doc@),
{
    let mut acc: Vec<String> = Vec::new();
    let ghost sv = doc.sections@.map_values(|s: Section| s@);
    let ghost f = |s: SectionV| questions_images(s.questions);
    let mut i: usize = 0;
    assert(sv.take(0) =~= Seq::<SectionV>::empty());
    assert(strings_view(acc@) =~= flat_map(sv.take(0), f));
    while i < doc.sections.len()
        invariant
            0 <= i <= doc.sections.len(),
            sv == doc.sections@.map_values(|s: Section| s@),
            f == (|s: SectionV| questions_images(s.questions)),
            strings_view(acc@) == flat_map(sv.take(i as int), f),
        decreases doc.sections.len() - i,
    {
        proof {
            lemma_flat_map_step(sv, f, i as int);
            assert(sv[i as int] == doc.sections@[i as int]@);
        }
        let qs = &doc.sections[i].questions;
        let ghost before = strings_view(acc@);
        let ghost qv = qs@.map_values(|q: Question| q@);
        let ghost g = |q: QuestionV| question_images(q);
        let mut j: usize = 0;
        assert(qv.take(0) =~= Seq::<QuestionV>::empty());
        assert(strings_view(acc@) =~= before + flat_map(qv.take(0), g));
        while j < qs.len()
            invariant
                0 <= j <= qs.len(),
                qv == qs@.map_values(|q: Question| q@),
                g == (|q: QuestionV| question_images(q)),
                strings_view(acc@) == before + flat_map(qv.take(j as int), g),
            decreases qs.len() - j,
        {
            proof {
                lemma_flat_map_step(qv, g, j as int);
                assert(qv[j as int] == qs@[j as int]@);
            }
            gather_question(&mut acc, &qs[j]);
            assert(strings_view(acc@) =~= before + flat_map(qv.take(j + 1), g));
            j = j + 1;
        }
        assert(qv.take(qv.len() as int) =~= qv);
        assert(strings_view(acc@) =~= flat_map(sv.take(i + 1), f));
        i = i + 1;
    }
    assert(sv.take(sv.len() as int) =~= sv);
    acc
}

/// Renders a question document as a complete, stand-alone HTML document;
/// images are referenced by the paths the author wrote.
pub fn render(document: &Document) -> (r: String)
    ensures
        r@ == render_model(document@, document_images(document@)),
{
    let paths = document_image_paths(document);
    render_resolved(document, &paths)
}

/// Whether `out` is a possible answer of `resolve` for image path `path`.
pub open spec fn resolves_to<F: Fn(&str) -> String>(resolve: F, path: Seq<char>, out: Seq<char>) -> bool {
    exists|p: &str, o: String| p@ == path && o@ == out && #[trigger] resolve.ensures((p,), o)
}

/// Renders a question document as a complete, stand-alone HTML document,
/// handing every image reference to `resolve`: the image is written where
/// `resolve` maps its path. `resolve` is asked once per image, in document
/// order.
pub fn render_with_assets<F: Fn(&str) -> String>(document: &Document, resolve: &F) -> (r: String)
    requires
        forall|p: &str| #[trigger] resolve.requires((p,)),
    ensures
        exists|res: Seq<Seq<char>>|
            {
                &&& res.len() == document_images(document@).len()
                &&& forall|i: int|
                    0 <= i < res.len() ==> resolves_to(*resolve, document_images(document@)[i], #[trigger] res[i])
                &&& r@ == render_model(document@, res)
            },
{
    let paths = document_image_paths(document);
    let ghost images = document_images(document@);
    let mut resolved: Vec<String> = Vec::new();
    let mut i: usize = 0;
    while i < paths.len()
        invariant
            0 <= i <= paths.len(),
            strings_view(paths@) == images,
            resolved.len() == i,
            forall|p: &str| #[trigger] resolve.requires((p,)),
            forall|j: int| 0 <= j < i ==> resolves_to(*resolve, images[j], #[trigger] strings_view(resolved@)[j]),
        decreases paths.len() - i,
    {
        let p = paths[i].as_str();
        let out = resolve(p);
        proof {
            assert(p@ == images[i as int]);
        }
        let ghost before = resolved@;
        resolved.push(out);
        proof {
            assert forall|j: int| 0 <= j < i + 1 implies resolves_to(*resolve, images[j], #[trigger] strings_view(resolved@)[j]) by {
                if j < i {
                    assert(strings_view(resolved@)[j] == strings_view(before)[j]);
                } else {
                    assert(resolved@[j] == out);
                    assert(resolve.ensures((p,), out));
                }
            }
        }
        i = i + 1;
    }
    let r = render_resolved(document, &resolved);
    assert(strings_view(resolved@).len() == images.len());
    r
}

/// The reference time and the total score never show on the page: two
/// documents that differ only in their `duration` and `score` fields render
/// alike, with any resolved image paths.
pub proof fn law_duration_and_score_stay_off_the_page(
    doc: Document,
    duration: Option<String>,
    score: Option<String>,
    res: Seq<Seq<char>>,
)
    ensures
        render_model(
            (Document { metadata: Metadata { duration: duration, score: score, ..doc.metadata }, ..doc })@,
            res,
        ) == render_model(doc@, res),
{
    let other = Document { metadata: Metadata { duration: duration, score: score, ..doc.metadata }, ..doc };
    assert(meta_values(other@.metadata) =~= meta_values(doc@.metadata));
    assert(title_of(other@) == title_of(doc@));
    assert(other@.sections == doc@.sections);
    assert(header_lines(3, other@) == header_lines(3, doc@));
}

} // verus!
