//! Tests of the rendering seam: a string in, HTML out.

use std::cell::RefCell;

use emark_syntax::{parse, render, render_with_assets};
use emark_syntax::{Content, Inline, Paragraph};

/// Where the resolver maps an image reference is where the HTML points.
#[test]
fn writes_image_references_where_the_resolver_puts_them() {
    let source = "\
@module 数量关系

  @question
    @stem 见图 @image{插图/散图.png}。
    @option A @image{插图/甲.png}
    @option B 乙
    @option C 丙
    @option D 丁
    @answer A
";

    let document = parse(source).expect("文档应解析成功");

    let seen = RefCell::new(Vec::new());
    let html = render_with_assets(&document, &mut |path: &str| {
        seen.borrow_mut().push(path.to_string());
        let name = path.rsplit('/').next().expect("图片路径应有文件名");
        format!("assets/{name}")
    });

    assert_eq!(seen.into_inner(), ["插图/散图.png", "插图/甲.png"]);
    assert!(
        html.contains(r#"<img src="assets/散图.png" alt="">"#),
        "{html}"
    );
    assert!(
        html.contains(r#"<img src="assets/甲.png" alt="">"#),
        "{html}"
    );
    let plain = render(&document);
    assert!(plain.contains(r#"<img src="插图/散图.png" alt="">"#), "{plain}");
}

const STYLE_LINES: [&str; 12] = [
    "body { margin: 0 auto; max-width: 40rem; padding: 2rem 1rem; font-family: system-ui, sans-serif; line-height: 1.8; color: #222; }",
    "h1 { font-size: 1.4rem; }",
    "h2 { font-size: 1.15rem; margin-top: 2.5rem; }",
    "h3 { font-size: 1rem; color: #666; }",
    ".paper-meta { color: #666; font-size: .9rem; }",
    ".question { margin: 1.5rem 0; }",
    ".options { list-style: none; padding: 0; }",
    ".options li { margin: .25rem 0; }",
    ".answer { font-weight: 600; }",
    ".explanation { color: #444; }",
    ".material { margin: 1.5rem 0 0; }",
    ".blank { display: inline-block; width: 4em; height: 1em; border-bottom: 1px solid currentColor; }",
];

/// A document with one question renders to this page, line for line.
#[test]
fn a_one_question_document_renders_to_a_whole_page() {
    let source = "\
@module 数量关系

  @question
    @stem 甲 < 乙？
    @option A 1
    @option B 2
    @option C 3
    @option D 4
    @answer B
";
    let document = parse(source).expect("文档应解析成功");

    let mut expected = String::new();
    let mut line = |depth: usize, markup: &str| {
        expected.push_str(&"  ".repeat(depth));
        expected.push_str(markup);
        expected.push('\n');
    };
    line(0, "<!DOCTYPE html>");
    line(0, "<html lang=\"zh-CN\">");
    line(1, "<head>");
    line(2, "<meta charset=\"utf-8\">");
    line(2, "<meta name=\"viewport\" content=\"width=device-width, initial-scale=1\">");
    line(2, "<title>题目文档</title>");
    line(2, "<style>");
    for rule in STYLE_LINES {
        line(3, rule);
    }
    line(2, "</style>");
    line(1, "</head>");
    line(1, "<body>");
    line(2, "<article class=\"paper\">");
    line(3, "<header class=\"paper-header\">");
    line(4, "<h1>题目文档</h1>");
    line(3, "</header>");
    line(3, "<section class=\"module\">");
    line(4, "<h2>数量关系</h2>");
    line(4, "<article class=\"question\">");
    line(5, "<p class=\"stem\"><span class=\"question-number\">1.</span> 甲 &lt; 乙？</p>");
    line(5, "<ul class=\"options\">");
    line(6, "<li><span class=\"option-letter\">A.</span> 1</li>");
    line(6, "<li><span class=\"option-letter\">B.</span> 2</li>");
    line(6, "<li><span class=\"option-letter\">C.</span> 3</li>");
    line(6, "<li><span class=\"option-letter\">D.</span> 4</li>");
    line(5, "</ul>");
    line(5, "<p class=\"answer\">答案：B</p>");
    line(4, "</article>");
    line(3, "</section>");
    line(2, "</article>");
    line(1, "</body>");
    line(0, "</html>");

    assert_eq!(render(&document), expected);
}

/// The header carries the title and the metadata line; time and score stay off it.
#[test]
fn the_header_shows_title_and_metadata_joined_by_dots() {
    let source = "\
@title 模拟卷 <一>
@exam 国家公务员录用考试
@year 2025
@paper 副省级
@source 网络整理

@module 资料分析

  @question
    @stem 题干。
    @option A 甲
    @option B 乙
    @option C 丙
    @option D 丁
    @answer D
";
    let html = render(&parse(source).expect("文档应解析成功"));

    assert!(html.contains("    <title>模拟卷 &lt;一&gt;</title>\n"), "{html}");
    assert!(html.contains("        <h1>模拟卷 &lt;一&gt;</h1>\n"), "{html}");
    assert!(
        html.contains("        <p class=\"paper-meta\">国家公务员录用考试 · 2025 · 副省级 · 网络整理</p>\n"),
        "{html}"
    );
}

/// Materials, sub-categories, explanations and inline nodes each have their markup.
#[test]
fn materials_explanations_and_inline_nodes_render_in_place() {
    let source = "\
@module 判断推理
  @subcategory 定义判断

  @material
    根据以下资料，
    回答问题。

    @image{assets/表1.png}

  @question
    @stem 当 @math{x>0} 时，在 @blank 处填数。
    @option A 甲
    @option B 乙
    @option C 丙
    @option D 丁
    @answer C
    @explanation 第一段。

      第二段。
";
    let html = render(&parse(source).expect("文档应解析成功"));

    assert!(html.contains("        <h3 class=\"sub-category\">定义判断</h3>\n"), "{html}");
    assert!(html.contains("        <div class=\"material-question\">\n"), "{html}");
    assert!(html.contains("            <p>根据以下资料，<br>回答问题。</p>\n"), "{html}");
    assert!(html.contains("            <p><img src=\"assets/表1.png\" alt=\"\"></p>\n"), "{html}");
    assert!(
        html.contains("<p class=\"stem\"><span class=\"question-number\">1.</span> 当 <span class=\"math\">x&gt;0</span> 时，在 <span class=\"blank\"></span> 处填数。</p>"),
        "{html}"
    );
    assert!(html.contains("<p class=\"answer\">答案：C</p>"), "{html}");
    assert!(html.contains("            <div class=\"explanation\">\n"), "{html}");
    assert!(html.contains("<p><span class=\"label\">解析：</span>第一段。</p>\n"), "{html}");
    assert!(html.contains("<p>第二段。</p>\n"), "{html}");
}

/// An option of several paragraphs shows a blank line between them.
#[test]
fn option_paragraphs_are_separated_by_a_blank_line() {
    let text = |t: &str| Paragraph(vec![Inline::Text(t.to_string())]);
    let mut document = parse(
        "@module 数量关系\n\n  @question\n    @stem 题干。\n    @option A 甲\n    @option B 乙\n    @option C 丙\n    @option D 丁\n    @answer A\n",
    )
    .expect("文档应解析成功");
    let emark_syntax::Question::Single(question) = &mut document.sections[0].questions[0] else {
        panic!("应是单选题");
    };
    question.options[0] = Content {
        paragraphs: vec![text("第一段"), text("第二段")],
    };

    let html = render(&document);

    assert!(
        html.contains("<li><span class=\"option-letter\">A.</span> 第一段<br><br>第二段</li>"),
        "{html}"
    );
}
