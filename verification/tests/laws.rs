//! The library's general promises, each checked on concrete values.

use emark_syntax::assets::Assets;
use emark_syntax::html::escaped;
use emark_syntax::watch::poll;
use emark_syntax::{parse, Question};
use emark_syntax::serve::percent_decode;
use emark_syntax::Metadata;
use emark_syntax::question::choice;
use emark_syntax::Choice;

const LF_SOURCE: &str = "@title 卷\n@year 2025\n\n@module 数量关系\n\n  @question\n    @stem 第一行\n      第二行\n    @option A 甲\n    @option B 乙\n    @option C 丙\n    @option D 丁\n    @answer C\n\n  @question\n    @stem 又一题。\n    @option A 甲\n    @option B 乙\n    @option C 丙\n    @option D 丁\n    @answer A\n";

#[test]
fn windows_line_endings_parse_like_unix_ones() {
    let crlf = LF_SOURCE.replace('\n', "\r\n");

    assert_eq!(parse(&crlf), parse(LF_SOURCE));
    assert!(parse(LF_SOURCE).is_ok());

    let broken = "@module 数量关系\n\n  @question\n    @stem 题干。\n";
    assert_eq!(parse(&broken.replace('\n', "\r\n")), parse(broken));
    assert!(parse(broken).is_err());
}

#[test]
fn a_byte_order_mark_changes_nothing() {
    let with_bom = format!("\u{feff}{LF_SOURCE}");

    assert_eq!(parse(&with_bom), parse(LF_SOURCE));
}

#[test]
fn questions_are_numbered_from_one_in_document_order() {
    let document = parse(LF_SOURCE).expect("文档应解析成功");
    let numbers: Vec<usize> = document.sections[0]
        .questions
        .iter()
        .map(|question| match question {
            Question::Single(single) => single.number,
            Question::Material(_) => unreachable!(),
        })
        .collect();

    assert_eq!(numbers, [1, 2]);
}

#[test]
fn every_error_names_a_line_of_its_source() {
    let sources = [
        "",
        "@title 卷\n",
        "@module 不存在\n",
        "@module 数量关系\n\n  @question\n    @stem 题干。\n    @option A 甲\n    @option C 丙\n",
        "@module 数量关系\n\n\t@question\n",
    ];

    for source in sources {
        let error = parse(source).expect_err("这些文档都应解析失败");
        let lines = source.lines().count();
        assert!(error.line() >= 1, "{source:?}");
        assert!(error.line() <= lines.max(1), "{source:?}: {}", error.line());
    }
}

#[test]
fn escaped_text_holds_no_markup() {
    let text = "<a href=\"x\">&amp;</a>";
    let html = escaped(text);

    assert_eq!(html, "&lt;a href=&quot;x&quot;&gt;&amp;amp;&lt;/a&gt;");
    assert!(!html.contains('<') && !html.contains('>') && !html.contains('"'));
}

#[test]
fn placing_an_image_again_changes_nothing() {
    let mut assets = Assets::new("docs");

    let first = assets.place("插图/甲.png");
    let copies = assets.copies().len();
    assert_eq!(assets.place("插图/甲.png"), first);
    assert_eq!(assets.copies().len(), copies);

    let refused = assets.place("别处/甲.png");
    assert_eq!(refused, None);
    assert_eq!(assets.place("别处/甲.png"), None);
    assert_eq!(assets.copies().len(), copies);
    assert!(assets.take_failure().is_some());
}

#[test]
fn one_change_is_built_once() {
    let mut seen = b"v1".to_vec();

    assert!(poll(&mut seen, Some(b"v2".to_vec())));
    assert!(!poll(&mut seen, Some(b"v2".to_vec())));
}

#[test]
fn escaping_touches_only_markup_characters() {
    assert_eq!(escaped("纯文本 plain text"), "纯文本 plain text");
    assert_eq!(escaped("a&b"), "a&amp;b");
}

#[test]
fn percent_encoded_text_decodes_back() {
    let text = "图 1 a/b%";
    let encoded: String = text.bytes().map(|byte| format!("%{byte:02X}")).collect();
    assert_eq!(percent_decode(&encoded), Some(text.to_string()));
    let lower: String = text.bytes().map(|byte| format!("%{byte:02x}")).collect();
    assert_eq!(percent_decode(&lower), Some(text.to_string()));
    assert_eq!(percent_decode("无百分号 plain"), Some("无百分号 plain".to_string()));
    assert_eq!(percent_decode("a%20b"), Some("a b".to_string()));
}

#[test]
fn a_run_of_looks_rebuilds_once_per_change() {
    let mut seen = Vec::new();
    let reads = [
        Some(b"a".to_vec()),
        None,
        Some(b"a".to_vec()),
        Some(b"b".to_vec()),
        None,
        Some(b"a".to_vec()),
    ];
    let rebuilt: Vec<bool> = reads.into_iter().map(|read| poll(&mut seen, read)).collect();

    assert_eq!(rebuilt, [true, false, false, true, false, true]);
}

#[test]
fn setting_a_metadata_field_changes_only_that_field() {
    let mut metadata = Metadata::new();
    assert!(Metadata::is_key("year"));
    assert!(!Metadata::is_key("author"));
    assert!(metadata.set("year", "2025".to_string()));
    assert_eq!(metadata.year, Some("2025".to_string()));
    assert_eq!(metadata.title, None);
    assert!(!metadata.set("author", "张三".to_string()));
    let mut expected = Metadata::new();
    expected.year = Some("2025".to_string());
    assert_eq!(metadata, expected);
}

#[test]
fn there_is_one_question_for_each_question_line() {
    let source = "\
@module 资料分析

  @material
    材料。

  @question
    @stem 一。
    @option A 甲
    @option B 乙
    @option C 丙
    @option D 丁
    @answer A

  @question
    @stem 二。
    @option A 甲
    @option B 乙
    @option C 丙
    @option D 丁
    @answer B

@module 数量关系

  @question
    @stem 三。
    @option A 甲
    @option B 乙
    @option C 丙
    @option D 丁
    @answer C
";
    let document = parse(source).expect("文档应解析成功");
    let question_lines = source.lines().filter(|line| *line == "  @question").count();
    let mut numbers = Vec::new();
    for section in &document.sections {
        for question in &section.questions {
            match question {
                Question::Single(single) => numbers.push(single.number),
                Question::Material(material) => {
                    numbers.extend(material.questions.iter().map(|single| single.number))
                }
            }
        }
    }

    assert_eq!(question_lines, 3);
    assert_eq!(numbers, (1..=question_lines).collect::<Vec<_>>());
}

#[test]
fn answer_letters_and_choices_are_inverse() {
    for c in [Choice::A, Choice::B, Choice::C, Choice::D] {
        assert_eq!(choice(&vec![c.letter()]), Some(c));
    }
    for text in ["a", "E", "AB", "", " A"] {
        assert_eq!(choice(&text.chars().collect()), None, "{text:?}");
    }
}
