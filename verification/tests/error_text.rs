//! How a parse failure reads.

use emark_syntax::{parse, ParseError};

#[test]
fn a_parse_error_reads_with_its_line_first() {
    let error = ParseError::new(3, "缺少 @answer".to_string());

    assert_eq!(error.line(), 3);
    assert_eq!(error.message(), "缺少 @answer");
    assert_eq!(error.to_string(), "第 3 行：缺少 @answer");
}

#[test]
fn a_line_number_of_several_digits_is_written_in_full() {
    let error = ParseError::new(120, "x".to_string());

    assert_eq!(error.to_string(), "第 120 行：x");
}

#[test]
fn a_failed_parse_names_a_line_of_the_source() {
    let source = "@module 数量关系\n\n  @question\n    @stem 题干。\n    @option A 甲\n";
    let error = parse(source).expect_err("缺选项的题应解析失败");

    assert!(error.line() >= 1 && error.line() <= source.lines().count());
    assert!(error.to_string().starts_with(&format!("第 {} 行：", error.line())));
}
