//! The command line: the command a first argument names, and the arguments
//! of `build`.

use emark_syntax::cli::{command, parse_build_arguments, BuildArguments, Command, DEFAULT_OUTPUT, USAGE};

fn arguments(list: &[&str]) -> Vec<String> {
    list.iter().map(|argument| argument.to_string()).collect()
}

#[test]
fn the_first_argument_names_the_command() {
    assert_eq!(command(Some("-h")), Command::Help);
    assert_eq!(command(Some("--help")), Command::Help);
    assert_eq!(command(Some("-V")), Command::Version);
    assert_eq!(command(Some("--version")), Command::Version);
    assert_eq!(command(Some("build")), Command::Build);
    assert_eq!(command(Some("不存在的命令")), Command::Unknown);
    assert_eq!(command(None), Command::Unknown);
}

#[test]
fn the_usage_lists_the_commands() {
    assert!(USAGE.starts_with("用法：emark <命令> [选项]"));
    assert!(USAGE.contains("build <文档>"));
    assert!(USAGE.contains("-V, --version"));
}

#[test]
fn build_takes_a_document_and_defaults_to_dist() {
    assert_eq!(
        parse_build_arguments(arguments(&["卷子.emark"])),
        Ok(BuildArguments::Run {
            document: "卷子.emark".to_string(),
            output: DEFAULT_OUTPUT.to_string()
        })
    );
    assert_eq!(DEFAULT_OUTPUT, "dist");
}

#[test]
fn build_takes_an_output_directory_before_or_after_the_document() {
    let expected = Ok(BuildArguments::Run {
        document: "卷子.emark".to_string(),
        output: "out".to_string(),
    });

    assert_eq!(parse_build_arguments(arguments(&["卷子.emark", "-o", "out"])), expected);
    assert_eq!(parse_build_arguments(arguments(&["--output", "out", "卷子.emark"])), expected);
}

#[test]
fn build_help_wins_wherever_it_stands() {
    assert_eq!(parse_build_arguments(arguments(&["卷子.emark", "--help"])), Ok(BuildArguments::Help));
    assert_eq!(parse_build_arguments(arguments(&["-h", "-x"])), Ok(BuildArguments::Help));
}

#[test]
fn build_reports_each_usage_error() {
    assert_eq!(parse_build_arguments(arguments(&[])), Err("build 需要一份题目文档".to_string()));
    assert_eq!(
        parse_build_arguments(arguments(&["卷子.emark", "-o"])),
        Err("-o 后面要跟输出目录".to_string())
    );
    assert_eq!(
        parse_build_arguments(arguments(&["-x", "卷子.emark"])),
        Err("不认识的选项：-x".to_string())
    );
    assert_eq!(
        parse_build_arguments(arguments(&["甲.emark", "乙.emark"])),
        Err("多余的参数：乙.emark".to_string())
    );
}
