//! The command line of the tool: the command its first argument names, and
//! the arguments of `build`: a document, and an optional output directory
//! after `-o`/`--output` (by default `dist`).

use vstd::prelude::*;

use crate::message::owned;
use crate::text::push_str;

verus! {

/// The default output directory of `build`.
pub const DEFAULT_OUTPUT: &'static str = "dist";

/// What the arguments of `build` ask for.
#[derive(Debug, PartialEq, Eq)]
pub enum BuildArguments {
    /// Print the usage.
    Help,
    /// Build `document` into directory `output`.
    Run { document: String, output: String },
}

/// Model of what the arguments of `build` ask for.
pub enum BuildArgumentsV {
    Help,
    Run { document: Seq<char>, output: Seq<char> },
}

impl View for BuildArguments {
    type V = BuildArgumentsV;

    open spec fn view(&self) -> BuildArgumentsV {
        match self {
            BuildArguments::Help => BuildArgumentsV::Help,
            BuildArguments::Run { document, output } => BuildArgumentsV::Run {
                document: document@,
                output: output@,
            },
        }
    }
}

/// Whether `a` looks like an option.
pub open spec fn is_option(a: Seq<char>) -> bool {
    a.len() > 0 && a[0] == '-'
}

/// What `args[i..]` ask for, after the document and output seen so far; or the
/// message of the first usage error.
pub open spec fn build_arguments_from(
    args: Seq<Seq<char>>,
    i: int,
    document: Option<Seq<char>>,
    output: Option<Seq<char>>,
) -> Result<BuildArgumentsV, Seq<char>>
    decreases args.len() - i,
{
    if i < 0 || i >= args.len() {
        match document {
            None => Err("build 需要一份题目文档"@),
            Some(d) => Ok(
                BuildArgumentsV::Run {
                    document: d,
                    output: match output {
                        Some(o) => o,
                        None => DEFAULT_OUTPUT@,
                    },
                },
            ),
        }
    } else {
        let a = args[i];
        if a == "-h"@ || a == "--help"@ {
            Ok(BuildArgumentsV::Help)
        } else if a == "-o"@ || a == "--output"@ {
            if i + 1 >= args.len() {
                Err(a + " 后面要跟输出目录"@)
            } else {
                build_arguments_from(args, i + 2, document, Some(args[i + 1]))
            }
        } else if is_option(a) {
            Err("不认识的选项："@ + a)
        } else if document is None {
            build_arguments_from(args, i + 1, Some(a), output)
        } else {
            Err("多余的参数："@ + a)
        }
    }
}

proof fn lemma_option_words()
    ensures
        "-o"@ != "-h"@,
        "-o"@ != "--help"@,
        "--output"@ != "-h"@,
        "--output"@ != "--help"@,
        "-o"@ != "--output"@,
{
    reveal_strlit("-o");
    reveal_strlit("-h");
    reveal_strlit("--help");
    reveal_strlit("--output");
    assert("-o"@[1] != "-h"@[1]);
    assert("--output"@[2] != "--help"@[2]);
}

proof fn lemma_same_from(
    a1: Seq<Seq<char>>,
    a2: Seq<Seq<char>>,
    i: int,
    document: Option<Seq<char>>,
    output: Option<Seq<char>>,
)
    requires
        0 <= i,
        a1.len() == a2.len(),
        forall|j: int| i <= j < a1.len() ==> a1[j] == a2[j],
    ensures
        build_arguments_from(a1, i, document, output) == build_arguments_from(a2, i, document, output),
    decreases a1.len() - i,
{
    if i < a1.len() {
        let a = a1[i];
        if a == "-h"@ || a == "--help"@ {
        } else if a == "-o"@ || a == "--output"@ {
            if i + 1 < a1.len() {
                lemma_same_from(a1, a2, i + 2, document, Some(a1[i + 1]));
            }
        } else if is_option(a) {
        } else if document is None {
            lemma_same_from(a1, a2, i + 1, Some(a), output);
        }
    }
}

proof fn lemma_output_spellings(
    a1: Seq<Seq<char>>,
    a2: Seq<Seq<char>>,
    k: int,
    i: int,
    document: Option<Seq<char>>,
    output: Option<Seq<char>>,
)
    requires
        0 <= i <= k,
        k + 1 < a1.len(),
        a1.len() == a2.len(),
        a1[k] == "-o"@,
        a2[k] == "--output"@,
        forall|j: int| 0 <= j < a1.len() && j != k ==> a1[j] == a2[j],
        k == 0 || (a1[k - 1] != "-o"@ && a1[k - 1] != "--output"@),
    ensures
        build_arguments_from(a1, i, document, output) == build_arguments_from(a2, i, document, output),
    decreases k - i,
{
    lemma_option_words();
    if i == k {
        lemma_same_from(a1, a2, k + 2, document, Some(a1[k + 1]));
    } else {
        let a = a1[i];
        assert(a2[i] == a);
        if a == "-h"@ || a == "--help"@ {
        } else if a == "-o"@ || a == "--output"@ {
            assert(i + 1 != k);
            lemma_output_spellings(a1, a2, k, i + 2, document, Some(a1[i + 1]));
        } else if is_option(a) {
        } else if document is None {
            lemma_output_spellings(a1, a2, k, i + 1, Some(a), output);
        }
    }
}

/// `-o` and `--output` are one option: writing one for the other, wherever it
/// stands as an option (not as the directory after another `-o` or
/// `--output`) and is followed by a directory, changes nothing.
pub proof fn law_output_spellings_agree(args: Seq<Seq<char>>, k: int)
    requires
        0 <= k,
        k + 1 < args.len(),
        k == 0 || (args[k - 1] != "-o"@ && args[k - 1] != "--output"@),
    ensures
        build_arguments_from(args.update(k, "-o"@), 0, None, None) == build_arguments_from(
            args.update(k, "--output"@),
            0,
            None,
            None,
        ),
{
    lemma_output_spellings(args.update(k, "-o"@), args.update(k, "--output"@), k, 0, None, None);
}

/// The output directory may be given before or after the document, in
/// either spelling: for a document `d` that is not an option and any
/// directory `o`, `[d, f, o]` and `[f, o, d]` with `f` being `-o` or
/// `--output` ask to build `d` into `o`.
pub proof fn law_output_option_stands_anywhere(d: Seq<char>, o: Seq<char>, long: bool)
    requires
        !is_option(d),
    ensures
        ({
            let f = if long {
                "--output"@
            } else {
                "-o"@
            };
            let run = Ok::<BuildArgumentsV, Seq<char>>(BuildArgumentsV::Run { document: d, output: o });
            &&& build_arguments_from(seq![d, f, o], 0, None, None) == run
            &&& build_arguments_from(seq![f, o, d], 0, None, None) == run
        }),
{
    reveal_strlit("-o");
    reveal_strlit("-h");
    reveal_strlit("--help");
    reveal_strlit("--output");
    lemma_option_words();
    assert(d != "-h"@ && d != "--help"@ && d != "-o"@ && d != "--output"@) by {
        if d.len() > 0 {
            assert(d[0] != '-');
        }
    }
    let f = if long {
        "--output"@
    } else {
        "-o"@
    };
    let a = seq![d, f, o];
    let b = seq![f, o, d];
    assert(build_arguments_from(a, 1, Some(d), None) == build_arguments_from(a, 3, Some(d), Some(o)));
    assert(build_arguments_from(b, 0, None, None) == build_arguments_from(b, 2, None, Some(o)));
    assert(build_arguments_from(b, 2, None, Some(o)) == build_arguments_from(b, 3, Some(d), Some(o)));
}

/// The views of a sequence of strings.
pub open spec fn args_view(v: Seq<String>) -> Seq<Seq<char>> {
    v.map_values(|s: String| s@)
}

/// Reads the arguments that follow `build`.
pub fn parse_build_arguments(arguments: Vec<String>) -> (r: Result<BuildArguments, String>)
    ensures
        match r {
            Ok(b) => build_arguments_from(args_view(arguments@), 0, None, None) == Ok::<
                BuildArgumentsV,
                Seq<char>,
            >(b@),
            Err(m) => build_arguments_from(args_view(arguments@), 0, None, None) == Err::<
                BuildArgumentsV,
                Seq<char>,
            >(m@),
        },
{
    let ghost av = args_view(arguments@);
    let mut document: Option<String> = None;
    let mut output: Option<String> = None;
    let mut i: usize = 0;
    while i < arguments.len()
        invariant
            0 <= i <= arguments.len(),
            av == args_view(arguments@),
            build_arguments_from(av, 0, None, None) == build_arguments_from(
                av,
                i as int,
                match document {
                    Some(d) => Some(d@),
                    None => None,
                },
                match output {
                    Some(o) => Some(o@),
                    None => None,
                },
            ),
        decreases arguments.len() - i,
    {
        let a = arguments[i].as_str();
        assert(av[i as int] == a@);
        let v = crate::text::chars_of(a);
        if crate::text::chars_are(&v, "-h") || crate::text::chars_are(&v, "--help") {
            return Ok(BuildArguments::Help);
        } else if crate::text::chars_are(&v, "-o") || crate::text::chars_are(&v, "--output") {
            if i + 1 >= arguments.len() {
                let mut m = owned(a);
                push_str(&mut m, " 后面要跟输出目录");
                return Err(m);
            }
            assert(av[i + 1] == arguments@[i + 1]@);
            output = Some(arguments[i + 1].clone());
            i = i + 2;
        } else if v.len() > 0 && v[0] == '-' {
            let mut m = owned("不认识的选项：");
            push_str(&mut m, a);
            return Err(m);
        } else if document.is_none() {
            document = Some(arguments[i].clone());
            i = i + 1;
        } else {
            let mut m = owned("多余的参数：");
            push_str(&mut m, a);
            return Err(m);
        }
    }
    match document {
        None => Err(owned("build 需要一份题目文档")),
        Some(d) => {
            let output = match output {
                Some(o) => o,
                None => owned(DEFAULT_OUTPUT),
            };
            Ok(BuildArguments::Run { document: d, output })
        },
    }
}

/// The usage text of the command-line tool.
pub const USAGE: &'static str = "用法：emark <命令> [选项]

命令：
  build <文档>   把题目文档构建为可整体移动、可分享的输出
  watch          监视源文件，保存时重建
  preview        在本地提供构建输出

build 选项：
  -o, --output <目录>  输出目录；默认 dist

选项：
  -h, --help     显示本帮助
  -V, --version  显示版本
";

/// What the first argument of the tool asks for.
#[derive(Debug, PartialEq, Eq)]
pub enum Command {
    /// Print the usage (`-h`, `--help`).
    Help,
    /// Print the format's name and the version (`-V`, `--version`).
    Version,
    /// Run `build` on the arguments after it.
    Build,
    /// Anything else: a usage error.
    Unknown,
}

/// What a first argument asks for.
pub open spec fn command_model(first: Option<Seq<char>>) -> Command {
    match first {
        Some(a) => if a == "-h"@ || a == "--help"@ {
            Command::Help
        } else if a == "-V"@ || a == "--version"@ {
            Command::Version
        } else if a == "build"@ {
            Command::Build
        } else {
            Command::Unknown
        },
        None => Command::Unknown,
    }
}

/// Reads the first argument of the tool; `None` when there is none.
pub fn command(first: Option<&str>) -> (r: Command)
    ensures
        r == command_model(
            match first {
                Some(a) => Some(a@),
                None => None,
            },
        ),
{
    match first {
        None => Command::Unknown,
        Some(a) => {
            let v = crate::text::chars_of(a);
            if crate::text::chars_are(&v, "-h") || crate::text::chars_are(&v, "--help") {
                Command::Help
            } else if crate::text::chars_are(&v, "-V") || crate::text::chars_are(&v, "--version") {
                Command::Version
            } else if crate::text::chars_are(&v, "build") {
                Command::Build
            } else {
                Command::Unknown
            }
        },
    }
}

} // verus!
