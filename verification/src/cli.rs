//! The command line: the commands that are handled here, and everything
//! else, which is handed through to the formatter as it stands.

use vstd::prelude::*;
use crate::text::{chars_of, has_prefix, str_eq, string_of_range};

verus! {

/// A parsed command line.
#[derive(Debug)]
pub struct Cli {
    /// The path of the routing configuration, where `--config` names one.
    pub config: Option<String>,
    /// The command.
    pub command: CliCommand,
}

/// A command.
#[derive(Debug)]
pub enum CliCommand {
    /// Format files, or the standard input under the name of a file.
    Fmt { stdin: Option<String>, files: Vec<String> },
    /// Check whether files are formatted.
    Check { files: Vec<String> },
    /// Show the resolved configuration, of a file or as a whole.
    Config { file: Option<String> },
    /// List the files that would be formatted.
    OutputFilePaths,
    /// Run the language-server proxy.
    Lsp,
    /// Hand the arguments to the formatter as they stand.
    Passthrough { args: Vec<String> },
}

/// The mathematical value of a [`CliCommand`].
pub enum CliCommandView {
    Fmt { stdin: Option<Seq<char>>, files: Seq<Seq<char>> },
    Check { files: Seq<Seq<char>> },
    Config { file: Option<Seq<char>> },
    OutputFilePaths,
    Lsp,
    Passthrough { args: Seq<Seq<char>> },
}

/// The mathematical value of a [`Cli`].
pub struct CliView {
    pub config: Option<Seq<char>>,
    pub command: CliCommandView,
}

impl DeepView for CliCommand {
    type V = CliCommandView;

    open spec fn deep_view(&self) -> CliCommandView {
        match self {
            CliCommand::Fmt { stdin, files } => CliCommandView::Fmt {
                stdin: stdin.deep_view(),
                files: files.deep_view(),
            },
            CliCommand::Check { files } => CliCommandView::Check { files: files.deep_view() },
            CliCommand::Config { file } => CliCommandView::Config { file: file.deep_view() },
            CliCommand::OutputFilePaths => CliCommandView::OutputFilePaths,
            CliCommand::Lsp => CliCommandView::Lsp,
            CliCommand::Passthrough { args } => CliCommandView::Passthrough {
                args: args.deep_view(),
            },
        }
    }
}

impl DeepView for Cli {
    type V = CliView;

    open spec fn deep_view(&self) -> CliView {
        CliView { config: self.config.deep_view(), command: self.command.deep_view() }
    }
}

/// Whether an argument asks for help.
pub open spec fn is_help(arg: Seq<char>) -> bool {
    arg == "-h"@ || arg == "--help"@
}

/// The arguments from position `i` on, parted into the configuration path
/// and the rest: `--config` takes the argument behind it, `--config=` what
/// follows the equals sign, the last such option wins, and a `--config`
/// that ends the line stays among the rest.
pub open spec fn split_config(
    args: Seq<Seq<char>>,
    i: int,
    config: Option<Seq<char>>,
    rest: Seq<Seq<char>>,
) -> (Option<Seq<char>>, Seq<Seq<char>>)
    decreases args.len() - i,
{
    if i < 0 || i >= args.len() {
        (config, rest)
    } else if args[i] == "--config"@ && i + 1 < args.len() {
        split_config(args, i + 2, Some(args[i + 1]), rest)
    } else if args[i] != "--config"@ && has_prefix(args[i], "--config="@) {
        split_config(args, i + 1, Some(args[i].skip("--config="@.len() as int)), rest)
    } else {
        split_config(args, i + 1, config, rest.push(args[i]))
    }
}

/// The `fmt` command of the arguments from position `i` on: `--stdin` takes
/// the argument behind it as the file name and is dropped where it ends the
/// line; `-h` or `--help` turns the whole command into a passthrough of
/// `fmt` and all its arguments; every other argument is a file.
pub open spec fn fmt_command(
    args: Seq<Seq<char>>,
    i: int,
    stdin: Option<Seq<char>>,
    files: Seq<Seq<char>>,
) -> CliCommandView
    decreases args.len() - i,
{
    if i < 0 || i >= args.len() {
        CliCommandView::Fmt { stdin, files }
    } else if args[i] == "--stdin"@ {
        if i + 1 < args.len() {
            fmt_command(args, i + 2, Some(args[i + 1]), files)
        } else {
            fmt_command(args, i + 1, stdin, files)
        }
    } else if is_help(args[i]) {
        CliCommandView::Passthrough { args: seq!["fmt"@] + args }
    } else {
        fmt_command(args, i + 1, stdin, files.push(args[i]))
    }
}

/// The `check` command of its arguments: a passthrough of `check` and all
/// its arguments where one of them asks for help, else the check of all of
/// them as files.
pub open spec fn check_command(args: Seq<Seq<char>>) -> CliCommandView {
    if exists|i: int| 0 <= i < args.len() && is_help(#[trigger] args[i]) {
        CliCommandView::Passthrough { args: seq!["check"@] + args }
    } else {
        CliCommandView::Check { files: args }
    }
}

/// The command of the arguments that are left once the configuration path
/// is taken out.
pub open spec fn command_of(rest: Seq<Seq<char>>) -> CliCommandView {
    if rest.len() == 0 {
        CliCommandView::Passthrough { args: rest }
    } else if rest[0] == "fmt"@ {
        fmt_command(rest.skip(1), 0, None, Seq::empty())
    } else if rest[0] == "check"@ {
        check_command(rest.skip(1))
    } else if rest[0] == "config"@ {
        CliCommandView::Config {
            file: if rest.len() > 1 {
                Some(rest[1])
            } else {
                None
            },
        }
    } else if rest[0] == "output-file-paths"@ {
        CliCommandView::OutputFilePaths
    } else if rest[0] == "lsp"@ {
        CliCommandView::Lsp
    } else {
        CliCommandView::Passthrough { args: rest }
    }
}

/// The parsed form of a command line.
pub open spec fn parsed(args: Seq<Seq<char>>) -> CliView {
    let split = split_config(args, 0, None, Seq::empty());
    CliView { config: split.0, command: command_of(split.1) }
}

fn clone_args(args: &[String], from: usize) -> (r: Vec<String>)
    requires
        from <= args.len(),
    ensures
        r.deep_view() == args.deep_view().skip(from as int),
{
    let mut r: Vec<String> = Vec::new();
    let mut i: usize = from;
    while i < args.len()
        invariant
            from <= i <= args.len(),
            r.len() == i - from,
            forall|k: int| 0 <= k < r.len() ==> (#[trigger] r@[k])@ == args@[from + k]@,
        decreases args.len() - i,
    {
        r.push(args[i].clone());
        i += 1;
    }
    assert(r.deep_view() =~= args.deep_view().skip(from as int));
    r
}

impl Cli {
    /// Parses a command line, given without the program's name.
    pub fn parse_from(args: &[String]) -> (r: Cli)
        ensures
            r.deep_view() == parsed(args.deep_view()),
    {
        let mut config: Option<String> = None;
        let mut rest: Vec<String> = Vec::new();
        let mut i: usize = 0;
        let prefix = chars_of("--config=");
        assert(rest.deep_view() =~= Seq::<Seq<char>>::empty());
        while i < args.len()
            invariant
                i <= args.len(),
                prefix@ == "--config="@,
                split_config(args.deep_view(), i as int, config.deep_view(), rest.deep_view())
                    == split_config(args.deep_view(), 0, None, Seq::empty()),
            decreases args.len() - i,
        {
            let arg = &args[i];
            assert(args.deep_view()[i as int] == arg@);
            let ghost before = rest.deep_view();
            if str_eq(arg.as_str(), "--config") {
                if i + 1 < args.len() {
                    assert(args.deep_view()[i + 1] == args[i + 1]@);
                    config = Some(args[i + 1].clone());
                    i += 2;
                    continue ;
                }
            } else {
                let chars = chars_of(arg.as_str());
                if crate::text::starts_with_at(&chars, 0, &prefix) {
                    assert(chars@.skip(0) == chars@);
                    let value = string_of_range(&chars, prefix.len(), chars.len());
                    assert(value@ == arg@.skip("--config="@.len() as int));
                    config = Some(value);
                    i += 1;
                    continue ;
                }
                assert(chars@.skip(0) == chars@);
            }
            rest.push(arg.clone());
            assert(rest.deep_view() =~= before.push(arg@));
            i += 1;
        }
        let command = Cli::command(rest);
        Cli { config, command }
    }

    /// The command of the arguments that are left once the configuration
    /// path is taken out.
    fn command(rest: Vec<String>) -> (r: CliCommand)
        ensures
            r.deep_view() == command_of(rest.deep_view()),
    {
        if rest.len() == 0 {
            return CliCommand::Passthrough { args: rest };
        }
        assert(rest.deep_view()[0] == rest[0]@);
        let subcmd = rest[0].as_str();
        if str_eq(subcmd, "fmt") {
            let sub_args = clone_args(rest.as_slice(), 1);
            Cli::parse_fmt(sub_args.as_slice())
        } else if str_eq(subcmd, "check") {
            let sub_args = clone_args(rest.as_slice(), 1);
            Cli::parse_check(sub_args.as_slice())
        } else if str_eq(subcmd, "config") {
            if rest.len() > 1 {
                assert(rest.deep_view()[1] == rest[1]@);
                CliCommand::Config { file: Some(rest[1].clone()) }
            } else {
                CliCommand::Config { file: None }
            }
        } else if str_eq(subcmd, "output-file-paths") {
            CliCommand::OutputFilePaths
        } else if str_eq(subcmd, "lsp") {
            CliCommand::Lsp
        } else {
            CliCommand::Passthrough { args: rest }
        }
    }

    /// Parses the arguments of `fmt`.
    pub fn parse_fmt(args: &[String]) -> (r: CliCommand)
        ensures
            r.deep_view() == fmt_command(args.deep_view(), 0, None, Seq::empty()),
    {
        let mut stdin: Option<String> = None;
        let mut files: Vec<String> = Vec::new();
        let mut i: usize = 0;
        assert(files.deep_view() =~= Seq::<Seq<char>>::empty());
        while i < args.len()
            invariant
                i <= args.len(),
                fmt_command(args.deep_view(), i as int, stdin.deep_view(), files.deep_view())
                    == fmt_command(args.deep_view(), 0, None, Seq::empty()),
            decreases args.len() - i,
        {
            let arg = &args[i];
            assert(args.deep_view()[i as int] == arg@);
            let ghost before = files.deep_view();
            if str_eq(arg.as_str(), "--stdin") {
                if i + 1 < args.len() {
                    assert(args.deep_view()[i + 1] == args[i + 1]@);
                    stdin = Some(args[i + 1].clone());
                    i += 2;
                    continue ;
                }
            } else if str_eq(arg.as_str(), "-h") || str_eq(arg.as_str(), "--help") {
                let mut passthrough: Vec<String> = Vec::new();
                passthrough.push("fmt".to_owned());
                let mut rest = clone_args(args, 0);
                let ghost tail = rest.deep_view();
                let ghost head = passthrough.deep_view();
                assert(head =~= seq!["fmt"@]);
                passthrough.append(&mut rest);
                assert(passthrough.deep_view() =~= head + tail);
                assert(args.deep_view().skip(0) == args.deep_view());
                return CliCommand::Passthrough { args: passthrough };
            } else {
                files.push(arg.clone());
                assert(files.deep_view() =~= before.push(arg@));
            }
            i += 1;
        }
        CliCommand::Fmt { stdin, files }
    }

    /// Parses the arguments of `check`.
    pub fn parse_check(args: &[String]) -> (r: CliCommand)
        ensures
            r.deep_view() == check_command(args.deep_view()),
    {
        let mut i: usize = 0;
        while i < args.len()
            invariant
                i <= args.len(),
                forall|k: int| 0 <= k < i ==> !is_help(#[trigger] args.deep_view()[k]),
            decreases args.len() - i,
        {
            let arg = &args[i];
            assert(args.deep_view()[i as int] == arg@);
            if str_eq(arg.as_str(), "-h") || str_eq(arg.as_str(), "--help") {
                let mut passthrough: Vec<String> = Vec::new();
                passthrough.push("check".to_owned());
                let mut rest = clone_args(args, 0);
                let ghost tail = rest.deep_view();
                let ghost head = passthrough.deep_view();
                assert(head =~= seq!["check"@]);
                passthrough.append(&mut rest);
                assert(passthrough.deep_view() =~= head + tail);
                assert(args.deep_view().skip(0) == args.deep_view());
                return CliCommand::Passthrough { args: passthrough };
            }
            i += 1;
        }
        let files = clone_args(args, 0);
        assert(args.deep_view().skip(0) == args.deep_view());
        CliCommand::Check { files }
    }
}

} // verus!
