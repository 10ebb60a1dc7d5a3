//! The `mandel-core` command line: which options were given.
use vstd::prelude::*;

use crate::text::{owned, str_eq};

verus! {

/// What the command line asks for.
#[derive(Debug)]
pub enum CliAction {
    /// Boot, with this configuration file if one was named, and print the
    /// about text if asked to.
    Run { config: Option<String>, about: bool },
    /// Print the help text.
    Help,
    /// An argument that is not an option: print it and the help, and fail.
    Unknown(String),
}

/// The value of a command line action.
pub enum CliView {
    Run(Option<Seq<char>>, bool),
    Help,
    Unknown(Seq<char>),
}

impl CliAction {
    /// The value of the action.
    pub open spec fn view(&self) -> CliView {
        match self {
            CliAction::Run { config, about } => CliView::Run(
                match config {
                    Some(c) => Some(c@),
                    None => None,
                },
                *about,
            ),
            CliAction::Help => CliView::Help,
            CliAction::Unknown(a) => CliView::Unknown(a@),
        }
    }
}

/// Reading the arguments from position `i` on, with the configuration file
/// and the about flag read so far: `--config` takes the next argument (none
/// where there is no next one), `--about` sets the flag, `--help` or `-h`
/// asks for the help at once, anything else is unknown.
pub open spec fn cli_from(args: Seq<Seq<char>>, i: nat, config: Option<Seq<char>>, about: bool) -> CliView
    decreases args.len() - i,
{
    if i >= args.len() {
        CliView::Run(config, about)
    } else if args[i as int] == "--config"@ {
        if i + 1 < args.len() {
            cli_from(args, i + 2, Some(args[i + 1 as int]), about)
        } else {
            CliView::Run(None, about)
        }
    } else if args[i as int] == "--about"@ {
        cli_from(args, i + 1, config, true)
    } else if args[i as int] == "--help"@ || args[i as int] == "-h"@ {
        CliView::Help
    } else {
        CliView::Unknown(args[i as int])
    }
}

/// What the command line `args` (the program's name first) asks for.
pub open spec fn cli_spec(args: Seq<Seq<char>>) -> CliView {
    cli_from(args, 1, None, false)
}

/// The values of the arguments.
pub open spec fn args_view(args: Seq<String>) -> Seq<Seq<char>> {
    args.map_values(|a: String| a@)
}

/// What the command line `args` (the program's name first) asks for.
pub fn parse_cli(args: &Vec<String>) -> (r: CliAction)
    ensures
        r@ == cli_spec(args_view(args@)),
{
    let ghost av = args_view(args@);
    let mut config: Option<String> = None;
    let mut about = false;
    let mut i: usize = 1;
    while i < args.len()
        invariant
            1 <= i,
            av == args_view(args@),
            cli_spec(av) == cli_from(
                av,
                i as nat,
                match config {
                    Some(c) => Some(c@),
                    None => None,
                },
                about,
            ),
        decreases args.len() - i,
    {
        let a = args[i].as_str();
        assert(av[i as int] == a@);
        if str_eq(a, "--config") {
            config = if i + 1 < args.len() {
                assert(av[i + 1] == args@[i + 1]@);
                Some(owned(args[i + 1].as_str()))
            } else {
                None
            };
            if i + 1 < args.len() {
                i = i + 2;
            } else {
                i = args.len();
            }
        } else if str_eq(a, "--about") {
            about = true;
            i = i + 1;
        } else if str_eq(a, "--help") || str_eq(a, "-h") {
            return CliAction::Help;
        } else {
            return CliAction::Unknown(owned(a));
        }
    }
    CliAction::Run { config, about }
}

/// The help text.
pub fn help_text() -> (r: &'static str)
    ensures
        r@ == "mandel-core — HAAVK 曼德尔核心 CLI\n\n用法:\n  mandel-core [--config <path>] [--about]\n\n选项:\n  --config <path>  指定 mandel_core.toml 路径\n  --about          打印「关于全域算力节点」信息\n  -h, --help       显示帮助"@,
{
    "mandel-core — HAAVK 曼德尔核心 CLI\n\n用法:\n  mandel-core [--config <path>] [--about]\n\n选项:\n  --config <path>  指定 mandel_core.toml 路径\n  --about          打印「关于全域算力节点」信息\n  -h, --help       显示帮助"
}

} // verus!
