//! Decisions of `wallpaper-ctl`, the command-line tool that drives the daemon.

pub mod legacy;

use vstd::prelude::*;
use crate::text::{chars_eq_str, chars_of, push_str, lowercase, lowercase_str};
use crate::ipc::string_views;

verus! {

/// Whether one of the arguments is `a` or `b`.
pub open spec fn has_flag(args: Seq<Seq<char>>, a: Seq<char>, b: Seq<char>) -> bool {
    exists|i: int| 0 <= i < args.len() && (#[trigger] args[i] == a || args[i] == b)
}

/// Whether one of the arguments is `a` or `b`.
pub fn contains_flag(args: &Vec<String>, a: &str, b: &str) -> (res: bool)
    ensures
        res == has_flag(string_views(args@), a@, b@),
{
    let mut i: usize = 0;
    while i < args.len()
        invariant
            i <= args@.len(),
            forall|j: int| 0 <= j < i ==> args@[j]@ != a@ && args@[j]@ != b@,
        decreases args.len() - i,
    {
        let c = chars_of(args[i].as_str());
        if chars_eq_str(c.as_slice(), a) || chars_eq_str(c.as_slice(), b) {
            assert(string_views(args@)[i as int] == args@[i as int]@);
            return true;
        }
        i = i + 1;
    }
    assert forall|j: int| 0 <= j < args@.len() implies !(#[trigger] string_views(args@)[j] == a@
        || string_views(args@)[j] == b@) by {
        assert(string_views(args@)[j] == args@[j]@);
    }
    false
}

/// Checks that a subcommand got `size` parameters: the arguments are the
/// program, the subcommand and the parameters. The tool stops with
/// `Command requires <size> parameters.` on any other count, so this is
/// called only on a count that is right, and then does nothing.
pub fn ensure_parameters(args: &Vec<String>, size: i32)
    requires
        -2 <= size <= i32::MAX - 2,
        args@.len() == size + 2,
{
}

/// A subcommand of the tool, once connected to the daemon.
pub enum CtlCommand {
    /// Set `wallpaper` on `output`.
    SetWallpaper { output: String, wallpaper: String },
    /// Ask the daemon for its outputs.
    ListOutputs,
    /// Ask the daemon for its wallpapers.
    ListWallpapers,
    /// Set an option of the daemon.
    SetOption { setting: String, value: String },
    /// Restart the daemon's service.
    Restart,
    /// Print the configuration in use (not done yet: prints `Nothing yet.`).
    CurrentConfig,
    /// Unknown subcommand: print the help.
    Help,
    /// The subcommand did not get `expected` parameters: print
    /// `Command requires <expected> parameters.` and stop.
    WrongParameters { expected: i32 },
}

/// What the tool does with its arguments.
pub enum CtlPlan {
    /// Print the help; first `No commands specified.` when `no_commands`.
    Help { no_commands: bool },
    /// Print the versions.
    Version,
    /// Connect to the daemon and run the subcommand.
    Run(CtlCommand),
}

/// The subcommand the arguments give, `lowered` being the lowercased second argument.
pub open spec fn spec_ctl_command(args: Seq<Seq<char>>, lowered: Seq<char>) -> CtlCommandView {
    if lowered == "set"@ {
        if args.len() == 4 {
            CtlCommandView::SetWallpaper { output: args[2], wallpaper: args[3] }
        } else {
            CtlCommandView::WrongParameters { expected: 2 }
        }
    } else if lowered == "list-outputs"@ {
        if args.len() == 2 {
            CtlCommandView::ListOutputs
        } else {
            CtlCommandView::WrongParameters { expected: 0 }
        }
    } else if lowered == "list-wallpapers"@ {
        if args.len() == 2 {
            CtlCommandView::ListWallpapers
        } else {
            CtlCommandView::WrongParameters { expected: 0 }
        }
    } else if lowered == "option"@ {
        if args.len() == 4 {
            CtlCommandView::SetOption { setting: args[2], value: args[3] }
        } else {
            CtlCommandView::WrongParameters { expected: 2 }
        }
    } else if lowered == "restart"@ {
        if args.len() == 2 {
            CtlCommandView::Restart
        } else {
            CtlCommandView::WrongParameters { expected: 0 }
        }
    } else if lowered == "current-config"@ {
        CtlCommandView::CurrentConfig
    } else {
        CtlCommandView::Help
    }
}

/// A subcommand, over characters.
pub enum CtlCommandView {
    SetWallpaper { output: Seq<char>, wallpaper: Seq<char> },
    ListOutputs,
    ListWallpapers,
    SetOption { setting: Seq<char>, value: Seq<char> },
    Restart,
    CurrentConfig,
    Help,
    WrongParameters { expected: i32 },
}

impl CtlCommand {
    pub open spec fn view(&self) -> CtlCommandView {
        match self {
            CtlCommand::SetWallpaper { output, wallpaper } => CtlCommandView::SetWallpaper {
                output: output@,
                wallpaper: wallpaper@,
            },
            CtlCommand::ListOutputs => CtlCommandView::ListOutputs,
            CtlCommand::ListWallpapers => CtlCommandView::ListWallpapers,
            CtlCommand::SetOption { setting, value } => CtlCommandView::SetOption {
                setting: setting@,
                value: value@,
            },
            CtlCommand::Restart => CtlCommandView::Restart,
            CtlCommand::CurrentConfig => CtlCommandView::CurrentConfig,
            CtlCommand::Help => CtlCommandView::Help,
            CtlCommand::WrongParameters { expected } => CtlCommandView::WrongParameters {
                expected: *expected,
            },
        }
    }
}

/// What the tool does: the help when asked for or when there is no
/// subcommand, else the versions when asked for, else the subcommand.
pub open spec fn ctl_plan_matches(plan: CtlPlan, args: Seq<Seq<char>>) -> bool {
    let help = has_flag(args, "-h"@, "--help"@);
    let version = has_flag(args, "-v"@, "--version"@);
    if args.len() <= 1 || help {
        plan == CtlPlan::Help { no_commands: args.len() == 1 }
    } else if version {
        plan is Version
    } else {
        plan matches CtlPlan::Run(cmd) && cmd.view() == spec_ctl_command(
            args,
            lowercase(args[1]),
        )
    }
}

/// Decides what the tool does with its arguments (the program name first).
pub fn ctl_plan(args: &Vec<String>) -> (res: CtlPlan)
    ensures
        ctl_plan_matches(res, string_views(args@)),
{
    let help = contains_flag(args, "-h", "--help");
    let version = contains_flag(args, "-v", "--version");
    if args.len() <= 1 || help {
        return CtlPlan::Help { no_commands: args.len() == 1 };
    }
    if version {
        return CtlPlan::Version;
    }
    assert(string_views(args@)[1] == args@[1]@);
    let lowered = lowercase_str(args[1].as_str());
    CtlPlan::Run(ctl_command(args, lowered.as_str()))
}

/// The subcommand the arguments give, `lowered` being their second argument
/// lowercased.
pub fn ctl_command(args: &Vec<String>, lowered: &str) -> (res: CtlCommand)
    ensures
        res.view() == spec_ctl_command(string_views(args@), lowered@),
{
    let lc = chars_of(lowered);
    let n = args.len();
    proof {
        if n == 4 {
            assert(string_views(args@)[2] == args@[2]@);
            assert(string_views(args@)[3] == args@[3]@);
        }
    }
    let cmd = if chars_eq_str(lc.as_slice(), "set") {
        if n == 4 {
            CtlCommand::SetWallpaper { output: args[2].clone(), wallpaper: args[3].clone() }
        } else {
            CtlCommand::WrongParameters { expected: 2 }
        }
    } else if chars_eq_str(lc.as_slice(), "list-outputs") {
        if n == 2 {
            CtlCommand::ListOutputs
        } else {
            CtlCommand::WrongParameters { expected: 0 }
        }
    } else if chars_eq_str(lc.as_slice(), "list-wallpapers") {
        if n == 2 {
            CtlCommand::ListWallpapers
        } else {
            CtlCommand::WrongParameters { expected: 0 }
        }
    } else if chars_eq_str(lc.as_slice(), "option") {
        if n == 4 {
            CtlCommand::SetOption { setting: args[2].clone(), value: args[3].clone() }
        } else {
            CtlCommand::WrongParameters { expected: 2 }
        }
    } else if chars_eq_str(lc.as_slice(), "restart") {
        if n == 2 {
            CtlCommand::Restart
        } else {
            CtlCommand::WrongParameters { expected: 0 }
        }
    } else if chars_eq_str(lc.as_slice(), "current-config") {
        CtlCommand::CurrentConfig
    } else {
        CtlCommand::Help
    };
    cmd
}


/// The help text the tool prints, one line a line.
pub const HELP_TEXT: &'static str = "Control an active wallpaper-engine instance.\n\nUsage: wallpaper-ctl [options...] subcommand <params>\n\nSubcommands:\n  set <display-index> <name|id>  Set wallpaper.\n    - display-index can be 'all' to set for all monitors.\n  list-outputs                   Get outputs.\n  list-wallpapers                Get wallpapers.\n  restart                        Restart the wallpaper daemon.\n  current-config                 Print out current configuration used within wallpaper-engine, not the config file.\n\nOptions:\n  -h, --help     print this message and exit.\n  -d, --dru-run  Pretends to run the action and write it out to console.\n  -v, --version  print the version and exit.\n  -s, --save     Saves the current wallpaper configuration.\n";

/// The help text the tool prints.
pub fn help_message() -> (res: String)
    ensures
        res@ == HELP_TEXT@,
{
    let mut s = String::new();
    push_str(&mut s, HELP_TEXT);
    s
}

/// Saving the configuration from the tool (`-s`); it does nothing yet.
pub fn save_to_config() {
}

/// Law: the tool prints the help when it has no subcommand or is given
/// `-h` or `--help`; otherwise it prints the versions when given `-v` or
/// `--version`; otherwise it runs the subcommand.
pub proof fn law_ctl_plan_flags(args: Seq<Seq<char>>, plan: CtlPlan)
    requires
        ctl_plan_matches(plan, args),
    ensures
        args.len() <= 1 ==> plan == (CtlPlan::Help { no_commands: args.len() == 1 }),
        (exists|i: int| 0 <= i < args.len() && (#[trigger] args[i] == "-h"@ || args[i] == "--help"@))
            ==> plan is Help,
        (args.len() > 1 && (forall|i: int| 0 <= i < args.len() ==> #[trigger] args[i] != "-h"@ && args[i]
            != "--help"@) && (exists|i: int| 0 <= i < args.len() && (#[trigger] args[i] == "-v"@ || args[i]
            == "--version"@))) ==> plan is Version,
        (args.len() > 1 && (forall|i: int| 0 <= i < args.len() ==> #[trigger] args[i] != "-h"@ && args[i]
            != "--help"@ && args[i] != "-v"@ && args[i] != "--version"@)) ==> plan is Run,
{
    if exists|i: int| 0 <= i < args.len() && (#[trigger] args[i] == "-h"@ || args[i] == "--help"@) {
        assert(has_flag(args, "-h"@, "--help"@));
    }
    if exists|i: int| 0 <= i < args.len() && (#[trigger] args[i] == "-v"@ || args[i] == "--version"@) {
        assert(has_flag(args, "-v"@, "--version"@));
    }
}

/// Law: each subcommand name, lowercased, gives its own command: `set` and
/// `option` with two parameters, `list-outputs`, `list-wallpapers` and
/// `restart` with none, `current-config` with any; a wrong number of
/// parameters gives the error that names the number expected, and any other
/// name gives the help.
pub proof fn law_ctl_subcommands(args: Seq<Seq<char>>, lowered: Seq<char>)
    ensures
        lowered == "set"@ && args.len() == 4 ==> spec_ctl_command(args, lowered) == (CtlCommandView::SetWallpaper {
            output: args[2],
            wallpaper: args[3],
        }),
        lowered == "option"@ && args.len() == 4 ==> spec_ctl_command(args, lowered) == (CtlCommandView::SetOption {
            setting: args[2],
            value: args[3],
        }),
        (lowered == "set"@ || lowered == "option"@) && args.len() != 4 ==> spec_ctl_command(args, lowered)
            == (CtlCommandView::WrongParameters { expected: 2 }),
        lowered == "list-outputs"@ && args.len() == 2 ==> spec_ctl_command(args, lowered) == CtlCommandView::ListOutputs,
        lowered == "list-wallpapers"@ && args.len() == 2 ==> spec_ctl_command(args, lowered)
            == CtlCommandView::ListWallpapers,
        lowered == "restart"@ && args.len() == 2 ==> spec_ctl_command(args, lowered) == CtlCommandView::Restart,
        (lowered == "list-outputs"@ || lowered == "list-wallpapers"@ || lowered == "restart"@) && args.len() != 2
            ==> spec_ctl_command(args, lowered) == (CtlCommandView::WrongParameters { expected: 0 }),
        lowered == "current-config"@ ==> spec_ctl_command(args, lowered) == CtlCommandView::CurrentConfig,
        lowered != "set"@ && lowered != "option"@ && lowered != "list-outputs"@ && lowered != "list-wallpapers"@
            && lowered != "restart"@ && lowered != "current-config"@ ==> spec_ctl_command(args, lowered)
            == CtlCommandView::Help,
{
    reveal_strlit("set");
    reveal_strlit("option");
    reveal_strlit("list-outputs");
    reveal_strlit("list-wallpapers");
    reveal_strlit("restart");
    reveal_strlit("current-config");
    assert("set"@.len() == 3);
    assert("option"@.len() == 6);
    assert("list-outputs"@.len() == 12);
    assert("list-wallpapers"@.len() == 15);
    assert("restart"@.len() == 7);
    assert("current-config"@.len() == 14);
}

} // verus!
