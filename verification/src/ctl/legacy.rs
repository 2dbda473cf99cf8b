//! Decisions of the first version of `wallpaper-ctl`, which spoke the older
//! request format (`set>output:wallpaper`).

use vstd::prelude::*;
use crate::text::{chars_eq_str, chars_of, push_str, lowercase, lowercase_str};
use crate::ipc::string_views;
use crate::ctl::{contains_flag, has_flag};

verus! {

/// A subcommand of the first version of the tool.
pub enum LegacyCommand {
    SetWallpaper { output: String, wallpaper: String },
    ListOutputs,
    ListWallpapers,
    Restart,
    Help,
    /// The subcommand did not get `expected` parameters.
    WrongParameters { expected: i32 },
}

/// What the first version of the tool does with its arguments.
pub enum LegacyPlan {
    Help { no_commands: bool },
    /// Stop without doing anything (`-v`).
    Version,
    Run(LegacyCommand),
}

/// Whether `cmd` is the subcommand the arguments give, `lowered` being the
/// lowercased second argument.
pub open spec fn legacy_command_matches(cmd: LegacyCommand, args: Seq<Seq<char>>, lowered: Seq<char>) -> bool {
    if lowered == "set"@ {
        if args.len() == 4 {
            cmd matches LegacyCommand::SetWallpaper { output, wallpaper } && output@ == args[2]
                && wallpaper@ == args[3]
        } else {
            cmd == LegacyCommand::WrongParameters { expected: 2 }
        }
    } else if lowered == "list-outputs"@ || lowered == "list-wallpapers"@ || lowered == "restart"@ {
        if args.len() != 2 {
            cmd == LegacyCommand::WrongParameters { expected: 0 }
        } else if lowered == "list-outputs"@ {
            cmd is ListOutputs
        } else if lowered == "list-wallpapers"@ {
            cmd is ListWallpapers
        } else {
            cmd is Restart
        }
    } else {
        cmd is Help
    }
}

/// What the first version of the tool does: the help when asked for or when
/// there is no subcommand, else nothing when the version is asked for, else
/// the subcommand.
pub open spec fn legacy_plan_matches(plan: LegacyPlan, args: Seq<Seq<char>>) -> bool {
    if args.len() <= 1 || has_flag(args, "-h"@, "--help"@) {
        plan == LegacyPlan::Help { no_commands: args.len() == 1 }
    } else if has_flag(args, "-v"@, "--version"@) {
        plan is Version
    } else {
        plan matches LegacyPlan::Run(cmd) && legacy_command_matches(
            cmd,
            args,
            lowercase(args[1]),
        )
    }
}

/// Decides what the first version of the tool does with its arguments.
pub fn legacy_ctl_plan(args: &Vec<String>) -> (res: LegacyPlan)
    ensures
        legacy_plan_matches(res, string_views(args@)),
{
    let help = contains_flag(args, "-h", "--help");
    let version = contains_flag(args, "-v", "--version");
    if args.len() <= 1 || help {
        return LegacyPlan::Help { no_commands: args.len() == 1 };
    }
    if version {
        return LegacyPlan::Version;
    }
    assert(string_views(args@)[1] == args@[1]@);
    let lowered = lowercase_str(args[1].as_str());
    LegacyPlan::Run(legacy_command(args, lowered.as_str()))
}

/// The subcommand of the first version of the tool that the arguments give,
/// `lowered` being their second argument lowercased.
pub fn legacy_command(args: &Vec<String>, lowered: &str) -> (res: LegacyCommand)
    ensures
        legacy_command_matches(res, string_views(args@), lowered@),
{
    let lc = chars_of(lowered);
    let n = args.len();
    proof {
        if n == 4 {
            assert(string_views(args@)[2] == args@[2]@);
            assert(string_views(args@)[3] == args@[3]@);
        }
    }
    let cmd = if chars_eq_str(lc.as_slice(), "set") {
        if n == 4 {
            LegacyCommand::SetWallpaper { output: args[2].clone(), wallpaper: args[3].clone() }
        } else {
            LegacyCommand::WrongParameters { expected: 2 }
        }
    } else if chars_eq_str(lc.as_slice(), "list-outputs") {
        if n == 2 {
            LegacyCommand::ListOutputs
        } else {
            LegacyCommand::WrongParameters { expected: 0 }
        }
    } else if chars_eq_str(lc.as_slice(), "list-wallpapers") {
        if n == 2 {
            LegacyCommand::ListWallpapers
        } else {
            LegacyCommand::WrongParameters { expected: 0 }
        }
    } else if chars_eq_str(lc.as_slice(), "restart") {
        if n == 2 {
            LegacyCommand::Restart
        } else {
            LegacyCommand::WrongParameters { expected: 0 }
        }
    } else {
        LegacyCommand::Help
    };
    cmd
}

/// The help text the first version of the tool prints.
pub const LEGACY_HELP_TEXT: &'static str = "Control an active wallpaper-engine instance.\n\nUsage: wallpaper-ctl [options...] subcommand <params>\n\nSubcommands:\n  set <display-index> <name|id>  Set wallpaper.\n  list-outputs                   Get outputs.\n  list-wallpapers                Get wallpapers.\n  restart                        Restart the wallpaper daemon.\n\nOptions:\n  -h, --help     print this message and exit.\n  -d, --dru-run  Pretends to run the action and write it out to console.\n  -v, --version  print the version and exit.\n  -s, --save     Saves the current wallpaper configuration.\n";

/// The help text the first version of the tool prints.
pub fn help_message() -> (res: String)
    ensures
        res@ == LEGACY_HELP_TEXT@,
{
    let mut s = String::new();
    push_str(&mut s, LEGACY_HELP_TEXT);
    s
}

/// Saving the configuration from the first version of the tool; it does nothing.
pub fn save_to_config() {
}

/// Law: the first version of the tool prints the help when it has no
/// subcommand or is given `-h` or `--help`; otherwise it stops when given
/// `-v` or `--version`; otherwise it runs the subcommand.
pub proof fn law_legacy_plan_flags(args: Seq<Seq<char>>, plan: LegacyPlan)
    requires
        legacy_plan_matches(plan, args),
    ensures
        args.len() <= 1 ==> plan == (LegacyPlan::Help { no_commands: args.len() == 1 }),
        (exists|i: int| 0 <= i < args.len() && (#[trigger] args[i] == "-h"@ || args[i] == "--help"@))
            ==> plan is Help,
        (args.len() > 1 && (forall|i: int| 0 <= i < args.len() ==> #[trigger] args[i] != "-h"@ && args[i]
            != "--help"@) && (exists|i: int| 0 <= i < args.len() && (#[trigger] args[i] == "-v"@ || args[i]
            == "--version"@))) ==> plan is Version,
        (args.len() > 1 && (forall|i: int| 0 <= i < args.len() ==> #[trigger] args[i] != "-h"@ && args[i]
            != "--help"@ && args[i] != "-v"@ && args[i] != "--version"@)) ==> plan is Run,
{
    if exists|i: int| 0 <= i < args.len() && (#[trigger] args[i] == "-h"@ || args[i] == "--help"@) {
        assert(has_flag(args, "-h"@, "--help"@));
    }
    if exists|i: int| 0 <= i < args.len() && (#[trigger] args[i] == "-v"@ || args[i] == "--version"@) {
        assert(has_flag(args, "-v"@, "--version"@));
    }
}

/// Law: each subcommand name of the first version of the tool, lowercased,
/// gives its own command: `set` with two parameters, `list-outputs`,
/// `list-wallpapers` and `restart` with none; a wrong number of parameters
/// gives the error that names the number expected, and any other name gives
/// the help.
pub proof fn law_legacy_subcommands(cmd: LegacyCommand, args: Seq<Seq<char>>, lowered: Seq<char>)
    requires
        legacy_command_matches(cmd, args, lowered),
    ensures
        lowered == "set"@ && args.len() == 4 ==> (cmd matches LegacyCommand::SetWallpaper { output, wallpaper }
            && output@ == args[2] && wallpaper@ == args[3]),
        lowered == "set"@ && args.len() != 4 ==> cmd == (LegacyCommand::WrongParameters { expected: 2 }),
        lowered == "list-outputs"@ && args.len() == 2 ==> cmd is ListOutputs,
        lowered == "list-wallpapers"@ && args.len() == 2 ==> cmd is ListWallpapers,
        lowered == "restart"@ && args.len() == 2 ==> cmd is Restart,
        (lowered == "list-outputs"@ || lowered == "list-wallpapers"@ || lowered == "restart"@) && args.len() != 2
            ==> cmd == (LegacyCommand::WrongParameters { expected: 0 }),
        lowered != "set"@ && lowered != "list-outputs"@ && lowered != "list-wallpapers"@ && lowered
            != "restart"@ ==> cmd is Help,
{
    reveal_strlit("set");
    reveal_strlit("list-outputs");
    reveal_strlit("list-wallpapers");
    reveal_strlit("restart");
    assert("set"@.len() == 3);
    assert("list-outputs"@.len() == 12);
    assert("list-wallpapers"@.len() == 15);
    assert("restart"@.len() == 7);
}

} // verus!
