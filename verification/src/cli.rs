//! The command line.

use vstd::prelude::*;
use vstd::string::StringExecFns;

use crate::text::{opt_view, result_view, same, seq_view};

verus! {

pub const DEFAULT_CONFIG_PATH: &'static str = "/etc/chime/config.toml";

pub const CONFIG_PATH_ENV: &'static str = "CHIME_CONFIG";

/// The path of the configuration file that a setting of `CHIME_CONFIG`, or none,
/// stands for.
pub open spec fn config_path_of(setting: Option<Seq<char>>) -> Seq<char> {
    match setting {
        Some(path) => path,
        None => DEFAULT_CONFIG_PATH@,
    }
}

/// The path of the configuration file, by the setting of `CHIME_CONFIG`.
pub fn config_path(setting: Option<String>) -> (path: String)
    ensures
        path@ == config_path_of(opt_view(setting)),
{
    match setting {
        Some(path) => path,
        None => DEFAULT_CONFIG_PATH.to_owned(),
    }
}

#[derive(Debug, Clone, Copy, PartialEq, Eq, Structural)]
pub enum Command {
    /// Run the scheduler.
    Daemon,
    /// Exit with 0 if the scheduler is ticking, and with something else otherwise.
    Health,
}

impl View for Command {
    type V = Command;

    open spec fn view(&self) -> Command {
        *self
    }
}

/// The command that the arguments ask for, the first of which is the program's own
/// name, or what is wrong with them.
pub open spec fn command_of(args: Seq<Seq<char>>) -> Result<Command, Seq<char>> {
    if args.len() <= 1 {
        Ok(Command::Daemon)
    } else if args[1] != "health"@ {
        Err("unknown argument: "@ + args[1])
    } else if args.len() > 2 {
        Err("`health` takes no arguments"@)
    } else {
        Ok(Command::Health)
    }
}

pub fn parse_command(args: &Vec<String>) -> (r: Result<Command, String>)
    ensures
        result_view(r) == command_of(seq_view(args@)),
{
    if args.len() <= 1 {
        return Ok(Command::Daemon);
    }
    assert(seq_view(args@)[1] == args@[1]@);
    if !same(args[1].as_str(), "health") {
        let mut reason = "unknown argument: ".to_owned();
        reason.append(args[1].as_str());
        return Err(reason);
    }
    if args.len() > 2 {
        return Err("`health` takes no arguments".to_owned());
    }
    Ok(Command::Health)
}

/// The configuration is where the setting says, or at its default path.
pub proof fn law_the_setting_names_the_configuration(path: Seq<char>)
    ensures
        config_path_of(Some(path)) == path,
        config_path_of(None) == "/etc/chime/config.toml"@,
{
}

/// Without arguments the daemon is run; with the argument `health` and no other the
/// health is checked. Another first argument is told as unknown, and anything behind
/// `health` is refused.
pub proof fn law_arguments_name_a_command(args: Seq<Seq<char>>)
    ensures
        command_of(args) == Ok::<_, Seq<char>>(Command::Daemon) <==> args.len() <= 1,
        command_of(args) == Ok::<_, Seq<char>>(Command::Health) <==> args.len() == 2 && args[1]
            == "health"@,
        args.len() >= 2 && args[1] != "health"@ ==> command_of(args) == Err::<Command, _>(
            "unknown argument: "@ + args[1],
        ),
        args.len() > 2 && args[1] == "health"@ ==> command_of(args) == Err::<Command, _>(
            "`health` takes no arguments"@,
        ),
{
}

} // verus!
