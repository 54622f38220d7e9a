//! The arguments of the command line.

use vstd::prelude::*;

use crate::utils::same_text;

verus! {

/// How the program is called.
pub const USAGE: &'static str = "USAGE: freader [-h | --help] [--import OPML]";

/// The short flag that asks for help.
pub const FLAG_HELP_SHORT: &'static str = "-h";

/// The long flag that asks for help.
pub const FLAG_HELP: &'static str = "--help";

/// The flag that names a file to import.
pub const FLAG_IMPORT: &'static str = "--import";

/// What the next argument asks for.
#[derive(Debug)]
pub enum Command {
    /// Print the usage and stop with success.
    Help,
    /// Import the subscriptions of the named file, then go on.
    Import(String),
    /// A flag lacks its value: report it and stop with failure.
    MissingValue(String),
    /// The argument is unknown: report it, print the usage and stop with
    /// failure.
    Unknown(String),
    /// No argument is left: start the server.
    Done,
}

/// A command as a mathematical value.
pub ghost enum CommandView {
    Help,
    Import(Seq<char>),
    MissingValue(Seq<char>),
    Unknown(Seq<char>),
    Done,
}

impl View for Command {
    type V = CommandView;

    open spec fn view(&self) -> CommandView {
        match *self {
            Command::Help => CommandView::Help,
            Command::Import(file) => CommandView::Import(file@),
            Command::MissingValue(flag) => CommandView::MissingValue(flag@),
            Command::Unknown(argument) => CommandView::Unknown(argument@),
            Command::Done => CommandView::Done,
        }
    }
}

/// The command at the position `from` of the arguments, and the position
/// after it.
pub open spec fn command_at(args: Seq<Seq<char>>, from: int) -> (CommandView, int) {
    if from < 0 || from >= args.len() {
        (CommandView::Done, from)
    } else if args[from] == FLAG_HELP_SHORT@ || args[from] == FLAG_HELP@ {
        (CommandView::Help, from + 1)
    } else if args[from] == FLAG_IMPORT@ {
        if from + 1 < args.len() {
            (CommandView::Import(args[from + 1]), from + 2)
        } else {
            (CommandView::MissingValue(args[from]), from + 1)
        }
    } else {
        (CommandView::Unknown(args[from]), from + 1)
    }
}

/// The code with which the program stops after a command, if it stops.
pub open spec fn exit_code_of(command: CommandView) -> Option<i32> {
    match command {
        CommandView::Help => Some(0),
        CommandView::MissingValue(_) => Some(1),
        CommandView::Unknown(_) => Some(1),
        CommandView::Import(_) => None,
        CommandView::Done => None,
    }
}

/// Reads the command at the position `from` of the arguments, the name of
/// the program not among them, and gives the position after it.
pub fn handle_cli_args(args: &Vec<String>, from: usize) -> (r: (Command, usize))
    ensures
        (r.0@, r.1 as int) == command_at(args.deep_view(), from as int),
        from <= r.1 <= args.len() || r.1 == from,
{
    if from >= args.len() {
        return (Command::Done, from);
    }
    assert(args.deep_view()[from as int] == args[from as int]@);
    let arg = args[from].as_str();
    if same_text(arg, FLAG_HELP_SHORT) || same_text(arg, FLAG_HELP) {
        (Command::Help, from + 1)
    } else if same_text(arg, FLAG_IMPORT) {
        if from + 1 < args.len() {
            assert(args.deep_view()[from + 1] == args[from + 1]@);
            (Command::Import(args[from + 1].clone()), from + 2)
        } else {
            (Command::MissingValue(args[from].clone()), from + 1)
        }
    } else {
        (Command::Unknown(args[from].clone()), from + 1)
    }
}

/// The code with which the program stops after a command, if it stops.
pub fn exit_code(command: &Command) -> (code: Option<i32>)
    ensures
        code == exit_code_of(command@),
{
    match command {
        Command::Help => Some(0),
        Command::MissingValue(_) => Some(1),
        Command::Unknown(_) => Some(1),
        Command::Import(_) => None,
        Command::Done => None,
    }
}

} // verus!
