//! The command line.

use vstd::prelude::*;
use vstd::string::*;

use crate::text;
use crate::text::{same, starts_with};

verus! {

/// What the program is asked to do.
#[derive(Debug, Clone, Eq, PartialEq)]
pub enum Command {
    /// Download `url` to `output`.
    Download { url: String, output: String },
    /// Become the downloader of pacman.
    Enable,
    /// Stop being the downloader of pacman.
    Disable,
}

/// The model of [`Command`].
pub ghost enum CommandView {
    Download { url: Seq<char>, output: Seq<char> },
    Enable,
    Disable,
}

impl View for Command {
    type V = CommandView;

    open spec fn view(&self) -> CommandView {
        match self {
            Command::Download { url, output } => CommandView::Download {
                url: url@,
                output: output@,
            },
            Command::Enable => CommandView::Enable,
            Command::Disable => CommandView::Disable,
        }
    }
}

/// The arguments ask for nothing that the program does.
#[derive(Debug, Clone, Copy, Eq, PartialEq, Structural)]
pub struct CliError;

impl CliError {
    /// What a user is told.
    pub fn message(&self) -> (message: &'static str)
        ensures
            message@
                == "usage: RustyPac URL OUTPUT | RustyPac --enable | RustyPac --disable"@,
    {
        "usage: RustyPac URL OUTPUT | RustyPac --enable | RustyPac --disable"
    }
}

/// The arguments as sequences of characters.
pub open spec fn argument_views(args: Seq<String>) -> Seq<Seq<char>> {
    args.map_values(|argument: String| argument@)
}

/// What the arguments, the name of the program first, ask for, if they ask for anything.
pub open spec fn parsed(args: Seq<Seq<char>>) -> Option<CommandView> {
    if args.len() == 2 && args[1] == "--enable"@ {
        Some(CommandView::Enable)
    } else if args.len() == 2 && args[1] == "--disable"@ {
        Some(CommandView::Disable)
    } else if args.len() == 3 && !text::has_prefix(args[1], "--"@) && args[2] != "--enable"@
        && args[2] != "--disable"@ {
        Some(CommandView::Download { url: args[1], output: args[2] })
    } else {
        None
    }
}

/// What the arguments, the name of the program first, ask for.
pub fn parse_args(args: &[String]) -> (command: Result<Command, CliError>)
    ensures
        match parsed(argument_views(args@)) {
            Some(view) => command matches Ok(found) && found@ == view,
            None => command is Err,
        },
{
    assert(argument_views(args@).len() == args@.len());
    if args.len() == 2 {
        let option: &str = args[1].as_str();
        if same(option, "--enable") {
            return Ok(Command::Enable);
        }
        if same(option, "--disable") {
            return Ok(Command::Disable);
        }
    } else if args.len() == 3 {
        let url: &str = args[1].as_str();
        let output: &str = args[2].as_str();
        if !starts_with(url, "--") && !same(output, "--enable") && !same(output, "--disable") {
            return Ok(Command::Download { url: url.to_owned(), output: output.to_owned() });
        }
    }
    Err(CliError)
}

} // verus!
