//! Operator commands read from the console.
use vstd::prelude::*;
use vstd::string::StringExecFns;

verus! {

/// A console command.
#[derive(Debug, Clone, Copy, PartialEq, Eq, Structural)]
pub enum Command {
    /// Print every entry.
    List,
    /// Print the current entry.
    Show,
    /// Advance the rotation and print the new current entry.
    Next,
    /// Probe every entry and print the results.
    Test,
    /// Check the current entry end to end.
    Diag,
    Help,
    /// Shut down.
    Quit,
}

/// Console settings.
#[derive(Debug, Clone, Copy, PartialEq, Eq, Structural)]
pub struct CliConfig {
    pub show_banner: bool,
    pub colored_output: bool,
}

impl Default for CliConfig {
    fn default() -> (r: Self)
        ensures
            r.show_banner,
            r.colored_output,
    {
        CliConfig { show_banner: true, colored_output: true }
    }
}

/// The command a console word names.
pub open spec fn command_of(w: Seq<char>) -> Option<Command> {
    if w == "list"@ {
        Some(Command::List)
    } else if w == "show"@ {
        Some(Command::Show)
    } else if w == "next"@ {
        Some(Command::Next)
    } else if w == "test"@ {
        Some(Command::Test)
    } else if w == "diag"@ || w == "diagnose"@ {
        Some(Command::Diag)
    } else if w == "help"@ {
        Some(Command::Help)
    } else if w == "quit"@ || w == "exit"@ {
        Some(Command::Quit)
    } else {
        None
    }
}

impl Command {
    /// The command `word` names; nothing for an unknown word.
    pub fn parse(word: &str) -> (r: Option<Command>)
        ensures
            r == command_of(word@),
    {
        let w = word.to_owned();
        if w == String::from_str("list") {
            Some(Command::List)
        } else if w == String::from_str("show") {
            Some(Command::Show)
        } else if w == String::from_str("next") {
            Some(Command::Next)
        } else if w == String::from_str("test") {
            Some(Command::Test)
        } else if w == String::from_str("diag") || w == String::from_str("diagnose") {
            Some(Command::Diag)
        } else if w == String::from_str("help") {
            Some(Command::Help)
        } else if w == String::from_str("quit") || w == String::from_str("exit") {
            Some(Command::Quit)
        } else {
            None
        }
    }
}

} // verus!
