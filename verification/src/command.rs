//! The driver's menu commands.

use vstd::prelude::*;

verus! {

/// What the user asked the driver to do.
#[derive(PartialEq, Eq, Structural, Clone, Copy, Debug)]
pub enum Command {
    Ingest,
    Update,
    Exit,
}

/// The menu: "1" ingests, "2" updates, "3" exits; anything else is invalid.
pub open spec fn spec_parse_command(input: Seq<char>) -> Option<Command> {
    if input == "1"@ {
        Some(Command::Ingest)
    } else if input == "2"@ {
        Some(Command::Update)
    } else if input == "3"@ {
        Some(Command::Exit)
    } else {
        None
    }
}

/// Parse one trimmed line of user input into a command.
pub fn parse_command(input: &String) -> (r: Option<Command>)
    ensures
        r == spec_parse_command(input@),
{
    if *input == String::from_str("1") {
        Some(Command::Ingest)
    } else if *input == String::from_str("2") {
        Some(Command::Update)
    } else if *input == String::from_str("3") {
        Some(Command::Exit)
    } else {
        None
    }
}

} // verus!
