//! The commands of the prompt that start with a dot.

use vstd::prelude::*;

use crate::text::{lowercase, same_text, str_to_lowercase};

verus! {

/// What a dot command asks for.
pub enum DotCommand {
    /// `.exit`, in any case: leave the prompt.
    Exit,
    /// Any other dot command, in lowercase.
    Unrecognized(String),
}

/// Reads a dot command, without regard to case.
pub fn dot_command(cmd: &str) -> (r: DotCommand)
    ensures
        lowercase(cmd@) == ".exit"@ ==> r is Exit,
        lowercase(cmd@) != ".exit"@ ==> (r matches DotCommand::Unrecognized(s) && s@ == lowercase(
            cmd@,
        )),
{
    let cmd = str_to_lowercase(cmd);
    if same_text(cmd.as_str(), ".exit") {
        DotCommand::Exit
    } else {
        DotCommand::Unrecognized(cmd)
    }
}

} // verus!
