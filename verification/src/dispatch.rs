//! The command dispatcher: a fixed, enumerable set of known command
//! names, currently exactly one.
use vstd::prelude::*;

use crate::text::str_eq;

verus! {

/// What the dispatcher decides for a command name.
#[derive(Clone, Copy, Debug, PartialEq, Eq, Structural)]
pub enum Dispatch {
    /// The name is in the known set: drive the actuator exactly once
    /// and report success.
    Activate,
    /// The name is not in the known set: perform no action.
    UnknownCommand,
}

/// Whether a command name is in the known set.
pub open spec fn known_command(name: Seq<char>) -> bool {
    name == "open"@
}

/// Maps a validated command name to the action to take: a known name
/// asks for exactly one actuator activation, any other name for none.
/// The dispatcher never sends wire responses itself; the session
/// handler decides what to send from the result.
pub fn dispatch(name: &str) -> (r: Dispatch)
    ensures
        r == Dispatch::Activate <==> known_command(name@),
        r == Dispatch::UnknownCommand <==> !known_command(name@),
{
    if str_eq(name, "open") {
        Dispatch::Activate
    } else {
        Dispatch::UnknownCommand
    }
}

} // verus!
