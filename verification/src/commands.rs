//! The raw subcommand tokens handed through to the remote build tool.

use vstd::prelude::*;

verus! {

/// The subcommand plus arguments that the remote build tool receives.
/// Everything captured here is passed on verbatim and must form a valid
/// subcommand of that tool.
#[derive(Clone, Debug, PartialEq, Eq)]
pub enum RemoteCommands {
    Commands(Vec<String>),
}

impl RemoteCommands {
    /// Convert into the raw commands.
    pub fn into_commands(self) -> (r: Vec<String>)
        ensures
            self == RemoteCommands::Commands(r),
    {
        let RemoteCommands::Commands(cmds) = self;
        cmds
    }
}

} // verus!
