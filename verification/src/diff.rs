//! The older-form diff command, kept with its executor.

use crate::config::DiffCommand;
use vstd::prelude::*;

verus! {

/// Holds the command that an older configuration names.
pub struct DiffExecutor {
    pub command: DiffCommand,
}

impl DiffExecutor {
    /// An executor for the given command.
    pub fn new(command: DiffCommand) -> (executor: Self)
        ensures
            executor.command == command,
    {
        Self { command }
    }
}

} // verus!
