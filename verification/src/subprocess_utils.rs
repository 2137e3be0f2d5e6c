//! What running an outside command gives back.

use vstd::prelude::*;

verus! {

/// The exit code and captured output of a command that was run, and the
/// command itself.
#[derive(Debug, Clone)]
pub struct CommandResult {
    pub returncode: i32,
    pub stdout: String,
    pub stderr: String,
    pub command: Vec<String>,
}

} // verus!
