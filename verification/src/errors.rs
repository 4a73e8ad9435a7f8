//! The error taxonomy shared by the executor, the scheduler and the
//! terminal registry.

use vstd::prelude::*;

verus! {

/// Why an operation was refused or failed.
///
/// `NotFound` names an unknown task or session id; `SafetyViolation`
/// carries the denylist pattern or privilege-escalation tool that blocked a
/// command; `InvalidWorkingDirectory` carries the offending directory;
/// `ShellNotFound` carries the shell path that does not exist; `Timeout`
/// carries the configured limit in seconds; `SpawnFailure` and `IoFailure`
/// carry the underlying message.
#[derive(Clone, Debug)]
pub enum CoreError {
    NotFound,
    SafetyViolation(String),
    InvalidWorkingDirectory(String),
    ShellNotFound(String),
    SpawnFailure(String),
    Timeout(u64),
    IoFailure(String),
}

} // verus!
