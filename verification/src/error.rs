//! Error type shared by the orchestrator's components.

use vstd::prelude::*;

verus! {

/// Failure conditions reported by the orchestration core.
///
/// Each variant carries the string the caller needs to present the
/// failure: the failed command, the unknown run id, the unresolved
/// binary name, or the configuration problem.
#[derive(Debug)]
pub enum AppError {
    /// An external command failed to run or exited unsuccessfully.
    Command(String),
    /// No live process is registered under the given run id.
    ProcessNotFound(String),
    /// No executable could be resolved for the given tool name.
    BinaryPath(String),
    /// A configuration file could not be located or rewritten.
    Config(String),
}

} // verus!
