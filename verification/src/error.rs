//! Why the shell refuses a command.

use vstd::prelude::*;

verus! {

/// A command that the shell does not start.
#[derive(Debug, Clone, Copy, PartialEq, Eq, Structural)]
pub enum ShellError {
    /// No job number is left.
    TooManyJobs,
    /// The pipeline has more commands than the shell can connect.
    PipelineTooLong,
    /// The name of the program holds the character NUL.
    NulInName,
}

} // verus!
