//! What the operating system reports, as plain values.

use vstd::prelude::*;
use crate::process::Pid;

verus! {

/// What a failed system call means to the shell.
#[derive(Debug, PartialEq, Eq, Clone, Copy, Structural)]
pub enum ErrorKind {
    /// A signal came in before the call was done.
    Interrupted,
    /// There is no child to wait for.
    NoChild,
    /// Any other failure.
    Other,
}

/// A failed system call: what it means, and the error number.
#[derive(Debug, PartialEq, Eq, Clone, Copy, Structural)]
pub struct SysError {
    pub kind: ErrorKind,
    pub errno: i32,
}

/// A change of state in a child.
#[derive(Debug, PartialEq, Eq, Clone, Copy, Structural)]
pub enum WaitStatus {
    /// The child has ended with an exit status.
    Exited(Pid, i32),
    /// The child was killed by the signal of this number.
    Signaled(Pid, i32),
    /// The child has stopped.
    Stopped(Pid),
    /// The child was stopped by a trace event.
    PtraceEvent(Pid),
    /// The child was stopped at a system call that is traced.
    PtraceSyscall(Pid),
    /// The child has been continued.
    Continued(Pid),
    /// No child has changed state.
    StillAlive,
}

/// The name of the signal of number `number`, if there is such a signal on the platform that the
/// library is built for.
pub uninterp spec fn signal_text(number: i32) -> Option<Seq<char>>;

/// What the platform that the library is built for says of the error of number `errno`.
pub uninterp spec fn errno_text(errno: i32) -> Seq<char>;

/// `nix::sys::signal::Signal::try_from` with `Signal::as_str`: the name of the signal of number
/// `number`, or nothing where the platform has no such signal. Both go by fixed tables, so the
/// result rests on the number alone.
#[verifier::external_body]
pub(crate) fn signal_name(number: i32) -> (r: Option<String>)
    ensures
        match r {
            Some(name) => signal_text(number) == Some(name@),
            None => signal_text(number) is None,
        },
{
    match nix::sys::signal::Signal::try_from(number) {
        Ok(signal) => Some(signal.as_str().to_string()),
        Err(_) => None,
    }
}

/// `nix::errno::Errno::from_i32` with the `Display` of `Errno`: the name and the description of
/// the error of number `errno`. Both go by fixed tables, so the result rests on the number alone.
#[verifier::external_body]
pub(crate) fn errno_message(errno: i32) -> (r: String)
    ensures
        r@ == errno_text(errno),
{
    nix::errno::Errno::from_i32(errno).to_string()
}

/// Decides on the outcome of a system call: `None` asks for the call to be made again, which is
/// so exactly when a signal interrupted it. Any other outcome is final.
pub fn syscall<T>(outcome: Result<T, SysError>) -> (r: Option<Result<T, SysError>>)
    ensures
        r == (match outcome {
            Err(e) if e.kind == ErrorKind::Interrupted => None,
            _ => Some(outcome),
        }),
{
    match outcome {
        Err(e) => if e.kind == ErrorKind::Interrupted {
            None
        } else {
            Some(Err(e))
        },
        Ok(v) => Some(Ok(v)),
    }
}

} // verus!
