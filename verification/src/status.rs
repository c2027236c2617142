//! How a process ended, and what a wait on child processes can bring.

use vstd::prelude::*;

verus! {

/// How a process ended: it exited with a code, or a signal killed it.
#[derive(Clone, Copy, Debug, PartialEq, Eq, Hash, Structural)]
pub enum ExitStatus {
    /// The process exited with this code.
    Exited(i32),
    /// The process was killed by the signal with this number; the flag
    /// tells whether it left a core dump.
    Signaled(i32, bool),
}

impl ExitStatus {
    /// Whether the process exited with code zero.
    pub fn success(&self) -> (ok: bool)
        ensures
            ok == (*self == ExitStatus::Exited(0)),
    {
        match self {
            ExitStatus::Exited(code) => *code == 0,
            ExitStatus::Signaled(_, _) => false,
        }
    }

    /// The exit code, where the process exited.
    pub fn code(&self) -> (code: Option<i32>)
        ensures
            code == (match *self {
                ExitStatus::Exited(c) => Some(c),
                ExitStatus::Signaled(_, _) => None,
            }),
    {
        match self {
            ExitStatus::Exited(code) => Some(*code),
            ExitStatus::Signaled(_, _) => None,
        }
    }

    /// The number of the signal, where a signal killed the process.
    pub fn signal(&self) -> (signal: Option<i32>)
        ensures
            signal == (match *self {
                ExitStatus::Exited(_) => None,
                ExitStatus::Signaled(s, _) => Some(s),
            }),
    {
        match self {
            ExitStatus::Exited(_) => None,
            ExitStatus::Signaled(signal, _) => Some(*signal),
        }
    }
}

/// What one call that waits for child processes brought back.
#[derive(Clone, Copy, Debug, PartialEq, Eq, Hash, Structural)]
pub enum WaitEvent {
    /// The process `pid` exited with `code`.
    Exited { pid: i32, code: i32 },
    /// The process `pid` was killed by `signal`.
    Signaled { pid: i32, signal: i32, core_dumped: bool },
    /// The process `pid` was stopped by `signal`.
    Stopped { pid: i32, signal: i32 },
    /// The process `pid` was resumed.
    Continued { pid: i32 },
    /// Something happened to the process `pid` that only a tracer cares
    /// about.
    Traced { pid: i32 },
    /// A call that does not block found no change: the processes asked
    /// about are still running.
    StillAlive,
    /// A signal interrupted the call.
    Interrupted,
    /// There is no child process to wait for.
    NoChildren,
    /// The call failed with this error code.
    Failed { errno: i32 },
}

impl WaitEvent {
    /// The termination that the event reports, with the process that
    /// ended; `None` for an event that reports none.
    pub open spec fn spec_death(self) -> Option<(i32, ExitStatus)> {
        match self {
            WaitEvent::Exited { pid, code } => Some((pid, ExitStatus::Exited(code))),
            WaitEvent::Signaled { pid, signal, core_dumped } => Some(
                (pid, ExitStatus::Signaled(signal, core_dumped)),
            ),
            _ => None,
        }
    }

    /// The termination that the event reports, with the process that ended.
    pub fn death(&self) -> (death: Option<(i32, ExitStatus)>)
        ensures
            death == self.spec_death(),
    {
        match self {
            WaitEvent::Exited { pid, code } => Some((*pid, ExitStatus::Exited(*code))),
            WaitEvent::Signaled { pid, signal, core_dumped } => Some(
                (*pid, ExitStatus::Signaled(*signal, *core_dumped)),
            ),
            _ => None,
        }
    }
}

} // verus!
