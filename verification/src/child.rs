//! The handle of a child that runs its program.

use crate::fds::Wire;
use crate::status::{ExitStatus, WaitEvent};
use crate::stdio::{find_kept, kept_at};
use crate::zombies::{observe, spec_observe, Registry, WaitStep};
use vstd::prelude::*;

verus! {

/// A child that runs its program, or has run it.
#[derive(Debug)]
pub struct Child {
    pid: i32,
    status: Option<ExitStatus>,
    fds: Vec<Wire>,
    /// The write end of the pipe that is the child's standard input.
    pub stdin: Option<i32>,
    /// The read end of the pipe that is the child's standard output.
    pub stdout: Option<i32>,
    /// The read end of the pipe that is the child's standard error.
    pub stderr: Option<i32>,
}

/// The ends of pipes that are left once the end for the child's number
/// `target` is taken out.
pub open spec fn without(kept: Seq<Wire>, target: i32) -> Seq<Wire>
    decreases kept.len(),
{
    if kept.len() == 0 {
        kept
    } else if kept[0].target == target {
        kept.drop_first()
    } else {
        seq![kept[0]] + without(kept.drop_first(), target)
    }
}

impl Child {
    /// The process id of the child.
    pub closed spec fn spec_pid(&self) -> i32 {
        self.pid
    }

    /// How the child ended, once that is known.
    pub closed spec fn spec_status(&self) -> Option<ExitStatus> {
        self.status
    }

    /// The ends of pipes that the handle holds, each filed under the number
    /// at which the child has the other end.
    pub closed spec fn pipes(&self) -> Seq<Wire> {
        self.fds@
    }

    /// The ends at hand for the three standard streams: input, output and
    /// error.
    pub closed spec fn streams(&self) -> (Option<i32>, Option<i32>, Option<i32>) {
        (self.stdin, self.stdout, self.stderr)
    }

    /// The handle of the child `pid`, which holds the ends of pipes that the
    /// parent kept. Those of the three standard streams are at hand as
    /// `stdin`, `stdout` and `stderr`. How the child ends is not known yet.
    pub fn new(pid: i32, kept: Vec<Wire>) -> (child: Child)
        ensures
            child.spec_pid() == pid,
            child.spec_status() is None,
            child.pipes() == kept@,
            child.streams() == (kept_at(kept@, 0), kept_at(kept@, 1), kept_at(kept@, 2)),
    {
        let stdin = find_kept(&kept, 0);
        let stdout = find_kept(&kept, 1);
        let stderr = find_kept(&kept, 2);
        Child { pid, status: None, fds: kept, stdin, stdout, stderr }
    }

    /// The process id of the child.
    pub fn pid(&self) -> (pid: i32)
        ensures
            pid == self.spec_pid(),
    {
        self.pid
    }

    /// The write end of the pipe that is the child's standard input, where
    /// it is a pipe.
    pub fn stdin(&self) -> (end: Option<i32>)
        ensures
            end == self.streams().0,
    {
        self.stdin
    }

    /// The read end of the pipe that is the child's standard output, where
    /// it is a pipe.
    pub fn stdout(&self) -> (end: Option<i32>)
        ensures
            end == self.streams().1,
    {
        self.stdout
    }

    /// The read end of the pipe that is the child's standard error, where
    /// it is a pipe.
    pub fn stderr(&self) -> (end: Option<i32>)
        ensures
            end == self.streams().2,
    {
        self.stderr
    }

    /// How the child ended, once a wait has found out.
    pub fn status(&self) -> (status: Option<ExitStatus>)
        ensures
            status == self.spec_status(),
    {
        self.status
    }

    /// Whether a signal may still be sent to the child: not once it is
    /// known to have ended, since its process id may by then belong to
    /// another process.
    pub fn may_signal(&self) -> (alive: bool)
        ensures
            alive == (self.spec_status() is None),
    {
        self.status.is_none()
    }

    /// What a wait for the child does before it asks the operating system:
    /// a status that is known is the answer, and nothing is asked.
    pub fn known(&self) -> (step: Option<WaitStep>)
        ensures
            step == (match self.spec_status() {
                Some(status) => Some(WaitStep::Done(status)),
                None => None,
            }),
    {
        match self.status {
            Some(status) => Some(WaitStep::Done(status)),
            None => None,
        }
    }

    /// Takes what a wait for this child brought back from the operating
    /// system, and says what the wait does next. The status is set once, by
    /// the death of the child, and never changes after that.
    pub fn observe(&mut self, registry: &mut Registry, event: WaitEvent) -> (step: WaitStep)
        ensures
            (step, final(self).spec_status(), final(registry)@) == spec_observe(
                old(self).spec_pid(),
                old(self).spec_status(),
                old(registry)@,
                event,
            ),
            final(self).spec_pid() == old(self).spec_pid(),
            final(self).pipes() == old(self).pipes(),
            final(self).streams() == old(self).streams(),
    {
        let pid = self.pid;
        observe(pid, &mut self.status, registry, event)
    }

    /// Takes the end of the pipe at the child's number `target` out of the
    /// handle, if it holds one.
    pub fn take_pipe(&mut self, target: i32) -> (end: Option<i32>)
        ensures
            end == kept_at(old(self).pipes(), target),
            final(self).pipes() == without(old(self).pipes(), target),
            final(self).spec_pid() == old(self).spec_pid(),
            final(self).spec_status() == old(self).spec_status(),
            final(self).streams() == old(self).streams(),
    {
        let mut i: usize = 0;
        let ghost all = self.fds@;
        assert(all.skip(0) =~= all);
        assert(all.take(0) + without(all.skip(0), target) =~= without(all, target));
        while i < self.fds.len()
            invariant
                i <= self.fds.len(),
                self.fds@ == all,
                all == old(self).fds@,
                self.pid == old(self).pid,
                self.status == old(self).status,
                self.streams() == old(self).streams(),
                kept_at(all, target) == kept_at(all.skip(i as int), target),
                without(all, target) == all.take(i as int) + without(all.skip(i as int), target),
            decreases self.fds.len() - i,
        {
            let ghost rest = all.skip(i as int);
            assert(rest[0] == all[i as int]);
            assert(rest.drop_first() =~= all.skip(i + 1));
            if self.fds[i].target == target {
                assert(kept_at(rest, target) == Some(rest[0].source));
                assert(without(rest, target) == rest.drop_first());
                let wire = self.fds.remove(i);
                assert(wire == rest[0]);
                assert(self.fds@ =~= all.take(i as int) + all.skip(i + 1));
                return Some(wire.source);
            }
            assert(all.take(i as int) + (seq![rest[0]] + without(all.skip(i + 1), target))
                =~= all.take(i + 1) + without(all.skip(i + 1), target));
            i = i + 1;
        }
        assert(all.skip(all.len() as int).len() == 0);
        assert(all.take(all.len() as int) + without(all.skip(all.len() as int), target) =~= all);
        None
    }
}

} // verus!
