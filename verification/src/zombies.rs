//! Who learns of a child's death.
//!
//! The death of a child can be collected by a wait for that child, or by a
//! sweep over all children of the process, which also finds those whose
//! handle is gone and those that another process left behind. Whatever the
//! calls to the operating system bring back, this module sees to it that
//! each death is reported to one of the two at most: each claims the death
//! for itself in a register that the whole process shares, and only the
//! first claim wins. The caller keeps the register behind a lock and
//! hands it in.
//!
//! A claim stands until the register is told to forget the process id. The
//! operating system hands a process id out again once the death of its
//! process is collected, so whoever starts a process, or learns of one that
//! was started, has to call `Registry::forget` with its process id before
//! its death can be claimed: the death of a later process with a claimed
//! number is else passed over.

use crate::error::{no_child, ECHILD};
use crate::status::{ExitStatus, WaitEvent};
use vstd::prelude::*;

verus! {

/// The death of a child, as the sweep reports it.
#[derive(Clone, Copy, Debug, PartialEq, Eq, Hash, Structural)]
pub struct ChildEvent {
    /// The process that ended.
    pub pid: i32,
    /// How it ended.
    pub status: ExitStatus,
}

/// The register of deaths that have been claimed.
#[derive(Clone, Debug, PartialEq, Eq)]
pub struct Registry {
    claimed: Vec<i32>,
}

/// What a claim of the death of `pid` brings, in a register that holds
/// `claimed`: whether the claim wins, and what the register holds after it.
pub open spec fn claim(claimed: Set<i32>, pid: i32) -> (bool, Set<i32>) {
    (!claimed.contains(pid), claimed.insert(pid))
}

/// How many of the claims in `trace`, made one after the other from a
/// register that holds `claimed`, win the death of `pid`.
pub open spec fn wins(claimed: Set<i32>, trace: Seq<i32>, pid: i32) -> nat
    decreases trace.len(),
{
    if trace.len() == 0 {
        0
    } else {
        let (won, after) = claim(claimed, trace[0]);
        let here: nat = if won && trace[0] == pid {
            1
        } else {
            0
        };
        here + wins(after, trace.drop_first(), pid)
    }
}

/// A death that has been claimed is never won again.
pub proof fn lemma_claimed_stays(claimed: Set<i32>, trace: Seq<i32>, pid: i32)
    requires
        claimed.contains(pid),
    ensures
        wins(claimed, trace, pid) == 0,
    decreases trace.len(),
{
    if trace.len() > 0 {
        lemma_claimed_stays(claimed.insert(trace[0]), trace.drop_first(), pid);
    }
}

/// Whoever claims, in whatever order and however often: the death of a
/// process is won once at most.
pub proof fn lemma_single_observer(claimed: Set<i32>, trace: Seq<i32>, pid: i32)
    ensures
        wins(claimed, trace, pid) <= 1,
    decreases trace.len(),
{
    if trace.len() > 0 {
        let after = claimed.insert(trace[0]);
        if trace[0] == pid {
            lemma_claimed_stays(after, trace.drop_first(), pid);
        } else {
            lemma_single_observer(after, trace.drop_first(), pid);
        }
    }
}

impl Registry {
    /// The processes whose death has been claimed.
    pub closed spec fn view(&self) -> Set<i32> {
        self.claimed@.to_set()
    }

    /// A register in which nothing is claimed.
    pub fn new() -> (registry: Registry)
        ensures
            registry@ == Set::<i32>::empty(),
    {
        let registry = Registry { claimed: Vec::new() };
        assert(registry@ =~= Set::<i32>::empty());
        registry
    }

    /// Whether the death of `pid` has been claimed.
    pub fn is_claimed(&self, pid: i32) -> (found: bool)
        ensures
            found == self@.contains(pid),
    {
        let mut i: usize = 0;
        while i < self.claimed.len()
            invariant
                i <= self.claimed.len(),
                forall|k: int| 0 <= k < i ==> self.claimed@[k] != pid,
            decreases self.claimed.len() - i,
        {
            if self.claimed[i] == pid {
                return true;
            }
            i = i + 1;
        }
        false
    }

    /// Claims the death of `pid`. The claim wins where nobody has claimed
    /// that death before; the one whose claim does not win has seen
    /// nothing.
    pub fn claim(&mut self, pid: i32) -> (won: bool)
        ensures
            (won, final(self)@) == claim(old(self)@, pid),
    {
        if self.is_claimed(pid) {
            assert(self@ =~= self@.insert(pid));
            false
        } else {
            let ghost before = self.claimed@;
            self.claimed.push(pid);
            proof {
                let after = self.claimed@;
                assert(after.to_set() =~= before.to_set().insert(pid)) by {
                    assert forall|x: i32| after.to_set().contains(x) == before.to_set().insert(
                        pid,
                    ).contains(x) by {
                        if before.contains(x) {
                            let at = choose|at: int| 0 <= at < before.len() && before[at] == x;
                            assert(after[at] == x);
                        }
                        if x == pid {
                            assert(after[before.len() as int] == x);
                        }
                        if after.contains(x) {
                            let at = choose|at: int| 0 <= at < after.len() && after[at] == x;
                            if at < before.len() {
                                assert(before[at] == x);
                            }
                        }
                    }
                }
            }
            true
        }
    }

    /// Forgets what is known of `pid`: the number belongs to a new process,
    /// whose death nobody has claimed.
    pub fn forget(&mut self, pid: i32)
        ensures
            final(self)@ == old(self)@.remove(pid),
    {
        let mut rest: Vec<i32> = Vec::new();
        let mut i: usize = 0;
        while i < self.claimed.len()
            invariant
                i <= self.claimed.len(),
                self.claimed@ == old(self).claimed@,
                forall|y: i32|
                    rest@.contains(y) <==> y != pid && exists|k: int|
                        0 <= k < i && #[trigger] self.claimed@[k] == y,
            decreases self.claimed.len() - i,
        {
            let ghost before = rest@;
            let x = self.claimed[i];
            if x != pid {
                rest.push(x);
                assert(rest@[rest@.len() - 1] == x);
            }
            proof {
                assert forall|y: i32|
                    rest@.contains(y) <==> y != pid && exists|k: int|
                        0 <= k < i + 1 && #[trigger] self.claimed@[k] == y by {
                    if before.contains(y) {
                        let at = choose|at: int| 0 <= at < before.len() && before[at] == y;
                        assert(rest@[at] == y);
                        let k = choose|k: int| 0 <= k < i && #[trigger] self.claimed@[k] == y;
                        assert(self.claimed@[k] == y);
                    }
                    if rest@.contains(y) && !before.contains(y) {
                        let at = choose|at: int| 0 <= at < rest@.len() && rest@[at] == y;
                        if at < before.len() {
                            assert(before[at] == y);
                        }
                        assert(self.claimed@[i as int] == y);
                    }
                    if y != pid && exists|k: int|
                        0 <= k < i + 1 && #[trigger] self.claimed@[k] == y {
                        let k = choose|k: int| 0 <= k < i + 1 && #[trigger] self.claimed@[k] == y;
                        if k < i {
                            assert(before.contains(y));
                        } else {
                            assert(rest@.contains(y));
                        }
                    }
                }
            }
            i = i + 1;
        }
        proof {
            let all = self.claimed@;
            assert(rest@.to_set() =~= all.to_set().remove(pid)) by {
                assert forall|y: i32| rest@.to_set().contains(y) == all.to_set().remove(
                    pid,
                ).contains(y) by {
                    if rest@.contains(y) {
                        let k = choose|k: int| 0 <= k < all.len() && #[trigger] all[k] == y;
                        assert(all.contains(y));
                    }
                    if all.contains(y) && y != pid {
                        let k = choose|k: int| 0 <= k < all.len() && all[k] == y;
                        assert(all[k] == y);
                        assert(rest@.contains(y));
                    }
                }
            }
        }
        self.claimed = rest;
    }
}

/// What the sweep does after one wait for any child.
#[derive(Clone, Copy, Debug, PartialEq, Eq, Hash, Structural)]
pub enum ReapStep {
    /// It reports this death, then goes on.
    Yield(ChildEvent),
    /// It goes on with nothing to report.
    Again,
    /// It ends: no child has anything to report now. A later sweep may
    /// find more.
    Finished,
    /// It ends with the failure of the wait.
    Failed { errno: i32 },
}

/// What the sweep does after a wait that brought `event`, and what the
/// register holds then. A death is reported where the sweep's claim of it
/// wins; of a death that a wait for that child has claimed, the sweep sees
/// nothing. Children that were stopped or resumed are passed over.
pub open spec fn spec_reap(claimed: Set<i32>, event: WaitEvent) -> (ReapStep, Set<i32>) {
    match event.spec_death() {
        Some((pid, status)) => {
            let (won, after) = claim(claimed, pid);
            if won {
                (ReapStep::Yield(ChildEvent { pid, status }), after)
            } else {
                (ReapStep::Again, after)
            }
        },
        None => match event {
            WaitEvent::StillAlive | WaitEvent::NoChildren => (ReapStep::Finished, claimed),
            WaitEvent::Failed { errno } => (ReapStep::Failed { errno }, claimed),
            _ => (ReapStep::Again, claimed),
        },
    }
}

/// Decides what the sweep does after a wait for any child, made without
/// blocking, that brought `event`.
pub fn reap(registry: &mut Registry, event: WaitEvent) -> (step: ReapStep)
    ensures
        (step, final(registry)@) == spec_reap(old(registry)@, event),
{
    match event.death() {
        Some((pid, status)) => {
            if registry.claim(pid) {
                ReapStep::Yield(ChildEvent { pid, status })
            } else {
                ReapStep::Again
            }
        },
        None => match event {
            WaitEvent::StillAlive | WaitEvent::NoChildren => ReapStep::Finished,
            WaitEvent::Failed { errno } => ReapStep::Failed { errno },
            _ => ReapStep::Again,
        },
    }
}

/// What a wait for one child does after a call to the operating system.
#[derive(Clone, Copy, Debug, PartialEq, Eq, Hash, Structural)]
pub enum WaitStep {
    /// The child has ended, in this way.
    Done(ExitStatus),
    /// The call has to be made again.
    Again,
    /// The child is still running; only a wait that does not block ends so.
    Running,
    /// The wait has failed.
    Failed { errno: i32 },
}

/// What a wait for the child `pid`, whose status so far is `status`, does
/// after a call that brought `event`; the status after it; and what the
/// register holds then.
///
/// A status that is known stays as it is and is the answer, whatever the
/// call brought. The death of the child is its status from then on, where
/// the wait's claim of it wins; where the sweep has claimed it, the wait has
/// seen nothing and fails as a wait without a child does. What is not the
/// death of this child makes the wait call again.
pub open spec fn spec_observe(
    pid: i32,
    status: Option<ExitStatus>,
    claimed: Set<i32>,
    event: WaitEvent,
) -> (WaitStep, Option<ExitStatus>, Set<i32>) {
    match status {
        Some(known) => (WaitStep::Done(known), status, claimed),
        None => match event.spec_death() {
            Some((dead, how)) => if dead == pid {
                let (won, after) = claim(claimed, pid);
                if won {
                    (WaitStep::Done(how), Some(how), after)
                } else {
                    (WaitStep::Failed { errno: ECHILD }, None, after)
                }
            } else {
                (WaitStep::Again, None, claimed)
            },
            None => match event {
                WaitEvent::StillAlive => (WaitStep::Running, None, claimed),
                WaitEvent::NoChildren => (WaitStep::Failed { errno: ECHILD }, None, claimed),
                WaitEvent::Failed { errno } => (WaitStep::Failed { errno }, None, claimed),
                _ => (WaitStep::Again, None, claimed),
            },
        },
    }
}

/// Decides what a wait for the child `pid` does after a call that brought
/// `event`, and keeps the child's status.
pub fn observe(
    pid: i32,
    status: &mut Option<ExitStatus>,
    registry: &mut Registry,
    event: WaitEvent,
) -> (step: WaitStep)
    ensures
        (step, *final(status), final(registry)@) == spec_observe(
            pid,
            *old(status),
            old(registry)@,
            event,
        ),
{
    if let Some(known) = *status {
        return WaitStep::Done(known);
    }
    match event.death() {
        Some((dead, how)) => {
            if dead == pid {
                if registry.claim(pid) {
                    *status = Some(how);
                    WaitStep::Done(how)
                } else {
                    WaitStep::Failed { errno: no_child() }
                }
            } else {
                WaitStep::Again
            }
        },
        None => match event {
            WaitEvent::StillAlive => WaitStep::Running,
            WaitEvent::NoChildren => WaitStep::Failed { errno: no_child() },
            WaitEvent::Failed { errno } => WaitStep::Failed { errno },
            _ => WaitStep::Again,
        },
    }
}

/// A wait that has its answer keeps it: once the status of a child is
/// known, every later wait gives that status again, asks nothing of the
/// register and changes nothing.
pub proof fn lemma_wait_idempotent(
    pid: i32,
    status: Option<ExitStatus>,
    claimed: Set<i32>,
    first: WaitEvent,
    second: WaitEvent,
)
    ensures
        ({
            let (step, known, register) = spec_observe(pid, status, claimed, first);
            step is Done ==> spec_observe(pid, known, register, second) == (step, known, register)
        }),
{
}

/// A death is seen by the wait for the child or by the sweep, never by
/// both: whichever of the two comes second to the same death sees nothing
/// of it.
pub proof fn lemma_wait_or_sweep(
    pid: i32,
    claimed: Set<i32>,
    to_wait: WaitEvent,
    to_sweep: WaitEvent,
)
    requires
        to_wait.spec_death() matches Some((dead, _)) && dead == pid,
        to_sweep.spec_death() matches Some((dead, _)) && dead == pid,
    ensures
        ({
            let (step, _, register) = spec_observe(pid, None, claimed, to_wait);
            let (swept, _) = spec_reap(register, to_sweep);
            !(step is Done && swept is Yield)
        }),
        ({
            let (swept, register) = spec_reap(claimed, to_sweep);
            let (step, _, _) = spec_observe(pid, None, register, to_wait);
            !(step is Done && swept is Yield)
        }),
{
}

} // verus!
