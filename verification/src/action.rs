//! The steps that a child makes between duplication and the replacement of
//! its program image.
//!
//! A child that was duplicated from a process with several threads must
//! not allocate, take a lock or run code that may do either. So everything
//! is decided before the duplication: the child is handed a list of plain
//! instructions, each of which is one system call or a few, and walks it.

use crate::caps::CapSet;
use crate::error::Step;
use crate::namespace::Join;
use vstd::prelude::*;

verus! {

/// One instruction for the child. Where an instruction needs a path or a
/// list, the plan that holds the instruction holds that too.
#[derive(Clone, Copy, Debug, PartialEq, Eq)]
pub enum Action {
    /// Become the leader of a new process group.
    GroupLeader,
    /// Write the child's own process id into the environment variables that
    /// are to carry it.
    StampPid,
    /// Enter the namespace behind a descriptor, and close the descriptor.
    Join(Join),
    /// Wait until the parent lets the child go on: the parent has then
    /// written the maps of ids and run its hook.
    AwaitParent,
    /// Hold on to the capabilities while the user id changes: the kernel
    /// would else drop them all with the change, and none could be kept.
    HoldCaps,
    /// Set the supplementary groups to the plan's list.
    SetGroups,
    /// Set the group id.
    SetGid(u32),
    /// Set the user id.
    SetUid(u32),
    /// Change the root directory to the plan's new root by `chroot`.
    Chroot,
    /// Change the root directory to the plan's new root by `pivot_root`,
    /// which moves the old root to the plan's place for it.
    PivotRoot,
    /// Unmount the old root, at the place where the new root shows it.
    UnmountOld,
    /// Change the working directory to the plan's working directory.
    Chdir,
    /// Drop every capability that is not in the set.
    KeepCaps(CapSet),
    /// Unblock all signals and give them their default handling.
    RestoreSigmask,
    /// Make `target` a duplicate of `source`.
    Dup { source: i32, target: i32 },
    /// Let `fd` stay open when the program image is replaced.
    KeepOpen { fd: i32 },
    /// Close the descriptor `fd`.
    Close { fd: i32 },
    /// Close every descriptor from `from` up to, not including, `to`.
    CloseRange { from: i32, to: i32 },
    /// Run the caller's hook.
    PreExec,
    /// Ask for the signal with this number when the parent dies.
    DeathSignal(i32),
    /// Replace the program image.
    Exec,
}

impl Action {
    /// The step that is reported when the instruction fails.
    pub open spec fn spec_step(self) -> Step {
        match self {
            Action::GroupLeader => Step::Identity,
            Action::StampPid => Step::Exec,
            Action::Join(_) => Step::JoinNamespace,
            Action::AwaitParent => Step::Channel,
            Action::HoldCaps => Step::Capabilities,
            Action::SetGroups => Step::Identity,
            Action::SetGid(_) => Step::Identity,
            Action::SetUid(_) => Step::Identity,
            Action::Chroot => Step::Chroot,
            Action::PivotRoot => Step::PivotRoot,
            Action::UnmountOld => Step::PivotRoot,
            Action::Chdir => Step::Chdir,
            Action::KeepCaps(_) => Step::Capabilities,
            Action::RestoreSigmask => Step::SignalMask,
            Action::Dup { .. } => Step::Descriptors,
            Action::KeepOpen { .. } => Step::Descriptors,
            Action::Close { .. } => Step::Descriptors,
            Action::CloseRange { .. } => Step::Descriptors,
            Action::PreExec => Step::PreExec,
            Action::DeathSignal(_) => Step::DeathSignal,
            Action::Exec => Step::Exec,
        }
    }

    /// The place of the instruction's kind in the order of a launch: an
    /// instruction of a lower stage comes before one of a higher stage.
    pub open spec fn spec_stage(self) -> int {
        match self {
            Action::GroupLeader => 0,
            Action::StampPid => 0,
            Action::Join(_) => 1,
            Action::AwaitParent => 2,
            Action::HoldCaps => 3,
            Action::SetGroups => 3,
            Action::SetGid(_) => 3,
            Action::SetUid(_) => 3,
            Action::Chroot => 4,
            Action::PivotRoot => 4,
            Action::UnmountOld => 4,
            Action::Chdir => 5,
            Action::KeepCaps(_) => 6,
            Action::RestoreSigmask => 7,
            Action::Dup { .. } => 8,
            Action::KeepOpen { .. } => 8,
            Action::Close { .. } => 8,
            Action::CloseRange { .. } => 8,
            Action::PreExec => 9,
            Action::DeathSignal(_) => 10,
            Action::Exec => 11,
        }
    }

    /// The step that is reported when the instruction fails.
    pub fn step(&self) -> (step: Step)
        ensures
            step == self.spec_step(),
            step.spec_in_child(),
    {
        match self {
            Action::GroupLeader => Step::Identity,
            Action::StampPid => Step::Exec,
            Action::Join(_) => Step::JoinNamespace,
            Action::AwaitParent => Step::Channel,
            Action::HoldCaps => Step::Capabilities,
            Action::SetGroups => Step::Identity,
            Action::SetGid(_) => Step::Identity,
            Action::SetUid(_) => Step::Identity,
            Action::Chroot => Step::Chroot,
            Action::PivotRoot => Step::PivotRoot,
            Action::UnmountOld => Step::PivotRoot,
            Action::Chdir => Step::Chdir,
            Action::KeepCaps(_) => Step::Capabilities,
            Action::RestoreSigmask => Step::SignalMask,
            Action::Dup { .. } => Step::Descriptors,
            Action::KeepOpen { .. } => Step::Descriptors,
            Action::Close { .. } => Step::Descriptors,
            Action::CloseRange { .. } => Step::Descriptors,
            Action::PreExec => Step::PreExec,
            Action::DeathSignal(_) => Step::DeathSignal,
            Action::Exec => Step::Exec,
        }
    }

    /// The place of the instruction's kind in the order of a launch.
    pub fn stage(&self) -> (stage: u8)
        ensures
            stage == self.spec_stage(),
    {
        match self {
            Action::GroupLeader => 0,
            Action::StampPid => 0,
            Action::Join(_) => 1,
            Action::AwaitParent => 2,
            Action::HoldCaps => 3,
            Action::SetGroups => 3,
            Action::SetGid(_) => 3,
            Action::SetUid(_) => 3,
            Action::Chroot => 4,
            Action::PivotRoot => 4,
            Action::UnmountOld => 4,
            Action::Chdir => 5,
            Action::KeepCaps(_) => 6,
            Action::RestoreSigmask => 7,
            Action::Dup { .. } => 8,
            Action::KeepOpen { .. } => 8,
            Action::Close { .. } => 8,
            Action::CloseRange { .. } => 8,
            Action::PreExec => 9,
            Action::DeathSignal(_) => 10,
            Action::Exec => 11,
        }
    }
}

} // verus!
