//! The list of instructions that a child walks, in the one order in which
//! a launch is safe.
//!
//! The order follows from what each step needs and what it takes away.
//! Namespaces are joined first, the user namespace before the others. The
//! child then waits for the parent, which writes the maps of ids. Identity,
//! root and working directory follow. Capabilities are restricted only
//! then, because the steps before may need them. Signals and descriptors
//! come after that, the caller's hook sees the child as the new program
//! will find it, the signal for the parent's death is registered last, and
//! then the program image is replaced.

use crate::action::Action;
use crate::caps::CapSet;
use crate::fds::{
    close_actions, push_close_actions, push_span_actions, push_wire_actions, span_actions,
    wire_actions, Span, Wire,
};
use crate::namespace::{join_sequence, Join, JoinMap, Namespace};
use vstd::prelude::*;

verus! {

/// What decides the instructions of a child.
pub struct Steps {
    /// Whether the child becomes the leader of a new process group.
    pub group_leader: bool,
    /// Whether variables of the environment carry the child's process id.
    pub stamp_pid: bool,
    /// The namespaces that the child joins.
    pub joins: Map<Namespace, i32>,
    /// Whether the child waits for the parent before it goes on.
    pub gate: bool,
    /// Whether the supplementary groups are set.
    pub groups: bool,
    /// The group id, where it is set.
    pub gid: Option<u32>,
    /// The user id, where it is set.
    pub uid: Option<u32>,
    /// Whether the root is changed by `chroot`.
    pub chroot: bool,
    /// Whether the root is changed by `pivot_root`, and if so, whether the
    /// old root is unmounted.
    pub pivot: Option<bool>,
    /// Whether the working directory is changed.
    pub chdir: bool,
    /// The capabilities that are kept, where they are restricted.
    pub caps: Option<CapSet>,
    /// Whether the handling of signals is reset.
    pub sigmask: bool,
    /// The wires of the descriptors.
    pub wires: Seq<Wire>,
    /// The descriptors that are closed one by one.
    pub closed: Seq<i32>,
    /// The spans of descriptors that are closed.
    pub spans: Seq<Span>,
    /// Whether the caller's hook is run.
    pub pre_exec: bool,
    /// The signal for the parent's death, where one is asked for.
    pub death_sig: Option<i32>,
}

/// The number of parts that a script is made of.
pub const PARTS: u8 = 15;

/// The instruction `action` where `wanted`, and nothing else.
pub open spec fn when(wanted: bool, action: Action) -> Seq<Action> {
    if wanted {
        seq![action]
    } else {
        Seq::<Action>::empty()
    }
}

/// The instructions that make the joins, in their order.
pub open spec fn join_actions(joins: Seq<Join>) -> Seq<Action> {
    Seq::new(joins.len(), |i: int| Action::Join(joins[i]))
}

/// Whether the child has to hold on to its capabilities before it sets its
/// identity: it has where capabilities are to be kept and the user id
/// changes.
pub open spec fn holds_caps(caps: Option<CapSet>, uid: Option<u32>) -> bool {
    caps is Some && uid is Some
}

/// The instructions that set the identity: the supplementary groups, then
/// the group id, then the user id. The user id comes last: once it is set,
/// the child may no longer be allowed to set the others. Where `hold`, the
/// child first holds on to its capabilities.
pub open spec fn identity_actions(
    hold: bool,
    groups: bool,
    gid: Option<u32>,
    uid: Option<u32>,
) -> Seq<Action> {
    when(hold, Action::HoldCaps) + when(groups, Action::SetGroups) + (match gid {
        Some(id) => seq![Action::SetGid(id)],
        None => Seq::<Action>::empty(),
    }) + (match uid {
        Some(id) => seq![Action::SetUid(id)],
        None => Seq::<Action>::empty(),
    })
}

/// The instructions that change the root: in one way at most, and with the
/// old root unmounted at once where that is asked for.
pub open spec fn root_actions(chroot: bool, pivot: Option<bool>) -> Seq<Action> {
    if chroot {
        seq![Action::Chroot]
    } else {
        match pivot {
            Some(unmount_old) => if unmount_old {
                seq![Action::PivotRoot, Action::UnmountOld]
            } else {
                seq![Action::PivotRoot]
            },
            None => Seq::<Action>::empty(),
        }
    }
}

/// The part of a script with the number `part`. The parts follow each
/// other by their numbers.
pub open spec fn part(steps: Steps, part: int) -> Seq<Action> {
    if part == 0 {
        when(steps.group_leader, Action::GroupLeader)
    } else if part == 1 {
        when(steps.stamp_pid, Action::StampPid)
    } else if part == 2 {
        join_actions(join_sequence(steps.joins))
    } else if part == 3 {
        when(steps.gate, Action::AwaitParent)
    } else if part == 4 {
        identity_actions(
            holds_caps(steps.caps, steps.uid),
            steps.groups,
            steps.gid,
            steps.uid,
        )
    } else if part == 5 {
        root_actions(steps.chroot, steps.pivot)
    } else if part == 6 {
        when(steps.chdir, Action::Chdir)
    } else if part == 7 {
        match steps.caps {
            Some(kept) => seq![Action::KeepCaps(kept)],
            None => Seq::<Action>::empty(),
        }
    } else if part == 8 {
        when(steps.sigmask, Action::RestoreSigmask)
    } else if part == 9 {
        wire_actions(steps.wires)
    } else if part == 10 {
        close_actions(steps.closed)
    } else if part == 11 {
        span_actions(steps.spans)
    } else if part == 12 {
        when(steps.pre_exec, Action::PreExec)
    } else if part == 13 {
        match steps.death_sig {
            Some(signal) => seq![Action::DeathSignal(signal)],
            None => Seq::<Action>::empty(),
        }
    } else if part == 14 {
        seq![Action::Exec]
    } else {
        Seq::<Action>::empty()
    }
}

/// The stage of the instructions in the part with the number `part`.
pub open spec fn part_stage(part: int) -> int {
    if part <= 1 {
        0
    } else if part <= 8 {
        part - 1
    } else if part <= 11 {
        8
    } else {
        part - 3
    }
}

/// The parts of a script below the number `upto`, one after the other.
pub open spec fn script_below(steps: Steps, upto: int) -> Seq<Action>
    decreases upto,
{
    if upto <= 0 {
        Seq::<Action>::empty()
    } else {
        script_below(steps, upto - 1) + part(steps, upto - 1)
    }
}

/// The instructions of a child, in the order in which it walks them.
pub open spec fn child_script(steps: Steps) -> Seq<Action> {
    script_below(steps, PARTS as int)
}

/// Every instruction of a part is of the stage of that part.
pub proof fn lemma_part_stage(steps: Steps, number: int)
    requires
        0 <= number < PARTS,
    ensures
        forall|i: int|
            0 <= i < part(steps, number).len() ==> (#[trigger] part(
                steps,
                number,
            )[i]).spec_stage() == part_stage(number),
{
}

/// The instructions of the parts below `upto` are of stages below that of
/// the part `upto`, or of that stage, and follow each other by stage.
pub proof fn lemma_script_below(steps: Steps, upto: int)
    requires
        0 <= upto <= PARTS,
    ensures
        forall|i: int|
            0 <= i < script_below(steps, upto).len() ==> (#[trigger] script_below(
                steps,
                upto,
            )[i]).spec_stage() <= part_stage(upto - 1),
        forall|i: int, j: int|
            0 <= i <= j < script_below(steps, upto).len() ==> (#[trigger] script_below(
                steps,
                upto,
            )[i]).spec_stage() <= (#[trigger] script_below(steps, upto)[j]).spec_stage(),
    decreases upto,
{
    if upto > 0 {
        lemma_script_below(steps, upto - 1);
        lemma_part_stage(steps, upto - 1);
        let before = script_below(steps, upto - 1);
        let last = part(steps, upto - 1);
        let now = script_below(steps, upto);
        assert(now == before + last);
        assert forall|i: int| 0 <= i < now.len() implies (#[trigger] now[i]).spec_stage()
            <= part_stage(upto - 1) by {
            if i < before.len() {
                assert(now[i] == before[i]);
            } else {
                assert(now[i] == last[i - before.len()]);
            }
        }
        assert forall|i: int, j: int| 0 <= i <= j < now.len() implies (#[trigger] now[i]).spec_stage()
            <= (#[trigger] now[j]).spec_stage() by {
            if j < before.len() {
                assert(now[i] == before[i]);
                assert(now[j] == before[j]);
            } else {
                assert(now[j] == last[j - before.len()]);
                if i < before.len() {
                    assert(now[i] == before[i]);
                } else {
                    assert(now[i] == last[i - before.len()]);
                }
            }
        }
    }
}

/// The order of a launch is fixed: whatever is asked for, the instructions
/// of a child follow each other by stage, and the last of them replaces the
/// program image.
pub proof fn lemma_script_ordered(steps: Steps)
    ensures
        forall|i: int, j: int|
            0 <= i <= j < child_script(steps).len() ==> (#[trigger] child_script(
                steps,
            )[i]).spec_stage() <= (#[trigger] child_script(steps)[j]).spec_stage(),
        child_script(steps).len() > 0,
        child_script(steps).last() == Action::Exec,
{
    lemma_script_below(steps, PARTS as int);
    let script = child_script(steps);
    let body = script_below(steps, 14);
    assert(script == body + seq![Action::Exec]);
}

/// An instruction of the script stands in one of its parts.
pub proof fn lemma_script_from_parts(steps: Steps, upto: int, at: int)
    requires
        0 <= upto <= PARTS,
        0 <= at < script_below(steps, upto).len(),
    ensures
        exists|number: int, within: int|
            0 <= number < upto && 0 <= within < part(steps, number).len() && #[trigger] part(
                steps,
                number,
            )[within] == script_below(steps, upto)[at],
    decreases upto,
{
    let before = script_below(steps, upto - 1);
    let last = part(steps, upto - 1);
    let now = script_below(steps, upto);
    assert(now == before + last);
    if at < before.len() {
        lemma_script_from_parts(steps, upto - 1, at);
        let (number, within) = choose|number: int, within: int|
            0 <= number < upto - 1 && 0 <= within < part(steps, number).len() && #[trigger] part(
                steps,
                number,
            )[within] == before[at];
        assert(part(steps, number)[within] == now[at]);
    } else {
        assert(part(steps, upto - 1)[at - before.len()] == now[at]);
    }
}

/// A part of the script stands in the script.
pub proof fn lemma_part_in_script(steps: Steps, upto: int, number: int, within: int)
    requires
        0 <= number < upto <= PARTS,
        0 <= within < part(steps, number).len(),
    ensures
        script_below(steps, upto).contains(part(steps, number)[within]),
    decreases upto,
{
    let before = script_below(steps, upto - 1);
    let last = part(steps, upto - 1);
    let now = script_below(steps, upto);
    assert(now == before + last);
    if number < upto - 1 {
        lemma_part_in_script(steps, upto - 1, number, within);
        let at = choose|at: int| 0 <= at < before.len() && before[at] == part(steps, number)[within];
        assert(now[at] == part(steps, number)[within]);
    } else {
        assert(now[before.len() + within] == last[within]);
    }
}

/// The capabilities of the child are what the caller asked to keep, and
/// nothing but that decides them. Where a set is to be kept, the script
/// restricts the capabilities to that set, once, and no instruction of the
/// script restricts them to another; where none is, no instruction touches
/// them.
pub proof fn lemma_capabilities_kept(steps: Steps)
    ensures
        forall|kept: CapSet|
            child_script(steps).contains(Action::KeepCaps(kept)) <==> steps.caps == Some(kept),
{
    let script = child_script(steps);
    assert forall|kept: CapSet| script.contains(Action::KeepCaps(kept)) <==> steps.caps == Some(
        kept,
    ) by {
        if script.contains(Action::KeepCaps(kept)) {
            let at = choose|at: int| 0 <= at < script.len() && script[at] == Action::KeepCaps(kept);
            lemma_script_from_parts(steps, PARTS as int, at);
            let (number, within) = choose|number: int, within: int|
                0 <= number < PARTS && 0 <= within < part(steps, number).len() && #[trigger] part(
                    steps,
                    number,
                )[within] == script[at];
            lemma_part_stage(steps, number);
            assert(part(steps, number)[within].spec_stage() == 6);
            assert(number == 7);
        }
        if steps.caps == Some(kept) {
            assert(part(steps, 7)[0] == Action::KeepCaps(kept));
            lemma_part_in_script(steps, PARTS as int, 7, 0);
        }
    }
}

/// The capabilities outlast the change of the user id. Where capabilities
/// are to be kept and the user id changes, the child holds on to them
/// before the user id is set; in no other script does it do so.
pub proof fn lemma_capabilities_held(steps: Steps)
    ensures
        child_script(steps).contains(Action::HoldCaps) <==> holds_caps(steps.caps, steps.uid),
        forall|i: int, j: int|
            #![trigger child_script(steps)[i], child_script(steps)[j]]
            0 <= i < child_script(steps).len() && 0 <= j < child_script(steps).len()
                && child_script(steps)[i] == Action::HoldCaps && child_script(steps)[j] is SetUid
                ==> i < j,
{
    let script = child_script(steps);
    if script.contains(Action::HoldCaps) {
        let at = choose|at: int| 0 <= at < script.len() && script[at] == Action::HoldCaps;
        lemma_script_from_parts(steps, PARTS as int, at);
        let (number, within) = choose|number: int, within: int|
            0 <= number < PARTS && 0 <= within < part(steps, number).len() && #[trigger] part(
                steps,
                number,
            )[within] == script[at];
        lemma_part_stage(steps, number);
        assert(part(steps, number)[within].spec_stage() == 3);
        assert(number == 4);
    }
    if holds_caps(steps.caps, steps.uid) {
        assert(part(steps, 4)[0] == Action::HoldCaps);
        lemma_part_in_script(steps, PARTS as int, 4, 0);
    }
    let before = script_below(steps, 4);
    let identity = part(steps, 4);
    let after = script_below(steps, 5);
    assert(after == before + identity);
    lemma_script_below(steps, 4);
    lemma_script_goes_on(steps, 5, PARTS as int);
    assert forall|i: int, j: int|
        #![trigger script[i], script[j]]
        0 <= i < script.len() && 0 <= j < script.len() && script[i] == Action::HoldCaps
            && script[j] is SetUid implies i < j by {
        // Both stand in the part that sets the identity, and there the
        // hold comes first.
        assert(script[i].spec_stage() == 3 && script[j].spec_stage() == 3);
        if i < after.len() {
            assert(script[i] == after[i]);
        }
        if j < after.len() {
            assert(script[j] == after[j]);
        }
        if i < before.len() {
            assert(after[i] == before[i]);
        }
        if j < before.len() {
            assert(after[j] == before[j]);
        }
        assert(before.len() <= i < after.len());
        assert(before.len() <= j < after.len());
        assert(script[i] == identity[i - before.len()]);
        assert(script[j] == identity[j - before.len()]);
        assert(i - before.len() == 0);
    }
}

/// A script goes on from its beginning: the parts below `upto` start with
/// the parts below `from`, and what follows those is of the stage of the
/// part `from` or of a later one.
pub proof fn lemma_script_goes_on(steps: Steps, from: int, upto: int)
    requires
        0 <= from <= upto <= PARTS,
    ensures
        script_below(steps, from).len() <= script_below(steps, upto).len(),
        forall|i: int|
            0 <= i < script_below(steps, from).len() ==> #[trigger] script_below(steps, upto)[i]
                == script_below(steps, from)[i],
        forall|i: int|
            script_below(steps, from).len() <= i < script_below(steps, upto).len() ==> (
            #[trigger] script_below(steps, upto)[i]).spec_stage() >= part_stage(from),
    decreases upto - from,
{
    if from < upto {
        lemma_script_goes_on(steps, from, upto - 1);
        lemma_part_stage(steps, upto - 1);
        let start = script_below(steps, from);
        let shorter = script_below(steps, upto - 1);
        let last = part(steps, upto - 1);
        let now = script_below(steps, upto);
        assert(now == shorter + last);
        assert forall|i: int| 0 <= i < start.len() implies #[trigger] now[i] == start[i] by {
            assert(now[i] == shorter[i]);
        }
        assert forall|i: int| start.len() <= i < now.len() implies (#[trigger] now[i]).spec_stage()
            >= part_stage(from) by {
            if i < shorter.len() {
                assert(now[i] == shorter[i]);
            } else {
                assert(now[i] == last[i - shorter.len()]);
            }
        }
    }
}

/// A script leaves alone every descriptor that its joins, wires, closed
/// numbers and spans leave alone: no instruction closes such a descriptor,
/// puts another in its place, duplicates it, or lets it stay open when the
/// program image is replaced.
pub proof fn lemma_script_spares(steps: Steps, fd: i32, at: int)
    requires
        0 <= at < child_script(steps).len(),
        !crate::namespace::joined(steps.joins, fd),
        !crate::fds::touches(steps.wires, fd),
        !steps.closed.contains(fd),
        !crate::fds::in_spans(steps.spans, fd),
    ensures
        !crate::fds::disturbs(child_script(steps)[at], fd),
{
    let script = child_script(steps);
    let action = script[at];
    lemma_script_from_parts(steps, PARTS as int, at);
    let (number, within) = choose|number: int, within: int|
        0 <= number < PARTS && 0 <= within < part(steps, number).len() && #[trigger] part(
            steps,
            number,
        )[within] == script[at];
    lemma_part_stage(steps, number);
    if crate::fds::disturbs(action, fd) {
        assert(action.spec_stage() == 1 || action.spec_stage() == 8);
        if number == 2 {
            crate::namespace::lemma_join_sequence(steps.joins);
            let join = join_sequence(steps.joins)[within];
            assert(action == Action::Join(join));
            assert(steps.joins.dom().contains(join.kind) && steps.joins[join.kind] == fd);
        } else if number == 9 {
            let wire = steps.wires[within];
            assert(action == crate::fds::wire_action(wire));
            assert(wire.target == fd || wire.source == fd);
        } else if number == 10 {
            assert(action == Action::Close { fd: steps.closed[within] });
            assert(steps.closed[within] == fd);
        } else {
            assert(number == 11);
            let span = steps.spans[within];
            assert(action == Action::CloseRange { from: span.from, to: span.to });
            assert(span.from <= fd < span.to);
        }
    }
}

/// The signal for the parent's death is registered exactly where one is
/// asked for, and with the number asked for.
pub proof fn lemma_death_signal(steps: Steps)
    ensures
        forall|signal: i32|
            child_script(steps).contains(Action::DeathSignal(signal)) <==> steps.death_sig
                == Some(signal),
{
    let script = child_script(steps);
    assert forall|signal: i32| script.contains(Action::DeathSignal(signal)) <==> steps.death_sig
        == Some(signal) by {
        if script.contains(Action::DeathSignal(signal)) {
            let at = choose|at: int|
                0 <= at < script.len() && script[at] == Action::DeathSignal(signal);
            lemma_script_from_parts(steps, PARTS as int, at);
            let (number, within) = choose|number: int, within: int|
                0 <= number < PARTS && 0 <= within < part(steps, number).len() && #[trigger] part(
                    steps,
                    number,
                )[within] == script[at];
            lemma_part_stage(steps, number);
            assert(part(steps, number)[within].spec_stage() == 10);
            assert(number == 13);
        }
        if steps.death_sig == Some(signal) {
            assert(part(steps, 13)[0] == Action::DeathSignal(signal));
            lemma_part_in_script(steps, PARTS as int, 13, 0);
        }
    }
}

/// The child joins exactly the namespaces that it is asked to join: the
/// joins of the script are those of the request, and where none is asked
/// for, the script holds none.
pub proof fn lemma_joins(steps: Steps)
    ensures
        forall|join: Join|
            #![trigger child_script(steps).contains(Action::Join(join))]
            #![trigger join_sequence(steps.joins).contains(join)]
            child_script(steps).contains(Action::Join(join)) <==> join_sequence(
                steps.joins,
            ).contains(join),
{
    let script = child_script(steps);
    let joins = join_sequence(steps.joins);
    assert forall|join: Join| script.contains(Action::Join(join)) <==> joins.contains(join) by {
        if script.contains(Action::Join(join)) {
            let at = choose|at: int| 0 <= at < script.len() && script[at] == Action::Join(join);
            lemma_script_from_parts(steps, PARTS as int, at);
            let (number, within) = choose|number: int, within: int|
                0 <= number < PARTS && 0 <= within < part(steps, number).len() && #[trigger] part(
                    steps,
                    number,
                )[within] == script[at];
            lemma_part_stage(steps, number);
            assert(part(steps, number)[within].spec_stage() == 1);
            assert(number == 2);
            assert(joins[within] == join);
        }
        if joins.contains(join) {
            let within = choose|within: int| 0 <= within < joins.len() && joins[within] == join;
            assert(part(steps, 2)[within] == Action::Join(join));
            lemma_part_in_script(steps, PARTS as int, 2, within);
        }
    }
}

/// Appends `action` to `script` where `wanted`.
fn push_when(script: &mut Vec<Action>, wanted: bool, action: Action)
    ensures
        final(script)@ == old(script)@ + when(wanted, action),
{
    if wanted {
        script.push(action);
    }
    assert(script@ =~= old(script)@ + when(wanted, action));
}

/// Appends to `script` the instructions that make the joins.
fn push_join_actions(script: &mut Vec<Action>, joins: &Vec<Join>)
    ensures
        final(script)@ == old(script)@ + join_actions(joins@),
{
    let mut i: usize = 0;
    assert(script@ =~= old(script)@ + join_actions(joins@.take(0)));
    while i < joins.len()
        invariant
            i <= joins.len(),
            script@ == old(script)@ + join_actions(joins@.take(i as int)),
        decreases joins.len() - i,
    {
        script.push(Action::Join(joins[i]));
        i = i + 1;
        assert(script@ =~= old(script)@ + join_actions(joins@.take(i as int)));
    }
    assert(joins@.take(joins.len() as int) =~= joins@);
}

/// Appends to `script` the instructions that set the identity.
fn push_identity_actions(
    script: &mut Vec<Action>,
    hold: bool,
    groups: bool,
    gid: Option<u32>,
    uid: Option<u32>,
)
    ensures
        final(script)@ == old(script)@ + identity_actions(hold, groups, gid, uid),
{
    push_when(script, hold, Action::HoldCaps);
    push_when(script, groups, Action::SetGroups);
    if let Some(id) = gid {
        script.push(Action::SetGid(id));
    }
    if let Some(id) = uid {
        script.push(Action::SetUid(id));
    }
    assert(script@ =~= old(script)@ + identity_actions(hold, groups, gid, uid));
}

/// What the caller of `build_script` asks for, but for the descriptors.
#[derive(Clone, Copy, Debug, PartialEq, Eq)]
pub struct Wishes {
    /// Whether the child becomes the leader of a new process group.
    pub group_leader: bool,
    /// Whether variables of the environment carry the child's process id.
    pub stamp_pid: bool,
    /// The namespaces that the child joins.
    pub joins: JoinMap,
    /// Whether the child waits for the parent before it goes on.
    pub gate: bool,
    /// Whether the supplementary groups are set.
    pub groups: bool,
    /// The group id, where it is set.
    pub gid: Option<u32>,
    /// The user id, where it is set.
    pub uid: Option<u32>,
    /// Whether the root is changed by `chroot`.
    pub chroot: bool,
    /// Whether the root is changed by `pivot_root`, and if so, whether the
    /// old root is unmounted.
    pub pivot: Option<bool>,
    /// Whether the working directory is changed.
    pub chdir: bool,
    /// The capabilities that are kept, where they are restricted.
    pub caps: Option<CapSet>,
    /// Whether the handling of signals is reset.
    pub sigmask: bool,
    /// Whether the caller's hook is run.
    pub pre_exec: bool,
    /// The signal for the parent's death, where one is asked for.
    pub death_sig: Option<i32>,
}

/// What decides the instructions of a child, put together from what the
/// caller asks for and what has to happen to the descriptors.
pub open spec fn steps_of(
    wishes: Wishes,
    wires: Seq<Wire>,
    closed: Seq<i32>,
    spans: Seq<Span>,
) -> Steps {
    Steps {
        group_leader: wishes.group_leader,
        stamp_pid: wishes.stamp_pid,
        joins: wishes.joins@,
        gate: wishes.gate,
        groups: wishes.groups,
        gid: wishes.gid,
        uid: wishes.uid,
        chroot: wishes.chroot,
        pivot: wishes.pivot,
        chdir: wishes.chdir,
        caps: wishes.caps,
        sigmask: wishes.sigmask,
        wires,
        closed,
        spans,
        pre_exec: wishes.pre_exec,
        death_sig: wishes.death_sig,
    }
}

/// Appends to `script` the part of the script with the number `number`.
fn push_part(
    script: &mut Vec<Action>,
    number: u8,
    wishes: &Wishes,
    wires: &Vec<Wire>,
    closed: &Vec<i32>,
    spans: &Vec<Span>,
)
    ensures
        final(script)@ == old(script)@ + part(
            steps_of(*wishes, wires@, closed@, spans@),
            number as int,
        ),
{
    let ghost steps = steps_of(*wishes, wires@, closed@, spans@);
    if number == 0 {
        push_when(script, wishes.group_leader, Action::GroupLeader);
    } else if number == 1 {
        push_when(script, wishes.stamp_pid, Action::StampPid);
    } else if number == 2 {
        let joins = wishes.joins.sequence();
        push_join_actions(script, &joins);
    } else if number == 3 {
        push_when(script, wishes.gate, Action::AwaitParent);
    } else if number == 4 {
        let hold = wishes.caps.is_some() && wishes.uid.is_some();
        push_identity_actions(script, hold, wishes.groups, wishes.gid, wishes.uid);
    } else if number == 5 {
        if wishes.chroot {
            script.push(Action::Chroot);
        } else if let Some(unmount_old) = wishes.pivot {
            script.push(Action::PivotRoot);
            if unmount_old {
                script.push(Action::UnmountOld);
            }
        }
        assert(script@ =~= old(script)@ + root_actions(wishes.chroot, wishes.pivot));
    } else if number == 6 {
        push_when(script, wishes.chdir, Action::Chdir);
    } else if number == 7 {
        if let Some(kept) = wishes.caps {
            script.push(Action::KeepCaps(kept));
        }
        assert(script@ =~= old(script)@ + part(steps, 7));
    } else if number == 8 {
        push_when(script, wishes.sigmask, Action::RestoreSigmask);
    } else if number == 9 {
        push_wire_actions(script, wires);
    } else if number == 10 {
        push_close_actions(script, closed);
    } else if number == 11 {
        push_span_actions(script, spans);
    } else if number == 12 {
        push_when(script, wishes.pre_exec, Action::PreExec);
    } else if number == 13 {
        if let Some(signal) = wishes.death_sig {
            script.push(Action::DeathSignal(signal));
        }
        assert(script@ =~= old(script)@ + part(steps, 13));
    } else if number == 14 {
        script.push(Action::Exec);
        assert(script@ =~= old(script)@ + part(steps, 14));
    } else {
        assert(script@ =~= old(script)@ + part(steps, number as int));
    }
}

/// Writes the instructions of a child.
pub fn build_script(
    wishes: &Wishes,
    wires: &Vec<Wire>,
    closed: &Vec<i32>,
    spans: &Vec<Span>,
) -> (script: Vec<Action>)
    ensures
        script@ == child_script(steps_of(*wishes, wires@, closed@, spans@)),
{
    let ghost steps = steps_of(*wishes, wires@, closed@, spans@);
    let mut script: Vec<Action> = Vec::new();
    let mut number: u8 = 0;
    while number < PARTS
        invariant
            number <= PARTS,
            steps == steps_of(*wishes, wires@, closed@, spans@),
            script@ == script_below(steps, number as int),
        decreases PARTS - number,
    {
        push_part(&mut script, number, wishes, wires, closed, spans);
        number = number + 1;
    }
    script
}

} // verus!
