//! A launch as the caller describes it, and the plan that is made of it
//! before anything is asked of the operating system.

use crate::action::Action;
use crate::bytes::texts;
use crate::caps::{CapSet, Capability};
use crate::chroot::{
    check_root, old_root_inside, path_view, root_defect, seen_from, PivotRoot, RootDefect, SLASH,
};
use crate::config::{is_signal, signal_number, Config, ConfigView};
use crate::env::{
    collect_vars, distinct_names, named, names, var_names, vars_from, vars_view, EnvVar,
};
use crate::error::{invalid_argument, Error, Failure, Step, EINVAL};
use crate::fds::{
    close_spans_but, cuts, distinct_targets, disturbs, in_spans, is_target, kept_open, listed,
    relocate, rewired, settled, touches, touching, Move, Span, Wire, FD_LIMIT,
};
use crate::idmap::{
    check_table, gid_ranges, gid_table, render_table, select_strategy, table_ok, table_text,
    uid_ranges, uid_table, GidMap, IdRange, MapStrategy, UidMap,
};
use crate::namespace::{first_conflict, flags_of, joined, spec_conflict, Namespace};
use crate::script::{build_script, child_script, Steps, Wishes};
use crate::stdio::{
    closed_of, distinct_entries, given_of, kept_of, lookup, pipe_count, plan_wiring, set_entry,
    wires_of, with_entry, Entry, Fd, Pipe, Stdio,
};
use vstd::prelude::*;

verus! {

/// A launch as the caller describes it.
pub struct Command {
    filename: Vec<u8>,
    args: Vec<Vec<u8>>,
    environ: Option<Vec<EnvVar>>,
    config: Config,
    fds: Vec<Entry>,
    close_fds: Vec<Span>,
    chroot_dir: Option<Vec<u8>>,
    pivot_root: Option<PivotRoot>,
    id_map_commands: Option<(Vec<u8>, Vec<u8>)>,
    pid_env_vars: Vec<Vec<u8>>,
    keep_caps: Option<CapSet>,
    before_unfreeze: bool,
    pre_exec: bool,
}

/// A launch as contracts speak of it.
pub struct CommandView {
    /// The path of the program.
    pub filename: Seq<u8>,
    /// The arguments of the program, its name first.
    pub args: Seq<Seq<u8>>,
    /// The environment of the program, where it is not that of the parent.
    pub environ: Option<Seq<(Seq<u8>, Seq<u8>)>>,
    /// What the child is to be for the operating system.
    pub config: ConfigView,
    /// What the child finds at its descriptors.
    pub fds: Seq<Entry>,
    /// The descriptors that are closed unless they are asked for.
    pub close_fds: Seq<Span>,
    /// The directory that becomes the root by `chroot`.
    pub chroot_dir: Option<Seq<u8>>,
    /// The change of root by `pivot_root`: the new root, the place of the
    /// old one, and whether the old one is unmounted.
    pub pivot_root: Option<(Seq<u8>, Seq<u8>, bool)>,
    /// The programs that write the map of user ids and the map of group
    /// ids, for a parent that may not write them itself.
    pub id_map_commands: Option<(Seq<u8>, Seq<u8>)>,
    /// The variables of the environment that carry the child's process id.
    pub pid_env_vars: Seq<Seq<u8>>,
    /// The capabilities that the child keeps, where they are restricted.
    pub keep_caps: Option<CapSet>,
    /// Whether the caller has a hook that runs in the parent once the
    /// child exists.
    pub before_unfreeze: bool,
    /// Whether the caller has a hook that runs in the child.
    pub pre_exec: bool,
}

/// What makes a description impossible to launch.
#[derive(Clone, Copy, Debug, PartialEq, Eq, Hash, Structural)]
pub enum Defect {
    /// The path of the program is empty.
    EmptyFilename,
    /// The change of root asks for what cannot be.
    Root(RootDefect),
    /// A namespace of this kind is to be both created and joined.
    CreateAndJoin(Namespace),
    /// The map of user ids is no valid table.
    UidMap,
    /// The map of group ids is no valid table.
    GidMap,
    /// The signal for the parent's death has a number that no signal has.
    DeathSignal,
}

/// The paths of a change by `pivot_root`.
pub open spec fn pivot_pair(pivot: Option<(Seq<u8>, Seq<u8>, bool)>) -> Option<
    (Seq<u8>, Seq<u8>),
> {
    match pivot {
        Some((new_root, put_old, _)) => Some((new_root, put_old)),
        None => None,
    }
}

/// Whether the old root is unmounted, where the root is changed by
/// `pivot_root`.
pub open spec fn pivot_unmount(pivot: Option<(Seq<u8>, Seq<u8>, bool)>) -> Option<bool> {
    match pivot {
        Some((_, _, unmount_old)) => Some(unmount_old),
        None => None,
    }
}

/// What makes the description impossible to launch, if anything does: the
/// first of the defects, in the order of `Defect`, that it has.
pub open spec fn defect_of(v: CommandView) -> Option<Defect> {
    if v.filename.len() == 0 {
        Some(Defect::EmptyFilename)
    } else if root_defect(v.chroot_dir, pivot_pair(v.pivot_root), v.config.work_dir) is Some {
        Some(
            Defect::Root(
                root_defect(v.chroot_dir, pivot_pair(v.pivot_root), v.config.work_dir).unwrap(),
            ),
        )
    } else if spec_conflict(v.config.namespaces, v.config.joins.dom()) is Some {
        Some(
            Defect::CreateAndJoin(
                spec_conflict(v.config.namespaces, v.config.joins.dom()).unwrap(),
            ),
        )
    } else if v.config.id_maps is Some && !table_ok(uid_ranges(v.config.id_maps.unwrap().0)) {
        Some(Defect::UidMap)
    } else if v.config.id_maps is Some && !table_ok(gid_ranges(v.config.id_maps.unwrap().1)) {
        Some(Defect::GidMap)
    } else if v.config.death_sig is Some && !is_signal(v.config.death_sig.unwrap()) {
        Some(Defect::DeathSignal)
    } else {
        None
    }
}

/// Whether the table of descriptors is in order: it speaks of each number
/// once, and only of numbers that a descriptor can have.
pub open spec fn table_in_order(fds: Seq<Entry>) -> bool {
    &&& distinct_entries(fds)
    &&& forall|i: int| 0 <= i < fds.len() ==> 0 <= (#[trigger] fds[i]).target < FD_LIMIT
}

/// Whether a description is in order: its table of descriptors is, and
/// neither among the variables of the environment nor among the variables
/// that carry the process id is a name found twice.
pub open spec fn in_order(v: CommandView) -> bool {
    &&& table_in_order(v.fds)
    &&& v.environ matches Some(vars) ==> distinct_names(var_names(vars))
    &&& distinct_names(v.pid_env_vars)
}

/// The failure with which a description that cannot be launched is
/// answered.
pub open spec fn config_failure() -> Failure {
    Failure { step: Step::Config, errno: EINVAL, detail: None }
}

/// The failure with which a plan is refused whose pipes or duplicates are
/// not those that the description asks for.
pub open spec fn wiring_failure() -> Failure {
    Failure { step: Step::Descriptors, errno: EINVAL, detail: None }
}

/// Whether the child waits for the parent before it goes on: it does where
/// the parent has maps of ids to write or a hook to run.
pub open spec fn gated(v: CommandView) -> bool {
    v.config.id_maps is Some || v.before_unfreeze
}

/// Whether the child changes its working directory: it does where one is
/// asked for, and where the root changes, since it would else stay outside
/// the new root.
pub open spec fn changes_dir(v: CommandView) -> bool {
    v.config.work_dir is Some || v.chroot_dir is Some || v.pivot_root is Some
}

/// The working directory that the child changes to: the one asked for, or
/// the root.
pub open spec fn work_dir_of(v: CommandView) -> Option<Seq<u8>> {
    if v.config.work_dir is Some {
        v.config.work_dir
    } else if changes_dir(v) {
        Some(seq![SLASH])
    } else {
        None
    }
}

/// The directory that becomes the root, where the root changes.
pub open spec fn root_of(v: CommandView) -> Option<Seq<u8>> {
    if v.chroot_dir is Some {
        v.chroot_dir
    } else {
        match v.pivot_root {
            Some((new_root, _, _)) => Some(new_root),
            None => None,
        }
    }
}

/// What decides the instructions of the child, for a description and for
/// the wires and spans made of it.
pub open spec fn steps_for(v: CommandView, wires: Seq<Wire>, spans: Seq<Span>) -> Steps {
    Steps {
        group_leader: v.config.make_group_leader,
        stamp_pid: v.pid_env_vars.len() > 0,
        joins: v.config.joins,
        gate: gated(v),
        groups: v.config.supplementary_gids is Some,
        gid: v.config.gid,
        uid: v.config.uid,
        chroot: v.chroot_dir is Some,
        pivot: pivot_unmount(v.pivot_root),
        chdir: changes_dir(v),
        caps: v.keep_caps,
        sigmask: v.config.restore_sigmask,
        wires,
        closed: closed_of(v.fds),
        spans,
        pre_exec: v.pre_exec,
        death_sig: v.config.death_sig,
    }
}

/// How the maps of ids reach the kernel.
pub struct MapPlan {
    /// Whether the parent writes the maps or runs the helper programs.
    pub strategy: MapStrategy,
    /// The map of user ids.
    pub uid_table: Vec<IdRange>,
    /// The map of group ids.
    pub gid_table: Vec<IdRange>,
    /// The map of user ids as it is written.
    pub uid_text: Vec<u8>,
    /// The map of group ids as it is written.
    pub gid_text: Vec<u8>,
    /// The helper programs for the map of user ids and the map of group
    /// ids, where the caller named them.
    pub helpers: Option<(Vec<u8>, Vec<u8>)>,
}

/// Everything that a launch needs, decided before the process is
/// duplicated.
pub struct Plan {
    /// The flags for the call that duplicates the process.
    pub clone_flags: i32,
    /// The instructions of the child.
    pub script: Vec<Action>,
    /// The wires of the descriptors, as the child carries them out.
    pub wires: Vec<Wire>,
    /// The spans of descriptors that the child closes.
    pub spans: Vec<Span>,
    /// The path of the program.
    pub filename: Vec<u8>,
    /// The arguments of the program.
    pub args: Vec<Vec<u8>>,
    /// The environment of the program, where it is not that of the parent.
    pub environ: Option<Vec<EnvVar>>,
    /// The variables that carry the child's process id.
    pub pid_env_vars: Vec<Vec<u8>>,
    /// The directory that becomes the root.
    pub root: Option<Vec<u8>>,
    /// The place to which `pivot_root` moves the old root.
    pub put_old: Option<Vec<u8>>,
    /// That place as the new root shows it: the path by which the child
    /// unmounts the old root.
    pub old_root: Option<Vec<u8>>,
    /// The working directory that the child changes to.
    pub work_dir: Option<Vec<u8>>,
    /// The supplementary groups.
    pub groups: Option<Vec<u32>>,
    /// The ends of pipes that the parent keeps for the caller, each filed
    /// under the number at which the child has the other end.
    pub kept: Vec<Wire>,
    /// The ends of pipes that the parent closes once the child exists.
    pub given: Vec<i32>,
    /// How the maps of ids reach the kernel, where there are any.
    pub maps: Option<MapPlan>,
    /// Whether the child waits for the parent before it goes on.
    pub gate: bool,
    /// Whether the parent runs the caller's hook once the child exists.
    pub before_unfreeze: bool,
}

/// The wires that a description asks for, as the child carries them out
/// once the parent has made the pipes and the duplicates.
pub open spec fn carried(v: CommandView, pipes: Seq<Pipe>, moves: Seq<Move>) -> Seq<Wire> {
    let wanted = wires_of(v.fds, pipes);
    Seq::new(wanted.len(), |i: int| rewired(wanted, moves, wanted[i]))
}

/// Whether the launch leaves the descriptor `fd` alone, which the parent
/// has opened for the launch itself: no wire starts or ends at it, neither
/// as the description asks for them nor as the child carries them out; the
/// description does not ask to have it closed; and no namespace is joined
/// by it.
pub open spec fn spared(v: CommandView, pipes: Seq<Pipe>, moves: Seq<Move>, fd: i32) -> bool {
    &&& !touches(wires_of(v.fds, pipes), fd)
    &&& !touches(carried(v, pipes, moves), fd)
    &&& !closed_of(v.fds).contains(fd)
    &&& !joined(v.config.joins, fd)
}

/// The wires that a description asks for, as they are once the parent has
/// made the pipes and the duplicates; `None` where the pipes or the
/// duplicates are not those that the description asks for, or where the
/// launch does not leave alone a descriptor that the parent has reserved
/// for the launch, such as an end of the pipe of failures.
pub open spec fn wires_for(
    v: CommandView,
    pipes: Seq<Pipe>,
    moves: Seq<Move>,
    reserved: Seq<i32>,
) -> Option<Seq<Wire>> {
    let wanted = wires_of(v.fds, pipes);
    if pipes.len() == pipe_count(v.fds) && crate::fds::clears(wanted, moves) && forall|k: int|
        0 <= k < reserved.len() ==> spared(v, pipes, moves, #[trigger] reserved[k]) {
        Some(carried(v, pipes, moves))
    } else {
        None
    }
}

/// Whether a plan is the plan of the description `v`, made with `pipes`,
/// `moves` and a parent that is `privileged` or not.
pub open spec fn plan_of(
    plan: Plan,
    v: CommandView,
    pipes: Seq<Pipe>,
    moves: Seq<Move>,
    reserved: Seq<i32>,
    privileged: bool,
) -> bool {
    &&& plan.clone_flags == flags_of(v.config.namespaces)
    &&& Some(plan.wires@) == wires_for(v, pipes, moves, reserved)
    &&& settled(plan.wires@)
    &&& plan.spans@ == cuts(v.close_fds, plan.wires@ + kept_open(reserved))
    &&& plan.script@ == child_script(steps_for(v, plan.wires@, plan.spans@))
    &&& plan.filename@ == v.filename
    &&& texts(plan.args@) == v.args
    &&& (match plan.environ {
        Some(vars) => Some(vars_view(vars@)),
        None => None,
    }) == v.environ
    &&& texts(plan.pid_env_vars@) == v.pid_env_vars
    &&& path_view(plan.root) == root_of(v)
    &&& path_view(plan.put_old) == (match v.pivot_root {
        Some((_, put_old, _)) => Some(put_old),
        None => None,
    })
    &&& path_view(plan.old_root) == (match v.pivot_root {
        Some((new_root, put_old, _)) => Some(seen_from(new_root, put_old)),
        None => None,
    })
    &&& path_view(plan.work_dir) == work_dir_of(v)
    &&& (match plan.groups {
        Some(groups) => Some(groups@),
        None => None,
    }) == v.config.supplementary_gids
    &&& plan.kept@ == kept_of(v.fds, pipes)
    &&& plan.given@ == given_of(v.fds, pipes)
    &&& plan.gate == gated(v)
    &&& plan.before_unfreeze == v.before_unfreeze
    &&& (plan.maps is Some) == (v.config.id_maps is Some)
    &&& plan.maps matches Some(maps) ==> {
        let (uids, gids) = v.config.id_maps.unwrap();
        &&& maps.strategy == (if !privileged && v.id_map_commands is Some {
            MapStrategy::Helper
        } else {
            MapStrategy::Direct
        })
        &&& maps.uid_table@ == uid_ranges(uids)
        &&& maps.gid_table@ == gid_ranges(gids)
        &&& maps.uid_text@ == table_text(uid_ranges(uids))
        &&& maps.gid_text@ == table_text(gid_ranges(gids))
        &&& (match maps.helpers {
            Some((uid_helper, gid_helper)) => Some((uid_helper@, gid_helper@)),
            None => None,
        }) == v.id_map_commands
    }
}

/// Whether `plan` is the answer to the request for a plan of the
/// description `v`: the failure of the configuration where the description
/// cannot be launched; else the failure of the descriptors where the pipes
/// or the duplicates do not fit; else the plan.
pub open spec fn planned(
    plan: Result<Plan, Error>,
    v: CommandView,
    pipes: Seq<Pipe>,
    moves: Seq<Move>,
    reserved: Seq<i32>,
    privileged: bool,
) -> bool {
    match plan {
        Ok(made) => {
            &&& defect_of(v) is None
            &&& wires_for(v, pipes, moves, reserved) is Some
            &&& plan_of(made, v, pipes, moves, reserved, privileged)
        },
        Err(err) => if defect_of(v) is Some {
            err@ == config_failure()
        } else {
            wires_for(v, pipes, moves, reserved) is None && err@ == wiring_failure()
        },
    }
}

impl Command {
    /// The launch as contracts speak of it.
    pub closed spec fn view(&self) -> CommandView {
        CommandView {
            filename: self.filename@,
            args: texts(self.args@),
            environ: match self.environ {
                Some(vars) => Some(vars_view(vars@)),
                None => None,
            },
            config: self.config@,
            fds: self.fds@,
            close_fds: self.close_fds@,
            chroot_dir: match self.chroot_dir {
                Some(dir) => Some(dir@),
                None => None,
            },
            pivot_root: match self.pivot_root {
                Some(pivot) => Some((pivot.new_root@, pivot.put_old@, pivot.unmount_old)),
                None => None,
            },
            id_map_commands: match self.id_map_commands {
                Some((uid_helper, gid_helper)) => Some((uid_helper@, gid_helper@)),
                None => None,
            },
            pid_env_vars: texts(self.pid_env_vars@),
            keep_caps: self.keep_caps,
            before_unfreeze: self.before_unfreeze,
            pre_exec: self.pre_exec,
        }
    }

    /// Whether the description is in order: the table of descriptors
    /// speaks of each number once, and no variable of the environment and no
    /// variable that carries the process id is named twice. Every
    /// description that is made by `new` and changed by the methods here is.
    pub open spec fn wf(&self) -> bool {
        in_order(self@)
    }

    /// Whether the description is in order. It is, whatever the methods
    /// here have made of it; this is for a caller that wants to see so
    /// before it asks for a plan.
    pub fn is_in_order(&self) -> (ok: bool)
        ensures
            ok == self.wf(),
    {
        if !crate::stdio::entries_distinct(&self.fds) {
            return false;
        }
        let mut i: usize = 0;
        while i < self.fds.len()
            invariant
                i <= self.fds.len(),
                forall|k: int| 0 <= k < i ==> 0 <= (#[trigger] self.fds@[k]).target < FD_LIMIT,
            decreases self.fds.len() - i,
        {
            if self.fds[i].target < 0 || self.fds[i].target >= FD_LIMIT {
                return false;
            }
            i = i + 1;
        }
        if let Some(vars) = &self.environ {
            let list = crate::env::names_of(vars);
            if !crate::env::names_distinct(&list) {
                return false;
            }
        }
        crate::env::names_distinct(&self.pid_env_vars)
    }

    /// What makes the description impossible to launch, if anything does.
    pub fn defect(&self) -> (defect: Option<Defect>)
        ensures
            defect == defect_of(self@),
    {
        if self.filename.len() == 0 {
            return Some(Defect::EmptyFilename);
        }
        if let Some(root) = check_root(&self.chroot_dir, &self.pivot_root, &self.config.work_dir) {
            return Some(Defect::Root(root));
        }
        if let Some(kind) = first_conflict(
            &self.config.namespaces,
            &self.config.setns_namespaces,
        ) {
            return Some(Defect::CreateAndJoin(kind));
        }
        if let Some((uids, gids)) = &self.config.id_maps {
            let uid_ranges = uid_table(uids);
            if check_table(&uid_ranges).is_err() {
                return Some(Defect::UidMap);
            }
            let gid_ranges = gid_table(gids);
            if check_table(&gid_ranges).is_err() {
                return Some(Defect::GidMap);
            }
        }
        if let Some(signal) = self.config.death_sig {
            if !signal_number(signal) {
                return Some(Defect::DeathSignal);
            }
        }
        None
    }

    /// Checks the description. What cannot be launched is answered here,
    /// before anything is asked of the operating system.
    pub fn check(&self) -> (verdict: Result<(), Error>)
        ensures
            verdict is Ok <==> defect_of(self@) is None,
            verdict matches Err(err) ==> err@ == config_failure(),
    {
        match self.defect() {
            Some(_) => Err(Error::new(Step::Config, invalid_argument())),
            None => Ok(()),
        }
    }

    /// Whether the child waits for the parent before it goes on, so that
    /// the parent has to make the pipe on which it lets the child go.
    pub fn waits_for_parent(&self) -> (gate: bool)
        ensures
            gate == gated(self@),
    {
        self.config.id_maps.is_some() || self.before_unfreeze
    }

    /// The number of pipes that the parent has to make for the launch.
    pub fn pipes_needed(&self) -> (count: usize)
        ensures
            count == pipe_count(self@.fds),
    {
        crate::stdio::pipes_needed(&self.fds)
    }

    /// The number from which on the parent places the descriptors that it
    /// opens for the launch, its duplicates and what it reserves: above
    /// every number that the description speaks of, and above the three
    /// standard streams.
    pub fn floor(&self) -> (floor: i32)
        requires
            self.wf(),
        ensures
            floor == crate::stdio::floor_of(self@.fds),
            3 <= floor <= FD_LIMIT,
    {
        proof {
            crate::stdio::lemma_floor_of(self@.fds);
            crate::stdio::lemma_floor_below(self@.fds, FD_LIMIT as int);
        }
        crate::stdio::table_floor(&self.fds)
    }

    /// The namespaces that the child joins, in the order in which it joins
    /// them, each with the descriptor that the description hands over: the
    /// child closes its descriptor once it has joined, and the parent closes
    /// its own when the launch ends.
    pub fn joins(&self) -> (joins: Vec<crate::namespace::Join>)
        ensures
            joins@ == crate::namespace::join_sequence(self@.config.joins),
    {
        self.config.setns_namespaces.sequence()
    }

    /// The wires that the description asks for once the parent has made
    /// `pipes`; `None` where their number is not the number asked for. The
    /// parent learns from these which descriptors are in the way.
    pub fn wires(&self, pipes: &Vec<Pipe>) -> (wires: Option<Vec<Wire>>)
        ensures
            wires is Some <==> pipes.len() == pipe_count(self@.fds),
            wires matches Some(list) ==> list@ == wires_of(self@.fds, pipes@),
    {
        match plan_wiring(&self.fds, pipes) {
            Some(wiring) => Some(wiring.wires),
            None => None,
        }
    }

    /// Makes the plan of the launch, once the parent has made the pipes
    /// that the description asks for and has duplicated the descriptors
    /// that are in the way.
    ///
    /// A description that cannot be launched is refused with the failure of
    /// the configuration, whatever the pipes and duplicates are: no process
    /// is ever duplicated for it, since only a plan leads to that. Pipes or
    /// duplicates that do not fit the description are refused with the
    /// failure of the descriptors. Everything else gets its plan.
    ///
    /// The descriptors in `reserved` are those that the parent has opened
    /// for the launch itself and that the child needs until its program
    /// image is replaced, such as the end of the pipe on which it reports a
    /// failure. A description that asks for something at such a number, or
    /// from it, or to have it closed, or joins a namespace by it, is
    /// refused with the failure of the descriptors; the spans that the
    /// child closes leave these numbers out.
    pub fn plan(
        self,
        pipes: &Vec<Pipe>,
        moves: &Vec<Move>,
        reserved: &Vec<i32>,
        privileged: bool,
    ) -> (plan: Result<Plan, Error>)
        requires
            self.wf(),
        ensures
            planned(plan, self@, pipes@, moves@, reserved@, privileged),
    {
        let ghost v = self@;
        if self.defect().is_some() {
            return Err(Error::new(Step::Config, invalid_argument()));
        }
        let wiring = match plan_wiring(&self.fds, pipes) {
            Some(wiring) => wiring,
            None => {
                return Err(Error::new(Step::Descriptors, invalid_argument()));
            },
        };
        let wires = match relocate(&wiring.wires, moves) {
            Some(wires) => wires,
            None => {
                return Err(Error::new(Step::Descriptors, invalid_argument()));
            },
        };
        assert(wires@ =~= carried(v, pipes@, moves@));
        let mut k: usize = 0;
        while k < reserved.len()
            invariant
                k <= reserved.len(),
                v == self@,
                defect_of(v) is None,
                wiring.wires@ == wires_of(v.fds, pipes@),
                wiring.closed@ == closed_of(v.fds),
                wires@ == carried(v, pipes@, moves@),
                forall|j: int| 0 <= j < k ==> spared(v, pipes@, moves@, #[trigger] reserved@[j]),
            decreases reserved.len() - k,
        {
            let fd = reserved[k];
            if touching(&wiring.wires, fd) || touching(&wires, fd) || listed(&wiring.closed, fd)
                || self.config.setns_namespaces.joins_by(fd) {
                assert(!spared(v, pipes@, moves@, reserved@[k as int]));
                return Err(Error::new(Step::Descriptors, invalid_argument()));
            }
            k = k + 1;
        }
        assert(Some(wires@) == wires_for(v, pipes@, moves@, reserved@));
        let spans = close_spans_but(&self.close_fds, &wires, reserved);
        let Command {
            filename,
            args,
            environ,
            config,
            fds,
            close_fds,
            chroot_dir,
            pivot_root,
            id_map_commands,
            pid_env_vars,
            keep_caps,
            before_unfreeze,
            pre_exec,
        } = self;
        let Config {
            death_sig,
            work_dir,
            uid,
            gid,
            supplementary_gids,
            id_maps,
            namespaces,
            setns_namespaces,
            restore_sigmask,
            make_group_leader,
        } = config;
        let gate = id_maps.is_some() || before_unfreeze;
        let changes_dir = work_dir.is_some() || chroot_dir.is_some() || pivot_root.is_some();
        let wishes = Wishes {
            group_leader: make_group_leader,
            stamp_pid: pid_env_vars.len() > 0,
            joins: setns_namespaces,
            gate,
            groups: supplementary_gids.is_some(),
            gid,
            uid,
            chroot: chroot_dir.is_some(),
            pivot: match &pivot_root {
                Some(pivot) => Some(pivot.unmount_old),
                None => None,
            },
            chdir: changes_dir,
            caps: keep_caps,
            sigmask: restore_sigmask,
            pre_exec,
            death_sig,
        };
        let script = build_script(&wishes, &wires, &wiring.closed, &spans);
        assert(crate::script::steps_of(wishes, wires@, wiring.closed@, spans@) == steps_for(
            v,
            wires@,
            spans@,
        ));
        let clone_flags = namespaces.clone_flags();
        let work_dir = match work_dir {
            Some(dir) => Some(dir),
            None => if changes_dir {
                Some(vec![SLASH])
            } else {
                None
            },
        };
        let (root, put_old, old_root) = match pivot_root {
            Some(pivot) => {
                let inside = old_root_inside(&pivot.new_root, &pivot.put_old);
                (Some(pivot.new_root), Some(pivot.put_old), inside)
            },
            None => (chroot_dir, None, None),
        };
        let maps = match id_maps {
            Some((uids, gids)) => {
                let uid_table = uid_table(&uids);
                let gid_table = gid_table(&gids);
                let uid_text = render_table(&uid_table);
                let gid_text = render_table(&gid_table);
                Some(
                    MapPlan {
                        strategy: select_strategy(privileged, id_map_commands.is_some()),
                        uid_table,
                        gid_table,
                        uid_text,
                        gid_text,
                        helpers: id_map_commands,
                    },
                )
            },
            None => None,
        };
        let plan = Plan {
            clone_flags,
            script,
            wires,
            spans,
            filename,
            args,
            environ,
            pid_env_vars,
            root,
            put_old,
            old_root,
            work_dir,
            groups: supplementary_gids,
            kept: wiring.kept,
            given: wiring.given,
            maps,
            gate,
            before_unfreeze,
        };
        assert(path_view(plan.work_dir) == work_dir_of(v)) by {
            if v.config.work_dir is None && changes_dir {
                assert(plan.work_dir.unwrap()@ =~= seq![SLASH]);
            }
        }
        Ok(plan)
    }
}

/// The description that a launch starts from: the program `filename`, with
/// its own name as its only argument, the environment and the three
/// standard streams of the parent, and the configuration that launches
/// start from.
pub open spec fn initial(filename: Seq<u8>) -> CommandView {
    CommandView {
        filename,
        args: seq![filename],
        environ: None,
        config: crate::config::default_config(),
        fds: seq![
            Entry { target: 0, source: Fd::Inherit },
            Entry { target: 1, source: Fd::Inherit },
            Entry { target: 2, source: Fd::Inherit },
        ],
        close_fds: Seq::<Span>::empty(),
        chroot_dir: None,
        pivot_root: None,
        id_map_commands: None,
        pid_env_vars: Seq::<Seq<u8>>::empty(),
        keep_caps: None,
        before_unfreeze: false,
        pre_exec: false,
    }
}

impl Command {
    /// The description of the launch of the program at the path
    /// `filename`. The path is taken as it is: no directory is searched for
    /// the program.
    pub fn new(filename: Vec<u8>) -> (command: Command)
        ensures
            command@ == initial(filename@),
            command.wf(),
    {
        let name = crate::bytes::copy(&filename);
        let command = Command {
            filename,
            args: vec![name],
            environ: None,
            config: Config::default(),
            fds: vec![
                Entry { target: 0, source: Fd::Inherit },
                Entry { target: 1, source: Fd::Inherit },
                Entry { target: 2, source: Fd::Inherit },
            ],
            close_fds: Vec::new(),
            chroot_dir: None,
            pivot_root: None,
            id_map_commands: None,
            pid_env_vars: Vec::new(),
            keep_caps: None,
            before_unfreeze: false,
            pre_exec: false,
        };
        proof {
            assert(command@.args =~= seq![filename@]);
            assert(command@.fds =~= initial(filename@).fds);
            assert(command@.close_fds =~= Seq::<Span>::empty());
            assert(command@.pid_env_vars =~= Seq::<Seq<u8>>::empty());
        }
        command
    }

    /// Adds an argument.
    pub fn arg(&mut self, arg: Vec<u8>)
        ensures
            final(self)@ == (CommandView { args: old(self)@.args.push(arg@), ..old(self)@ }),
    {
        self.args.push(arg);
        assert(self@.args =~= old(self)@.args.push(arg@));
    }

    /// Replaces the environment of the program by the variables that the
    /// settings `vars` leave, made one after the other: where a name occurs
    /// more than once, the variable stands where the name stood first and
    /// has the value that was set last. A list without such a name is taken
    /// as it is.
    pub fn environment(&mut self, vars: Vec<EnvVar>)
        ensures
            final(self)@ == (CommandView {
                environ: Some(vars_from(vars_view(vars@))),
                ..old(self)@
            }),
            distinct_names(var_names(vars_from(vars_view(vars@)))),
            distinct_names(var_names(vars_view(vars@))) ==> final(self)@.environ == Some(
                vars_view(vars@),
            ),
            old(self).wf() ==> final(self).wf(),
    {
        proof {
            if distinct_names(var_names(vars_view(vars@))) {
                crate::env::lemma_vars_from_distinct(vars_view(vars@));
            }
        }
        self.environ = Some(collect_vars(&vars));
    }

    /// Gives the program the environment of the parent.
    pub fn inherit_environment(&mut self)
        ensures
            final(self)@ == (CommandView { environ: None, ..old(self)@ }),
    {
        self.environ = None;
    }

    /// Lets the variable `name` carry the child's process id, in the
    /// environment that replaces the parent's as well as in the parent's
    /// own: the program finds the variable with the process id as its
    /// value, whatever value it had. Nothing changes, and the answer is
    /// `false`, where the variable carries the process id already.
    pub fn env_var_with_pid(&mut self, name: Vec<u8>) -> (added: bool)
        ensures
            added == !names(old(self)@.pid_env_vars, name@),
            final(self)@ == (if added {
                CommandView { pid_env_vars: old(self)@.pid_env_vars.push(name@), ..old(self)@ }
            } else {
                old(self)@
            }),
            old(self).wf() ==> final(self).wf(),
    {
        if named(&self.pid_env_vars, &name) {
            return false;
        }
        self.pid_env_vars.push(name);
        proof {
            let before = old(self)@.pid_env_vars;
            let after = self@.pid_env_vars;
            assert(after =~= before.push(name@));
            if distinct_names(before) {
                assert forall|i: int, j: int| 0 <= i < j < after.len() implies #[trigger] after[i]
                    != #[trigger] after[j] by {
                    if j < before.len() {
                        assert(after[i] == before[i] && after[j] == before[j]);
                    } else {
                        assert(after[i] == before[i]);
                    }
                }
            }
        }
        true
    }

    /// Sets the working directory of the child, a path that is looked up
    /// after the root has changed. The path has to start at the root: a
    /// description with another path cannot be launched.
    pub fn current_dir(&mut self, dir: Vec<u8>)
        ensures
            final(self)@ == (CommandView {
                config: ConfigView { work_dir: Some(dir@), ..old(self)@.config },
                ..old(self)@
            }),
    {
        self.config.work_dir = Some(dir);
    }

    /// Sets the user id of the child.
    pub fn uid(&mut self, id: u32)
        ensures
            final(self)@ == (CommandView {
                config: ConfigView { uid: Some(id), ..old(self)@.config },
                ..old(self)@
            }),
    {
        self.config.uid = Some(id);
    }

    /// Sets the group id of the child.
    pub fn gid(&mut self, id: u32)
        ensures
            final(self)@ == (CommandView {
                config: ConfigView { gid: Some(id), ..old(self)@.config },
                ..old(self)@
            }),
    {
        self.config.gid = Some(id);
    }

    /// Sets the supplementary groups of the child.
    pub fn groups(&mut self, ids: Vec<u32>)
        ensures
            final(self)@ == (CommandView {
                config: ConfigView { supplementary_gids: Some(ids@), ..old(self)@.config },
                ..old(self)@
            }),
    {
        self.config.supplementary_gids = Some(ids);
    }

    /// Sets the maps of user and group ids for a new user namespace.
    pub fn set_id_maps(&mut self, uid_map: Vec<UidMap>, gid_map: Vec<GidMap>)
        ensures
            final(self)@ == (CommandView {
                config: ConfigView { id_maps: Some((uid_map@, gid_map@)), ..old(self)@.config },
                ..old(self)@
            }),
    {
        self.config.id_maps = Some((uid_map, gid_map));
    }

    /// Names the programs that write the map of user ids and the map of
    /// group ids where the parent may not.
    pub fn set_id_map_commands(&mut self, uid_helper: Vec<u8>, gid_helper: Vec<u8>)
        ensures
            final(self)@ == (CommandView {
                id_map_commands: Some((uid_helper@, gid_helper@)),
                ..old(self)@
            }),
    {
        self.id_map_commands = Some((uid_helper, gid_helper));
    }

    /// Has a new namespace of the kind `kind` created for the child.
    pub fn unshare(&mut self, kind: Namespace)
        ensures
            final(self)@ == (CommandView {
                config: ConfigView {
                    namespaces: old(self)@.config.namespaces.insert(kind),
                    ..old(self)@.config
                },
                ..old(self)@
            }),
    {
        self.config.namespaces.insert(kind);
    }

    /// Has the child join the namespace of the kind `kind` behind the
    /// descriptor `fd`, which the child closes once it has joined. A
    /// descriptor given before for the same kind is handed back.
    pub fn set_namespace(&mut self, kind: Namespace, fd: i32) -> (replaced: Option<i32>)
        ensures
            final(self)@ == (CommandView {
                config: ConfigView {
                    joins: old(self)@.config.joins.insert(kind, fd),
                    ..old(self)@.config
                },
                ..old(self)@
            }),
            replaced == (if old(self)@.config.joins.dom().contains(kind) {
                Some(old(self)@.config.joins[kind])
            } else {
                None
            }),
    {
        self.config.setns_namespaces.insert(kind, fd)
    }

    /// Has the root of the child changed to `dir` by `chroot`. The path has
    /// to start at the root, and no change by `pivot_root` may be asked for
    /// beside it: a description that breaks either rule cannot be launched.
    pub fn chroot_dir(&mut self, dir: Vec<u8>)
        ensures
            final(self)@ == (CommandView { chroot_dir: Some(dir@), ..old(self)@ }),
    {
        self.chroot_dir = Some(dir);
    }

    /// Has the root of the child changed to `new_root` by `pivot_root`,
    /// which moves the old root to `put_old`; the old root is unmounted
    /// after that if `unmount_old`. Both paths have to start at the root,
    /// `put_old` has to be `new_root` or lie below it, and no change by
    /// `chroot` may be asked for beside it: a description that breaks one of
    /// these rules cannot be launched.
    pub fn pivot_root(&mut self, new_root: Vec<u8>, put_old: Vec<u8>, unmount_old: bool)
        ensures
            final(self)@ == (CommandView {
                pivot_root: Some((new_root@, put_old@, unmount_old)),
                ..old(self)@
            }),
    {
        self.pivot_root = Some(PivotRoot { new_root, put_old, unmount_old });
    }

    /// Has the child keep the capabilities in `caps` and lose every other.
    pub fn keep_caps(&mut self, caps: &Vec<Capability>)
        ensures
            final(self)@.keep_caps is Some,
            final(self)@.keep_caps.unwrap()@ == caps@.to_set(),
            final(self)@.keep_caps.unwrap().wf(),
            final(self)@ == (CommandView { keep_caps: final(self)@.keep_caps, ..old(self)@ }),
    {
        self.keep_caps = Some(CapSet::of(caps));
    }

    /// Says what the child finds at the descriptor `target`, in place of
    /// what was said of that number before. Nothing changes, and the answer
    /// is `false`, where `target` is no number that a descriptor can have.
    pub fn file_descriptor(&mut self, target: i32, source: Fd) -> (taken: bool)
        requires
            old(self).wf(),
        ensures
            final(self).wf(),
            taken == (0 <= target < FD_LIMIT),
            final(self)@ == (if taken {
                CommandView { fds: with_entry(old(self)@.fds, target, source), ..old(self)@ }
            } else {
                old(self)@
            }),
            taken ==> lookup(final(self)@.fds, target) == Some(source),
            forall|other: i32|
                other != target ==> lookup(final(self)@.fds, other) == lookup(
                    old(self)@.fds,
                    other,
                ),
    {
        if target < 0 || target >= FD_LIMIT {
            return false;
        }
        set_entry(&mut self.fds, target, source);
        proof {
            let after = self.fds@;
            let before = old(self).fds@;
            assert forall|i: int| 0 <= i < after.len() implies 0 <= (#[trigger] after[i]).target
                < FD_LIMIT by {
                if after[i].target != target {
                    assert(crate::stdio::known_target(before, after[i].target));
                    let k = choose|k: int|
                        0 <= k < before.len() && (#[trigger] before[k]).target == after[i].target;
                    assert(0 <= before[k].target < FD_LIMIT);
                }
            }
        }
        true
    }

    /// Says what the child finds at its standard input.
    pub fn stdin(&mut self, stdio: Stdio)
        requires
            old(self).wf(),
        ensures
            final(self).wf(),
            final(self)@ == (CommandView {
                fds: with_entry(old(self)@.fds, 0, stdio.spec_to_fd(true)),
                ..old(self)@
            }),
            lookup(final(self)@.fds, 0) == Some(stdio.spec_to_fd(true)),
            forall|other: i32|
                other != 0 ==> lookup(final(self)@.fds, other) == lookup(old(self)@.fds, other),
    {
        self.file_descriptor(0, stdio.to_fd(true));
    }

    /// Says what the child finds at its standard output.
    pub fn stdout(&mut self, stdio: Stdio)
        requires
            old(self).wf(),
        ensures
            final(self).wf(),
            final(self)@ == (CommandView {
                fds: with_entry(old(self)@.fds, 1, stdio.spec_to_fd(false)),
                ..old(self)@
            }),
            lookup(final(self)@.fds, 1) == Some(stdio.spec_to_fd(false)),
            forall|other: i32|
                other != 1 ==> lookup(final(self)@.fds, other) == lookup(old(self)@.fds, other),
    {
        self.file_descriptor(1, stdio.to_fd(false));
    }

    /// Says what the child finds at its standard error.
    pub fn stderr(&mut self, stdio: Stdio)
        requires
            old(self).wf(),
        ensures
            final(self).wf(),
            final(self)@ == (CommandView {
                fds: with_entry(old(self)@.fds, 2, stdio.spec_to_fd(false)),
                ..old(self)@
            }),
            lookup(final(self)@.fds, 2) == Some(stdio.spec_to_fd(false)),
            forall|other: i32|
                other != 2 ==> lookup(final(self)@.fds, other) == lookup(old(self)@.fds, other),
    {
        self.file_descriptor(2, stdio.to_fd(false));
    }

    /// Has the child close the descriptors from `from` up to, not
    /// including, `to`, but for those that it is asked to find something
    /// at.
    pub fn close_fds(&mut self, from: i32, to: i32)
        ensures
            final(self)@ == (CommandView {
                close_fds: old(self)@.close_fds.push(Span { from, to }),
                ..old(self)@
            }),
    {
        self.close_fds.push(Span { from, to });
    }

    /// Forgets what was said of descriptors: the child finds nothing at any
    /// number, and closes nothing but what the program image's replacement
    /// closes.
    pub fn reset_fds(&mut self)
        ensures
            old(self).wf() ==> final(self).wf(),
            final(self)@ == (CommandView {
                fds: Seq::<Entry>::empty(),
                close_fds: Seq::<Span>::empty(),
                ..old(self)@
            }),
    {
        self.fds = Vec::new();
        self.close_fds = Vec::new();
        assert(self@.fds =~= Seq::<Entry>::empty());
        assert(self@.close_fds =~= Seq::<Span>::empty());
    }

    /// Sets the signal that the child gets when the parent dies. The
    /// number has to be that of a signal, from 1 to 64: a description with
    /// another number cannot be launched.
    pub fn set_parent_death_signal(&mut self, signal: i32)
        ensures
            final(self)@ == (CommandView {
                config: ConfigView { death_sig: Some(signal), ..old(self)@.config },
                ..old(self)@
            }),
    {
        self.config.death_sig = Some(signal);
    }

    /// Lets the child outlive the parent.
    pub fn allow_daemonize(&mut self)
        ensures
            final(self)@ == (CommandView {
                config: ConfigView { death_sig: None, ..old(self)@.config },
                ..old(self)@
            }),
    {
        self.config.death_sig = None;
    }

    /// Says whether the child becomes the leader of a new process group.
    pub fn make_group_leader(&mut self, leader: bool)
        ensures
            final(self)@ == (CommandView {
                config: ConfigView { make_group_leader: leader, ..old(self)@.config },
                ..old(self)@
            }),
    {
        self.config.make_group_leader = leader;
    }

    /// Says whether the child starts with no signal blocked and every
    /// signal handled by default.
    pub fn restore_sigmask(&mut self, restore: bool)
        ensures
            final(self)@ == (CommandView {
                config: ConfigView { restore_sigmask: restore, ..old(self)@.config },
                ..old(self)@
            }),
    {
        self.config.restore_sigmask = restore;
    }

    /// Says whether the caller has a hook that runs in the parent once the
    /// child exists, before the child is let go.
    pub fn before_unfreeze(&mut self, hook: bool)
        ensures
            final(self)@ == (CommandView { before_unfreeze: hook, ..old(self)@ }),
    {
        self.before_unfreeze = hook;
    }

    /// Says whether the caller has a hook that runs in the child just
    /// before the program image is replaced.
    pub fn pre_exec(&mut self, hook: bool)
        ensures
            final(self)@ == (CommandView { pre_exec: hook, ..old(self)@ }),
    {
        self.pre_exec = hook;
    }
}

/// A description that asks for two ways to change the root, or for a
/// namespace of one kind to be both created and joined, gets no plan: it is
/// answered with the failure of the configuration, and so before any
/// process is duplicated.
pub proof fn lemma_exclusive_options_refused(
    plan: Result<Plan, Error>,
    v: CommandView,
    pipes: Seq<Pipe>,
    moves: Seq<Move>,
    reserved: Seq<i32>,
    privileged: bool,
)
    requires
        planned(plan, v, pipes, moves, reserved, privileged),
        (v.chroot_dir is Some && v.pivot_root is Some) || !v.config.namespaces.disjoint(
            v.config.joins.dom(),
        ),
    ensures
        plan matches Err(err) && err@ == config_failure(),
{
    crate::namespace::lemma_conflict(v.config.namespaces, v.config.joins.dom());
}

/// Under a plan the child keeps the capabilities that the description
/// lists and no others: its script restricts the capabilities to the listed
/// set and to no other set, and where the description lists none, the
/// script leaves the capabilities alone.
pub proof fn lemma_plan_keeps_listed(
    plan: Plan,
    v: CommandView,
    pipes: Seq<Pipe>,
    moves: Seq<Move>,
    reserved: Seq<i32>,
    privileged: bool,
    kept: CapSet,
)
    requires
        plan_of(plan, v, pipes, moves, reserved, privileged),
    ensures
        plan.script@.contains(Action::KeepCaps(kept)) <==> v.keep_caps == Some(kept),
{
    crate::script::lemma_capabilities_kept(steps_for(v, plan.wires@, plan.spans@));
}

/// Under a plan the namespaces that the description asks to create are
/// named by the flags of the duplication, and no other; and the child joins
/// what the description asks it to join, and nothing else: where it asks
/// for no join, the script holds none.
pub proof fn lemma_plan_namespaces(
    plan: Plan,
    v: CommandView,
    pipes: Seq<Pipe>,
    moves: Seq<Move>,
    reserved: Seq<i32>,
    privileged: bool,
)
    requires
        plan_of(plan, v, pipes, moves, reserved, privileged),
    ensures
        forall|kind: Namespace|
            crate::namespace::flag_present(plan.clone_flags, kind) == v.config.namespaces.contains(
                kind,
            ),
        forall|join: crate::namespace::Join|
            plan.script@.contains(Action::Join(join)) <==> (v.config.joins.dom().contains(
                join.kind,
            ) && v.config.joins[join.kind] == join.fd),
{
    assert forall|kind: Namespace|
        crate::namespace::flag_present(plan.clone_flags, kind) == v.config.namespaces.contains(
            kind,
        ) by {
        crate::namespace::lemma_flags_name_members(v.config.namespaces, kind);
    }
    crate::script::lemma_joins(steps_for(v, plan.wires@, plan.spans@));
    crate::namespace::lemma_join_sequence(v.config.joins);
    let joins = crate::namespace::join_sequence(v.config.joins);
    assert forall|join: crate::namespace::Join|
        plan.script@.contains(Action::Join(join)) <==> (v.config.joins.dom().contains(join.kind)
            && v.config.joins[join.kind] == join.fd) by {
        let script = child_script(steps_for(v, plan.wires@, plan.spans@));
        assert(plan.script@ == script);
        assert(script.contains(Action::Join(join)) <==> joins.contains(join));
        if joins.contains(join) {
            let at = choose|at: int| 0 <= at < joins.len() && joins[at] == join;
            let found = crate::namespace::join_sequence(v.config.joins)[at];
            assert(v.config.joins.dom().contains(found.kind) && v.config.joins[found.kind]
                == found.fd);
        }
        if v.config.joins.dom().contains(join.kind) && v.config.joins[join.kind] == join.fd {
            let wanted = crate::namespace::Join {
                kind: join.kind,
                fd: v.config.joins[join.kind],
            };
            assert(wanted == join);
            assert(joins.contains(wanted));
        }
    }
}

/// Under a plan no two wires end at the same number, and none ends at a
/// descriptor that the parent has reserved.
pub proof fn lemma_plan_targets(
    plan: Plan,
    v: CommandView,
    pipes: Seq<Pipe>,
    moves: Seq<Move>,
    reserved: Seq<i32>,
    privileged: bool,
)
    requires
        plan_of(plan, v, pipes, moves, reserved, privileged),
        table_in_order(v.fds),
    ensures
        distinct_targets(plan.wires@),
        forall|k: int| 0 <= k < reserved.len() ==> !is_target(plan.wires@, #[trigger] reserved[k]),
{
    let wanted = wires_of(v.fds, pipes);
    crate::stdio::lemma_wires_of(v.fds, pipes);
    assert forall|i: int| 0 <= i < plan.wires.len() implies (#[trigger] plan.wires@[i]).target
        == wanted[i].target by {
        assert(plan.wires@[i] == rewired(wanted, moves, wanted[i]));
    }
    assert forall|k: int| 0 <= k < reserved.len() implies !is_target(
        plan.wires@,
        #[trigger] reserved[k],
    ) by {
        assert(spared(v, pipes, moves, reserved[k]));
        if is_target(plan.wires@, reserved[k]) {
            let at = choose|at: int|
                0 <= at < plan.wires.len() && (#[trigger] plan.wires@[at]).target == reserved[k];
            assert(plan.wires@[at].target == reserved[k] || plan.wires@[at].source == reserved[k]);
        }
    }
}

/// What the parent places at or above the floor of a description is left
/// alone by the launch, where the parent places nothing twice: a
/// descriptor at or above the floor that is not the source of a wire that
/// the description asks for, on which no duplicate sits, and by which no
/// namespace is joined.
pub proof fn lemma_floor_spares(v: CommandView, pipes: Seq<Pipe>, moves: Seq<Move>, fd: i32)
    requires
        fd >= crate::stdio::floor_of(v.fds),
        forall|i: int|
            0 <= i < wires_of(v.fds, pipes).len() ==> (#[trigger] wires_of(v.fds, pipes)[i]).source
                != fd,
        forall|k: int| 0 <= k < moves.len() ==> (#[trigger] moves[k]).to != fd,
        !joined(v.config.joins, fd),
    ensures
        spared(v, pipes, moves, fd),
{
    let wanted = wires_of(v.fds, pipes);
    let wires = carried(v, pipes, moves);
    crate::stdio::lemma_above_floor(v.fds, pipes, fd);
    if touches(wanted, fd) {
        let at = choose|at: int|
            0 <= at < wanted.len() && ((#[trigger] wanted[at]).target == fd || wanted[at].source
                == fd);
        assert(is_target(wanted, fd));
    }
    if touches(wires, fd) {
        let at = choose|at: int|
            0 <= at < wires.len() && ((#[trigger] wires[at]).target == fd || wires[at].source
                == fd);
        assert(wires[at] == rewired(wanted, moves, wanted[at]));
        assert(wires[at].target == wanted[at].target);
        if wires[at].target == fd {
            assert(is_target(wanted, fd));
        } else if wires[at].source != wanted[at].source {
            crate::fds::lemma_moved_to_a_move(moves, wanted[at].source);
        }
    }
}

/// Under a plan the child leaves alone what the parent has reserved for
/// the launch: no instruction of the script closes a reserved descriptor,
/// puts another in its place, duplicates it, or lets it stay open when the
/// program image is replaced. The pipe of failures is therefore open for as
/// long as a step can fail, and closed once the program image is replaced.
pub proof fn lemma_plan_spares_reserved(
    plan: Plan,
    v: CommandView,
    pipes: Seq<Pipe>,
    moves: Seq<Move>,
    reserved: Seq<i32>,
    privileged: bool,
)
    requires
        plan_of(plan, v, pipes, moves, reserved, privileged),
    ensures
        forall|i: int, k: int|
            0 <= i < plan.script.len() && 0 <= k < reserved.len() ==> !disturbs(
                #[trigger] plan.script@[i],
                #[trigger] reserved[k],
            ),
{
    let steps = steps_for(v, plan.wires@, plan.spans@);
    assert(plan.script@ == child_script(steps));
    assert(plan.wires@ == carried(v, pipes, moves));
    assert forall|i: int, k: int| 0 <= i < plan.script.len() && 0 <= k < reserved.len() implies !disturbs(
        #[trigger] plan.script@[i],
        #[trigger] reserved[k],
    ) by {
        let fd = reserved[k];
        assert(spared(v, pipes, moves, fd));
        assert(reserved.contains(fd));
        lemma_plan_closes(plan, v, pipes, moves, reserved, privileged, fd);
        crate::script::lemma_script_spares(steps, fd, i);
    }
}

/// Under a plan the child closes by spans what the description says is
/// closed unless it is asked for, and nothing else: a descriptor lies in a
/// span of the plan exactly where it lies in a range of the description, is
/// the target of no wire, and is not reserved by the parent.
pub proof fn lemma_plan_closes(
    plan: Plan,
    v: CommandView,
    pipes: Seq<Pipe>,
    moves: Seq<Move>,
    reserved: Seq<i32>,
    privileged: bool,
    fd: i32,
)
    requires
        plan_of(plan, v, pipes, moves, reserved, privileged),
    ensures
        in_spans(plan.spans@, fd) <==> in_spans(v.close_fds, fd) && !is_target(plan.wires@, fd)
            && !reserved.contains(fd),
{
    crate::fds::lemma_cuts(v.close_fds, plan.wires@ + kept_open(reserved));
    crate::fds::lemma_kept_open(plan.wires@, reserved, fd);
}

/// Under a plan every descriptor arrives where the description wants it.
/// Where the sources of the plan's wires are open when the child starts,
/// then once the child has carried the wires out, each target holds what
/// the source of its wire held.
pub proof fn lemma_plan_wires(
    plan: Plan,
    v: CommandView,
    pipes: Seq<Pipe>,
    moves: Seq<Move>,
    reserved: Seq<i32>,
    privileged: bool,
    open: Map<i32, int>,
)
    requires
        plan_of(plan, v, pipes, moves, reserved, privileged),
        table_in_order(v.fds),
        forall|i: int|
            0 <= i < plan.wires.len() ==> open.dom().contains((#[trigger] plan.wires@[i]).source),
    ensures
        forall|i: int|
            0 <= i < plan.wires.len() ==> {
                let after = crate::fds::run(open, crate::fds::wire_actions(plan.wires@));
                &&& after.dom().contains((#[trigger] plan.wires@[i]).target)
                &&& after[plan.wires@[i].target] == open[plan.wires@[i].source]
            },
{
    lemma_plan_targets(plan, v, pipes, moves, reserved, privileged);
    crate::fds::lemma_descriptors_arrive(plan.wires@, open);
}

} // verus!
