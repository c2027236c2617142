use unshare::action::Action;
use unshare::caps::{CapSet, Capability};
use unshare::chroot::RootDefect;
use unshare::child::Child;
use unshare::command::{Command, Defect};
use unshare::config::Config;
use unshare::env::EnvVar;
use unshare::error::{decode, encode, Error, Report, Step};
use unshare::fds::{Move, Span, Wire};
use unshare::idmap::{GidMap, IdRange, MapStrategy, UidMap};
use unshare::namespace::{Join, Namespace};
use unshare::run::{step_of_task, task_failure, Event, Request, Spawn, Task};
use unshare::script::{build_script, Wishes};
use unshare::status::{ExitStatus, WaitEvent};
use unshare::stdio::{Fd, Pipe, Stdio};
use unshare::zombies::{observe, reap, ChildEvent, ReapStep, Registry, WaitStep};

fn path(text: &str) -> Vec<u8> {
    text.as_bytes().to_vec()
}

fn no_pipes() -> Vec<Pipe> {
    Vec::new()
}

fn no_moves() -> Vec<Move> {
    Vec::new()
}

#[test]
fn default_config_kills_the_child_with_the_parent() {
    let config = Config::default();
    assert_eq!(config.death_sig, Some(9));
    assert_eq!(config.death_sig, Some(libc::SIGKILL));
    assert_eq!(config.work_dir, None);
    assert_eq!(config.uid, None);
    assert_eq!(config.gid, None);
    assert_eq!(config.supplementary_gids, None);
    assert!(config.id_maps.is_none());
    assert!(config.namespaces.is_empty());
    assert!(config.setns_namespaces.is_empty());
    assert!(config.restore_sigmask);
    assert!(!config.make_group_leader);
}

#[test]
fn plain_launch_has_the_shortest_script() {
    let command = Command::new(path("/bin/true"));
    assert_eq!(command.defect(), None);
    assert_eq!(command.check(), Ok(()));
    assert_eq!(command.pipes_needed(), 0);
    let plan = command.plan(&no_pipes(), &no_moves(), &Vec::new(), false).ok().unwrap();
    assert_eq!(plan.clone_flags, 0);
    assert_eq!(
        plan.script,
        vec![
            Action::RestoreSigmask,
            Action::KeepOpen { fd: 0 },
            Action::KeepOpen { fd: 1 },
            Action::KeepOpen { fd: 2 },
            Action::DeathSignal(9),
            Action::Exec,
        ]
    );
    assert_eq!(plan.filename, path("/bin/true"));
    assert_eq!(plan.args, vec![path("/bin/true")]);
    assert!(plan.environ.is_none());
    assert_eq!(plan.work_dir, None);
    assert_eq!(plan.root, None);
    assert!(plan.maps.is_none());
    assert!(!plan.gate);
    assert_eq!(plan.kept, Vec::<Wire>::new());
}

#[test]
fn full_launch_walks_the_steps_in_order() {
    let mut command = Command::new(path("/sbin/init"));
    command.arg(path("--verbose"));
    command.pre_exec(true);
    command.before_unfreeze(true);
    command.keep_caps(&vec![Capability::CAP_NET_ADMIN]);
    command.chroot_dir(path("/jail"));
    command.uid(1000);
    command.gid(100);
    command.groups(vec![4, 24]);
    command.set_namespace(Namespace::Mount, 20);
    command.set_namespace(Namespace::User, 21);
    command.unshare(Namespace::Net);
    command.make_group_leader(true);
    command.environment(vec![EnvVar { name: path("A"), value: path("b") }]);
    command.env_var_with_pid(path("PID"));
    command.set_id_maps(
        vec![UidMap { inside_uid: 0, outside_uid: 1000, count: 1 }],
        vec![GidMap { inside_gid: 0, outside_gid: 100, count: 1 }],
    );
    command.stdin(Stdio::piped());
    command.stdout(Stdio::closed());
    command.file_descriptor(5, Fd::Fd(30));
    command.file_descriptor(30, Fd::Fd(2));
    command.close_fds(3, 8);
    assert_eq!(command.defect(), None);
    assert_eq!(command.pipes_needed(), 1);
    let pipes = vec![Pipe { read: 30, write: 31 }];
    assert_eq!(
        command.wires(&pipes),
        Some(vec![
            Wire { target: 0, source: 30 },
            Wire { target: 2, source: 2 },
            Wire { target: 5, source: 30 },
            Wire { target: 30, source: 2 },
        ])
    );
    let wanted = command.wires(&pipes).unwrap();
    assert_eq!(unshare::fds::colliding(&wanted), vec![30]);
    assert_eq!(unshare::fds::floor(&wanted), 31);
    let moves = vec![Move { from: 30, to: 40 }];
    let plan = command.plan(&pipes, &moves, &vec![50, 51], true).ok().unwrap();
    assert_eq!(plan.clone_flags, 0x4000_0000);
    assert_eq!(
        plan.script,
        vec![
            Action::GroupLeader,
            Action::StampPid,
            Action::Join(Join { kind: Namespace::User, fd: 21 }),
            Action::Join(Join { kind: Namespace::Mount, fd: 20 }),
            Action::AwaitParent,
            Action::HoldCaps,
            Action::SetGroups,
            Action::SetGid(100),
            Action::SetUid(1000),
            Action::Chroot,
            Action::Chdir,
            Action::KeepCaps(CapSet::of(&vec![Capability::CAP_NET_ADMIN])),
            Action::RestoreSigmask,
            Action::Dup { source: 40, target: 0 },
            Action::KeepOpen { fd: 2 },
            Action::Dup { source: 40, target: 5 },
            Action::Dup { source: 2, target: 30 },
            Action::Close { fd: 1 },
            Action::CloseRange { from: 3, to: 5 },
            Action::CloseRange { from: 6, to: 8 },
            Action::PreExec,
            Action::DeathSignal(9),
            Action::Exec,
        ]
    );
    let mut stage = 0;
    for action in &plan.script {
        assert!(action.stage() >= stage);
        stage = action.stage();
        assert!(action.step().in_child());
    }
    assert_eq!(plan.args, vec![path("/sbin/init"), path("--verbose")]);
    assert_eq!(plan.root, Some(path("/jail")));
    assert_eq!(plan.work_dir, Some(path("/")));
    assert_eq!(plan.groups, Some(vec![4, 24]));
    assert_eq!(plan.kept, vec![Wire { target: 0, source: 31 }]);
    assert_eq!(plan.given, vec![30]);
    assert_eq!(plan.pid_env_vars, vec![path("PID")]);
    assert!(plan.gate);
    assert!(plan.before_unfreeze);
    let maps = plan.maps.as_ref().unwrap();
    assert_eq!(maps.strategy, MapStrategy::Direct);
    assert_eq!(maps.uid_text, b"0 1000 1\n".to_vec());
    assert_eq!(maps.gid_text, b"0 100 1\n".to_vec());
    assert_eq!(maps.uid_table, vec![IdRange { inside: 0, outside: 1000, count: 1 }]);
    assert!(maps.helpers.is_none());
}

#[test]
fn pivot_root_plan_names_the_old_root_inside() {
    let mut command = Command::new(path("/bin/sh"));
    command.pivot_root(path("/new"), path("/new/old"), true);
    command.current_dir(path("/home"));
    command.allow_daemonize();
    command.restore_sigmask(false);
    command.reset_fds();
    let plan = command.plan(&no_pipes(), &no_moves(), &Vec::new(), false).ok().unwrap();
    assert_eq!(
        plan.script,
        vec![Action::PivotRoot, Action::UnmountOld, Action::Chdir, Action::Exec]
    );
    assert_eq!(plan.root, Some(path("/new")));
    assert_eq!(plan.put_old, Some(path("/new/old")));
    assert_eq!(plan.old_root, Some(path("/old")));
    assert_eq!(plan.work_dir, Some(path("/home")));
}

#[test]
fn pivot_root_without_unmount_leaves_the_old_root() {
    let mut command = Command::new(path("/bin/sh"));
    command.pivot_root(path("/new"), path("/new/old"), false);
    command.reset_fds();
    command.allow_daemonize();
    command.restore_sigmask(false);
    let plan = command.plan(&no_pipes(), &no_moves(), &Vec::new(), false).ok().unwrap();
    assert_eq!(plan.script, vec![Action::PivotRoot, Action::Chdir, Action::Exec]);
    assert_eq!(plan.work_dir, Some(path("/")));
}

#[test]
fn unprivileged_parent_with_helpers_runs_them() {
    let mut command = Command::new(path("/bin/sh"));
    command.unshare(Namespace::User);
    command.set_id_maps(
        vec![UidMap { inside_uid: 0, outside_uid: 1000, count: 1 }],
        vec![GidMap { inside_gid: 0, outside_gid: 100, count: 1 }],
    );
    command.set_id_map_commands(path("/usr/bin/newuidmap"), path("/usr/bin/newgidmap"));
    let plan = command.plan(&no_pipes(), &no_moves(), &Vec::new(), false).ok().unwrap();
    let maps = plan.maps.as_ref().unwrap();
    assert_eq!(maps.strategy, MapStrategy::Helper);
    assert_eq!(maps.helpers, Some((path("/usr/bin/newuidmap"), path("/usr/bin/newgidmap"))));
    assert_eq!(plan.clone_flags, libc::CLONE_NEWUSER);
    let spawn = Spawn::new(&plan);
    assert_eq!(spawn.first(), Request::Do(Task::Fork));
}

#[test]
fn mutually_exclusive_roots_are_refused_before_anything_is_done() {
    let mut command = Command::new(path("/bin/sh"));
    command.chroot_dir(path("/jail"));
    command.pivot_root(path("/new"), path("/new/old"), false);
    assert_eq!(command.defect(), Some(Defect::Root(RootDefect::ChrootAndPivot)));
    assert_eq!(command.check(), Err(Error::new(Step::Config, libc::EINVAL)));
    assert_eq!(
        command.plan(&no_pipes(), &no_moves(), &Vec::new(), true).err(),
        Some(Error::new(Step::Config, libc::EINVAL))
    );
}

#[test]
fn creating_and_joining_one_kind_is_refused_before_anything_is_done() {
    let mut command = Command::new(path("/bin/sh"));
    command.unshare(Namespace::Pid);
    command.set_namespace(Namespace::Pid, 9);
    assert_eq!(command.defect(), Some(Defect::CreateAndJoin(Namespace::Pid)));
    assert_eq!(
        command.plan(&no_pipes(), &no_moves(), &Vec::new(), true).err(),
        Some(Error::new(Step::Config, 22))
    );
}

#[test]
fn other_defects_are_named() {
    assert_eq!(Command::new(Vec::new()).defect(), Some(Defect::EmptyFilename));
    let mut command = Command::new(path("/bin/sh"));
    command.current_dir(path("relative"));
    assert_eq!(command.defect(), Some(Defect::Root(RootDefect::WorkDirRelative)));
    let mut command = Command::new(path("/bin/sh"));
    command.set_id_maps(vec![UidMap { inside_uid: 0, outside_uid: 0, count: 0 }], Vec::new());
    assert_eq!(command.defect(), Some(Defect::UidMap));
    let mut command = Command::new(path("/bin/sh"));
    command.set_id_maps(
        Vec::new(),
        vec![
            GidMap { inside_gid: 0, outside_gid: 0, count: 5 },
            GidMap { inside_gid: 4, outside_gid: 100, count: 1 },
        ],
    );
    assert_eq!(command.defect(), Some(Defect::GidMap));
    for signal in [0, -1, 65, i32::MAX] {
        let mut command = Command::new(path("/bin/sh"));
        command.set_parent_death_signal(signal);
        assert_eq!(command.defect(), Some(Defect::DeathSignal));
        assert_eq!(command.check(), Err(Error::new(Step::Config, 22)));
    }
    for signal in [1, 9, 15, 34, 64] {
        let mut command = Command::new(path("/bin/sh"));
        command.set_parent_death_signal(signal);
        assert_eq!(command.defect(), None);
    }
}

#[test]
fn a_variable_carries_the_process_id_in_either_environment() {
    let mut command = Command::new(path("/bin/sh"));
    assert!(command.env_var_with_pid(path("PID")));
    assert_eq!(command.defect(), None);
    command.environment(Vec::new());
    assert_eq!(command.defect(), None);
    command.inherit_environment();
    assert_eq!(command.defect(), None);
    let plan = command.plan(&no_pipes(), &no_moves(), &Vec::new(), true).ok().unwrap();
    assert!(plan.environ.is_none());
    assert_eq!(plan.pid_env_vars, vec![path("PID")]);
    assert_eq!(plan.script[0], Action::StampPid);
}

#[test]
fn a_variable_is_named_once() {
    let mut command = Command::new(path("/bin/sh"));
    assert!(command.env_var_with_pid(path("PID")));
    assert!(command.env_var_with_pid(path("MAINPID")));
    assert!(!command.env_var_with_pid(path("PID")));
    command.environment(vec![
        EnvVar { name: path("A"), value: path("1") },
        EnvVar { name: path("B"), value: path("2") },
        EnvVar { name: path("A"), value: path("3") },
        EnvVar { name: path("C"), value: path("") },
        EnvVar { name: path("B"), value: path("4") },
    ]);
    let plan = command.plan(&no_pipes(), &no_moves(), &Vec::new(), true).ok().unwrap();
    assert_eq!(plan.pid_env_vars, vec![path("PID"), path("MAINPID")]);
    assert_eq!(
        plan.environ,
        Some(vec![
            EnvVar { name: path("A"), value: path("3") },
            EnvVar { name: path("B"), value: path("4") },
            EnvVar { name: path("C"), value: path("") },
        ])
    );
    let mut command = Command::new(path("/bin/sh"));
    let listed = vec![
        EnvVar { name: path("PATH"), value: path("/bin") },
        EnvVar { name: path("HOME"), value: path("/root") },
    ];
    command.environment(listed.clone());
    let plan = command.plan(&no_pipes(), &no_moves(), &Vec::new(), true).ok().unwrap();
    assert_eq!(plan.environ, Some(listed));
}

#[test]
fn a_reserved_descriptor_that_the_description_touches_is_refused() {
    let refused = Some(Error::new(Step::Descriptors, 22));
    // The description asks to have the number closed.
    let mut command = Command::new(path("/x"));
    command.file_descriptor(100, Fd::Closed);
    assert_eq!(command.floor(), 101);
    assert_eq!(command.plan(&no_pipes(), &no_moves(), &vec![100], true).err(), refused);
    let mut command = Command::new(path("/x"));
    command.file_descriptor(100, Fd::Closed);
    let plan = command.plan(&no_pipes(), &no_moves(), &vec![101], true).ok().unwrap();
    assert!(plan.script.contains(&Action::Close { fd: 100 }));
    assert!(!plan.script.contains(&Action::Close { fd: 101 }));
    // The child is to find the reserved descriptor at another number.
    let mut command = Command::new(path("/x"));
    command.file_descriptor(5, Fd::Fd(100));
    assert_eq!(command.plan(&no_pipes(), &no_moves(), &vec![100], true).err(), refused);
    // A duplicate that the parent made sits on the reserved number.
    let mut command = Command::new(path("/x"));
    command.file_descriptor(1, Fd::Fd(2));
    command.file_descriptor(2, Fd::Fd(1));
    let moves = vec![Move { from: 2, to: 100 }, Move { from: 1, to: 101 }];
    assert_eq!(command.plan(&no_pipes(), &moves, &vec![100], true).err(), refused);
    let mut command = Command::new(path("/x"));
    command.file_descriptor(1, Fd::Fd(2));
    command.file_descriptor(2, Fd::Fd(1));
    assert!(command.plan(&no_pipes(), &moves, &vec![102], true).is_ok());
    // A namespace is joined by the reserved number.
    let mut command = Command::new(path("/x"));
    command.set_namespace(Namespace::Net, 100);
    assert_eq!(command.plan(&no_pipes(), &no_moves(), &vec![7, 100], true).err(), refused);
    // The target of a wire, as before.
    let mut command = Command::new(path("/x"));
    command.file_descriptor(100, Fd::Fd(0));
    assert_eq!(command.plan(&no_pipes(), &no_moves(), &vec![100], true).err(), refused);
}

#[test]
fn no_instruction_of_a_plan_touches_a_reserved_descriptor() {
    let mut command = Command::new(path("/sbin/init"));
    command.stdin(Stdio::piped());
    command.stdout(Stdio::closed());
    command.file_descriptor(5, Fd::Fd(30));
    command.file_descriptor(30, Fd::Fd(2));
    command.file_descriptor(8, Fd::Closed);
    command.set_namespace(Namespace::Mount, 20);
    command.close_fds(3, 200);
    let above = command.floor();
    assert_eq!(above, 31);
    let pipes = vec![Pipe { read: 30, write: 31 }];
    let moves = vec![Move { from: 30, to: 40 }];
    let reserved = vec![50, 51];
    let plan = command.plan(&pipes, &moves, &reserved, true).ok().unwrap();
    for action in &plan.script {
        for fd in &reserved {
            let touched = match action {
                Action::Join(join) => join.fd == *fd,
                Action::Dup { source, target } => source == fd || target == fd,
                Action::KeepOpen { fd: kept } => kept == fd,
                Action::Close { fd: closed } => closed == fd,
                Action::CloseRange { from, to } => from <= fd && fd < to,
                _ => false,
            };
            assert!(!touched, "{:?} touches {}", action, fd);
        }
    }
    assert_eq!(
        plan.spans,
        vec![
            Span { from: 3, to: 5 },
            Span { from: 6, to: 30 },
            Span { from: 31, to: 50 },
            Span { from: 52, to: 200 },
        ]
    );
    assert!(plan.script.contains(&Action::CloseRange { from: 31, to: 50 }));
    assert!(plan.script.contains(&Action::CloseRange { from: 52, to: 200 }));
}

#[test]
fn pipes_or_moves_that_do_not_fit_fail_the_descriptors() {
    let mut command = Command::new(path("/bin/cat"));
    command.stdin(Stdio::piped());
    assert_eq!(
        command.plan(&no_pipes(), &no_moves(), &Vec::new(), true).err(),
        Some(Error::new(Step::Descriptors, 22))
    );
    let mut command = Command::new(path("/bin/cat"));
    command.stdout(Stdio::from_fd(2));
    command.stderr(Stdio::from_fd(1));
    assert_eq!(
        command.plan(&no_pipes(), &no_moves(), &Vec::new(), true).err(),
        Some(Error::new(Step::Descriptors, 22))
    );
}

#[test]
fn descriptors_out_of_range_are_not_taken() {
    let mut command = Command::new(path("/bin/cat"));
    assert!(!command.file_descriptor(-1, Fd::Closed));
    assert!(!command.file_descriptor(0x4000_0000, Fd::Closed));
    assert!(command.file_descriptor(3, Fd::Fd(0)));
    let plan = command.plan(&no_pipes(), &no_moves(), &Vec::new(), true).ok().unwrap();
    assert_eq!(
        plan.wires,
        vec![
            Wire { target: 0, source: 0 },
            Wire { target: 1, source: 1 },
            Wire { target: 2, source: 2 },
            Wire { target: 3, source: 0 },
        ]
    );
    assert_eq!(plan.spans, Vec::<Span>::new());
}

#[test]
fn only_a_keep_list_restricts_the_capabilities() {
    let listed = vec![Capability::CAP_NET_BIND_SERVICE, Capability::CAP_CHOWN];
    let mut command = Command::new(path("/bin/server"));
    command.keep_caps(&listed);
    let plan = command.plan(&no_pipes(), &no_moves(), &Vec::new(), true).ok().unwrap();
    let kept: Vec<&Action> =
        plan.script.iter().filter(|a| matches!(a, Action::KeepCaps(_))).collect();
    assert_eq!(kept, vec![&Action::KeepCaps(CapSet::of(&listed))]);
    match kept[0] {
        Action::KeepCaps(set) => {
            assert_eq!(set.indexes(), vec![0, 10]);
            assert_eq!(set.words(), (0x401, 0));
        }
        _ => unreachable!(),
    }
    assert!(!plan.script.contains(&Action::HoldCaps));
    let plain = Command::new(path("/bin/server")).plan(&no_pipes(), &no_moves(), &Vec::new(), true);
    assert!(!plain.ok().unwrap().script.iter().any(|a| matches!(a, Action::KeepCaps(_))));
}

#[test]
fn capabilities_are_held_over_a_change_of_the_user_id() {
    let listed = vec![Capability::CAP_NET_RAW];
    let mut command = Command::new(path("/bin/ping"));
    command.keep_caps(&listed);
    command.uid(1000);
    command.allow_daemonize();
    command.restore_sigmask(false);
    command.reset_fds();
    let plan = command.plan(&no_pipes(), &no_moves(), &Vec::new(), true).ok().unwrap();
    assert_eq!(
        plan.script,
        vec![
            Action::HoldCaps,
            Action::SetUid(1000),
            Action::KeepCaps(CapSet::of(&listed)),
            Action::Exec,
        ]
    );
    // A group id alone drops no capability, and without a list there is
    // nothing to hold.
    let mut command = Command::new(path("/bin/ping"));
    command.keep_caps(&listed);
    command.gid(100);
    let plan = command.plan(&no_pipes(), &no_moves(), &Vec::new(), true).ok().unwrap();
    assert!(!plan.script.contains(&Action::HoldCaps));
    let mut command = Command::new(path("/bin/ping"));
    command.uid(1000);
    let plan = command.plan(&no_pipes(), &no_moves(), &Vec::new(), true).ok().unwrap();
    assert!(!plan.script.contains(&Action::HoldCaps));
}

#[test]
fn death_signal_is_registered_just_before_the_program_starts() {
    let mut command = Command::new(path("/bin/sleep"));
    command.set_parent_death_signal(libc::SIGKILL);
    let plan = command.plan(&no_pipes(), &no_moves(), &Vec::new(), true).ok().unwrap();
    let len = plan.script.len();
    assert_eq!(plan.script[len - 2], Action::DeathSignal(9));
    assert_eq!(plan.script[len - 1], Action::Exec);
    let mut command = Command::new(path("/bin/sleep"));
    command.set_parent_death_signal(15);
    let plan = command.plan(&no_pipes(), &no_moves(), &Vec::new(), true).ok().unwrap();
    assert!(plan.script.contains(&Action::DeathSignal(15)));
    assert!(!plan.script.contains(&Action::DeathSignal(9)));
    let mut command = Command::new(path("/bin/sleep"));
    command.allow_daemonize();
    let plan = command.plan(&no_pipes(), &no_moves(), &Vec::new(), true).ok().unwrap();
    assert!(!plan.script.iter().any(|a| matches!(a, Action::DeathSignal(_))));
}

#[test]
fn two_new_namespaces_and_no_join() {
    let mut command = Command::new(path("/bin/sh"));
    command.unshare(Namespace::Net);
    command.unshare(Namespace::Uts);
    let plan = command.plan(&no_pipes(), &no_moves(), &Vec::new(), true).ok().unwrap();
    assert_eq!(plan.clone_flags & libc::CLONE_NEWNET, libc::CLONE_NEWNET);
    assert_eq!(plan.clone_flags & libc::CLONE_NEWUTS, libc::CLONE_NEWUTS);
    assert_eq!(plan.clone_flags, libc::CLONE_NEWNET | libc::CLONE_NEWUTS);
    assert!(!plan.script.iter().any(|a| matches!(a, Action::Join(_))));
}

#[test]
fn script_is_built_from_wishes() {
    let wishes = Wishes {
        group_leader: false,
        stamp_pid: false,
        joins: unshare::namespace::JoinMap::new(),
        gate: true,
        groups: false,
        gid: None,
        uid: Some(5),
        chroot: false,
        pivot: None,
        chdir: false,
        caps: None,
        sigmask: false,
        pre_exec: false,
        death_sig: None,
    };
    let script = build_script(&wishes, &Vec::new(), &vec![4], &Vec::new());
    assert_eq!(
        script,
        vec![Action::AwaitParent, Action::SetUid(5), Action::Close { fd: 4 }, Action::Exec]
    );
}

fn plain_plan() -> unshare::command::Plan {
    Command::new(path("/bin/true")).plan(&no_pipes(), &no_moves(), &Vec::new(), false).ok().unwrap()
}

#[test]
fn launch_that_starts_ends_with_the_child() {
    let plan = plain_plan();
    let mut spawn = Spawn::new(&plan);
    assert_eq!(spawn.first(), Request::Do(Task::Fork));
    assert_eq!(spawn.advance(Event::Forked { pid: 321 }), Request::Do(Task::ReadChannel));
    assert_eq!(spawn.pid(), 321);
    assert!(!spawn.is_finished());
    assert_eq!(spawn.advance(Event::Channel(decode(&Vec::new()))), Request::Finish(Ok(321)));
    assert!(spawn.is_finished());
    assert_eq!(
        spawn.advance(Event::Done),
        Request::Finish(Err(Error::new(Step::Channel, libc::EINVAL)))
    );
}

#[test]
fn exit_code_seven_is_reported_once_waited() {
    let plan = plain_plan();
    let mut spawn = Spawn::new(&plan);
    spawn.advance(Event::Forked { pid: 500 });
    let pid = match spawn.advance(Event::Channel(Report::Started)) {
        Request::Finish(Ok(pid)) => pid,
        other => panic!("no child: {:?}", other),
    };
    let mut registry = Registry::new();
    let mut child = Child::new(pid, plan.kept);
    assert_eq!(child.pid(), 500);
    assert_eq!(child.status(), None);
    assert_eq!(child.known(), None);
    assert!(child.may_signal());
    let step = child.observe(&mut registry, WaitEvent::Exited { pid: 500, code: 7 });
    assert_eq!(step, WaitStep::Done(ExitStatus::Exited(7)));
    assert_eq!(child.status(), Some(ExitStatus::Exited(7)));
    assert_eq!(child.status().unwrap().code(), Some(7));
    assert_eq!(child.status().unwrap().signal(), None);
    assert!(!child.status().unwrap().success());
    assert!(!child.may_signal());
}

#[test]
fn missing_chroot_directory_fails_the_launch_with_no_child() {
    let mut command = Command::new(path("/bin/true"));
    command.chroot_dir(path("/does/not/exist"));
    let plan = command.plan(&no_pipes(), &no_moves(), &Vec::new(), true).ok().unwrap();
    assert!(plan.script.contains(&Action::Chroot));
    // What the child writes when its chroot fails.
    let report = Error::with_detail(Action::Chroot.step(), libc::ENOENT, path("/does/not/exist"));
    let record = encode(&report);
    // What the parent makes of it.
    let mut spawn = Spawn::new(&plan);
    assert_eq!(spawn.advance(Event::Forked { pid: 77 }), Request::Do(Task::ReadChannel));
    assert_eq!(spawn.advance(Event::Channel(decode(&record))), Request::Reap { pid: 77 });
    let end = spawn.advance(Event::Done);
    match &end {
        Request::Finish(Err(err)) => {
            assert_eq!(err.step, Step::Chroot);
            assert_eq!(err.step.name(), "chroot failure");
            assert_eq!(err.errno, libc::ENOENT);
            assert_eq!(err.detail, Some(path("/does/not/exist")));
        }
        other => panic!("a child: {:?}", other),
    }
    assert!(spawn.is_finished());
}

#[test]
fn failed_duplication_ends_the_launch_at_once() {
    let plan = plain_plan();
    let mut spawn = Spawn::new(&plan);
    assert_eq!(
        spawn.advance(Event::Failed { errno: libc::ENOMEM }),
        Request::Finish(Err(Error::new(Step::Fork, libc::ENOMEM)))
    );
    let mut command = Command::new(path("/bin/true"));
    command.unshare(Namespace::User);
    let plan = command.plan(&no_pipes(), &no_moves(), &Vec::new(), true).ok().unwrap();
    let mut spawn = Spawn::new(&plan);
    assert_eq!(
        spawn.advance(Event::Failed { errno: libc::EPERM }),
        Request::Finish(Err(Error::new(Step::CreateNamespace, libc::EPERM)))
    );
}

fn mapped_command(helpers: bool, hook: bool) -> Command {
    let mut command = Command::new(path("/bin/true"));
    command.unshare(Namespace::User);
    command.set_id_maps(
        vec![UidMap { inside_uid: 0, outside_uid: 1000, count: 1 }],
        vec![GidMap { inside_gid: 0, outside_gid: 100, count: 1 }],
    );
    if helpers {
        command.set_id_map_commands(path("/usr/bin/newuidmap"), path("/usr/bin/newgidmap"));
    }
    command.before_unfreeze(hook);
    command
}

#[test]
fn maps_are_written_before_the_hook_and_the_release() {
    let plan = mapped_command(false, true).plan(&no_pipes(), &no_moves(), &Vec::new(), false).ok().unwrap();
    let mut spawn = Spawn::new(&plan);
    assert_eq!(spawn.advance(Event::Forked { pid: 9 }), Request::Do(Task::WriteUidMap));
    assert_eq!(spawn.advance(Event::Done), Request::Do(Task::WriteGidMap));
    assert_eq!(spawn.advance(Event::Done), Request::Do(Task::BeforeUnfreeze));
    assert_eq!(spawn.advance(Event::Done), Request::Do(Task::Release));
    assert_eq!(spawn.advance(Event::Done), Request::Do(Task::ReadChannel));
    assert_eq!(spawn.advance(Event::Channel(Report::Started)), Request::Finish(Ok(9)));
}

#[test]
fn failing_map_write_reaps_the_child() {
    let plan = mapped_command(false, false).plan(&no_pipes(), &no_moves(), &Vec::new(), true).ok().unwrap();
    let mut spawn = Spawn::new(&plan);
    assert_eq!(spawn.advance(Event::Forked { pid: 9 }), Request::Do(Task::WriteUidMap));
    assert_eq!(spawn.advance(Event::Failed { errno: libc::EPERM }), Request::Reap { pid: 9 });
    assert_eq!(
        spawn.advance(Event::Failed { errno: libc::ECHILD }),
        Request::Finish(Err(Error::new(Step::IdMapWrite, libc::EPERM)))
    );
}

#[test]
fn helper_failures_are_told_apart() {
    let plan = mapped_command(true, false).plan(&no_pipes(), &no_moves(), &Vec::new(), false).ok().unwrap();
    let mut spawn = Spawn::new(&plan);
    assert_eq!(spawn.advance(Event::Forked { pid: 9 }), Request::Do(Task::RunUidHelper));
    assert_eq!(
        spawn.advance(Event::Exited(ExitStatus::Exited(0))),
        Request::Do(Task::RunGidHelper)
    );
    assert_eq!(spawn.advance(Event::Exited(ExitStatus::Exited(1))), Request::Reap { pid: 9 });
    assert_eq!(
        spawn.advance(Event::Done),
        Request::Finish(Err(Error::with_detail(Step::IdMapHelperExit, 0, path("exit 1"))))
    );
    let mut spawn = Spawn::new(&plan);
    spawn.advance(Event::Forked { pid: 9 });
    assert_eq!(spawn.advance(Event::Failed { errno: libc::ENOENT }), Request::Reap { pid: 9 });
    assert_eq!(
        spawn.advance(Event::Done),
        Request::Finish(Err(Error::new(Step::IdMapHelperSpawn, libc::ENOENT)))
    );
}

#[test]
fn failing_hook_and_garbled_pipe_reap_the_child() {
    let mut command = Command::new(path("/bin/true"));
    command.before_unfreeze(true);
    let plan = command.plan(&no_pipes(), &no_moves(), &Vec::new(), false).ok().unwrap();
    let mut spawn = Spawn::new(&plan);
    assert_eq!(spawn.advance(Event::Forked { pid: 4 }), Request::Do(Task::BeforeUnfreeze));
    assert_eq!(spawn.advance(Event::Failed { errno: 5 }), Request::Reap { pid: 4 });
    assert_eq!(
        spawn.advance(Event::Done),
        Request::Finish(Err(Error::new(Step::BeforeUnfreeze, 5)))
    );
    let mut spawn = Spawn::new(&plan);
    spawn.advance(Event::Forked { pid: 4 });
    spawn.advance(Event::Done);
    assert_eq!(spawn.advance(Event::Done), Request::Do(Task::ReadChannel));
    assert_eq!(spawn.advance(Event::Channel(decode(&vec![1, 2]))), Request::Reap { pid: 4 });
    assert_eq!(
        spawn.advance(Event::Done),
        Request::Finish(Err(Error::new(Step::Channel, libc::EINVAL)))
    );
}

#[test]
fn task_failures_have_their_steps() {
    assert_eq!(step_of_task(Task::Fork, false), Step::Fork);
    assert_eq!(step_of_task(Task::Fork, true), Step::CreateNamespace);
    assert_eq!(step_of_task(Task::WriteGidMap, false), Step::IdMapWrite);
    assert_eq!(step_of_task(Task::RunUidHelper, false), Step::IdMapHelperSpawn);
    assert_eq!(step_of_task(Task::Release, false), Step::Channel);
    assert_eq!(
        task_failure(Task::ReadChannel, Event::Failed { errno: 9 }, false),
        Error::new(Step::Channel, 9)
    );
    assert_eq!(
        task_failure(Task::WriteUidMap, Event::Exited(ExitStatus::Exited(3)), false),
        Error::new(Step::IdMapWrite, 22)
    );
    assert_eq!(
        task_failure(
            Task::ReadChannel,
            Event::Channel(Report::Failed(Error::new(Step::Exec, 2))),
            false
        ),
        Error::new(Step::Exec, 2)
    );
}

#[test]
fn waiting_twice_gives_the_same_status() {
    let mut registry = Registry::new();
    let mut child = Child::new(10, Vec::new());
    let first =
        child.observe(&mut registry, WaitEvent::Signaled { pid: 10, signal: 9, core_dumped: true });
    assert_eq!(first, WaitStep::Done(ExitStatus::Signaled(9, true)));
    assert_eq!(child.known(), Some(first));
    // Whatever a second call might bring, the answer stays.
    let second = child.observe(&mut registry, WaitEvent::NoChildren);
    assert_eq!(second, first);
    let third = child.observe(&mut registry, WaitEvent::Exited { pid: 10, code: 0 });
    assert_eq!(third, first);
    assert_eq!(child.status(), Some(ExitStatus::Signaled(9, true)));
    assert_eq!(child.status().unwrap().signal(), Some(9));
    assert_eq!(child.status().unwrap().code(), None);
}

#[test]
fn wait_goes_on_until_its_own_child_dies() {
    let mut registry = Registry::new();
    let mut child = Child::new(10, Vec::new());
    assert_eq!(child.observe(&mut registry, WaitEvent::Interrupted), WaitStep::Again);
    assert_eq!(child.observe(&mut registry, WaitEvent::Stopped { pid: 10, signal: 19 }), WaitStep::Again);
    assert_eq!(child.observe(&mut registry, WaitEvent::Continued { pid: 10 }), WaitStep::Again);
    assert_eq!(child.observe(&mut registry, WaitEvent::Traced { pid: 10 }), WaitStep::Again);
    assert_eq!(child.observe(&mut registry, WaitEvent::Exited { pid: 11, code: 1 }), WaitStep::Again);
    assert_eq!(child.observe(&mut registry, WaitEvent::StillAlive), WaitStep::Running);
    assert_eq!(child.status(), None);
    assert_eq!(
        child.observe(&mut registry, WaitEvent::Failed { errno: libc::EINVAL }),
        WaitStep::Failed { errno: libc::EINVAL }
    );
    assert_eq!(
        child.observe(&mut registry, WaitEvent::NoChildren),
        WaitStep::Failed { errno: libc::ECHILD }
    );
    assert_eq!(child.status(), None);
    assert_eq!(
        child.observe(&mut registry, WaitEvent::Exited { pid: 10, code: 0 }),
        WaitStep::Done(ExitStatus::Exited(0))
    );
    assert!(child.status().unwrap().success());
}

#[test]
fn a_death_is_seen_by_the_wait_or_by_the_sweep() {
    let death = WaitEvent::Exited { pid: 10, code: 3 };
    // The wait comes first: the sweep sees nothing of that death.
    let mut registry = Registry::new();
    let mut child = Child::new(10, Vec::new());
    assert_eq!(child.observe(&mut registry, death), WaitStep::Done(ExitStatus::Exited(3)));
    assert_eq!(reap(&mut registry, death), ReapStep::Again);
    // The sweep comes first: the wait sees nothing of that death.
    let mut registry = Registry::new();
    let mut child = Child::new(10, Vec::new());
    assert_eq!(
        reap(&mut registry, death),
        ReapStep::Yield(ChildEvent { pid: 10, status: ExitStatus::Exited(3) })
    );
    assert_eq!(child.observe(&mut registry, death), WaitStep::Failed { errno: libc::ECHILD });
    assert_eq!(child.status(), None);
    // Nor does a second sweep.
    assert_eq!(reap(&mut registry, death), ReapStep::Again);
}

#[test]
fn sweep_reports_deaths_and_passes_over_the_rest() {
    let mut registry = Registry::new();
    assert_eq!(
        reap(&mut registry, WaitEvent::Signaled { pid: 5, signal: 11, core_dumped: false }),
        ReapStep::Yield(ChildEvent { pid: 5, status: ExitStatus::Signaled(11, false) })
    );
    assert_eq!(reap(&mut registry, WaitEvent::Stopped { pid: 6, signal: 19 }), ReapStep::Again);
    assert_eq!(reap(&mut registry, WaitEvent::Continued { pid: 6 }), ReapStep::Again);
    assert_eq!(reap(&mut registry, WaitEvent::Interrupted), ReapStep::Again);
    assert_eq!(reap(&mut registry, WaitEvent::StillAlive), ReapStep::Finished);
    assert_eq!(reap(&mut registry, WaitEvent::NoChildren), ReapStep::Finished);
    assert_eq!(
        reap(&mut registry, WaitEvent::Failed { errno: 22 }),
        ReapStep::Failed { errno: 22 }
    );
    assert!(registry.is_claimed(5));
    assert!(!registry.is_claimed(6));
}

#[test]
fn a_process_id_that_is_used_again_can_be_claimed_again() {
    let mut registry = Registry::new();
    assert!(registry.claim(10));
    assert!(!registry.claim(10));
    assert!(registry.claim(11));
    registry.forget(10);
    assert!(!registry.is_claimed(10));
    assert!(registry.is_claimed(11));
    assert!(registry.claim(10));
    registry.forget(12);
    assert!(registry.is_claimed(10));
}

#[test]
fn free_wait_keeps_the_status_it_is_given() {
    let mut registry = Registry::new();
    let mut status = None;
    assert_eq!(
        observe(3, &mut status, &mut registry, WaitEvent::Exited { pid: 3, code: 1 }),
        WaitStep::Done(ExitStatus::Exited(1))
    );
    assert_eq!(status, Some(ExitStatus::Exited(1)));
    assert_eq!(WaitEvent::Exited { pid: 3, code: 1 }.death(), Some((3, ExitStatus::Exited(1))));
    assert_eq!(WaitEvent::StillAlive.death(), None);
}

#[test]
fn pipes_are_taken_out_of_the_handle_once() {
    let kept = vec![
        Wire { target: 0, source: 11 },
        Wire { target: 5, source: 12 },
        Wire { target: 1, source: 13 },
    ];
    let mut child = Child::new(1, kept);
    assert_eq!(child.stdin, Some(11));
    assert_eq!(child.stdout, Some(13));
    assert_eq!(child.take_pipe(5), Some(12));
    assert_eq!(child.take_pipe(5), None);
    assert_eq!(child.take_pipe(0), Some(11));
    assert_eq!(child.take_pipe(7), None);
}

#[test]
fn reserved_descriptors_are_never_closed_nor_overwritten() {
    let mut command = Command::new(path("/bin/true"));
    command.close_fds(3, 100);
    let plan = command.plan(&no_pipes(), &no_moves(), &vec![40, 7], true).ok().unwrap();
    assert_eq!(
        plan.spans,
        vec![Span { from: 3, to: 7 }, Span { from: 8, to: 40 }, Span { from: 41, to: 100 }]
    );
    let mut command = Command::new(path("/bin/true"));
    command.file_descriptor(7, Fd::Fd(0));
    assert_eq!(
        command.plan(&no_pipes(), &no_moves(), &vec![40, 7], true).err(),
        Some(Error::new(Step::Descriptors, 22))
    );
}

#[test]
fn the_parent_learns_whether_the_child_will_wait() {
    let mut command = Command::new(path("/bin/true"));
    assert!(!command.waits_for_parent());
    command.before_unfreeze(true);
    assert!(command.waits_for_parent());
    assert!(mapped_command(false, false).waits_for_parent());
}
