use unshare::child::Child;
use unshare::command::Command;
use unshare::config::{signal_number, SIGNAL_MAX};
use unshare::fds::{listed, touching, Wire};
use unshare::namespace::{Join, JoinMap, Namespace};
use unshare::env::{names_distinct, names_of, EnvVar};
use unshare::stdio::{entries_distinct, table_floor, Entry, Fd, Stdio};

fn path(text: &str) -> Vec<u8> {
    text.as_bytes().to_vec()
}

#[test]
fn table_floor_lies_above_closed_numbers_too() {
    assert_eq!(table_floor(&Vec::new()), 3);
    let entries = vec![
        Entry { target: 0, source: Fd::Inherit },
        Entry { target: 100, source: Fd::Closed },
        Entry { target: 7, source: Fd::Fd(500) },
    ];
    assert_eq!(table_floor(&entries), 101);
    assert_eq!(table_floor(&vec![Entry { target: 2, source: Fd::Closed }]), 3);
    assert_eq!(table_floor(&vec![Entry { target: 3, source: Fd::Closed }]), 4);
}

#[test]
fn floor_of_a_description_follows_its_table() {
    let mut command = Command::new(path("/bin/true"));
    assert_eq!(command.floor(), 3);
    command.file_descriptor(9, Fd::ReadPipe);
    assert_eq!(command.floor(), 10);
    command.file_descriptor(0x3fff_ffff, Fd::Closed);
    assert_eq!(command.floor(), 0x4000_0000);
    command.reset_fds();
    assert_eq!(command.floor(), 3);
    command.stdout(Stdio::piped());
    assert_eq!(command.floor(), 3);
}

#[test]
fn descriptions_and_lists_are_in_order() {
    let mut command = Command::new(path("/bin/true"));
    assert!(command.is_in_order());
    command.stdin(Stdio::piped());
    command.file_descriptor(7, Fd::Closed);
    command.file_descriptor(7, Fd::Inherit);
    command.file_descriptor(-1, Fd::Inherit);
    command.env_var_with_pid(path("PID"));
    command.env_var_with_pid(path("PID"));
    command.environment(vec![
        EnvVar { name: path("A"), value: path("1") },
        EnvVar { name: path("A"), value: path("2") },
    ]);
    assert!(command.is_in_order());
    assert!(entries_distinct(&Vec::new()));
    assert!(entries_distinct(&vec![
        Entry { target: 0, source: Fd::Inherit },
        Entry { target: 1, source: Fd::Inherit },
    ]));
    assert!(!entries_distinct(&vec![
        Entry { target: 4, source: Fd::Inherit },
        Entry { target: 1, source: Fd::Inherit },
        Entry { target: 4, source: Fd::Closed },
    ]));
    assert!(names_distinct(&vec![path("A"), path("AB"), path("")]));
    assert!(!names_distinct(&vec![path("A"), path("B"), path("A")]));
    assert_eq!(
        names_of(&vec![
            EnvVar { name: path("X"), value: path("1") },
            EnvVar { name: path("Y"), value: path("2") },
        ]),
        vec![path("X"), path("Y")]
    );
}

#[test]
fn wires_touch_their_two_ends() {
    let wires = vec![Wire { target: 0, source: 10 }, Wire { target: 4, source: 4 }];
    assert!(touching(&wires, 0));
    assert!(touching(&wires, 10));
    assert!(touching(&wires, 4));
    assert!(!touching(&wires, 1));
    assert!(!touching(&Vec::new(), 0));
    assert!(listed(&vec![5, 6], 6));
    assert!(!listed(&vec![5, 6], 7));
    assert!(!listed(&Vec::new(), 0));
}

#[test]
fn join_descriptors_are_found() {
    let mut joins = JoinMap::new();
    assert!(!joins.joins_by(3));
    joins.insert(Namespace::Net, 3);
    joins.insert(Namespace::Mount, 9);
    assert!(joins.joins_by(3));
    assert!(joins.joins_by(9));
    assert!(!joins.joins_by(4));
    joins.insert(Namespace::Net, 4);
    assert!(!joins.joins_by(3));
    assert!(joins.joins_by(4));
}

#[test]
fn description_names_its_joins_in_their_order() {
    let mut command = Command::new(path("/bin/true"));
    assert_eq!(command.joins(), Vec::<Join>::new());
    command.set_namespace(Namespace::Mount, 20);
    command.set_namespace(Namespace::User, 21);
    assert_eq!(
        command.joins(),
        vec![
            Join { kind: Namespace::User, fd: 21 },
            Join { kind: Namespace::Mount, fd: 20 },
        ]
    );
}

#[test]
fn handle_gives_the_ends_of_the_standard_streams() {
    let kept = vec![Wire { target: 0, source: 11 }, Wire { target: 2, source: 13 }];
    let mut child = Child::new(5, kept);
    assert_eq!(child.stdin(), Some(11));
    assert_eq!(child.stdout(), None);
    assert_eq!(child.stderr(), Some(13));
    assert_eq!(child.take_pipe(0), Some(11));
    assert_eq!(child.stdin(), Some(11));
    assert_eq!(child.take_pipe(0), None);
}

#[test]
fn signals_are_numbered_from_one() {
    assert_eq!(SIGNAL_MAX, 64);
    assert!(!signal_number(0));
    assert!(signal_number(1));
    assert!(signal_number(libc::SIGKILL));
    assert!(signal_number(libc::SIGRTMAX()));
    assert!(signal_number(64));
    assert!(!signal_number(65));
    assert!(!signal_number(-9));
}
