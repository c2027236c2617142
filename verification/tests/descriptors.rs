use unshare::child::Child;
use unshare::fds::{
    close_spans, colliding, floor, relocate, targeted, well_formed, Move, Span, Wire,
};
use unshare::stdio::{find_kept, pipes_needed, plan_wiring, set_entry, Entry, Fd, Pipe, Stdio};

fn wire(target: i32, source: i32) -> Wire {
    Wire { target, source }
}

#[test]
fn stdio_pipes_take_the_end_that_fits() {
    assert_eq!(Stdio::piped().to_fd(true), Fd::ReadPipe);
    assert_eq!(Stdio::piped().to_fd(false), Fd::WritePipe);
    assert_eq!(Stdio::inherit().to_fd(true), Fd::Inherit);
    assert_eq!(Stdio::closed().to_fd(false), Fd::Closed);
    assert_eq!(Stdio::from_fd(7).to_fd(true), Fd::Fd(7));
}

#[test]
fn table_holds_one_entry_for_a_number() {
    let mut entries = Vec::new();
    set_entry(&mut entries, 0, Fd::Inherit);
    set_entry(&mut entries, 1, Fd::WritePipe);
    set_entry(&mut entries, 0, Fd::ReadPipe);
    assert_eq!(
        entries,
        vec![Entry { target: 0, source: Fd::ReadPipe }, Entry { target: 1, source: Fd::WritePipe }]
    );
    assert_eq!(pipes_needed(&entries), 2);
}

#[test]
fn wiring_of_piped_stdin_and_stdout() {
    let entries = vec![
        Entry { target: 0, source: Fd::ReadPipe },
        Entry { target: 1, source: Fd::WritePipe },
        Entry { target: 2, source: Fd::Inherit },
        Entry { target: 5, source: Fd::Closed },
        Entry { target: 6, source: Fd::Fd(9) },
    ];
    let pipes = vec![Pipe { read: 10, write: 11 }, Pipe { read: 12, write: 13 }];
    let wiring = plan_wiring(&entries, &pipes).unwrap();
    assert_eq!(wiring.wires, vec![wire(0, 10), wire(1, 13), wire(2, 2), wire(6, 9)]);
    assert_eq!(wiring.closed, vec![5]);
    assert_eq!(wiring.kept, vec![wire(0, 11), wire(1, 12)]);
    assert_eq!(wiring.given, vec![10, 13]);
    let child = Child::new(77, wiring.kept);
    assert_eq!(child.stdin, Some(11));
    assert_eq!(child.stdout, Some(12));
    assert_eq!(child.stderr, None);
}

#[test]
fn wrong_number_of_pipes_is_refused() {
    let entries = vec![Entry { target: 0, source: Fd::ReadPipe }];
    assert_eq!(plan_wiring(&entries, &Vec::new()), None);
    let pipes = vec![Pipe { read: 10, write: 11 }, Pipe { read: 12, write: 13 }];
    assert_eq!(plan_wiring(&entries, &pipes), None);
}

#[test]
fn kept_end_is_found_by_the_child_s_number() {
    let kept = vec![wire(0, 11), wire(1, 12), wire(0, 99)];
    assert_eq!(find_kept(&kept, 0), Some(11));
    assert_eq!(find_kept(&kept, 1), Some(12));
    assert_eq!(find_kept(&kept, 2), None);
}

#[test]
fn targets_are_found() {
    let wires = vec![wire(0, 10), wire(1, 13)];
    assert!(targeted(&wires, 0));
    assert!(targeted(&wires, 1));
    assert!(!targeted(&wires, 10));
}

#[test]
fn wires_must_have_distinct_targets_in_range() {
    assert!(well_formed(&vec![wire(0, 10), wire(1, 10)]));
    assert!(well_formed(&Vec::new()));
    assert!(!well_formed(&vec![wire(0, 10), wire(0, 11)]));
    assert!(!well_formed(&vec![wire(-1, 10)]));
    assert!(!well_formed(&vec![wire(0x4000_0000, 10)]));
    assert!(well_formed(&vec![wire(0x3fff_ffff, 10)]));
}

#[test]
fn floor_lies_above_targets_and_standard_streams() {
    assert_eq!(floor(&Vec::new()), 3);
    assert_eq!(floor(&vec![wire(0, 5), wire(1, 6)]), 3);
    assert_eq!(floor(&vec![wire(0, 5), wire(8, 6), wire(4, 1)]), 9);
    assert_eq!(floor(&vec![wire(0x3fff_ffff, 1)]), 0x4000_0000);
}

#[test]
fn swapped_streams_are_both_in_the_way() {
    // The child's stdout is to be the parent's stderr and the other way
    // round: each source sits on the other's target.
    let wires = vec![wire(1, 2), wire(2, 1)];
    assert_eq!(colliding(&wires), vec![2, 1]);
    assert_eq!(relocate(&wires, &Vec::new()), None);
    let moves = vec![Move { from: 2, to: 3 }, Move { from: 1, to: 4 }];
    assert_eq!(relocate(&wires, &moves), Some(vec![wire(1, 3), wire(2, 4)]));
}

#[test]
fn wires_that_stay_or_come_from_above_are_not_in_the_way() {
    let wires = vec![wire(0, 0), wire(1, 10), wire(2, 10)];
    assert_eq!(colliding(&wires), Vec::<i32>::new());
    assert_eq!(relocate(&wires, &Vec::new()), Some(wires));
}

#[test]
fn a_source_in_the_way_is_listed_once() {
    let wires = vec![wire(0, 2), wire(1, 2), wire(2, 7)];
    assert_eq!(colliding(&wires), vec![2]);
    let moves = vec![Move { from: 2, to: 3 }];
    assert_eq!(relocate(&wires, &moves), Some(vec![wire(0, 3), wire(1, 3), wire(2, 7)]));
}

#[test]
fn a_duplicate_on_a_target_does_not_clear_the_way() {
    let wires = vec![wire(0, 1), wire(1, 5)];
    assert_eq!(relocate(&wires, &vec![Move { from: 1, to: 0 }]), None);
    assert_eq!(relocate(&wires, &vec![Move { from: 5, to: 9 }]), None);
    assert_eq!(
        relocate(&wires, &vec![Move { from: 1, to: 9 }]),
        Some(vec![wire(0, 9), wire(1, 5)])
    );
}

#[test]
fn the_first_move_of_a_descriptor_counts() {
    let wires = vec![wire(0, 1), wire(1, 5)];
    let moves = vec![Move { from: 1, to: 9 }, Move { from: 1, to: 10 }];
    assert_eq!(relocate(&wires, &moves), Some(vec![wire(0, 9), wire(1, 5)]));
}

#[test]
fn spans_are_closed_around_the_targets() {
    let wires = vec![wire(0, 0), wire(1, 1), wire(2, 2), wire(5, 9), wire(7, 9)];
    let ranges = vec![Span { from: 3, to: 10 }];
    assert_eq!(
        close_spans(&ranges, &wires),
        vec![Span { from: 3, to: 5 }, Span { from: 6, to: 7 }, Span { from: 8, to: 10 }]
    );
}

#[test]
fn spans_without_targets_stay_whole() {
    let wires = vec![wire(0, 0)];
    let ranges = vec![Span { from: 3, to: 1000 }, Span { from: 2000, to: 2001 }];
    assert_eq!(close_spans(&ranges, &wires), ranges);
}

#[test]
fn empty_and_covered_spans_vanish() {
    let wires = vec![wire(3, 0), wire(4, 1)];
    assert_eq!(close_spans(&vec![Span { from: 3, to: 5 }], &wires), Vec::<Span>::new());
    assert_eq!(close_spans(&vec![Span { from: 9, to: 9 }], &wires), Vec::<Span>::new());
    assert_eq!(close_spans(&vec![Span { from: 9, to: 2 }], &wires), Vec::<Span>::new());
    assert_eq!(
        close_spans(&vec![Span { from: 0, to: i32::MAX }], &wires),
        vec![Span { from: 0, to: 3 }, Span { from: 5, to: i32::MAX }]
    );
}
