use rand::Rng;
use unshare::error::Step;
use unshare::idmap::{
    check_table, helper_args, helper_verdict, parse_gid_map, parse_table, parse_uid_map,
    read_line, render_gid_map, render_table, render_uid_map, select_strategy, GidMap, IdRange,
    MapStrategy, UidMap,
};
use unshare::status::ExitStatus;

fn range(inside: u32, outside: u32, count: u32) -> IdRange {
    IdRange { inside, outside, count }
}

#[test]
fn table_is_written_one_range_a_line() {
    let table = vec![range(0, 1000, 1), range(1, 100000, 65535)];
    assert_eq!(render_table(&table), b"0 1000 1\n1 100000 65535\n".to_vec());
}

#[test]
fn empty_table_is_empty_text() {
    assert_eq!(render_table(&Vec::new()), Vec::<u8>::new());
    assert_eq!(parse_table(&Vec::new()), Some(Vec::new()));
}

#[test]
fn greatest_ids_are_written_in_full() {
    let table = vec![range(u32::MAX, u32::MAX, u32::MAX)];
    assert_eq!(render_table(&table), b"4294967295 4294967295 4294967295\n".to_vec());
    assert_eq!(parse_table(&render_table(&table)), Some(table));
}

#[test]
fn uid_map_round_trip() {
    let maps = vec![
        UidMap { inside_uid: 0, outside_uid: 1000, count: 1 },
        UidMap { inside_uid: 1, outside_uid: 200000, count: 1000 },
    ];
    let text = render_uid_map(&maps);
    assert_eq!(text, b"0 1000 1\n1 200000 1000\n".to_vec());
    assert_eq!(parse_uid_map(&text), Some(maps));
}

#[test]
fn gid_map_round_trip() {
    let maps = vec![
        GidMap { inside_gid: 5, outside_gid: 6, count: 7 },
        GidMap { inside_gid: 0, outside_gid: 0, count: 1 },
    ];
    let text = render_gid_map(&maps);
    assert_eq!(text, b"5 6 7\n0 0 1\n".to_vec());
    assert_eq!(parse_gid_map(&text), Some(maps));
}

#[test]
fn random_tables_round_trip() {
    let mut rng = rand::thread_rng();
    for _ in 0..200 {
        let len = rng.gen_range(0..8);
        let mut table = Vec::new();
        for _ in 0..len {
            table.push(range(rng.gen(), rng.gen(), rng.gen()));
        }
        assert_eq!(parse_table(&render_table(&table)), Some(table));
    }
}

#[test]
fn the_kernel_s_padded_form_is_read() {
    let text = b"         0       1000          1\n         1     100000      65535\n".to_vec();
    assert_eq!(parse_table(&text), Some(vec![range(0, 1000, 1), range(1, 100000, 65535)]));
}

#[test]
fn malformed_text_is_refused() {
    assert_eq!(parse_table(&b"0 1000 1".to_vec()), None);
    assert_eq!(parse_table(&b"0 1000\n".to_vec()), None);
    assert_eq!(parse_table(&b"0 1000 x\n".to_vec()), None);
    assert_eq!(parse_table(&b"0 1000 1 2\n".to_vec()), None);
    assert_eq!(parse_table(&b"01000 1\n".to_vec()), None);
    assert_eq!(parse_table(&b"-1 1000 1\n".to_vec()), None);
    assert_eq!(parse_table(&b"\n".to_vec()), None);
    assert_eq!(parse_table(&b"0 1000 4294967296\n".to_vec()), None);
    assert_eq!(parse_table(&b"0 1000 99999999999999999999999999\n".to_vec()), None);
}

#[test]
fn a_line_is_read_from_its_place() {
    let text = b"1 2 3\n40 50 60\n".to_vec();
    assert_eq!(read_line(&text, 0), Some((range(1, 2, 3), 6)));
    assert_eq!(read_line(&text, 6), Some((range(40, 50, 60), 15)));
    assert_eq!(read_line(&text, 15), None);
}

#[test]
fn valid_table_passes() {
    assert_eq!(check_table(&vec![range(0, 1000, 1), range(1, 100000, 65535)]), Ok(()));
    assert_eq!(check_table(&Vec::new()), Ok(()));
    assert_eq!(check_table(&vec![range(u32::MAX, 0, 1)]), Ok(()));
}

#[test]
fn empty_range_is_found() {
    assert_eq!(check_table(&vec![range(0, 1000, 1), range(5, 5000, 0)]), Err(1));
}

#[test]
fn range_past_the_greatest_id_is_found() {
    assert_eq!(check_table(&vec![range(u32::MAX, 0, 2)]), Err(0));
    assert_eq!(check_table(&vec![range(0, u32::MAX - 1, 3)]), Err(0));
}

#[test]
fn overlap_is_found_at_the_later_range() {
    assert_eq!(check_table(&vec![range(0, 1000, 10), range(9, 5000, 1)]), Err(1));
    assert_eq!(check_table(&vec![range(0, 1000, 10), range(10, 1009, 1)]), Err(1));
    assert_eq!(check_table(&vec![range(0, 1000, 10), range(10, 1010, 1)]), Ok(()));
    assert_eq!(
        check_table(&vec![range(0, 1000, 10), range(20, 2000, 10), range(25, 3000, 1)]),
        Err(2)
    );
}

#[test]
fn helper_gets_pid_then_triples() {
    let args = helper_args(4242, &vec![range(0, 1000, 1), range(1, 100000, 65535)]);
    let texts: Vec<&[u8]> = args.iter().map(|a| a.as_slice()).collect();
    let expected: Vec<&[u8]> = vec![b"4242", b"0", b"1000", b"1", b"1", b"100000", b"65535"];
    assert_eq!(texts, expected);
    assert_eq!(helper_args(1, &Vec::new()), vec![b"1".to_vec()]);
}

#[test]
fn strategy_is_direct_unless_unprivileged_with_helper() {
    assert_eq!(select_strategy(true, false), MapStrategy::Direct);
    assert_eq!(select_strategy(true, true), MapStrategy::Direct);
    assert_eq!(select_strategy(false, true), MapStrategy::Helper);
    assert_eq!(select_strategy(false, false), MapStrategy::Direct);
}

#[test]
fn helper_that_exits_with_zero_is_fine() {
    assert_eq!(helper_verdict(ExitStatus::Exited(0)), Ok(()));
}

#[test]
fn helper_that_exits_with_one_fails_the_launch() {
    let err = helper_verdict(ExitStatus::Exited(1)).unwrap_err();
    assert_eq!(err.step, Step::IdMapHelperExit);
    assert_eq!(err.errno, 0);
    assert_eq!(err.detail, Some(b"exit 1".to_vec()));
}

#[test]
fn helper_that_is_killed_fails_the_launch() {
    let err = helper_verdict(ExitStatus::Signaled(9, false)).unwrap_err();
    assert_eq!(err.step, Step::IdMapHelperExit);
    assert_eq!(err.detail, Some(b"signal 9".to_vec()));
    let err = helper_verdict(ExitStatus::Exited(-3)).unwrap_err();
    assert_eq!(err.detail, Some(b"exit -3".to_vec()));
}
