use unshare::bytes::{
    append, copy, copy_range, decimal_text, push_signed, read_number, same, stamp_decimal,
    STAMP_LEN,
};
use unshare::env::{named, render_block, EnvVar};

fn var(name: &str, value: &str) -> EnvVar {
    EnvVar { name: name.as_bytes().to_vec(), value: value.as_bytes().to_vec() }
}

#[test]
fn block_holds_name_equals_value() {
    let vars = vec![var("PATH", "/bin"), var("HOME", "/root"), var("EMPTY", "")];
    assert_eq!(
        render_block(&vars, &Vec::new(), 1),
        vec![b"PATH=/bin".to_vec(), b"HOME=/root".to_vec(), b"EMPTY=".to_vec()]
    );
}

#[test]
fn pid_variables_carry_the_process_id() {
    let vars = vec![var("PATH", "/bin"), var("MAINPID", "stale")];
    let pid_vars = vec![b"MAINPID".to_vec(), b"LISTEN_PID".to_vec()];
    assert_eq!(
        render_block(&vars, &pid_vars, 4321),
        vec![b"PATH=/bin".to_vec(), b"MAINPID=4321".to_vec(), b"LISTEN_PID=4321".to_vec()]
    );
}

#[test]
fn names_are_looked_up_whole() {
    let list = vec![b"PID".to_vec(), b"MAINPID".to_vec()];
    assert!(named(&list, &b"PID".to_vec()));
    assert!(named(&list, &b"MAINPID".to_vec()));
    assert!(!named(&list, &b"MAIN".to_vec()));
    assert!(!named(&list, &b"".to_vec()));
}

#[test]
fn numbers_are_written_in_decimal() {
    assert_eq!(decimal_text(0), b"0".to_vec());
    assert_eq!(decimal_text(7), b"7".to_vec());
    assert_eq!(decimal_text(10), b"10".to_vec());
    assert_eq!(decimal_text(4294967295), b"4294967295".to_vec());
    assert_eq!(decimal_text(u64::MAX), b"18446744073709551615".to_vec());
    let mut text = b"n=".to_vec();
    push_signed(&mut text, -15);
    assert_eq!(text, b"n=-15".to_vec());
    push_signed(&mut text, 0);
    assert_eq!(text, b"n=-150".to_vec());
    let mut least = Vec::new();
    push_signed(&mut least, i32::MIN);
    assert_eq!(least, b"-2147483648".to_vec());
}

#[test]
fn numbers_are_read_up_to_the_first_other_byte() {
    let text = b"12 007x4294967295 4294967296".to_vec();
    assert_eq!(read_number(&text, 0), Some((12, 2)));
    assert_eq!(read_number(&text, 2), None);
    assert_eq!(read_number(&text, 3), Some((7, 6)));
    assert_eq!(read_number(&text, 7), Some((4294967295, 17)));
    assert_eq!(read_number(&text, 18), None);
    assert_eq!(read_number(&text, text.len()), None);
}

#[test]
fn bytes_are_copied_and_compared() {
    let text = b"hello world".to_vec();
    assert_eq!(copy(&text), text);
    assert_eq!(copy_range(&text, 6, 11), b"world".to_vec());
    assert_eq!(copy_range(&text, 3, 3), Vec::<u8>::new());
    let mut joined = b"oh, ".to_vec();
    append(&mut joined, &text);
    assert_eq!(joined, b"oh, hello world".to_vec());
    assert!(same(&text, &b"hello world".to_vec()));
    assert!(!same(&text, &b"hello worle".to_vec()));
    assert!(!same(&text, &b"hello".to_vec()));
}

#[test]
fn numbers_are_stamped_in_place() {
    let mut buf = b"PID=..........!".to_vec();
    assert_eq!(STAMP_LEN, 10);
    assert_eq!(stamp_decimal(&mut buf, 4, 0), 5);
    assert_eq!(buf, b"PID=0.........!".to_vec());
    assert_eq!(stamp_decimal(&mut buf, 4, 4321), 8);
    assert_eq!(buf, b"PID=4321......!".to_vec());
    assert_eq!(stamp_decimal(&mut buf, 4, u32::MAX), 14);
    assert_eq!(buf, b"PID=4294967295!".to_vec());
    assert_eq!(stamp_decimal(&mut buf, 4, 10), 6);
    assert_eq!(buf, b"PID=1094967295!".to_vec());
}
