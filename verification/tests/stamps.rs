use unshare::env::{
    collect_vars, render_block, render_pid_slot, render_plain, set_var, stamp_pid, EnvVar,
    SLOT_ROOM,
};
use unshare::error::{decode, encode, stamp_errno, Error, Report, Step};

fn text(text: &str) -> Vec<u8> {
    text.as_bytes().to_vec()
}

fn var(name: &str, value: &str) -> EnvVar {
    EnvVar { name: text(name), value: text(value) }
}

#[test]
fn error_code_is_written_into_a_record_in_place() {
    let mut record = encode(&Error::new(Step::Chroot, 0));
    assert_eq!(record, vec![9, 0, 0, 0, 0]);
    stamp_errno(&mut record, 2);
    assert_eq!(record, vec![9, 0, 0, 0, 2]);
    assert_eq!(record, encode(&Error::new(Step::Chroot, 2)));
    stamp_errno(&mut record, -1);
    assert_eq!(record, vec![9, 255, 255, 255, 255]);
    stamp_errno(&mut record, 0x0102_0304);
    assert_eq!(record, vec![9, 1, 2, 3, 4]);
    stamp_errno(&mut record, i32::MIN);
    assert_eq!(record, vec![9, 128, 0, 0, 0]);
    assert_eq!(decode(&record), Report::Failed(Error::new(Step::Chroot, i32::MIN)));
}

#[test]
fn stamping_leaves_the_step_and_the_text_alone() {
    let err = Error::with_detail(Step::Exec, 0, text("/bin/none"));
    let mut record = encode(&err);
    let len = record.len();
    stamp_errno(&mut record, 13);
    assert_eq!(record.len(), len);
    assert_eq!(record, encode(&Error::with_detail(Step::Exec, 13, text("/bin/none"))));
    assert_eq!(
        decode(&record),
        Report::Failed(Error::with_detail(Step::Exec, 13, text("/bin/none")))
    );
}

#[test]
fn slot_has_room_for_the_process_id() {
    assert_eq!(SLOT_ROOM, 11);
    let mut slot = render_pid_slot(&text("PID"));
    assert_eq!(slot, b"PID=\0\0\0\0\0\0\0\0\0\0\0".to_vec());
    assert_eq!(stamp_pid(&mut slot, 4, 4321), 8);
    assert_eq!(slot, b"PID=4321\0\0\0\0\0\0\0".to_vec());
    assert_eq!(stamp_pid(&mut slot, 4, u32::MAX), 14);
    assert_eq!(slot, b"PID=4294967295\0".to_vec());
    assert_eq!(stamp_pid(&mut slot, 4, 7), 5);
    assert_eq!(slot, b"PID=7\094967295\0".to_vec());
    let empty = render_pid_slot(&Vec::new());
    assert_eq!(empty.len(), 12);
    assert_eq!(empty[0], b'=');
}

#[test]
fn stamped_slot_starts_with_the_entry_of_the_block() {
    let pid_vars = vec![text("MAINPID")];
    let block = render_block(&Vec::new(), &pid_vars, 990);
    let mut slot = render_pid_slot(&pid_vars[0]);
    let end = stamp_pid(&mut slot, pid_vars[0].len() + 1, 990);
    assert_eq!(slot[..end].to_vec(), block[0]);
    assert_eq!(slot[end], 0);
}

#[test]
fn plain_entries_leave_out_what_carries_the_process_id() {
    let vars = vec![var("PATH", "/bin"), var("PID", "stale"), var("HOME", "/root")];
    let pid_vars = vec![text("PID"), text("OTHER")];
    assert_eq!(render_plain(&vars, &pid_vars), vec![text("PATH=/bin"), text("HOME=/root")]);
    assert_eq!(
        render_plain(&vars, &Vec::new()),
        vec![text("PATH=/bin"), text("PID=stale"), text("HOME=/root")]
    );
    assert_eq!(
        render_block(&vars, &pid_vars, 12),
        vec![text("PATH=/bin"), text("HOME=/root"), text("PID=12"), text("OTHER=12")]
    );
}

#[test]
fn a_variable_that_is_set_again_keeps_its_place() {
    let mut vars = Vec::new();
    set_var(&mut vars, text("A"), text("1"));
    set_var(&mut vars, text("B"), text("2"));
    assert_eq!(vars, vec![var("A", "1"), var("B", "2")]);
    set_var(&mut vars, text("A"), text("3"));
    assert_eq!(vars, vec![var("A", "3"), var("B", "2")]);
    set_var(&mut vars, text("AB"), text(""));
    assert_eq!(vars, vec![var("A", "3"), var("B", "2"), var("AB", "")]);
}

#[test]
fn settings_leave_each_name_once_with_its_last_value() {
    let settings = vec![var("A", "1"), var("B", "2"), var("A", "3"), var("B", "4"), var("C", "5")];
    assert_eq!(collect_vars(&settings), vec![var("A", "3"), var("B", "4"), var("C", "5")]);
    let distinct = vec![var("X", "1"), var("Y", "1")];
    assert_eq!(collect_vars(&distinct), distinct);
    assert_eq!(collect_vars(&Vec::new()), Vec::<EnvVar>::new());
}
