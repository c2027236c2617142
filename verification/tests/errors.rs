use unshare::error::{
    decode, detail_length, encode, invalid_argument, no_child, record_limit, Error, Report, Step,
    DETAIL_LIMIT, HEAD_LEN, RECORD_LIMIT,
};

#[test]
fn record_of_a_failure_without_text() {
    let err = Error::new(Step::Chroot, 2);
    assert_eq!(encode(&err), vec![9, 0, 0, 0, 2]);
}

#[test]
fn record_carries_the_text() {
    let err = Error::with_detail(Step::Exec, 13, b"/bin/sh".to_vec());
    assert_eq!(encode(&err), b"\x11\x00\x00\x00\x0d/bin/sh".to_vec());
}

#[test]
fn error_code_is_written_highest_byte_first() {
    assert_eq!(encode(&Error::new(Step::Exec, 0x0102_0304)), vec![17, 1, 2, 3, 4]);
    assert_eq!(encode(&Error::new(Step::Exec, -1)), vec![17, 255, 255, 255, 255]);
    assert_eq!(encode(&Error::new(Step::Exec, i32::MIN)), vec![17, 128, 0, 0, 0]);
    assert_eq!(encode(&Error::new(Step::Exec, i32::MAX)), vec![17, 127, 255, 255, 255]);
}

#[test]
fn nothing_read_means_started() {
    assert_eq!(decode(&Vec::new()), Report::Started);
}

#[test]
fn record_is_read_back() {
    for errno in [0, 1, 2, 22, 255, 256, 65536, i32::MAX, -1, -22, i32::MIN] {
        for code in 1..=20u8 {
            let step = Step::from_code(code).unwrap();
            let err = Error::new(step, errno);
            assert_eq!(decode(&encode(&err)), Report::Failed(err));
            let err = Error::with_detail(step, errno, b"path".to_vec());
            assert_eq!(decode(&encode(&err)), Report::Failed(err));
        }
    }
}

#[test]
fn empty_text_arrives_as_no_text() {
    let err = Error::with_detail(Step::Chdir, 2, Vec::new());
    assert_eq!(encode(&err), vec![11, 0, 0, 0, 2]);
    assert_eq!(decode(&encode(&err)), Report::Failed(Error::new(Step::Chdir, 2)));
}

#[test]
fn short_or_unknown_records_are_garbled() {
    assert_eq!(decode(&vec![9]), Report::Garbled);
    assert_eq!(decode(&vec![9, 0, 0, 0]), Report::Garbled);
    assert_eq!(decode(&vec![0, 0, 0, 0, 2]), Report::Garbled);
    assert_eq!(decode(&vec![21, 0, 0, 0, 2]), Report::Garbled);
    assert_eq!(decode(&vec![255, 0, 0, 0, 2]), Report::Garbled);
}

#[test]
fn long_text_is_cut_to_fit_one_write() {
    let err = Error::with_detail(Step::Exec, 2, vec![b'a'; 10000]);
    let record = encode(&err);
    assert_eq!(record.len(), RECORD_LIMIT);
    assert_eq!(
        decode(&record),
        Report::Failed(Error::with_detail(Step::Exec, 2, vec![b'a'; DETAIL_LIMIT]))
    );
}

#[test]
fn text_at_the_limit_is_kept_whole() {
    let text = vec![b'x'; DETAIL_LIMIT];
    assert_eq!(detail_length(&text), DETAIL_LIMIT);
    assert_eq!(encode(&Error::with_detail(Step::Exec, 2, text)).len(), RECORD_LIMIT);
}

#[test]
fn text_is_cut_between_characters() {
    // Two bytes of "é" straddle the limit: the cut falls before them.
    let mut text = vec![b'a'; DETAIL_LIMIT - 1];
    text.extend_from_slice("é".as_bytes());
    text.extend_from_slice(b"tail");
    assert_eq!(detail_length(&text), DETAIL_LIMIT - 1);
    // A character that starts at the limit is cut off as a whole.
    let mut text = vec![b'a'; DETAIL_LIMIT];
    text.extend_from_slice("é".as_bytes());
    assert_eq!(detail_length(&text), DETAIL_LIMIT);
    // A character of four bytes that starts three bytes before the limit.
    let mut text = vec![b'a'; DETAIL_LIMIT - 3];
    text.extend_from_slice("𝄞".as_bytes());
    assert_eq!(detail_length(&text), DETAIL_LIMIT - 3);
    let cut = text[..detail_length(&text)].to_vec();
    assert!(String::from_utf8(cut).is_ok());
}

#[test]
fn limits_are_those_of_a_pipe() {
    assert_eq!(record_limit(), libc::PIPE_BUF);
    assert_eq!(record_limit(), 4096);
    assert_eq!(RECORD_LIMIT, 4096);
    assert_eq!(HEAD_LEN + DETAIL_LIMIT, RECORD_LIMIT);
}

#[test]
fn error_codes_are_those_of_libc() {
    assert_eq!(invalid_argument(), libc::EINVAL);
    assert_eq!(invalid_argument(), 22);
    assert_eq!(no_child(), libc::ECHILD);
    assert_eq!(no_child(), 10);
}

#[test]
fn steps_have_codes_of_their_own() {
    let mut seen = Vec::new();
    for code in 0..=255u8 {
        match Step::from_code(code) {
            Some(step) => {
                assert!((1..=20).contains(&code));
                assert_eq!(step.code(), code);
                assert!(!seen.contains(&step));
                seen.push(step);
            }
            None => assert!(code == 0 || code > 20),
        }
    }
    assert_eq!(seen.len(), 20);
}

#[test]
fn steps_are_named() {
    assert_eq!(Step::Chroot.name(), "chroot failure");
    assert_eq!(Step::Fork.name(), "duplication failure");
    assert_eq!(Step::JoinNamespace.name(), "namespace-join failure");
    assert_eq!(Step::CreateNamespace.name(), "namespace-creation failure");
    assert_eq!(Step::IdMapWrite.name(), "id-map direct-write failure");
    assert_eq!(Step::IdMapHelperSpawn.name(), "id-map helper-spawn failure");
    assert_eq!(Step::IdMapHelperExit.name(), "id-map helper-exit failure");
    assert_eq!(Step::Identity.name(), "identity-change failure");
    assert_eq!(Step::PivotRoot.name(), "pivot-root failure");
    assert_eq!(Step::Chdir.name(), "working-directory-change failure");
    assert_eq!(Step::Capabilities.name(), "capability-drop failure");
    assert_eq!(Step::SignalMask.name(), "signal-mask-restore failure");
    assert_eq!(Step::PreExec.name(), "pre-exec-hook failure");
    assert_eq!(Step::Exec.name(), "image-replacement failure");
    assert_eq!(Step::BeforeUnfreeze.name(), "before-unfreeze-hook failure");
    assert_eq!(Step::Wait.name(), "wait failure");
    assert_eq!(Step::Config.name(), "configuration error");
}

#[test]
fn steps_of_the_child_are_told_from_those_of_the_parent() {
    assert!(Step::Chroot.in_child());
    assert!(Step::Exec.in_child());
    assert!(Step::JoinNamespace.in_child());
    assert!(!Step::Fork.in_child());
    assert!(!Step::Config.in_child());
    assert!(!Step::IdMapWrite.in_child());
    assert!(!Step::BeforeUnfreeze.in_child());
    assert!(!Step::Wait.in_child());
}

#[test]
fn error_gives_its_parts() {
    let err = Error::with_detail(Step::PivotRoot, 22, b"/new".to_vec());
    assert_eq!(err.step(), Step::PivotRoot);
    assert_eq!(err.raw_os_error(), 22);
    assert_eq!(err.detail, Some(b"/new".to_vec()));
}
