use unshare::caps::{CapSet, Capability};

#[test]
fn capabilities_have_the_kernel_s_numbers() {
    assert_eq!(Capability::CAP_CHOWN.index(), 0);
    assert_eq!(Capability::CAP_KILL.index(), 5);
    assert_eq!(Capability::CAP_NET_BIND_SERVICE.index(), 10);
    assert_eq!(Capability::CAP_SYS_ADMIN.index(), 21);
    assert_eq!(Capability::CAP_SETFCAP.index(), 31);
    assert_eq!(Capability::CAP_MAC_OVERRIDE.index(), 32);
    assert_eq!(Capability::CAP_AUDIT_READ.index(), 37);
    assert_eq!(Capability::CAP_CHECKPOINT_RESTORE.index(), 40);
}

#[test]
fn empty_keep_list_keeps_nothing() {
    let set = CapSet::of(&Vec::new());
    assert_eq!(set.words(), (0, 0));
    assert_eq!(set.indexes(), Vec::<u8>::new());
    assert_eq!(set, CapSet::empty());
}

#[test]
fn kept_set_holds_exactly_the_listed() {
    let set = CapSet::of(&vec![
        Capability::CAP_NET_BIND_SERVICE,
        Capability::CAP_CHOWN,
        Capability::CAP_SYSLOG,
        Capability::CAP_NET_BIND_SERVICE,
    ]);
    assert_eq!(set.words(), ((1 << 10) | 1, 1 << 2));
    assert_eq!(set.indexes(), vec![0, 10, 34]);
    assert!(set.contains(Capability::CAP_CHOWN));
    assert!(set.contains(Capability::CAP_SYSLOG));
    assert!(!set.contains(Capability::CAP_SYS_ADMIN));
    assert!(!set.contains(Capability::CAP_KILL));
}

#[test]
fn words_split_at_thirty_two() {
    let set = CapSet::of(&vec![Capability::CAP_SETFCAP, Capability::CAP_MAC_OVERRIDE]);
    assert_eq!(set.words(), (0x8000_0000, 1));
    let set = CapSet::of(&vec![Capability::CAP_CHECKPOINT_RESTORE]);
    assert_eq!(set.words(), (0, 0x100));
}

#[test]
fn insert_adds_one_capability() {
    let mut set = CapSet::empty();
    set.insert(Capability::CAP_BPF);
    assert_eq!(set.indexes(), vec![39]);
    set.insert(Capability::CAP_BPF);
    set.insert(Capability::CAP_FOWNER);
    assert_eq!(set.indexes(), vec![3, 39]);
    assert_eq!(set, CapSet::of(&vec![Capability::CAP_FOWNER, Capability::CAP_BPF]));
}
