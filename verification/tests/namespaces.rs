use unshare::namespace::{first_conflict, Join, JoinMap, Namespace, NamespaceSet};

#[test]
fn clone_flags_are_those_of_libc() {
    assert_eq!(Namespace::Mount.to_clone_flag(), libc::CLONE_NEWNS);
    assert_eq!(Namespace::Uts.to_clone_flag(), libc::CLONE_NEWUTS);
    assert_eq!(Namespace::Ipc.to_clone_flag(), libc::CLONE_NEWIPC);
    assert_eq!(Namespace::User.to_clone_flag(), libc::CLONE_NEWUSER);
    assert_eq!(Namespace::Pid.to_clone_flag(), libc::CLONE_NEWPID);
    assert_eq!(Namespace::Net.to_clone_flag(), libc::CLONE_NEWNET);
    assert_eq!(Namespace::Cgroup.to_clone_flag(), libc::CLONE_NEWCGROUP);
}

#[test]
fn clone_flags_have_exact_values() {
    assert_eq!(Namespace::Mount.to_clone_flag(), 0x0002_0000);
    assert_eq!(Namespace::Cgroup.to_clone_flag(), 0x0200_0000);
    assert_eq!(Namespace::Uts.to_clone_flag(), 0x0400_0000);
    assert_eq!(Namespace::Ipc.to_clone_flag(), 0x0800_0000);
    assert_eq!(Namespace::User.to_clone_flag(), 0x1000_0000);
    assert_eq!(Namespace::Pid.to_clone_flag(), 0x2000_0000);
    assert_eq!(Namespace::Net.to_clone_flag(), 0x4000_0000);
}

#[test]
fn empty_set_has_no_flag() {
    let set = NamespaceSet::empty();
    assert!(set.is_empty());
    assert_eq!(set.clone_flags(), 0);
}

#[test]
fn two_new_namespaces_set_both_flags() {
    let mut set = NamespaceSet::empty();
    set.insert(Namespace::Net);
    set.insert(Namespace::Mount);
    assert_eq!(set.clone_flags(), 0x4002_0000);
    assert!(set.contains(Namespace::Net));
    assert!(set.contains(Namespace::Mount));
    assert!(!set.contains(Namespace::User));
    assert!(!set.is_empty());
}

#[test]
fn all_namespaces_sum_up() {
    let mut set = NamespaceSet::empty();
    for rank in 0..7u8 {
        set.insert(Namespace::at_rank(rank));
    }
    assert_eq!(set.clone_flags(), 0x7e02_0000);
}

#[test]
fn insert_twice_and_remove() {
    let mut set = NamespaceSet::empty();
    set.insert(Namespace::Pid);
    set.insert(Namespace::Pid);
    assert_eq!(set.clone_flags(), 0x2000_0000);
    set.remove(Namespace::Pid);
    assert_eq!(set.clone_flags(), 0);
}

#[test]
fn ranks_are_the_places_in_the_order() {
    let order = [
        Namespace::User,
        Namespace::Cgroup,
        Namespace::Ipc,
        Namespace::Uts,
        Namespace::Net,
        Namespace::Pid,
        Namespace::Mount,
    ];
    for (place, kind) in order.iter().enumerate() {
        assert_eq!(kind.rank() as usize, place);
        assert_eq!(Namespace::at_rank(place as u8), *kind);
    }
}

#[test]
fn joins_come_out_user_first_whatever_the_order_asked() {
    let mut joins = JoinMap::new();
    assert!(joins.is_empty());
    assert_eq!(joins.insert(Namespace::Mount, 7), None);
    assert_eq!(joins.insert(Namespace::Pid, 8), None);
    assert_eq!(joins.insert(Namespace::User, 9), None);
    assert!(!joins.is_empty());
    assert_eq!(
        joins.sequence(),
        vec![
            Join { kind: Namespace::User, fd: 9 },
            Join { kind: Namespace::Pid, fd: 8 },
            Join { kind: Namespace::Mount, fd: 7 },
        ]
    );
}

#[test]
fn a_second_join_of_a_kind_replaces_the_first() {
    let mut joins = JoinMap::new();
    assert_eq!(joins.insert(Namespace::Net, 5), None);
    assert_eq!(joins.insert(Namespace::Net, 6), Some(5));
    assert_eq!(joins.get(Namespace::Net), Some(6));
    assert_eq!(joins.get(Namespace::Ipc), None);
    assert_eq!(joins.sequence(), vec![Join { kind: Namespace::Net, fd: 6 }]);
}

#[test]
fn no_join_gives_an_empty_sequence() {
    assert_eq!(JoinMap::new().sequence(), Vec::<Join>::new());
}

#[test]
fn conflict_is_the_kind_created_and_joined() {
    let mut create = NamespaceSet::empty();
    create.insert(Namespace::Net);
    create.insert(Namespace::Mount);
    let mut joins = JoinMap::new();
    joins.insert(Namespace::Pid, 3);
    assert_eq!(first_conflict(&create, &joins), None);
    joins.insert(Namespace::Mount, 4);
    assert_eq!(first_conflict(&create, &joins), Some(Namespace::Mount));
    joins.insert(Namespace::Net, 5);
    assert_eq!(first_conflict(&create, &joins), Some(Namespace::Net));
}
