use unshare::chroot::{absolute, check_root, old_root_inside, PivotRoot, RootDefect};

fn path(text: &str) -> Vec<u8> {
    text.as_bytes().to_vec()
}

fn pivot(new_root: &str, put_old: &str) -> Option<PivotRoot> {
    Some(PivotRoot { new_root: path(new_root), put_old: path(put_old), unmount_old: true })
}

#[test]
fn paths_from_the_root_are_absolute() {
    assert!(absolute(&path("/")));
    assert!(absolute(&path("/a/b")));
    assert!(!absolute(&path("a/b")));
    assert!(!absolute(&path("")));
    assert!(!absolute(&path("./a")));
}

#[test]
fn old_root_is_found_below_the_new_one() {
    assert_eq!(old_root_inside(&path("/new"), &path("/new/old")), Some(path("/old")));
    assert_eq!(old_root_inside(&path("/new/"), &path("/new/old")), Some(path("/old")));
    assert_eq!(old_root_inside(&path("/new"), &path("/new//old/x")), Some(path("/old/x")));
    assert_eq!(old_root_inside(&path("/"), &path("/old")), Some(path("/old")));
    assert_eq!(old_root_inside(&path("/new"), &path("/new")), Some(path("/")));
    assert_eq!(old_root_inside(&path("/new"), &path("/new/")), Some(path("/")));
}

#[test]
fn old_root_outside_the_new_one_is_refused() {
    assert_eq!(old_root_inside(&path("/new"), &path("/newer/old")), None);
    assert_eq!(old_root_inside(&path("/new"), &path("/old")), None);
    assert_eq!(old_root_inside(&path("/new/root"), &path("/new")), None);
    assert_eq!(old_root_inside(&path("/new"), &path("")), None);
}

#[test]
fn a_sound_request_has_no_defect() {
    assert_eq!(check_root(&None, &None, &None), None);
    assert_eq!(check_root(&Some(path("/jail")), &None, &Some(path("/home"))), None);
    assert_eq!(check_root(&None, &pivot("/new", "/new/old"), &None), None);
}

#[test]
fn chroot_and_pivot_exclude_each_other() {
    assert_eq!(
        check_root(&Some(path("/jail")), &pivot("/new", "/new/old"), &None),
        Some(RootDefect::ChrootAndPivot)
    );
}

#[test]
fn relative_paths_are_defects() {
    assert_eq!(check_root(&Some(path("jail")), &None, &None), Some(RootDefect::ChrootRelative));
    assert_eq!(
        check_root(&None, &pivot("new", "/new/old"), &None),
        Some(RootDefect::NewRootRelative)
    );
    assert_eq!(
        check_root(&None, &pivot("/new", "new/old"), &None),
        Some(RootDefect::PutOldRelative)
    );
    assert_eq!(check_root(&None, &None, &Some(path("home"))), Some(RootDefect::WorkDirRelative));
}

#[test]
fn old_root_must_lie_below_the_new_root() {
    assert_eq!(
        check_root(&None, &pivot("/new", "/elsewhere"), &None),
        Some(RootDefect::PutOldOutside)
    );
}
