//! Changing the root directory: by `chroot`, or by `pivot_root`, which
//! moves the old root to a directory below the new one.
//!
//! Paths are byte strings, compared byte by byte: `.` and `..` are names
//! like any other here, and it is the caller's part to hand over paths that
//! hold none.

use crate::bytes::copy_range;
use vstd::prelude::*;

verus! {

/// The byte that separates the names of a path.
pub const SLASH: u8 = 47;

/// A change of root by `pivot_root`.
#[derive(Clone, Debug, PartialEq, Eq)]
pub struct PivotRoot {
    /// The directory that becomes the root. It must be a mount point, which
    /// only the kernel can tell.
    pub new_root: Vec<u8>,
    /// The directory, at or below `new_root`, to which the old root moves.
    pub put_old: Vec<u8>,
    /// Whether the old root is unmounted once it has moved.
    pub unmount_old: bool,
}

/// Whether `path` starts at the root.
pub open spec fn is_absolute(path: Seq<u8>) -> bool {
    path.len() > 0 && path[0] == SLASH
}

/// The length of `path` without the slashes at its end.
pub open spec fn trimmed_len(path: Seq<u8>) -> int
    decreases path.len(),
{
    if path.len() > 0 && path.last() == SLASH {
        trimmed_len(path.drop_last())
    } else {
        path.len() as int
    }
}

/// The first place at or after `from` where `path` holds no slash.
pub open spec fn slashes_end(path: Seq<u8>, from: int) -> int
    decreases path.len() - from,
{
    if 0 <= from < path.len() && path[from] == SLASH {
        slashes_end(path, from + 1)
    } else {
        from
    }
}

/// Whether `inner` is `outer` or lies below it: `inner` starts with
/// `outer`, slashes at its end set aside, and goes on with a slash or not at
/// all.
pub open spec fn beneath(outer: Seq<u8>, inner: Seq<u8>) -> bool {
    let stem = trimmed_len(outer);
    &&& stem <= inner.len()
    &&& inner.take(stem) == outer.take(stem)
    &&& (inner.len() == stem || inner[stem] == SLASH)
}

/// The path by which `inner` is found once `outer` has become the root,
/// for an `inner` at or below `outer`: a slash, then what `inner` holds
/// after `outer` and the slashes that follow it.
pub open spec fn seen_from(outer: Seq<u8>, inner: Seq<u8>) -> Seq<u8> {
    seq![SLASH] + inner.subrange(slashes_end(inner, trimmed_len(outer)), inner.len() as int)
}

/// Whether `path` starts at the root.
pub fn absolute(path: &Vec<u8>) -> (yes: bool)
    ensures
        yes == is_absolute(path@),
{
    path.len() > 0 && path[0] == SLASH
}

/// The length of `path` without the slashes at its end.
fn stem_length(path: &Vec<u8>) -> (len: usize)
    ensures
        len == trimmed_len(path@),
        len <= path.len(),
{
    let mut len: usize = path.len();
    assert(path@.take(len as int) =~= path@);
    while len > 0 && path[len - 1] == SLASH
        invariant
            len <= path.len(),
            trimmed_len(path@.take(len as int)) == trimmed_len(path@),
        decreases len,
    {
        assert(path@.take(len as int).drop_last() =~= path@.take(len - 1));
        len = len - 1;
    }
    proof {
        let rest = path@.take(len as int);
        if len > 0 {
            assert(rest.last() == path@[len - 1]);
        }
    }
    len
}

/// The place of the old root as the new root shows it: the path by which
/// `put_old` is found once `new_root` has become the root. `None` where
/// `put_old` is neither `new_root` nor below it.
pub fn old_root_inside(new_root: &Vec<u8>, put_old: &Vec<u8>) -> (inside: Option<Vec<u8>>)
    ensures
        inside is Some <==> beneath(new_root@, put_old@),
        inside matches Some(path) ==> path@ == seen_from(new_root@, put_old@),
{
    let stem = stem_length(new_root);
    if stem > put_old.len() {
        return None;
    }
    let mut i: usize = 0;
    while i < stem
        invariant
            i <= stem <= put_old.len(),
            stem <= new_root.len(),
            stem == trimmed_len(new_root@),
            put_old@.take(i as int) == new_root@.take(i as int),
        decreases stem - i,
    {
        if put_old[i] != new_root[i] {
            assert(put_old@.take(stem as int)[i as int] == put_old@[i as int]);
            assert(new_root@.take(stem as int)[i as int] == new_root@[i as int]);
            return None;
        }
        i = i + 1;
        assert(put_old@.take(i as int) =~= put_old@.take(i - 1).push(put_old@[i - 1]));
        assert(new_root@.take(i as int) =~= new_root@.take(i - 1).push(new_root@[i - 1]));
    }
    if put_old.len() > stem && put_old[stem] != SLASH {
        return None;
    }
    let mut start: usize = stem;
    while start < put_old.len() && put_old[start] == SLASH
        invariant
            stem <= start <= put_old.len(),
            slashes_end(put_old@, start as int) == slashes_end(put_old@, stem as int),
        decreases put_old.len() - start,
    {
        start = start + 1;
    }
    let mut inside: Vec<u8> = Vec::new();
    inside.push(SLASH);
    let rest = copy_range(put_old, start, put_old.len());
    crate::bytes::append(&mut inside, &rest);
    assert(inside@ =~= seen_from(new_root@, put_old@));
    Some(inside)
}

/// What is wrong with a request to change the root.
#[derive(Clone, Copy, Debug, PartialEq, Eq, Hash, Structural)]
pub enum RootDefect {
    /// Both `chroot` and `pivot_root` are asked for.
    ChrootAndPivot,
    /// The directory for `chroot` does not start at the root.
    ChrootRelative,
    /// The new root for `pivot_root` does not start at the root.
    NewRootRelative,
    /// The place for the old root does not start at the root.
    PutOldRelative,
    /// The place for the old root is not at or below the new root.
    PutOldOutside,
    /// The working directory does not start at the root.
    WorkDirRelative,
}

/// What is wrong with a request to change the root, if anything: the first
/// of the defects, in the order of `RootDefect`, that the request has.
pub open spec fn root_defect(
    chroot_dir: Option<Seq<u8>>,
    pivot: Option<(Seq<u8>, Seq<u8>)>,
    work_dir: Option<Seq<u8>>,
) -> Option<RootDefect> {
    if chroot_dir is Some && pivot is Some {
        Some(RootDefect::ChrootAndPivot)
    } else if chroot_dir is Some && !is_absolute(chroot_dir.unwrap()) {
        Some(RootDefect::ChrootRelative)
    } else if pivot is Some && !is_absolute(pivot.unwrap().0) {
        Some(RootDefect::NewRootRelative)
    } else if pivot is Some && !is_absolute(pivot.unwrap().1) {
        Some(RootDefect::PutOldRelative)
    } else if pivot is Some && !beneath(pivot.unwrap().0, pivot.unwrap().1) {
        Some(RootDefect::PutOldOutside)
    } else if work_dir is Some && !is_absolute(work_dir.unwrap()) {
        Some(RootDefect::WorkDirRelative)
    } else {
        None
    }
}

/// The paths of a change by `pivot_root`, as contracts speak of them.
pub open spec fn pivot_paths(pivot: Option<PivotRoot>) -> Option<(Seq<u8>, Seq<u8>)> {
    match pivot {
        Some(p) => Some((p.new_root@, p.put_old@)),
        None => None,
    }
}

/// A path as contracts speak of it.
pub open spec fn path_view(path: Option<Vec<u8>>) -> Option<Seq<u8>> {
    match path {
        Some(p) => Some(p@),
        None => None,
    }
}

/// Checks a request to change the root and the working directory.
pub fn check_root(
    chroot_dir: &Option<Vec<u8>>,
    pivot: &Option<PivotRoot>,
    work_dir: &Option<Vec<u8>>,
) -> (defect: Option<RootDefect>)
    ensures
        defect == root_defect(path_view(*chroot_dir), pivot_paths(*pivot), path_view(*work_dir)),
{
    if chroot_dir.is_some() && pivot.is_some() {
        return Some(RootDefect::ChrootAndPivot);
    }
    if let Some(dir) = chroot_dir {
        if !absolute(dir) {
            return Some(RootDefect::ChrootRelative);
        }
    }
    if let Some(p) = pivot {
        if !absolute(&p.new_root) {
            return Some(RootDefect::NewRootRelative);
        }
        if !absolute(&p.put_old) {
            return Some(RootDefect::PutOldRelative);
        }
        if old_root_inside(&p.new_root, &p.put_old).is_none() {
            return Some(RootDefect::PutOldOutside);
        }
    }
    if let Some(dir) = work_dir {
        if !absolute(dir) {
            return Some(RootDefect::WorkDirRelative);
        }
    }
    None
}

} // verus!
