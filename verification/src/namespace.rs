//! Namespace kinds, the flags that create them and the order in which
//! existing ones are joined.

use nix::sched::CloneFlags;
use vstd::prelude::*;

verus! {

/// A kind of Linux namespace.
#[derive(Clone, Copy, Debug, PartialEq, Eq, Hash, Structural)]
pub enum Namespace {
    /// The table of mount points.
    Mount,
    /// Host and domain name.
    Uts,
    /// System V IPC objects and POSIX message queues.
    Ipc,
    /// User and group ids, and capabilities.
    User,
    /// The tree of process ids.
    Pid,
    /// Network devices, stacks and ports.
    Net,
    /// The root of the cgroup hierarchy.
    Cgroup,
}

/// `nix::sched::CloneFlags::CLONE_NEWNS`, as the bits it stands for.
/// nix takes each of these flags from libc, which gives this one the value
/// `0x20000` on Linux.
#[verifier::external_body]
fn newns_bits() -> (bits: i32)
    ensures
        bits == 0x0002_0000,
{
    CloneFlags::CLONE_NEWNS.bits()
}

/// `nix::sched::CloneFlags::CLONE_NEWUTS`, as the bits it stands for:
/// `0x0400_0000` in libc's Linux definitions.
#[verifier::external_body]
fn newuts_bits() -> (bits: i32)
    ensures
        bits == 0x0400_0000,
{
    CloneFlags::CLONE_NEWUTS.bits()
}

/// `nix::sched::CloneFlags::CLONE_NEWIPC`, as the bits it stands for:
/// `0x0800_0000` in libc's Linux definitions.
#[verifier::external_body]
fn newipc_bits() -> (bits: i32)
    ensures
        bits == 0x0800_0000,
{
    CloneFlags::CLONE_NEWIPC.bits()
}

/// `nix::sched::CloneFlags::CLONE_NEWUSER`, as the bits it stands for:
/// `0x1000_0000` in libc's Linux definitions.
#[verifier::external_body]
fn newuser_bits() -> (bits: i32)
    ensures
        bits == 0x1000_0000,
{
    CloneFlags::CLONE_NEWUSER.bits()
}

/// `nix::sched::CloneFlags::CLONE_NEWPID`, as the bits it stands for:
/// `0x2000_0000` in libc's Linux definitions.
#[verifier::external_body]
fn newpid_bits() -> (bits: i32)
    ensures
        bits == 0x2000_0000,
{
    CloneFlags::CLONE_NEWPID.bits()
}

/// `nix::sched::CloneFlags::CLONE_NEWNET`, as the bits it stands for:
/// `0x4000_0000` in libc's Linux definitions.
#[verifier::external_body]
fn newnet_bits() -> (bits: i32)
    ensures
        bits == 0x4000_0000,
{
    CloneFlags::CLONE_NEWNET.bits()
}

/// `nix::sched::CloneFlags::CLONE_NEWCGROUP`, as the bits it stands for:
/// `0x0200_0000` in libc's Linux definitions.
#[verifier::external_body]
fn newcgroup_bits() -> (bits: i32)
    ensures
        bits == 0x0200_0000,
{
    CloneFlags::CLONE_NEWCGROUP.bits()
}

impl Namespace {
    /// The flag that asks the kernel for a new namespace of this kind.
    pub open spec fn spec_flag(self) -> i32 {
        match self {
            Namespace::Mount => 0x0002_0000i32,
            Namespace::Uts => 0x0400_0000i32,
            Namespace::Ipc => 0x0800_0000i32,
            Namespace::User => 0x1000_0000i32,
            Namespace::Pid => 0x2000_0000i32,
            Namespace::Net => 0x4000_0000i32,
            Namespace::Cgroup => 0x0200_0000i32,
        }
    }

    /// The place of this kind in the order of joining: a kind with a smaller
    /// rank is joined earlier. The user namespace comes first, because it
    /// decides which privileges the later joins are made with; the mount
    /// namespace comes last, because it changes what every path means.
    pub open spec fn spec_rank(self) -> int {
        match self {
            Namespace::User => 0,
            Namespace::Cgroup => 1,
            Namespace::Ipc => 2,
            Namespace::Uts => 3,
            Namespace::Net => 4,
            Namespace::Pid => 5,
            Namespace::Mount => 6,
        }
    }

    /// The flag that asks the kernel for a new namespace of this kind.
    pub fn to_clone_flag(self) -> (bits: i32)
        ensures
            bits == self.spec_flag(),
    {
        match self {
            Namespace::Mount => newns_bits(),
            Namespace::Uts => newuts_bits(),
            Namespace::Ipc => newipc_bits(),
            Namespace::User => newuser_bits(),
            Namespace::Pid => newpid_bits(),
            Namespace::Net => newnet_bits(),
            Namespace::Cgroup => newcgroup_bits(),
        }
    }

    /// The place of this kind in the order of joining.
    pub fn rank(self) -> (r: u8)
        ensures
            r == self.spec_rank(),
    {
        match self {
            Namespace::User => 0,
            Namespace::Cgroup => 1,
            Namespace::Ipc => 2,
            Namespace::Uts => 3,
            Namespace::Net => 4,
            Namespace::Pid => 5,
            Namespace::Mount => 6,
        }
    }

    /// The kind that holds place `rank` in the order of joining.
    pub fn at_rank(rank: u8) -> (ns: Namespace)
        requires
            rank < KINDS,
        ensures
            ns == kind_at(rank as int),
            ns.spec_rank() == rank,
    {
        if rank == 0 {
            Namespace::User
        } else if rank == 1 {
            Namespace::Cgroup
        } else if rank == 2 {
            Namespace::Ipc
        } else if rank == 3 {
            Namespace::Uts
        } else if rank == 4 {
            Namespace::Net
        } else if rank == 5 {
            Namespace::Pid
        } else {
            Namespace::Mount
        }
    }
}

/// The kind that holds place `rank` in the order of joining.
pub open spec fn kind_at(rank: int) -> Namespace {
    if rank <= 0 {
        Namespace::User
    } else if rank == 1 {
        Namespace::Cgroup
    } else if rank == 2 {
        Namespace::Ipc
    } else if rank == 3 {
        Namespace::Uts
    } else if rank == 4 {
        Namespace::Net
    } else if rank == 5 {
        Namespace::Pid
    } else {
        Namespace::Mount
    }
}

/// The number of kinds.
pub const KINDS: u8 = 7;

/// The flag of `ns` if `set` holds it, else no bit at all.
pub open spec fn flag_if(set: Set<Namespace>, ns: Namespace) -> int {
    if set.contains(ns) {
        ns.spec_flag() as int
    } else {
        0
    }
}

/// The flags that create exactly the namespaces of `set`: the sum of their
/// flags, which are distinct bits.
pub open spec fn flags_of(set: Set<Namespace>) -> int {
    flag_if(set, Namespace::Mount) + flag_if(set, Namespace::Uts) + flag_if(set, Namespace::Ipc)
        + flag_if(set, Namespace::User) + flag_if(set, Namespace::Pid) + flag_if(
        set,
        Namespace::Net,
    ) + flag_if(set, Namespace::Cgroup)
}

/// Whether `flags` asks for a new namespace of kind `ns`.
pub open spec fn flag_present(flags: i32, ns: Namespace) -> bool {
    flags & ns.spec_flag() != 0
}

/// The flags of a set name exactly the kinds that the set holds.
pub proof fn lemma_flags_name_members(set: Set<Namespace>, ns: Namespace)
    ensures
        0 <= flags_of(set) <= i32::MAX,
        flag_present(flags_of(set) as i32, ns) == set.contains(ns),
{
    let a = set.contains(Namespace::Mount);
    let b = set.contains(Namespace::Uts);
    let c = set.contains(Namespace::Ipc);
    let d = set.contains(Namespace::User);
    let e = set.contains(Namespace::Pid);
    let g = set.contains(Namespace::Net);
    let h = set.contains(Namespace::Cgroup);
    let f = flags_of(set) as i32;
    assert((f & 0x0002_0000 != 0) == a && (f & 0x0400_0000 != 0) == b && (f & 0x0800_0000 != 0)
        == c && (f & 0x1000_0000 != 0) == d && (f & 0x2000_0000 != 0) == e && (f & 0x4000_0000
        != 0) == g && (f & 0x0200_0000 != 0) == h) by (bit_vector)
        requires
            f == (if a { 0x0002_0000i32 } else { 0i32 }) + (if b { 0x0400_0000i32 } else { 0i32 })
                + (if c { 0x0800_0000i32 } else { 0i32 }) + (if d { 0x1000_0000i32 } else { 0i32 })
                + (if e { 0x2000_0000i32 } else { 0i32 }) + (if g { 0x4000_0000i32 } else { 0i32 })
                + (if h { 0x0200_0000i32 } else { 0i32 }),
    ;
}

/// The kinds of namespace that are created for the child.
#[derive(Clone, Copy, Debug, PartialEq, Eq)]
pub struct NamespaceSet {
    mount: bool,
    uts: bool,
    ipc: bool,
    user: bool,
    pid: bool,
    net: bool,
    cgroup: bool,
}

impl NamespaceSet {
    /// Whether the set holds `ns`.
    pub closed spec fn has(&self, ns: Namespace) -> bool {
        match ns {
            Namespace::Mount => self.mount,
            Namespace::Uts => self.uts,
            Namespace::Ipc => self.ipc,
            Namespace::User => self.user,
            Namespace::Pid => self.pid,
            Namespace::Net => self.net,
            Namespace::Cgroup => self.cgroup,
        }
    }

    /// The set as a mathematical set of kinds.
    pub open spec fn view(&self) -> Set<Namespace> {
        Set::new(|ns: Namespace| self.has(ns))
    }

    /// The set that holds no kind.
    pub fn empty() -> (set: NamespaceSet)
        ensures
            set@ == Set::<Namespace>::empty(),
    {
        let set = NamespaceSet {
            mount: false,
            uts: false,
            ipc: false,
            user: false,
            pid: false,
            net: false,
            cgroup: false,
        };
        assert(set@ =~= Set::<Namespace>::empty());
        set
    }

    /// Whether the set holds `ns`.
    pub fn contains(&self, ns: Namespace) -> (found: bool)
        ensures
            found == self@.contains(ns),
    {
        match ns {
            Namespace::Mount => self.mount,
            Namespace::Uts => self.uts,
            Namespace::Ipc => self.ipc,
            Namespace::User => self.user,
            Namespace::Pid => self.pid,
            Namespace::Net => self.net,
            Namespace::Cgroup => self.cgroup,
        }
    }

    /// Whether the set holds no kind.
    pub fn is_empty(&self) -> (none: bool)
        ensures
            none == (self@ == Set::<Namespace>::empty()),
    {
        let none = !(self.mount || self.uts || self.ipc || self.user || self.pid || self.net
            || self.cgroup);
        proof {
            if none {
                assert(self@ =~= Set::<Namespace>::empty());
            } else {
                let witness = if self.mount {
                    Namespace::Mount
                } else if self.uts {
                    Namespace::Uts
                } else if self.ipc {
                    Namespace::Ipc
                } else if self.user {
                    Namespace::User
                } else if self.pid {
                    Namespace::Pid
                } else if self.net {
                    Namespace::Net
                } else {
                    Namespace::Cgroup
                };
                assert(self@.contains(witness));
            }
        }
        none
    }

    /// Adds `ns` to the set.
    pub fn insert(&mut self, ns: Namespace)
        ensures
            final(self)@ == old(self)@.insert(ns),
    {
        match ns {
            Namespace::Mount => self.mount = true,
            Namespace::Uts => self.uts = true,
            Namespace::Ipc => self.ipc = true,
            Namespace::User => self.user = true,
            Namespace::Pid => self.pid = true,
            Namespace::Net => self.net = true,
            Namespace::Cgroup => self.cgroup = true,
        }
        assert(self@ =~= old(self)@.insert(ns));
    }

    /// Takes `ns` out of the set.
    pub fn remove(&mut self, ns: Namespace)
        ensures
            final(self)@ == old(self)@.remove(ns),
    {
        match ns {
            Namespace::Mount => self.mount = false,
            Namespace::Uts => self.uts = false,
            Namespace::Ipc => self.ipc = false,
            Namespace::User => self.user = false,
            Namespace::Pid => self.pid = false,
            Namespace::Net => self.net = false,
            Namespace::Cgroup => self.cgroup = false,
        }
        assert(self@ =~= old(self)@.remove(ns));
    }

    /// The flags to hand to the call that duplicates the process: the flag
    /// of each kind in the set and no other bit.
    pub fn clone_flags(&self) -> (flags: i32)
        ensures
            flags == flags_of(self@),
            forall|ns: Namespace| flag_present(flags, ns) == self@.contains(ns),
    {
        let mut flags: i32 = 0;
        if self.mount {
            flags = flags + Namespace::Mount.to_clone_flag();
        }
        if self.uts {
            flags = flags + Namespace::Uts.to_clone_flag();
        }
        if self.ipc {
            flags = flags + Namespace::Ipc.to_clone_flag();
        }
        if self.user {
            flags = flags + Namespace::User.to_clone_flag();
        }
        if self.pid {
            flags = flags + Namespace::Pid.to_clone_flag();
        }
        if self.net {
            flags = flags + Namespace::Net.to_clone_flag();
        }
        if self.cgroup {
            flags = flags + Namespace::Cgroup.to_clone_flag();
        }
        proof {
            assert forall|ns: Namespace| flag_present(flags, ns) == self@.contains(ns) by {
                lemma_flags_name_members(self@, ns);
            }
        }
        flags
    }
}

/// One join: the child enters the namespace of kind `kind` that the
/// descriptor `fd` refers to, and closes the descriptor.
#[derive(Clone, Copy, Debug, PartialEq, Eq, Structural)]
pub struct Join {
    /// The kind of the namespace.
    pub kind: Namespace,
    /// The descriptor that refers to the namespace.
    pub fd: i32,
}

/// The join of kind `ns`, if `joins` asks for one.
pub open spec fn join_if(joins: Map<Namespace, i32>, ns: Namespace) -> Seq<Join> {
    if joins.dom().contains(ns) {
        seq![Join { kind: ns, fd: joins[ns] }]
    } else {
        Seq::<Join>::empty()
    }
}

/// The joins of the kinds of rank below `upto` that `joins` asks for, by
/// rising rank.
pub open spec fn joins_below(joins: Map<Namespace, i32>, upto: int) -> Seq<Join>
    decreases upto,
{
    if upto <= 0 {
        Seq::<Join>::empty()
    } else {
        joins_below(joins, upto - 1) + join_if(joins, kind_at(upto - 1))
    }
}

/// The joins that `joins` asks for, in the order in which the child makes
/// them: by rising rank, whatever order the caller asked in.
pub open spec fn join_sequence(joins: Map<Namespace, i32>) -> Seq<Join> {
    joins_below(joins, KINDS as int)
}

/// What `joins_below` holds: each requested join of a rank below `upto`
/// once, nothing else, by rising rank.
pub proof fn lemma_joins_below(joins: Map<Namespace, i32>, upto: int)
    requires
        0 <= upto <= KINDS,
    ensures
        forall|ns: Namespace| #[trigger]
            joins.dom().contains(ns) && ns.spec_rank() < upto ==> joins_below(
                joins,
                upto,
            ).contains(Join { kind: ns, fd: joins[ns] }),
        forall|i: int|
            0 <= i < joins_below(joins, upto).len() ==> {
                let join = #[trigger] joins_below(joins, upto)[i];
                &&& joins.dom().contains(join.kind)
                &&& joins[join.kind] == join.fd
                &&& join.kind.spec_rank() < upto
            },
        forall|i: int, j: int|
            0 <= i < j < joins_below(joins, upto).len() ==> (#[trigger] joins_below(
                joins,
                upto,
            )[i]).kind.spec_rank() < (#[trigger] joins_below(joins, upto)[j]).kind.spec_rank(),
    decreases upto,
{
    if upto > 0 {
        lemma_joins_below(joins, upto - 1);
        let before = joins_below(joins, upto - 1);
        let kind = kind_at(upto - 1);
        let now = joins_below(joins, upto);
        assert(now == before + join_if(joins, kind));
        assert(kind.spec_rank() == upto - 1);
        assert forall|ns: Namespace| #[trigger]
            joins.dom().contains(ns) && ns.spec_rank() < upto implies now.contains(
            Join { kind: ns, fd: joins[ns] },
        ) by {
            let want = Join { kind: ns, fd: joins[ns] };
            if ns.spec_rank() < upto - 1 {
                let at = choose|at: int| 0 <= at < before.len() && before[at] == want;
                assert(now[at] == want);
            } else {
                assert(ns == kind);
                assert(now[before.len() as int] == want);
            }
        }
        assert forall|i: int| 0 <= i < now.len() implies {
            let join = #[trigger] now[i];
            &&& joins.dom().contains(join.kind)
            &&& joins[join.kind] == join.fd
            &&& join.kind.spec_rank() < upto
        } by {
            if i < before.len() {
                assert(now[i] == before[i]);
            }
        }
        assert forall|i: int, j: int| 0 <= i < j < now.len() implies (#[trigger] now[i]).kind.spec_rank()
            < (#[trigger] now[j]).kind.spec_rank() by {
            assert(now[i] == before[i]);
            if j < before.len() {
                assert(now[j] == before[j]);
            }
        }
    }
}

/// The sequence of joins holds each requested join once, nothing else, and
/// is ordered by rank; so a user namespace, if one is joined, is joined
/// before any other.
pub proof fn lemma_join_sequence(joins: Map<Namespace, i32>)
    ensures
        forall|ns: Namespace| #[trigger]
            joins.dom().contains(ns) ==> join_sequence(joins).contains(
                Join { kind: ns, fd: joins[ns] },
            ),
        forall|i: int|
            0 <= i < join_sequence(joins).len() ==> {
                let join = #[trigger] join_sequence(joins)[i];
                joins.dom().contains(join.kind) && joins[join.kind] == join.fd
            },
        forall|i: int, j: int|
            0 <= i < j < join_sequence(joins).len() ==> (#[trigger] join_sequence(
                joins,
            )[i]).kind.spec_rank() < (#[trigger] join_sequence(joins)[j]).kind.spec_rank(),
        joins.dom().contains(Namespace::User) ==> join_sequence(joins).len() > 0
            && join_sequence(joins)[0].kind == Namespace::User,
{
    lemma_joins_below(joins, KINDS as int);
    let s = join_sequence(joins);
    assert forall|ns: Namespace| #[trigger] joins.dom().contains(ns) implies s.contains(
        Join { kind: ns, fd: joins[ns] },
    ) by {
        assert(ns.spec_rank() < KINDS);
    }
    if joins.dom().contains(Namespace::User) {
        let want = Join { kind: Namespace::User, fd: joins[Namespace::User] };
        assert(Namespace::User.spec_rank() < KINDS);
        assert(s.contains(want));
        let at = choose|at: int| 0 <= at < s.len() && s[at] == want;
        if at > 0 {
            assert(s[0].kind.spec_rank() < s[at].kind.spec_rank());
        }
    }
}

/// Whether `joins` asks for a namespace to be joined by the descriptor
/// `fd`.
pub open spec fn joined(joins: Map<Namespace, i32>, fd: i32) -> bool {
    exists|ns: Namespace| #[trigger] joins.dom().contains(ns) && joins[ns] == fd
}

/// The namespaces that the child joins, each by a descriptor; at most one
/// of a kind.
#[derive(Clone, Copy, Debug, PartialEq, Eq)]
pub struct JoinMap {
    mount: Option<i32>,
    uts: Option<i32>,
    ipc: Option<i32>,
    user: Option<i32>,
    pid: Option<i32>,
    net: Option<i32>,
    cgroup: Option<i32>,
}

impl JoinMap {
    /// The descriptor by which a namespace of kind `ns` is joined, if any.
    pub closed spec fn slot(&self, ns: Namespace) -> Option<i32> {
        match ns {
            Namespace::Mount => self.mount,
            Namespace::Uts => self.uts,
            Namespace::Ipc => self.ipc,
            Namespace::User => self.user,
            Namespace::Pid => self.pid,
            Namespace::Net => self.net,
            Namespace::Cgroup => self.cgroup,
        }
    }

    /// The joins as a map from kind to descriptor.
    pub open spec fn view(&self) -> Map<Namespace, i32> {
        Map::new(|ns: Namespace| self.slot(ns) is Some, |ns: Namespace| self.slot(ns).unwrap())
    }

    /// No join at all.
    pub fn new() -> (joins: JoinMap)
        ensures
            joins@ == Map::<Namespace, i32>::empty(),
    {
        let joins = JoinMap {
            mount: None,
            uts: None,
            ipc: None,
            user: None,
            pid: None,
            net: None,
            cgroup: None,
        };
        assert(joins@ =~= Map::<Namespace, i32>::empty());
        joins
    }

    /// The descriptor by which a namespace of kind `ns` is joined, if any.
    pub fn get(&self, ns: Namespace) -> (fd: Option<i32>)
        ensures
            fd == (if self@.dom().contains(ns) {
                Some(self@[ns])
            } else {
                None
            }),
    {
        match ns {
            Namespace::Mount => self.mount,
            Namespace::Uts => self.uts,
            Namespace::Ipc => self.ipc,
            Namespace::User => self.user,
            Namespace::Pid => self.pid,
            Namespace::Net => self.net,
            Namespace::Cgroup => self.cgroup,
        }
    }

    /// Asks for the namespace of kind `ns` behind `fd` to be joined. A
    /// descriptor given earlier for the same kind is handed back: it is no
    /// longer consumed by the child, so its owner has to close it.
    pub fn insert(&mut self, ns: Namespace, fd: i32) -> (replaced: Option<i32>)
        ensures
            final(self)@ == old(self)@.insert(ns, fd),
            replaced == (if old(self)@.dom().contains(ns) {
                Some(old(self)@[ns])
            } else {
                None
            }),
    {
        let replaced = self.get(ns);
        match ns {
            Namespace::Mount => self.mount = Some(fd),
            Namespace::Uts => self.uts = Some(fd),
            Namespace::Ipc => self.ipc = Some(fd),
            Namespace::User => self.user = Some(fd),
            Namespace::Pid => self.pid = Some(fd),
            Namespace::Net => self.net = Some(fd),
            Namespace::Cgroup => self.cgroup = Some(fd),
        }
        assert(self@ =~= old(self)@.insert(ns, fd));
        replaced
    }

    /// Whether a namespace is joined by the descriptor `fd`.
    pub fn joins_by(&self, fd: i32) -> (found: bool)
        ensures
            found == joined(self@, fd),
    {
        let mut rank: u8 = 0;
        while rank < KINDS
            invariant
                rank <= KINDS,
                forall|ns: Namespace|
                    ns.spec_rank() < rank ==> !(#[trigger] self@.dom().contains(ns) && self@[ns]
                        == fd),
            decreases KINDS - rank,
        {
            let kind = Namespace::at_rank(rank);
            if let Some(found) = self.get(kind) {
                if found == fd {
                    assert(self@.dom().contains(kind) && self@[kind] == fd);
                    return true;
                }
            }
            assert forall|ns: Namespace| ns.spec_rank() < rank + 1 implies !(
            #[trigger] self@.dom().contains(ns) && self@[ns] == fd) by {
                if ns.spec_rank() == rank {
                    assert(ns == kind);
                }
            }
            rank = rank + 1;
        }
        assert forall|ns: Namespace| !(#[trigger] self@.dom().contains(ns) && self@[ns] == fd) by {
            assert(ns.spec_rank() < KINDS);
        }
        false
    }

    /// Whether no join is asked for.
    pub fn is_empty(&self) -> (none: bool)
        ensures
            none == (self@.dom() == Set::<Namespace>::empty()),
    {
        let none = self.mount.is_none() && self.uts.is_none() && self.ipc.is_none()
            && self.user.is_none() && self.pid.is_none() && self.net.is_none()
            && self.cgroup.is_none();
        proof {
            if none {
                assert(self@.dom() =~= Set::<Namespace>::empty());
            } else {
                let witness = if self.mount is Some {
                    Namespace::Mount
                } else if self.uts is Some {
                    Namespace::Uts
                } else if self.ipc is Some {
                    Namespace::Ipc
                } else if self.user is Some {
                    Namespace::User
                } else if self.pid is Some {
                    Namespace::Pid
                } else if self.net is Some {
                    Namespace::Net
                } else {
                    Namespace::Cgroup
                };
                assert(self@.dom().contains(witness));
            }
        }
        none
    }

    /// The joins in the order in which the child makes them.
    pub fn sequence(&self) -> (joins: Vec<Join>)
        ensures
            joins@ == join_sequence(self@),
    {
        let mut joins: Vec<Join> = Vec::new();
        let mut rank: u8 = 0;
        while rank < KINDS
            invariant
                rank <= KINDS,
                joins@ == joins_below(self@, rank as int),
            decreases KINDS - rank,
        {
            let kind = Namespace::at_rank(rank);
            if let Some(fd) = self.get(kind) {
                joins.push(Join { kind, fd });
            }
            rank = rank + 1;
            assert(joins@ =~= joins_below(self@, rank as int));
        }
        joins
    }
}

/// The first kind, in the order of joining, that is both created and
/// joined; `None` where the two requests share no kind.
pub open spec fn spec_conflict(create: Set<Namespace>, joins: Set<Namespace>) -> Option<
    Namespace,
> {
    if create.contains(Namespace::User) && joins.contains(Namespace::User) {
        Some(Namespace::User)
    } else if create.contains(Namespace::Cgroup) && joins.contains(Namespace::Cgroup) {
        Some(Namespace::Cgroup)
    } else if create.contains(Namespace::Ipc) && joins.contains(Namespace::Ipc) {
        Some(Namespace::Ipc)
    } else if create.contains(Namespace::Uts) && joins.contains(Namespace::Uts) {
        Some(Namespace::Uts)
    } else if create.contains(Namespace::Net) && joins.contains(Namespace::Net) {
        Some(Namespace::Net)
    } else if create.contains(Namespace::Pid) && joins.contains(Namespace::Pid) {
        Some(Namespace::Pid)
    } else if create.contains(Namespace::Mount) && joins.contains(Namespace::Mount) {
        Some(Namespace::Mount)
    } else {
        None
    }
}

/// A conflict is reported exactly when some kind is both created and
/// joined, and the kind reported is such a kind.
pub proof fn lemma_conflict(create: Set<Namespace>, joins: Set<Namespace>)
    ensures
        spec_conflict(create, joins) is None <==> create.disjoint(joins),
        spec_conflict(create, joins) matches Some(ns) ==> create.contains(ns) && joins.contains(
            ns,
        ),
{
    if spec_conflict(create, joins) is None {
        assert forall|ns: Namespace| !(create.contains(ns) && joins.contains(ns)) by {
            match ns {
                Namespace::Mount => {},
                Namespace::Uts => {},
                Namespace::Ipc => {},
                Namespace::User => {},
                Namespace::Pid => {},
                Namespace::Net => {},
                Namespace::Cgroup => {},
            }
        }
    }
}

/// Looks for a kind that is both created and joined, which no launch may
/// ask for.
pub fn first_conflict(create: &NamespaceSet, joins: &JoinMap) -> (conflict: Option<Namespace>)
    ensures
        conflict == spec_conflict(create@, joins@.dom()),
        conflict is None <==> create@.disjoint(joins@.dom()),
{
    proof {
        lemma_conflict(create@, joins@.dom());
    }
    if create.user && joins.user.is_some() {
        Some(Namespace::User)
    } else if create.cgroup && joins.cgroup.is_some() {
        Some(Namespace::Cgroup)
    } else if create.ipc && joins.ipc.is_some() {
        Some(Namespace::Ipc)
    } else if create.uts && joins.uts.is_some() {
        Some(Namespace::Uts)
    } else if create.net && joins.net.is_some() {
        Some(Namespace::Net)
    } else if create.pid && joins.pid.is_some() {
        Some(Namespace::Pid)
    } else if create.mount && joins.mount.is_some() {
        Some(Namespace::Mount)
    } else {
        None
    }
}

} // verus!
