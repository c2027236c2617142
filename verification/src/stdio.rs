//! What the child finds at each of its descriptors, as the caller asks for
//! it, and what the parent has to prepare for that.

use crate::fds::Wire;
use vstd::prelude::*;

verus! {

/// What the child finds at a descriptor.
#[derive(Clone, Copy, Debug, PartialEq, Eq, Hash, Structural)]
pub enum Fd {
    /// What the parent has at the same number.
    Inherit,
    /// The read end of a new pipe; the parent keeps the write end.
    ReadPipe,
    /// The write end of a new pipe; the parent keeps the read end.
    WritePipe,
    /// Nothing: the descriptor is closed.
    Closed,
    /// What the parent has at this number.
    Fd(i32),
}

/// What the child finds at one of its three standard streams.
#[derive(Clone, Copy, Debug, PartialEq, Eq, Hash, Structural)]
pub enum Stdio {
    /// A new pipe, whose other end the parent keeps.
    Pipe,
    /// The parent's stream.
    Inherit,
    /// Nothing: the stream is closed.
    Closed,
    /// What the parent has at this number.
    Fd(i32),
}

impl Stdio {
    /// A new pipe.
    pub fn piped() -> (stdio: Stdio)
        ensures
            stdio == Stdio::Pipe,
    {
        Stdio::Pipe
    }

    /// The parent's stream.
    pub fn inherit() -> (stdio: Stdio)
        ensures
            stdio == Stdio::Inherit,
    {
        Stdio::Inherit
    }

    /// A closed stream.
    pub fn closed() -> (stdio: Stdio)
        ensures
            stdio == Stdio::Closed,
    {
        Stdio::Closed
    }

    /// What the parent has at the number `fd`.
    pub fn from_fd(fd: i32) -> (stdio: Stdio)
        ensures
            stdio == Stdio::Fd(fd),
    {
        Stdio::Fd(fd)
    }

    /// What the child finds at a stream that it reads from, if
    /// `child_reads`, or writes to: of a pipe it gets the end that fits.
    pub open spec fn spec_to_fd(self, child_reads: bool) -> Fd {
        match self {
            Stdio::Pipe => if child_reads {
                Fd::ReadPipe
            } else {
                Fd::WritePipe
            },
            Stdio::Inherit => Fd::Inherit,
            Stdio::Closed => Fd::Closed,
            Stdio::Fd(fd) => Fd::Fd(fd),
        }
    }

    /// What the child finds at a stream that it reads from, if
    /// `child_reads`, or writes to.
    pub fn to_fd(self, child_reads: bool) -> (fd: Fd)
        ensures
            fd == self.spec_to_fd(child_reads),
    {
        match self {
            Stdio::Pipe => if child_reads {
                Fd::ReadPipe
            } else {
                Fd::WritePipe
            },
            Stdio::Inherit => Fd::Inherit,
            Stdio::Closed => Fd::Closed,
            Stdio::Fd(fd) => Fd::Fd(fd),
        }
    }
}

/// One line of the child's descriptor table: what it finds at `target`.
#[derive(Clone, Copy, Debug, PartialEq, Eq, Hash, Structural)]
pub struct Entry {
    /// The number in the child.
    pub target: i32,
    /// What is found there.
    pub source: Fd,
}

/// The two ends of a pipe that the parent has made.
#[derive(Clone, Copy, Debug, PartialEq, Eq, Hash, Structural)]
pub struct Pipe {
    /// The end to read from.
    pub read: i32,
    /// The end to write to.
    pub write: i32,
}

/// Whether the entry asks for a new pipe.
pub open spec fn wants_pipe(entry: Entry) -> bool {
    entry.source == Fd::ReadPipe || entry.source == Fd::WritePipe
}

/// The number of new pipes that the entries ask for.
pub open spec fn pipe_count(entries: Seq<Entry>) -> nat
    decreases entries.len(),
{
    if entries.len() == 0 {
        0
    } else if wants_pipe(entries.last()) {
        pipe_count(entries.drop_last()) + 1
    } else {
        pipe_count(entries.drop_last())
    }
}

/// What the entries say the child finds at `target`: the last entry for
/// that number decides.
pub open spec fn lookup(entries: Seq<Entry>, target: i32) -> Option<Fd>
    decreases entries.len(),
{
    if entries.len() == 0 {
        None
    } else if entries.last().target == target {
        Some(entries.last().source)
    } else {
        lookup(entries.drop_last(), target)
    }
}

/// Whether an entry speaks of the number `target`.
pub open spec fn known_target(entries: Seq<Entry>, target: i32) -> bool {
    exists|k: int| 0 <= k < entries.len() && (#[trigger] entries[k]).target == target
}

/// Whether no two entries speak of the same number.
pub open spec fn distinct_entries(entries: Seq<Entry>) -> bool {
    forall|i: int, j: int|
        0 <= i < j < entries.len() ==> (#[trigger] entries[i]).target != (
        #[trigger] entries[j]).target
}

/// In a table with one entry for each number, the entry found for a number
/// is that entry.
pub proof fn lemma_lookup(entries: Seq<Entry>, at: int)
    requires
        distinct_entries(entries),
        0 <= at < entries.len(),
    ensures
        lookup(entries, entries[at].target) == Some(entries[at].source),
    decreases entries.len(),
{
    if at < entries.len() - 1 {
        let shorter = entries.drop_last();
        assert(entries[at].target != entries[entries.len() - 1].target);
        assert(shorter[at] == entries[at]);
        assert forall|i: int, j: int| 0 <= i < j < shorter.len() implies (#[trigger] shorter[i]).target
            != (#[trigger] shorter[j]).target by {
            assert(shorter[i] == entries[i]);
            assert(shorter[j] == entries[j]);
        }
        lemma_lookup(shorter, at);
    }
}

/// The table once it says that the child finds `source` at `target`: the
/// entry for that number is replaced where it stands; where there is none,
/// a new entry is added at the end.
pub open spec fn with_entry(entries: Seq<Entry>, target: i32, source: Fd) -> Seq<Entry>
    decreases entries.len(),
{
    if entries.len() == 0 {
        seq![Entry { target, source }]
    } else if entries[0].target == target {
        seq![Entry { target, source }] + entries.drop_first()
    } else {
        seq![entries[0]] + with_entry(entries.drop_first(), target, source)
    }
}

/// Says what the child finds at `target`, in place of what was said of
/// that number before.
pub fn set_entry(entries: &mut Vec<Entry>, target: i32, source: Fd)
    requires
        distinct_entries(old(entries)@),
    ensures
        final(entries)@ == with_entry(old(entries)@, target, source),
        distinct_entries(final(entries)@),
        lookup(final(entries)@, target) == Some(source),
        forall|other: i32|
            other != target ==> lookup(final(entries)@, other) == lookup(old(entries)@, other),
        final(entries).len() == old(entries).len() || final(entries).len() == old(entries).len()
            + 1,
        forall|i: int|
            0 <= i < final(entries).len() ==> (#[trigger] final(entries)@[i]).target == target
                || known_target(old(entries)@, final(entries)@[i].target),
{
    let mut i: usize = 0;
    let ghost all = entries@;
    assert(all.take(0) + with_entry(all.skip(0), target, source) =~= with_entry(
        all,
        target,
        source,
    )) by {
        assert(all.skip(0) =~= all);
    }
    while i < entries.len()
        invariant
            i <= entries.len(),
            entries@ == old(entries)@,
            all == old(entries)@,
            distinct_entries(old(entries)@),
            forall|k: int| 0 <= k < i ==> (#[trigger] entries@[k]).target != target,
            with_entry(all, target, source) == all.take(i as int) + with_entry(
                all.skip(i as int),
                target,
                source,
            ),
        decreases entries.len() - i,
    {
        let ghost rest = all.skip(i as int);
        assert(rest[0] == all[i as int]);
        assert(rest.drop_first() =~= all.skip(i + 1));
        if entries[i].target == target {
            let ghost before = entries@;
            entries.set(i, Entry { target, source });
            proof {
                let after = entries@;
                assert(after =~= all.take(i as int) + (seq![Entry { target, source }]
                    + rest.drop_first()));
                assert forall|a: int, b: int| 0 <= a < b < after.len() implies (#[trigger] after[a]).target
                    != (#[trigger] after[b]).target by {
                    assert(after[a].target == before[a].target);
                    assert(after[b].target == before[b].target);
                }
                lemma_lookup(after, i as int);
                assert forall|other: i32| other != target implies lookup(after, other)
                    == lookup(before, other) by {
                    lemma_lookup_replaced(before, after, i as int, other);
                }
                assert forall|a: int| 0 <= a < after.len() implies (#[trigger] after[a]).target
                    == target || known_target(before, after[a].target) by {
                    assert(before[a].target == after[a].target);
                }
            }
            return ;
        }
        assert(all.take(i as int) + (seq![rest[0]] + with_entry(
            all.skip(i + 1),
            target,
            source,
        )) =~= all.take(i + 1) + with_entry(all.skip(i + 1), target, source));
        i = i + 1;
    }
    let ghost before = entries@;
    entries.push(Entry { target, source });
    proof {
        let after = entries@;
        assert(all.skip(all.len() as int).len() == 0);
        assert(after =~= all.take(all.len() as int) + seq![Entry { target, source }]);
        assert(after.drop_last() =~= before);
        assert forall|a: int, b: int| 0 <= a < b < after.len() implies (#[trigger] after[a]).target
            != (#[trigger] after[b]).target by {
            if b < before.len() {
                assert(after[a] == before[a]);
                assert(after[b] == before[b]);
            } else {
                assert(after[a] == before[a]);
            }
        }
        assert forall|a: int| 0 <= a < after.len() implies (#[trigger] after[a]).target == target
            || known_target(before, after[a].target) by {
            if a < before.len() {
                assert(before[a].target == after[a].target);
            }
        }
    }
}

/// Replacing the source of one entry changes what is found at no other
/// number.
proof fn lemma_lookup_replaced(before: Seq<Entry>, after: Seq<Entry>, at: int, other: i32)
    requires
        0 <= at < before.len(),
        after == before.update(at, Entry { target: before[at].target, source: after[at].source }),
        other != before[at].target,
    ensures
        lookup(after, other) == lookup(before, other),
    decreases before.len(),
{
    let last = before.len() - 1;
    if at == last {
        assert(after.drop_last() =~= before.drop_last());
    } else {
        assert(after.last() == before.last());
        if before.last().target != other {
            assert(after.drop_last() =~= before.drop_last().update(
                at,
                Entry { target: before[at].target, source: after[at].source },
            ));
            lemma_lookup_replaced(before.drop_last(), after.drop_last(), at, other);
        }
    }
}

/// The number of new pipes that the entries ask for.
pub fn pipes_needed(entries: &Vec<Entry>) -> (count: usize)
    ensures
        count == pipe_count(entries@),
{
    let mut count: usize = 0;
    let mut i: usize = 0;
    while i < entries.len()
        invariant
            i <= entries.len(),
            count == pipe_count(entries@.take(i as int)),
            count <= i,
        decreases entries.len() - i,
    {
        assert(entries@.take(i + 1).drop_last() =~= entries@.take(i as int));
        match entries[i].source {
            Fd::ReadPipe | Fd::WritePipe => {
                count = count + 1;
            },
            _ => {},
        }
        i = i + 1;
    }
    assert(entries@.take(entries.len() as int) =~= entries@);
    count
}

/// The wire that an entry asks for, given the pipe that was made for it if
/// it wants one: none for a closed descriptor.
pub open spec fn entry_wire(entry: Entry, pipe: Pipe) -> Seq<Wire> {
    match entry.source {
        Fd::Inherit => seq![Wire { target: entry.target, source: entry.target }],
        Fd::ReadPipe => seq![Wire { target: entry.target, source: pipe.read }],
        Fd::WritePipe => seq![Wire { target: entry.target, source: pipe.write }],
        Fd::Closed => Seq::<Wire>::empty(),
        Fd::Fd(fd) => seq![Wire { target: entry.target, source: fd }],
    }
}

/// The end of a pipe that the parent keeps for an entry, filed under the
/// number that the child has the other end at.
pub open spec fn entry_kept(entry: Entry, pipe: Pipe) -> Seq<Wire> {
    match entry.source {
        Fd::ReadPipe => seq![Wire { target: entry.target, source: pipe.write }],
        Fd::WritePipe => seq![Wire { target: entry.target, source: pipe.read }],
        _ => Seq::<Wire>::empty(),
    }
}

/// The end of a pipe that goes to the child for an entry: the parent closes
/// it once the child exists.
pub open spec fn entry_given(entry: Entry, pipe: Pipe) -> Seq<i32> {
    match entry.source {
        Fd::ReadPipe => seq![pipe.read],
        Fd::WritePipe => seq![pipe.write],
        _ => Seq::<i32>::empty(),
    }
}

/// The descriptor that the child closes for an entry.
pub open spec fn entry_closed(entry: Entry) -> Seq<i32> {
    match entry.source {
        Fd::Closed => seq![entry.target],
        _ => Seq::<i32>::empty(),
    }
}

/// The pipe that belongs to the last of the entries: pipes are handed out
/// in the order of the entries that want one.
pub open spec fn last_pipe(entries: Seq<Entry>, pipes: Seq<Pipe>) -> Pipe {
    pipes[pipe_count(entries.drop_last()) as int]
}

/// The wires that the entries ask for.
pub open spec fn wires_of(entries: Seq<Entry>, pipes: Seq<Pipe>) -> Seq<Wire>
    decreases entries.len(),
{
    if entries.len() == 0 {
        Seq::<Wire>::empty()
    } else {
        wires_of(entries.drop_last(), pipes) + entry_wire(
            entries.last(),
            last_pipe(entries, pipes),
        )
    }
}

/// The ends of pipes that the parent keeps.
pub open spec fn kept_of(entries: Seq<Entry>, pipes: Seq<Pipe>) -> Seq<Wire>
    decreases entries.len(),
{
    if entries.len() == 0 {
        Seq::<Wire>::empty()
    } else {
        kept_of(entries.drop_last(), pipes) + entry_kept(
            entries.last(),
            last_pipe(entries, pipes),
        )
    }
}

/// The ends of pipes that go to the child.
pub open spec fn given_of(entries: Seq<Entry>, pipes: Seq<Pipe>) -> Seq<i32>
    decreases entries.len(),
{
    if entries.len() == 0 {
        Seq::<i32>::empty()
    } else {
        given_of(entries.drop_last(), pipes) + entry_given(
            entries.last(),
            last_pipe(entries, pipes),
        )
    }
}

/// The descriptors that the child closes.
pub open spec fn closed_of(entries: Seq<Entry>) -> Seq<i32>
    decreases entries.len(),
{
    if entries.len() == 0 {
        Seq::<i32>::empty()
    } else {
        closed_of(entries.drop_last()) + entry_closed(entries.last())
    }
}

/// Whether no two entries speak of the same number.
pub fn entries_distinct(entries: &Vec<Entry>) -> (ok: bool)
    ensures
        ok == distinct_entries(entries@),
{
    let mut i: usize = 0;
    while i < entries.len()
        invariant
            i <= entries.len(),
            distinct_entries(entries@.take(i as int)),
        decreases entries.len() - i,
    {
        let target = entries[i].target;
        let mut j: usize = 0;
        while j < i
            invariant
                j <= i < entries.len(),
                target == entries@[i as int].target,
                forall|k: int| 0 <= k < j ==> (#[trigger] entries@[k]).target != target,
            decreases i - j,
        {
            if entries[j].target == target {
                return false;
            }
            j = j + 1;
        }
        proof {
            let longer = entries@.take(i + 1);
            assert forall|a: int, b: int| 0 <= a < b < longer.len() implies (#[trigger] longer[a]).target
                != (#[trigger] longer[b]).target by {
                if b < i {
                    assert(entries@.take(i as int)[a] == longer[a]);
                    assert(entries@.take(i as int)[b] == longer[b]);
                } else {
                    assert(longer[a] == entries@[a]);
                }
            }
        }
        i = i + 1;
    }
    assert(entries@.take(entries.len() as int) =~= entries@);
    true
}

/// The least number that lies above every number that the entries speak
/// of, and above the three standard streams.
pub open spec fn floor_of(entries: Seq<Entry>) -> int
    decreases entries.len(),
{
    if entries.len() == 0 {
        3
    } else {
        let below = floor_of(entries.drop_last());
        if entries.last().target >= below {
            entries.last().target + 1
        } else {
            below
        }
    }
}

/// The least number above every number that the entries speak of, and
/// above the three standard streams. From there on the parent places the
/// descriptors that it opens for the launch.
pub fn table_floor(entries: &Vec<Entry>) -> (floor: i32)
    requires
        forall|i: int| 0 <= i < entries.len() ==> (#[trigger] entries@[i]).target < i32::MAX,
    ensures
        floor == floor_of(entries@),
{
    let mut floor: i32 = 3;
    let mut i: usize = 0;
    while i < entries.len()
        invariant
            i <= entries.len(),
            forall|k: int| 0 <= k < entries.len() ==> (#[trigger] entries@[k]).target < i32::MAX,
            floor == floor_of(entries@.take(i as int)),
        decreases entries.len() - i,
    {
        assert(entries@.take(i + 1).drop_last() =~= entries@.take(i as int));
        if entries[i].target >= floor {
            floor = entries[i].target + 1;
        }
        i = i + 1;
    }
    assert(entries@.take(entries.len() as int) =~= entries@);
    floor
}

/// Every number that the entries speak of lies below their floor.
pub proof fn lemma_floor_of(entries: Seq<Entry>)
    ensures
        floor_of(entries) >= 3,
        forall|i: int| 0 <= i < entries.len() ==> (#[trigger] entries[i]).target < floor_of(entries),
    decreases entries.len(),
{
    if entries.len() > 0 {
        let shorter = entries.drop_last();
        lemma_floor_of(shorter);
        assert forall|i: int| 0 <= i < entries.len() implies (#[trigger] entries[i]).target
            < floor_of(entries) by {
            if i < shorter.len() {
                assert(shorter[i] == entries[i]);
            }
        }
    }
}

/// The floor of entries whose numbers all lie below `limit` is `limit` at
/// most.
pub proof fn lemma_floor_below(entries: Seq<Entry>, limit: int)
    requires
        limit >= 3,
        forall|i: int| 0 <= i < entries.len() ==> (#[trigger] entries[i]).target < limit,
    ensures
        floor_of(entries) <= limit,
    decreases entries.len(),
{
    if entries.len() > 0 {
        let shorter = entries.drop_last();
        assert forall|i: int| 0 <= i < shorter.len() implies (#[trigger] shorter[i]).target
            < limit by {
            assert(shorter[i] == entries[i]);
        }
        lemma_floor_below(shorter, limit);
        assert(entries.last() == entries[entries.len() - 1]);
    }
}

/// Every number that the entries ask to have closed is the number of one
/// of the entries.
pub proof fn lemma_closed_of(entries: Seq<Entry>)
    ensures
        forall|i: int|
            0 <= i < closed_of(entries).len() ==> known_target(
                entries,
                #[trigger] closed_of(entries)[i],
            ),
    decreases entries.len(),
{
    if entries.len() > 0 {
        let shorter = entries.drop_last();
        let before = closed_of(shorter);
        let closed = closed_of(entries);
        lemma_closed_of(shorter);
        assert forall|i: int| 0 <= i < closed.len() implies known_target(
            entries,
            #[trigger] closed[i],
        ) by {
            if i < before.len() {
                assert(closed[i] == before[i]);
                let k = choose|k: int|
                    0 <= k < shorter.len() && (#[trigger] shorter[k]).target == before[i];
                assert(entries[k] == shorter[k]);
            } else {
                assert(closed[i] == entries[entries.len() - 1].target);
            }
        }
    }
}

/// A descriptor at or above the floor of the entries is one that they do
/// not speak of: no wire that they ask for ends there, and they do not ask
/// to have it closed.
pub proof fn lemma_above_floor(entries: Seq<Entry>, pipes: Seq<Pipe>, fd: i32)
    requires
        fd >= floor_of(entries),
    ensures
        !crate::fds::is_target(wires_of(entries, pipes), fd),
        !closed_of(entries).contains(fd),
{
    lemma_floor_of(entries);
    lemma_wires_of(entries, pipes);
    lemma_closed_of(entries);
    let wires = wires_of(entries, pipes);
    if crate::fds::is_target(wires, fd) {
        let at = choose|at: int| 0 <= at < wires.len() && (#[trigger] wires[at]).target == fd;
        assert(known_target(entries, wires[at].target));
    }
    let closed = closed_of(entries);
    if closed.contains(fd) {
        let at = choose|at: int| 0 <= at < closed.len() && closed[at] == fd;
        assert(known_target(entries, closed[at]));
    }
}

/// Every wire that the entries ask for ends at the number of one of the
/// entries; and where no two entries speak of the same number, no two
/// wires end at the same number.
pub proof fn lemma_wires_of(entries: Seq<Entry>, pipes: Seq<Pipe>)
    ensures
        forall|i: int|
            0 <= i < wires_of(entries, pipes).len() ==> known_target(
                entries,
                (#[trigger] wires_of(entries, pipes)[i]).target,
            ),
        distinct_entries(entries) ==> crate::fds::distinct_targets(wires_of(entries, pipes)),
    decreases entries.len(),
{
    if entries.len() > 0 {
        let shorter = entries.drop_last();
        let last = entries.last();
        let before = wires_of(shorter, pipes);
        let wires = wires_of(entries, pipes);
        lemma_wires_of(shorter, pipes);
        assert forall|i: int| 0 <= i < wires.len() implies known_target(
            entries,
            (#[trigger] wires[i]).target,
        ) by {
            if i < before.len() {
                assert(wires[i] == before[i]);
                let k = choose|k: int|
                    0 <= k < shorter.len() && (#[trigger] shorter[k]).target == before[i].target;
                assert(entries[k] == shorter[k]);
            } else {
                assert(wires[i].target == entries[entries.len() - 1].target);
            }
        }
        if distinct_entries(entries) {
            assert forall|i: int, j: int| 0 <= i < j < shorter.len() implies (#[trigger] shorter[i]).target
                != (#[trigger] shorter[j]).target by {
                assert(shorter[i] == entries[i]);
                assert(shorter[j] == entries[j]);
            }
            assert forall|i: int, j: int| 0 <= i < j < wires.len() implies (#[trigger] wires[i]).target
                != (#[trigger] wires[j]).target by {
                assert(wires[i] == before[i]);
                if j < before.len() {
                    assert(wires[j] == before[j]);
                } else {
                    assert(wires[j].target == last.target);
                    let k = choose|k: int|
                        0 <= k < shorter.len() && (#[trigger] shorter[k]).target == before[i].target;
                    assert(entries[k] == shorter[k]);
                    assert(entries[k].target != entries[entries.len() - 1].target);
                }
            }
        }
    }
}

/// What has to happen to the descriptors of a launch.
#[derive(Clone, Debug, PartialEq, Eq)]
pub struct Wiring {
    /// What the child duplicates onto which number.
    pub wires: Vec<Wire>,
    /// What the child closes.
    pub closed: Vec<i32>,
    /// The ends of pipes that the parent keeps, each filed under the number
    /// at which the child has the other end.
    pub kept: Vec<Wire>,
    /// The ends of pipes that the parent closes once the child exists.
    pub given: Vec<i32>,
}

/// Works out what has to happen to the descriptors, once the parent has
/// made the pipes that the entries ask for. `None` where the number of
/// pipes is not the number asked for.
pub fn plan_wiring(entries: &Vec<Entry>, pipes: &Vec<Pipe>) -> (wiring: Option<Wiring>)
    ensures
        wiring is Some <==> pipes.len() == pipe_count(entries@),
        wiring matches Some(w) ==> {
            &&& w.wires@ == wires_of(entries@, pipes@)
            &&& w.closed@ == closed_of(entries@)
            &&& w.kept@ == kept_of(entries@, pipes@)
            &&& w.given@ == given_of(entries@, pipes@)
        },
{
    if pipes_needed(entries) != pipes.len() {
        return None;
    }
    let mut wires: Vec<Wire> = Vec::new();
    let mut closed: Vec<i32> = Vec::new();
    let mut kept: Vec<Wire> = Vec::new();
    let mut given: Vec<i32> = Vec::new();
    let mut used: usize = 0;
    let mut i: usize = 0;
    while i < entries.len()
        invariant
            i <= entries.len(),
            pipes.len() == pipe_count(entries@),
            used == pipe_count(entries@.take(i as int)),
            wires@ == wires_of(entries@.take(i as int), pipes@),
            closed@ == closed_of(entries@.take(i as int)),
            kept@ == kept_of(entries@.take(i as int), pipes@),
            given@ == given_of(entries@.take(i as int), pipes@),
        decreases entries.len() - i,
    {
        let entry = entries[i];
        proof {
            let longer = entries@.take(i + 1);
            assert(longer.drop_last() =~= entries@.take(i as int));
            assert(longer.last() == entry);
            if wants_pipe(entry) {
                lemma_pipe_count_grows(entries@, i + 1);
            }
        }
        match entry.source {
            Fd::Inherit => {
                wires.push(Wire { target: entry.target, source: entry.target });
            },
            Fd::ReadPipe => {
                let pipe = pipes[used];
                wires.push(Wire { target: entry.target, source: pipe.read });
                kept.push(Wire { target: entry.target, source: pipe.write });
                given.push(pipe.read);
                used = used + 1;
            },
            Fd::WritePipe => {
                let pipe = pipes[used];
                wires.push(Wire { target: entry.target, source: pipe.write });
                kept.push(Wire { target: entry.target, source: pipe.read });
                given.push(pipe.write);
                used = used + 1;
            },
            Fd::Closed => {
                closed.push(entry.target);
            },
            Fd::Fd(fd) => {
                wires.push(Wire { target: entry.target, source: fd });
            },
        }
        i = i + 1;
        proof {
            let now = entries@.take(i as int);
            let pipe = last_pipe(now, pipes@);
            assert(wires@ =~= wires_of(now.drop_last(), pipes@) + entry_wire(entry, pipe));
            assert(closed@ =~= closed_of(now.drop_last()) + entry_closed(entry));
            assert(kept@ =~= kept_of(now.drop_last(), pipes@) + entry_kept(entry, pipe));
            assert(given@ =~= given_of(now.drop_last(), pipes@) + entry_given(entry, pipe));
        }
    }
    assert(entries@.take(entries.len() as int) =~= entries@);
    Some(Wiring { wires, closed, kept, given })
}

/// The beginning of a table asks for no more pipes than the whole table.
pub proof fn lemma_pipe_count_grows(entries: Seq<Entry>, upto: int)
    requires
        0 <= upto <= entries.len(),
    ensures
        pipe_count(entries.take(upto)) <= pipe_count(entries),
    decreases entries.len() - upto,
{
    if upto < entries.len() {
        lemma_pipe_count_grows(entries, upto + 1);
        assert(entries.take(upto + 1).drop_last() =~= entries.take(upto));
    } else {
        assert(entries.take(upto) =~= entries);
    }
}

/// The end that the parent keeps of the pipe at the child's number
/// `target`, if there is one.
pub open spec fn kept_at(kept: Seq<Wire>, target: i32) -> Option<i32>
    decreases kept.len(),
{
    if kept.len() == 0 {
        None
    } else if kept[0].target == target {
        Some(kept[0].source)
    } else {
        kept_at(kept.drop_first(), target)
    }
}

/// The end that the parent keeps of the pipe at the child's number
/// `target`.
pub fn find_kept(kept: &Vec<Wire>, target: i32) -> (end: Option<i32>)
    ensures
        end == kept_at(kept@, target),
{
    let mut i: usize = 0;
    assert(kept@.skip(0) =~= kept@);
    while i < kept.len()
        invariant
            i <= kept.len(),
            kept_at(kept@, target) == kept_at(kept@.skip(i as int), target),
        decreases kept.len() - i,
    {
        let ghost rest = kept@.skip(i as int);
        assert(rest[0] == kept@[i as int]);
        assert(rest.drop_first() =~= kept@.skip(i + 1));
        if kept[i].target == target {
            return Some(kept[i].source);
        }
        i = i + 1;
    }
    assert(kept@.skip(kept.len() as int).len() == 0);
    None
}

} // verus!
