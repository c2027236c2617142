//! Wiring the child's file descriptors: which descriptor of the parent
//! shows up under which number in the child, and what is closed.
//!
//! Descriptors are put in place by duplicating them onto their target
//! numbers, one after the other. A duplication overwrites its target, so a
//! descriptor that is still needed must not sit on a number that another
//! one is moved to. The parent therefore first duplicates every such
//! descriptor to a number above all targets; after that the order of the
//! child's duplications does not matter.

use crate::action::Action;
use vstd::prelude::*;

verus! {

/// The numbers that a descriptor can have lie below this.
pub const FD_LIMIT: i32 = 0x4000_0000;

/// One wire: the child's descriptor `target` is to be what the descriptor
/// `source` is when the child starts.
#[derive(Clone, Copy, Debug, PartialEq, Eq, Hash, Structural)]
pub struct Wire {
    /// The number in the child.
    pub target: i32,
    /// The number at the child's start.
    pub source: i32,
}

/// A descriptor that the parent has duplicated out of the way: what was
/// `from` is also found at `to`.
#[derive(Clone, Copy, Debug, PartialEq, Eq, Hash, Structural)]
pub struct Move {
    /// The descriptor that was duplicated.
    pub from: i32,
    /// The duplicate.
    pub to: i32,
}

/// The descriptors from `from` up to, not including, `to`.
#[derive(Clone, Copy, Debug, PartialEq, Eq, Hash, Structural)]
pub struct Span {
    /// The first descriptor.
    pub from: i32,
    /// The descriptor after the last.
    pub to: i32,
}

/// Whether `fd` is the target of a wire.
pub open spec fn is_target(wires: Seq<Wire>, fd: i32) -> bool {
    exists|i: int| 0 <= i < wires.len() && (#[trigger] wires[i]).target == fd
}

/// Whether no two wires have the same target.
pub open spec fn distinct_targets(wires: Seq<Wire>) -> bool {
    forall|i: int, j: int|
        0 <= i < j < wires.len() ==> (#[trigger] wires[i]).target != (#[trigger] wires[j]).target
}

/// Whether the targets are numbers that a descriptor can have.
pub open spec fn targets_in_range(wires: Seq<Wire>) -> bool {
    forall|i: int| 0 <= i < wires.len() ==> 0 <= (#[trigger] wires[i]).target < FD_LIMIT
}

/// Whether the descriptor `fd` is overwritten when the wires are carried
/// out: some wire moves another descriptor onto that number. A wire that
/// leaves a descriptor on its number overwrites nothing.
pub open spec fn overwritten(wires: Seq<Wire>, fd: i32) -> bool {
    exists|i: int|
        0 <= i < wires.len() && (#[trigger] wires[i]).target == fd && wires[i].source != fd
}

/// Whether a wire is in the way of another: its source sits on a number
/// that is overwritten, and it is not that source's own number.
pub open spec fn collides(wires: Seq<Wire>, wire: Wire) -> bool {
    wire.source != wire.target && overwritten(wires, wire.source)
}

/// Whether no wire is in the way of another.
pub open spec fn settled(wires: Seq<Wire>) -> bool {
    forall|i: int| 0 <= i < wires.len() ==> !collides(wires, #[trigger] wires[i])
}

/// The instruction that carries out a wire: a duplication, or, where the
/// descriptor already sits on its number, the order to keep it open.
pub open spec fn wire_action(wire: Wire) -> Action {
    if wire.source == wire.target {
        Action::KeepOpen { fd: wire.target }
    } else {
        Action::Dup { source: wire.source, target: wire.target }
    }
}

/// The instructions that carry out the wires, in their order.
pub open spec fn wire_actions(wires: Seq<Wire>) -> Seq<Action> {
    Seq::new(wires.len(), |i: int| wire_action(wires[i]))
}

/// The instructions that close the spans, in their order.
pub open spec fn span_actions(spans: Seq<Span>) -> Seq<Action> {
    Seq::new(spans.len(), |i: int| Action::CloseRange { from: spans[i].from, to: spans[i].to })
}

/// The instructions that close the descriptors, in their order.
pub open spec fn close_actions(fds: Seq<i32>) -> Seq<Action> {
    Seq::new(fds.len(), |i: int| Action::Close { fd: fds[i] })
}

/// What an instruction does to the open descriptors of a process, each
/// of which refers to an open file, here a number. Instructions that touch
/// no descriptor leave them as they are, and so does a duplication of a
/// descriptor that is not open, which fails.
pub open spec fn apply(open: Map<i32, int>, action: Action) -> Map<i32, int> {
    match action {
        Action::Dup { source, target } => if open.dom().contains(source) {
            open.insert(target, open[source])
        } else {
            open
        },
        Action::Close { fd } => open.remove(fd),
        Action::CloseRange { from, to } => open.restrict(
            Set::new(|fd: i32| !(from <= fd < to)),
        ),
        _ => open,
    }
}

/// What a list of instructions does to the open descriptors of a process.
pub open spec fn run(open: Map<i32, int>, actions: Seq<Action>) -> Map<i32, int>
    decreases actions.len(),
{
    if actions.len() == 0 {
        open
    } else {
        apply(run(open, actions.drop_last()), actions.last())
    }
}

/// The child's descriptors after the first `upto` of the wires are carried
/// out: the targets so far hold what their sources held at the start, and
/// every other descriptor is as it was.
proof fn lemma_wired_so_far(wires: Seq<Wire>, open: Map<i32, int>, upto: int)
    requires
        distinct_targets(wires),
        settled(wires),
        forall|i: int| 0 <= i < wires.len() ==> open.dom().contains((#[trigger] wires[i]).source),
        0 <= upto <= wires.len(),
    ensures
        forall|i: int|
            0 <= i < upto ==> {
                let after = run(open, wire_actions(wires.take(upto)));
                &&& after.dom().contains((#[trigger] wires[i]).target)
                &&& after[wires[i].target] == open[wires[i].source]
            },
        forall|fd: i32|
            !overwritten(wires.take(upto), fd) ==> {
                let after = run(open, wire_actions(wires.take(upto)));
                &&& after.dom().contains(fd) == open.dom().contains(fd)
                &&& after[fd] == open[fd]
            },
    decreases upto,
{
    let now = wires.take(upto);
    let after = run(open, wire_actions(now));
    if upto == 0 {
        assert(wire_actions(now).len() == 0);
    } else {
        lemma_wired_so_far(wires, open, upto - 1);
        let earlier = wires.take(upto - 1);
        let before = run(open, wire_actions(earlier));
        let wire = wires[upto - 1];
        assert(wire_actions(now).drop_last() =~= wire_actions(earlier));
        assert(wire_actions(now).last() == wire_action(wire));
        assert(after == apply(before, wire_action(wire)));
        assert(now[upto - 1] == wire);
        // The source of this wire has not been touched.
        assert(!overwritten(earlier, wire.source)) by {
            if overwritten(earlier, wire.source) {
                let at = choose|at: int|
                    0 <= at < earlier.len() && (#[trigger] earlier[at]).target == wire.source
                        && earlier[at].source != wire.source;
                assert(wires[at].target == wire.source && wires[at].source != wire.source);
                if wire.source == wire.target {
                    assert(wires[at].target != wires[upto - 1].target);
                } else {
                    assert(collides(wires, wires[upto - 1]));
                }
            }
        }
        assert(before.dom().contains(wire.source) && before[wire.source] == open[wire.source]);
        assert forall|i: int| 0 <= i < upto implies {
            &&& after.dom().contains((#[trigger] wires[i]).target)
            &&& after[wires[i].target] == open[wires[i].source]
        } by {
            if i < upto - 1 {
                assert(wires[i].target != wires[upto - 1].target);
            }
        }
        assert forall|fd: i32| !overwritten(now, fd) implies {
            &&& after.dom().contains(fd) == open.dom().contains(fd)
            &&& after[fd] == open[fd]
        } by {
            if wire.source != wire.target {
                assert(fd != wire.target);
            }
            if overwritten(earlier, fd) {
                let at = choose|at: int|
                    0 <= at < earlier.len() && (#[trigger] earlier[at]).target == fd
                        && earlier[at].source != fd;
                assert(now[at].target == fd && now[at].source != fd);
            }
        }
    }
}

/// The wires do what they say. Where no two wires have the same target, no
/// wire is in the way of another, and every source is open when the child
/// starts, then once the child has carried the wires out each target holds
/// what its source held at the start, and a descriptor that is not
/// overwritten is as it was.
pub proof fn lemma_descriptors_arrive(wires: Seq<Wire>, open: Map<i32, int>)
    requires
        distinct_targets(wires),
        settled(wires),
        forall|i: int| 0 <= i < wires.len() ==> open.dom().contains((#[trigger] wires[i]).source),
    ensures
        forall|i: int|
            0 <= i < wires.len() ==> {
                let after = run(open, wire_actions(wires));
                &&& after.dom().contains((#[trigger] wires[i]).target)
                &&& after[wires[i].target] == open[wires[i].source]
            },
        forall|fd: i32|
            !overwritten(wires, fd) ==> {
                let after = run(open, wire_actions(wires));
                &&& after.dom().contains(fd) == open.dom().contains(fd)
                &&& after[fd] == open[fd]
            },
{
    lemma_wired_so_far(wires, open, wires.len() as int);
    assert(wires.take(wires.len() as int) =~= wires);
}

/// Whether the descriptor `fd` is overwritten when the wires are carried
/// out.
pub fn overwrites(wires: &Vec<Wire>, fd: i32) -> (found: bool)
    ensures
        found == overwritten(wires@, fd),
{
    let mut i: usize = 0;
    while i < wires.len()
        invariant
            i <= wires.len(),
            forall|k: int|
                0 <= k < i ==> !((#[trigger] wires@[k]).target == fd && wires@[k].source != fd),
        decreases wires.len() - i,
    {
        if wires[i].target == fd && wires[i].source != fd {
            return true;
        }
        i = i + 1;
    }
    false
}

/// Whether `fd` is the target of a wire.
pub fn targeted(wires: &Vec<Wire>, fd: i32) -> (found: bool)
    ensures
        found == is_target(wires@, fd),
{
    let mut i: usize = 0;
    while i < wires.len()
        invariant
            i <= wires.len(),
            forall|k: int| 0 <= k < i ==> (#[trigger] wires@[k]).target != fd,
        decreases wires.len() - i,
    {
        if wires[i].target == fd {
            return true;
        }
        i = i + 1;
    }
    false
}

/// Whether no two wires have the same target and every target is a number
/// that a descriptor can have.
pub fn well_formed(wires: &Vec<Wire>) -> (ok: bool)
    ensures
        ok == (distinct_targets(wires@) && targets_in_range(wires@)),
{
    let mut i: usize = 0;
    while i < wires.len()
        invariant
            i <= wires.len(),
            distinct_targets(wires@.take(i as int)),
            targets_in_range(wires@.take(i as int)),
        decreases wires.len() - i,
    {
        let target = wires[i].target;
        if target < 0 || target >= FD_LIMIT {
            return false;
        }
        let mut j: usize = 0;
        while j < i
            invariant
                j <= i < wires.len(),
                target == wires@[i as int].target,
                forall|k: int| 0 <= k < j ==> (#[trigger] wires@[k]).target != target,
            decreases i - j,
        {
            if wires[j].target == target {
                return false;
            }
            j = j + 1;
        }
        proof {
            let longer = wires@.take(i + 1);
            assert forall|a: int, b: int| 0 <= a < b < longer.len() implies (#[trigger] longer[a]).target
                != (#[trigger] longer[b]).target by {
                if b < i {
                    assert(wires@.take(i as int)[a] == longer[a]);
                    assert(wires@.take(i as int)[b] == longer[b]);
                } else {
                    assert(longer[a] == wires@[a]);
                }
            }
            assert forall|a: int| 0 <= a < longer.len() implies 0 <= (#[trigger] longer[a]).target
                < FD_LIMIT by {
                if a < i {
                    assert(wires@.take(i as int)[a] == longer[a]);
                }
            }
        }
        i = i + 1;
    }
    assert(wires@.take(wires.len() as int) =~= wires@);
    true
}

/// The number from which on the parent places the duplicates of
/// descriptors that are in the way: above every target, and above the three
/// standard streams.
pub fn floor(wires: &Vec<Wire>) -> (floor: i32)
    requires
        targets_in_range(wires@),
    ensures
        3 <= floor <= FD_LIMIT,
        forall|i: int| 0 <= i < wires.len() ==> (#[trigger] wires@[i]).target < floor,
        floor == 3 || is_target(wires@, (floor - 1) as i32),
{
    let mut floor: i32 = 3;
    let mut i: usize = 0;
    while i < wires.len()
        invariant
            i <= wires.len(),
            targets_in_range(wires@),
            3 <= floor <= FD_LIMIT,
            forall|k: int| 0 <= k < i ==> (#[trigger] wires@[k]).target < floor,
            floor == 3 || is_target(wires@, (floor - 1) as i32),
        decreases wires.len() - i,
    {
        if wires[i].target >= floor {
            floor = wires[i].target + 1;
            assert(wires@[i as int].target == floor - 1);
        }
        i = i + 1;
    }
    floor
}

/// Whether a wire starts or ends at `fd`.
pub open spec fn touches(wires: Seq<Wire>, fd: i32) -> bool {
    exists|i: int|
        0 <= i < wires.len() && ((#[trigger] wires[i]).target == fd || wires[i].source == fd)
}

/// Whether a wire starts or ends at `fd`.
pub fn touching(wires: &Vec<Wire>, fd: i32) -> (found: bool)
    ensures
        found == touches(wires@, fd),
{
    let mut i: usize = 0;
    while i < wires.len()
        invariant
            i <= wires.len(),
            forall|k: int|
                0 <= k < i ==> (#[trigger] wires@[k]).target != fd && wires@[k].source != fd,
        decreases wires.len() - i,
    {
        if wires[i].target == fd || wires[i].source == fd {
            return true;
        }
        i = i + 1;
    }
    false
}

/// Whether an instruction does something to the descriptor `fd`: closes
/// it, puts another descriptor in its place, duplicates it, or lets it stay
/// open when the program image is replaced.
pub open spec fn disturbs(action: Action, fd: i32) -> bool {
    match action {
        Action::Join(join) => join.fd == fd,
        Action::Dup { source, target } => source == fd || target == fd,
        Action::KeepOpen { fd: kept } => kept == fd,
        Action::Close { fd: closed } => closed == fd,
        Action::CloseRange { from, to } => from <= fd < to,
        _ => false,
    }
}

/// Whether `list` holds `fd`.
pub fn listed(list: &Vec<i32>, fd: i32) -> (found: bool)
    ensures
        found == list@.contains(fd),
{
    let mut k: usize = 0;
    while k < list.len()
        invariant
            k <= list.len(),
            forall|m: int| 0 <= m < k ==> list@[m] != fd,
        decreases list.len() - k,
    {
        if list[k] == fd {
            return true;
        }
        k = k + 1;
    }
    false
}

/// The descriptors that are in the way among the sources of the first
/// `upto` wires, each once, in the order in which the wires first name
/// them.
pub open spec fn collisions(wires: Seq<Wire>, upto: int) -> Seq<i32>
    decreases upto,
{
    if upto <= 0 {
        Seq::empty()
    } else {
        let earlier = collisions(wires, upto - 1);
        let wire = wires[upto - 1];
        if collides(wires, wire) && !earlier.contains(wire.source) {
            earlier.push(wire.source)
        } else {
            earlier
        }
    }
}

/// `collisions` holds the sources that are in the way, and none of them
/// twice.
pub proof fn lemma_collisions(wires: Seq<Wire>, upto: int)
    requires
        0 <= upto <= wires.len(),
    ensures
        forall|fd: i32|
            collisions(wires, upto).contains(fd) <==> exists|i: int|
                0 <= i < upto && collides(wires, #[trigger] wires[i]) && wires[i].source == fd,
        collisions(wires, upto).no_duplicates(),
    decreases upto,
{
    if upto > 0 {
        lemma_collisions(wires, upto - 1);
        let before = collisions(wires, upto - 1);
        let list = collisions(wires, upto);
        let wire = wires[upto - 1];
        assert forall|fd: i32|
            list.contains(fd) <==> exists|i: int|
                0 <= i < upto && collides(wires, #[trigger] wires[i]) && wires[i].source == fd by {
            if before.contains(fd) {
                let at = choose|at: int| 0 <= at < before.len() && before[at] == fd;
                assert(list[at] == fd);
                let i = choose|i: int|
                    0 <= i < upto - 1 && collides(wires, #[trigger] wires[i]) && wires[i].source
                        == fd;
                assert(collides(wires, wires[i]) && wires[i].source == fd);
            }
            if list.contains(fd) && !before.contains(fd) {
                let at = choose|at: int| 0 <= at < list.len() && list[at] == fd;
                if at < before.len() {
                    assert(before[at] == fd);
                }
                assert(fd == wire.source);
                assert(collides(wires, wires[upto - 1]));
            }
            if exists|i: int|
                0 <= i < upto && collides(wires, #[trigger] wires[i]) && wires[i].source == fd {
                let i = choose|i: int|
                    0 <= i < upto && collides(wires, #[trigger] wires[i]) && wires[i].source == fd;
                if i < upto - 1 {
                    assert(before.contains(fd));
                } else if !before.contains(fd) {
                    assert(list[before.len() as int] == fd);
                }
            }
        }
    }
}

/// The descriptors that are in the way and have to be duplicated before
/// the child starts: each source that sits on a number that another wire
/// overwrites, once, in the order in which the wires first name them.
pub fn colliding(wires: &Vec<Wire>) -> (list: Vec<i32>)
    ensures
        list@ == collisions(wires@, wires.len() as int),
        forall|fd: i32|
            list@.contains(fd) <==> exists|i: int|
                0 <= i < wires.len() && collides(wires@, #[trigger] wires@[i]) && wires@[i].source
                    == fd,
        list@.no_duplicates(),
{
    let mut list: Vec<i32> = Vec::new();
    let mut n: usize = 0;
    while n < wires.len()
        invariant
            n <= wires.len(),
            list@ == collisions(wires@, n as int),
        decreases wires.len() - n,
    {
        let wire = wires[n];
        if wire.source != wire.target && overwrites(wires, wire.source) && !listed(
            &list,
            wire.source,
        ) {
            list.push(wire.source);
        }
        n = n + 1;
    }
    proof {
        lemma_collisions(wires@, wires.len() as int);
    }
    list
}

/// The duplicate of `fd` that the moves name: the target of the first move
/// from `fd`.
pub open spec fn moved_to(moves: Seq<Move>, fd: i32) -> Option<i32>
    decreases moves.len(),
{
    if moves.len() == 0 {
        None
    } else if moves[0].from == fd {
        Some(moves[0].to)
    } else {
        moved_to(moves.drop_first(), fd)
    }
}

/// The wire as it is once the parent has made its duplicates: a wire that
/// was in the way takes its source from the duplicate.
pub open spec fn rewired(wires: Seq<Wire>, moves: Seq<Move>, wire: Wire) -> Wire {
    if collides(wires, wire) {
        match moved_to(moves, wire.source) {
            Some(to) => Wire { target: wire.target, source: to },
            None => wire,
        }
    } else {
        wire
    }
}

/// Whether the moves clear the way: every wire that is in the way has a
/// duplicate, and that duplicate sits on no target.
pub open spec fn clears(wires: Seq<Wire>, moves: Seq<Move>) -> bool {
    forall|i: int|
        0 <= i < wires.len() && collides(wires, #[trigger] wires[i]) ==> {
            &&& moved_to(moves, wires[i].source) is Some
            &&& !is_target(wires, moved_to(moves, wires[i].source).unwrap())
        }
}

/// The duplicate of `fd` that the moves name.
fn find_move(moves: &Vec<Move>, fd: i32) -> (to: Option<i32>)
    ensures
        to == moved_to(moves@, fd),
{
    let mut i: usize = 0;
    assert(moves@.skip(0) =~= moves@);
    while i < moves.len()
        invariant
            i <= moves.len(),
            moved_to(moves@, fd) == moved_to(moves@.skip(i as int), fd),
        decreases moves.len() - i,
    {
        let ghost rest = moves@.skip(i as int);
        assert(rest[0] == moves@[i as int]);
        assert(rest.drop_first() =~= moves@.skip(i + 1));
        if moves[i].from == fd {
            return Some(moves[i].to);
        }
        i = i + 1;
    }
    assert(moves@.skip(moves.len() as int).len() == 0);
    None
}

/// The wires as they are once the parent has duplicated the descriptors
/// that were in the way. `None` where the moves do not clear the way.
pub fn relocate(wires: &Vec<Wire>, moves: &Vec<Move>) -> (out: Option<Vec<Wire>>)
    ensures
        out is Some <==> clears(wires@, moves@),
        out matches Some(list) ==> {
            &&& list.len() == wires.len()
            &&& forall|i: int|
                0 <= i < wires.len() ==> #[trigger] list@[i] == rewired(wires@, moves@, wires@[i])
            &&& settled(list@)
            &&& distinct_targets(wires@) ==> distinct_targets(list@)
            &&& targets_in_range(wires@) ==> targets_in_range(list@)
        },
{
    let mut list: Vec<Wire> = Vec::new();
    let mut n: usize = 0;
    while n < wires.len()
        invariant
            n <= wires.len(),
            list.len() == n,
            forall|i: int|
                0 <= i < n ==> #[trigger] list@[i] == rewired(wires@, moves@, wires@[i]),
            forall|i: int|
                0 <= i < n && collides(wires@, #[trigger] wires@[i]) ==> {
                    &&& moved_to(moves@, wires@[i].source) is Some
                    &&& !is_target(wires@, moved_to(moves@, wires@[i].source).unwrap())
                },
        decreases wires.len() - n,
    {
        let wire = wires[n];
        if wire.source != wire.target && overwrites(wires, wire.source) {
            match find_move(moves, wire.source) {
                Some(to) => {
                    if targeted(wires, to) {
                        assert(collides(wires@, wires@[n as int]));
                        return None;
                    }
                    list.push(Wire { target: wire.target, source: to });
                },
                None => {
                    assert(collides(wires@, wires@[n as int]));
                    return None;
                },
            }
        } else {
            list.push(wire);
        }
        n = n + 1;
    }
    proof {
        assert forall|i: int| 0 <= i < list.len() implies (#[trigger] list@[i]).target
            == wires@[i].target by {
            assert(list@[i] == rewired(wires@, moves@, wires@[i]));
        }
        assert forall|fd: i32| is_target(list@, fd) == is_target(wires@, fd) by {
            if is_target(list@, fd) {
                let at = choose|at: int| 0 <= at < list@.len() && (#[trigger] list@[at]).target == fd;
                assert(wires@[at].target == fd);
            }
            if is_target(wires@, fd) {
                let at = choose|at: int|
                    0 <= at < wires@.len() && (#[trigger] wires@[at]).target == fd;
                assert(list@[at].target == fd);
            }
        }
        assert forall|i: int| 0 <= i < list.len() implies !collides(list@, #[trigger] list@[i]) by {
            assert(list@[i] == rewired(wires@, moves@, wires@[i]));
            assert(list@[i].target == wires@[i].target);
            let source = list@[i].source;
            if source != list@[i].target && overwritten(list@, source) {
                let at = choose|at: int|
                    0 <= at < list@.len() && (#[trigger] list@[at]).target == source
                        && list@[at].source != source;
                assert(list@[at] == rewired(wires@, moves@, wires@[at]));
                assert(wires@[at].target == source);
                assert(is_target(wires@, source));
                if wires@[at].source == source {
                    assert(!collides(wires@, wires@[at]));
                } else {
                    assert(overwritten(wires@, source));
                }
            }
        }
        if distinct_targets(wires@) {
            assert forall|i: int, j: int| 0 <= i < j < list.len() implies (#[trigger] list@[i]).target
                != (#[trigger] list@[j]).target by {
                assert(list@[i].target == wires@[i].target);
                assert(list@[j].target == wires@[j].target);
            }
        }
        if targets_in_range(wires@) {
            assert forall|i: int| 0 <= i < list.len() implies 0 <= (#[trigger] list@[i]).target
                < FD_LIMIT by {
                assert(list@[i].target == wires@[i].target);
            }
        }
    }
    Some(list)
}

/// Moves whose duplicates all lie at or above the floor clear the way,
/// where there is one for every descriptor that is in the way.
pub proof fn lemma_floor_clears(wires: Seq<Wire>, moves: Seq<Move>, floor: i32)
    requires
        forall|i: int| 0 <= i < wires.len() ==> (#[trigger] wires[i]).target < floor,
        forall|i: int| 0 <= i < moves.len() ==> (#[trigger] moves[i]).to >= floor,
        forall|i: int|
            0 <= i < wires.len() && collides(wires, #[trigger] wires[i]) ==> exists|k: int|
                0 <= k < moves.len() && (#[trigger] moves[k]).from == wires[i].source,
    ensures
        clears(wires, moves),
{
    assert forall|i: int| 0 <= i < wires.len() && collides(wires, #[trigger] wires[i]) implies {
        &&& moved_to(moves, wires[i].source) is Some
        &&& !is_target(wires, moved_to(moves, wires[i].source).unwrap())
    } by {
        let k = choose|k: int| 0 <= k < moves.len() && (#[trigger] moves[k]).from == wires[i].source;
        lemma_moved_to(moves, wires[i].source, k);
        let to = moved_to(moves, wires[i].source).unwrap();
        if is_target(wires, to) {
            let at = choose|at: int| 0 <= at < wires.len() && (#[trigger] wires[at]).target == to;
            assert(wires[at].target < floor);
        }
    }
}

/// Where some move starts at `fd`, `moved_to` names the duplicate of one of
/// them.
proof fn lemma_moved_to(moves: Seq<Move>, fd: i32, at: int)
    requires
        0 <= at < moves.len(),
        moves[at].from == fd,
    ensures
        moved_to(moves, fd) is Some,
        exists|k: int|
            0 <= k < moves.len() && (#[trigger] moves[k]).from == fd && Some(moves[k].to)
                == moved_to(moves, fd),
    decreases moves.len(),
{
    if moves[0].from == fd {
        assert(moves[0].from == fd && Some(moves[0].to) == moved_to(moves, fd));
    } else {
        let rest = moves.drop_first();
        assert(rest[at - 1] == moves[at]);
        lemma_moved_to(rest, fd, at - 1);
        let k = choose|k: int|
            0 <= k < rest.len() && (#[trigger] rest[k]).from == fd && Some(rest[k].to) == moved_to(
                rest,
                fd,
            );
        assert(moves[k + 1] == rest[k]);
    }
}

/// The duplicate that `moved_to` names is the duplicate of one of the
/// moves.
pub proof fn lemma_moved_to_a_move(moves: Seq<Move>, fd: i32)
    requires
        moved_to(moves, fd) is Some,
    ensures
        exists|k: int|
            0 <= k < moves.len() && (#[trigger] moves[k]).to == moved_to(moves, fd).unwrap(),
    decreases moves.len(),
{
    if moves[0].from == fd {
        assert(moves[0].to == moved_to(moves, fd).unwrap());
    } else {
        let rest = moves.drop_first();
        lemma_moved_to_a_move(rest, fd);
        let k = choose|k: int|
            0 <= k < rest.len() && (#[trigger] rest[k]).to == moved_to(rest, fd).unwrap();
        assert(moves[k + 1] == rest[k]);
    }
}

/// Appends to `script` the instructions that carry out the wires.
pub fn push_wire_actions(script: &mut Vec<Action>, wires: &Vec<Wire>)
    ensures
        final(script)@ == old(script)@ + wire_actions(wires@),
{
    let mut i: usize = 0;
    assert(script@ =~= old(script)@ + wire_actions(wires@.take(0)));
    while i < wires.len()
        invariant
            i <= wires.len(),
            script@ == old(script)@ + wire_actions(wires@.take(i as int)),
        decreases wires.len() - i,
    {
        let wire = wires[i];
        if wire.source == wire.target {
            script.push(Action::KeepOpen { fd: wire.target });
        } else {
            script.push(Action::Dup { source: wire.source, target: wire.target });
        }
        i = i + 1;
        assert(script@ =~= old(script)@ + wire_actions(wires@.take(i as int)));
    }
    assert(wires@.take(wires.len() as int) =~= wires@);
}

/// Appends to `script` the instructions that close the descriptors.
pub fn push_close_actions(script: &mut Vec<Action>, fds: &Vec<i32>)
    ensures
        final(script)@ == old(script)@ + close_actions(fds@),
{
    let mut i: usize = 0;
    assert(script@ =~= old(script)@ + close_actions(fds@.take(0)));
    while i < fds.len()
        invariant
            i <= fds.len(),
            script@ == old(script)@ + close_actions(fds@.take(i as int)),
        decreases fds.len() - i,
    {
        script.push(Action::Close { fd: fds[i] });
        i = i + 1;
        assert(script@ =~= old(script)@ + close_actions(fds@.take(i as int)));
    }
    assert(fds@.take(fds.len() as int) =~= fds@);
}

/// Appends to `script` the instructions that close the spans.
pub fn push_span_actions(script: &mut Vec<Action>, spans: &Vec<Span>)
    ensures
        final(script)@ == old(script)@ + span_actions(spans@),
{
    let mut i: usize = 0;
    assert(script@ =~= old(script)@ + span_actions(spans@.take(0)));
    while i < spans.len()
        invariant
            i <= spans.len(),
            script@ == old(script)@ + span_actions(spans@.take(i as int)),
        decreases spans.len() - i,
    {
        script.push(Action::CloseRange { from: spans[i].from, to: spans[i].to });
        i = i + 1;
        assert(script@ =~= old(script)@ + span_actions(spans@.take(i as int)));
    }
    assert(spans@.take(spans.len() as int) =~= spans@);
}

/// Whether `fd` lies in one of the spans.
pub open spec fn in_spans(spans: Seq<Span>, fd: i32) -> bool {
    exists|i: int| 0 <= i < spans.len() && (#[trigger] spans[i]).from <= fd < spans[i].to
}

/// A span more covers what was covered, and the span.
proof fn lemma_in_spans_push(spans: Seq<Span>, span: Span, fd: i32)
    ensures
        in_spans(spans.push(span), fd) == (in_spans(spans, fd) || span.from <= fd < span.to),
{
    let longer = spans.push(span);
    if in_spans(spans, fd) {
        let at = choose|at: int| 0 <= at < spans.len() && (#[trigger] spans[at]).from <= fd < spans[at].to;
        assert(longer[at] == spans[at]);
    }
    if span.from <= fd < span.to {
        assert(longer[spans.len() as int] == span);
    }
    if in_spans(longer, fd) {
        let at = choose|at: int|
            0 <= at < longer.len() && (#[trigger] longer[at]).from <= fd < longer[at].to;
        if at < spans.len() {
            assert(spans[at] == longer[at]);
        }
    }
}

/// What lies in one of two lists of spans lies in the two together.
proof fn lemma_in_spans_add(a: Seq<Span>, b: Seq<Span>, fd: i32)
    ensures
        in_spans(a + b, fd) == (in_spans(a, fd) || in_spans(b, fd)),
{
    let both = a + b;
    if in_spans(a, fd) {
        let at = choose|at: int| 0 <= at < a.len() && (#[trigger] a[at]).from <= fd < a[at].to;
        assert(both[at] == a[at]);
    }
    if in_spans(b, fd) {
        let at = choose|at: int| 0 <= at < b.len() && (#[trigger] b[at]).from <= fd < b[at].to;
        assert(both[a.len() + at] == b[at]);
    }
    if in_spans(both, fd) {
        let at = choose|at: int|
            0 <= at < both.len() && (#[trigger] both[at]).from <= fd < both[at].to;
        if at < a.len() {
            assert(a[at] == both[at]);
        } else {
            assert(b[at - a.len()] == both[at]);
        }
    }
}

/// The first target at or after `from` and below `to`; `to` where there is
/// none.
pub open spec fn run_end(wires: Seq<Wire>, from: int, to: int) -> int
    decreases to - from,
{
    if from >= to {
        to
    } else if is_target(wires, from as i32) {
        from
    } else {
        run_end(wires, from + 1, to)
    }
}

/// The spans that hold the descriptors from `from` up to, not including,
/// `to` that are the target of no wire: each span as long as it can be, by
/// rising numbers.
pub open spec fn cut(wires: Seq<Wire>, from: int, to: int) -> Seq<Span>
    decreases to - from,
{
    if from >= to {
        Seq::<Span>::empty()
    } else {
        let end = run_end(wires, from, to);
        if end <= from {
            cut(wires, from + 1, to)
        } else if end >= to {
            seq![Span { from: from as i32, to: to as i32 }]
        } else {
            seq![Span { from: from as i32, to: end as i32 }] + cut(wires, end + 1, to)
        }
    }
}

/// The spans that are left of `ranges`, one range after the other, once
/// the targets of the wires are cut out of them.
pub open spec fn cuts(ranges: Seq<Span>, wires: Seq<Wire>) -> Seq<Span>
    decreases ranges.len(),
{
    if ranges.len() == 0 {
        Seq::<Span>::empty()
    } else {
        cuts(ranges.drop_last(), wires) + cut(
            wires,
            ranges.last().from as int,
            ranges.last().to as int,
        )
    }
}

/// The wires that stand for descriptors which stay where they are.
pub open spec fn kept_open(fds: Seq<i32>) -> Seq<Wire> {
    Seq::new(fds.len(), |i: int| Wire { target: fds[i], source: fds[i] })
}

/// Where `run_end` lies: no target stands before it, and one stands at it
/// where it lies below `to`.
proof fn lemma_run_end_is(wires: Seq<Wire>, from: int, to: int)
    requires
        i32::MIN <= from <= to <= i32::MAX,
    ensures
        from <= run_end(wires, from, to) <= to,
        forall|fd: i32| from <= fd < run_end(wires, from, to) ==> !is_target(wires, fd),
        run_end(wires, from, to) < to ==> is_target(wires, run_end(wires, from, to) as i32),
    decreases to - from,
{
    if from < to && !is_target(wires, from as i32) {
        lemma_run_end_is(wires, from + 1, to);
        assert forall|fd: i32| from <= fd < run_end(wires, from, to) implies !is_target(
            wires,
            fd,
        ) by {
            if fd == from {
                assert(fd == from as i32);
            }
        }
    }
}

/// The place before which no target stands and at which one stands, or
/// which is `to`, is `run_end`.
proof fn lemma_run_end(wires: Seq<Wire>, from: int, to: int, end: int)
    requires
        i32::MIN <= from <= end <= to <= i32::MAX,
        forall|fd: i32| from <= fd < end ==> !is_target(wires, fd),
        end < to ==> is_target(wires, end as i32),
    ensures
        run_end(wires, from, to) == end,
    decreases end - from,
{
    if from < end {
        assert(!is_target(wires, from as i32));
        lemma_run_end(wires, from + 1, to, end);
    }
}

/// What `cut` holds: the descriptors from `from` up to `to` that are no
/// target, in spans none of which is empty.
pub proof fn lemma_cut(wires: Seq<Wire>, from: int, to: int)
    requires
        i32::MIN <= from,
        to <= i32::MAX,
    ensures
        forall|fd: i32|
            #![trigger in_spans(cut(wires, from, to), fd)]
            in_spans(cut(wires, from, to), fd) <==> from <= fd < to && !is_target(wires, fd),
        forall|i: int|
            0 <= i < cut(wires, from, to).len() ==> (#[trigger] cut(wires, from, to)[i]).from < cut(
                wires,
                from,
                to,
            )[i].to,
    decreases to - from,
{
    let spans = cut(wires, from, to);
    if from < to {
        lemma_run_end_is(wires, from, to);
        let end = run_end(wires, from, to);
        if end <= from {
            lemma_cut(wires, from + 1, to);
            let rest = cut(wires, from + 1, to);
            assert(spans == rest);
            assert(end == from);
            assert(is_target(wires, from as i32));
            assert forall|fd: i32| #![trigger in_spans(spans, fd)]
                in_spans(spans, fd) <==> from <= fd < to && !is_target(wires, fd) by {
                assert(in_spans(rest, fd) <==> from + 1 <= fd < to && !is_target(wires, fd));
                if fd == from {
                    assert(fd == from as i32);
                }
            }
        } else if end >= to {
            let only = Span { from: from as i32, to: to as i32 };
            assert forall|fd: i32| #![trigger in_spans(spans, fd)]
                in_spans(spans, fd) <==> from <= fd < to && !is_target(wires, fd) by {
                if from <= fd < to {
                    assert(spans[0].from <= fd < spans[0].to);
                }
                if in_spans(spans, fd) {
                    let at = choose|at: int|
                        0 <= at < spans.len() && (#[trigger] spans[at]).from <= fd < spans[at].to;
                    assert(spans[at] == only);
                }
            }
        } else {
            lemma_cut(wires, end + 1, to);
            let first = seq![Span { from: from as i32, to: end as i32 }];
            let rest = cut(wires, end + 1, to);
            assert(spans == first + rest);
            assert forall|fd: i32| #![trigger in_spans(spans, fd)]
                in_spans(spans, fd) <==> from <= fd < to && !is_target(wires, fd) by {
                lemma_in_spans_add(first, rest, fd);
                if from <= fd < end {
                    assert(first[0].from <= fd < first[0].to);
                }
                if in_spans(first, fd) {
                    let at = choose|at: int|
                        0 <= at < first.len() && (#[trigger] first[at]).from <= fd < first[at].to;
                    assert(first[at].from == from && first[at].to == end);
                }
                if fd == end {
                    assert(fd == end as i32);
                }
                assert(in_spans(rest, fd) <==> end + 1 <= fd < to && !is_target(wires, fd));
            }
            assert forall|i: int| 0 <= i < spans.len() implies (#[trigger] spans[i]).from
                < spans[i].to by {
                if i > 0 {
                    assert(spans[i] == rest[i - 1]);
                }
            }
        }
    } else {
        assert forall|fd: i32| #![trigger in_spans(spans, fd)]
            in_spans(spans, fd) <==> from <= fd < to && !is_target(wires, fd) by {}
    }
}

/// What `cuts` holds: the descriptors that lie in one of `ranges` and are
/// the target of no wire, in spans none of which is empty.
pub proof fn lemma_cuts(ranges: Seq<Span>, wires: Seq<Wire>)
    ensures
        forall|fd: i32|
            #![trigger in_spans(cuts(ranges, wires), fd)]
            in_spans(cuts(ranges, wires), fd) <==> in_spans(ranges, fd) && !is_target(wires, fd),
        forall|i: int|
            0 <= i < cuts(ranges, wires).len() ==> (#[trigger] cuts(ranges, wires)[i]).from < cuts(
                ranges,
                wires,
            )[i].to,
    decreases ranges.len(),
{
    let spans = cuts(ranges, wires);
    if ranges.len() > 0 {
        let earlier = ranges.drop_last();
        let last = ranges.last();
        let before = cuts(earlier, wires);
        let here = cut(wires, last.from as int, last.to as int);
        lemma_cuts(earlier, wires);
        lemma_cut(wires, last.from as int, last.to as int);
        assert(ranges =~= earlier.push(last));
        assert forall|fd: i32| #![trigger in_spans(spans, fd)]
            in_spans(spans, fd) <==> in_spans(ranges, fd) && !is_target(wires, fd) by {
            lemma_in_spans_add(before, here, fd);
            lemma_in_spans_push(earlier, last, fd);
            assert(in_spans(before, fd) <==> in_spans(earlier, fd) && !is_target(wires, fd));
            assert(in_spans(here, fd) <==> last.from <= fd < last.to && !is_target(wires, fd));
        }
        assert forall|i: int| 0 <= i < spans.len() implies (#[trigger] spans[i]).from
            < spans[i].to by {
            if i < before.len() {
                assert(spans[i] == before[i]);
            } else {
                assert(spans[i] == here[i - before.len()]);
            }
        }
    } else {
        assert forall|fd: i32| #![trigger in_spans(spans, fd)]
            in_spans(spans, fd) <==> in_spans(ranges, fd) && !is_target(wires, fd) by {}
    }
}

/// The targets of wires to which descriptors that stay are added: those of
/// the wires, and those descriptors.
pub proof fn lemma_kept_open(wires: Seq<Wire>, fds: Seq<i32>, fd: i32)
    ensures
        is_target(wires + kept_open(fds), fd) <==> is_target(wires, fd) || fds.contains(fd),
{
    let all = wires + kept_open(fds);
    if is_target(wires, fd) {
        let at = choose|at: int| 0 <= at < wires.len() && (#[trigger] wires[at]).target == fd;
        assert(all[at] == wires[at]);
    }
    if fds.contains(fd) {
        let at = choose|at: int| 0 <= at < fds.len() && fds[at] == fd;
        assert(all[wires.len() + at] == kept_open(fds)[at]);
        assert(all[wires.len() + at].target == fd);
    }
    if is_target(all, fd) {
        let at = choose|at: int| 0 <= at < all.len() && (#[trigger] all[at]).target == fd;
        if at < wires.len() {
            assert(wires[at] == all[at]);
        } else {
            assert(all[at] == kept_open(fds)[at - wires.len()]);
            assert(fds[at - wires.len()] == fd);
        }
    }
}

/// The least target that lies in the span from `from` up to `to`.
fn next_target(wires: &Vec<Wire>, from: i32, to: i32) -> (next: Option<i32>)
    ensures
        match next {
            Some(fd) => from <= fd < to && is_target(wires@, fd) && forall|other: i32|
                from <= other < fd ==> !is_target(wires@, other),
            None => forall|other: i32| from <= other < to ==> !is_target(wires@, other),
        },
{
    let mut best: Option<i32> = None;
    let mut i: usize = 0;
    while i < wires.len()
        invariant
            i <= wires.len(),
            match best {
                Some(fd) => from <= fd < to && is_target(wires@, fd) && forall|k: int|
                    0 <= k < i && from <= (#[trigger] wires@[k]).target ==> fd <= wires@[k].target,
                None => forall|k: int|
                    0 <= k < i ==> !(from <= (#[trigger] wires@[k]).target < to),
            },
        decreases wires.len() - i,
    {
        let target = wires[i].target;
        if from <= target && target < to {
            let better = match best {
                Some(fd) => target < fd,
                None => true,
            };
            if better {
                best = Some(target);
            }
        }
        i = i + 1;
    }
    proof {
        match best {
            Some(fd) => {
                assert forall|other: i32| from <= other < fd implies !is_target(wires@, other) by {
                    if is_target(wires@, other) {
                        let at = choose|at: int|
                            0 <= at < wires@.len() && (#[trigger] wires@[at]).target == other;
                        assert(fd <= wires@[at].target);
                    }
                }
            },
            None => {
                assert forall|other: i32| from <= other < to implies !is_target(wires@, other) by {
                    if is_target(wires@, other) {
                        let at = choose|at: int|
                            0 <= at < wires@.len() && (#[trigger] wires@[at]).target == other;
                        assert(!(from <= wires@[at].target < to));
                    }
                }
            },
        }
    }
    best
}

/// What the child closes before its program image is replaced, where the
/// parent has descriptors that the child needs until then, such as the pipe
/// on which it reports a failure: every descriptor that lies in one of
/// `ranges` and is neither the target of a wire nor one of `reserved`.
pub fn close_spans_but(ranges: &Vec<Span>, wires: &Vec<Wire>, reserved: &Vec<i32>) -> (spans: Vec<
    Span,
>)
    ensures
        spans@ == cuts(ranges@, wires@ + kept_open(reserved@)),
        forall|fd: i32|
            #![trigger in_spans(spans@, fd)]
            in_spans(spans@, fd) <==> in_spans(ranges@, fd) && !is_target(wires@, fd)
                && !reserved@.contains(fd),
        forall|i: int| 0 <= i < spans.len() ==> (#[trigger] spans@[i]).from < spans@[i].to,
{
    let mut spared: Vec<Wire> = Vec::new();
    let mut i: usize = 0;
    while i < wires.len()
        invariant
            i <= wires.len(),
            spared@ == wires@.take(i as int),
        decreases wires.len() - i,
    {
        spared.push(wires[i]);
        i = i + 1;
        assert(spared@ =~= wires@.take(i as int));
    }
    assert(wires@.take(wires.len() as int) =~= wires@);
    let mut k: usize = 0;
    assert(spared@ =~= wires@ + kept_open(reserved@.take(0)));
    while k < reserved.len()
        invariant
            k <= reserved.len(),
            spared@ == wires@ + kept_open(reserved@.take(k as int)),
        decreases reserved.len() - k,
    {
        let fd = reserved[k];
        spared.push(Wire { target: fd, source: fd });
        k = k + 1;
        assert(spared@ =~= wires@ + kept_open(reserved@.take(k as int)));
    }
    assert(reserved@.take(reserved.len() as int) =~= reserved@);
    let spans = close_spans(ranges, &spared);
    proof {
        assert forall|fd: i32| #![trigger in_spans(spans@, fd)]
            in_spans(spans@, fd) <==> in_spans(ranges@, fd) && !is_target(wires@, fd)
                && !reserved@.contains(fd) by {
            lemma_kept_open(wires@, reserved@, fd);
        }
    }
    spans
}

/// What the child closes before its program image is replaced: every
/// descriptor that lies in one of `ranges` and is not the target of a wire.
/// The ranges say what is closed unless it is asked for; a target is what
/// is asked for.
pub fn close_spans(ranges: &Vec<Span>, wires: &Vec<Wire>) -> (spans: Vec<Span>)
    ensures
        spans@ == cuts(ranges@, wires@),
        forall|fd: i32|
            #![trigger in_spans(spans@, fd)]
            in_spans(spans@, fd) <==> in_spans(ranges@, fd) && !is_target(wires@, fd),
        forall|i: int| 0 <= i < spans.len() ==> (#[trigger] spans@[i]).from < spans@[i].to,
{
    let mut spans: Vec<Span> = Vec::new();
    let mut n: usize = 0;
    assert(spans@ =~= cuts(ranges@.take(0), wires@));
    while n < ranges.len()
        invariant
            n <= ranges.len(),
            spans@ == cuts(ranges@.take(n as int), wires@),
        decreases ranges.len() - n,
    {
        let range = ranges[n];
        let ghost done = spans@;
        let ghost whole = cut(wires@, range.from as int, range.to as int);
        let mut cursor: i32 = range.from;
        while cursor < range.to
            invariant
                n < ranges.len(),
                range == ranges@[n as int],
                whole == cut(wires@, range.from as int, range.to as int),
                range.from <= cursor,
                cursor <= range.to || cursor == range.from,
                spans@ + cut(wires@, cursor as int, range.to as int) == done + whole,
            decreases range.to - cursor,
        {
            let ghost before = spans@;
            let ghost rest = cut(wires@, cursor as int, range.to as int);
            match next_target(wires, cursor, range.to) {
                Some(target) => {
                    proof {
                        lemma_run_end(wires@, cursor as int, range.to as int, target as int);
                    }
                    if cursor < target {
                        let span = Span { from: cursor, to: target };
                        spans.push(span);
                        assert(rest == seq![span] + cut(wires@, target + 1, range.to as int));
                        assert(spans@ + cut(wires@, target + 1, range.to as int) =~= before + rest);
                    }
                    cursor = target + 1;
                },
                None => {
                    proof {
                        lemma_run_end(wires@, cursor as int, range.to as int, range.to as int);
                    }
                    let span = Span { from: cursor, to: range.to };
                    spans.push(span);
                    assert(rest == seq![span]);
                    cursor = range.to;
                    assert(spans@ + cut(wires@, cursor as int, range.to as int) =~= before + rest);
                },
            }
        }
        proof {
            let longer = ranges@.take(n + 1);
            assert(longer.drop_last() =~= ranges@.take(n as int));
            assert(longer.last() == range);
            assert(spans@ =~= spans@ + cut(wires@, cursor as int, range.to as int));
        }
        n = n + 1;
    }
    assert(ranges@.take(ranges.len() as int) =~= ranges@);
    proof {
        lemma_cuts(ranges@, wires@);
    }
    spans
}

} // verus!
