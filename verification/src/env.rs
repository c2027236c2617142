//! The environment of the child.

use crate::bytes::{append, decimal, push_decimal, same, stamp_decimal};
use vstd::prelude::*;

verus! {

/// The bytes of room that a slot has after `=`: for the digits of the
/// process id and for the zero byte that ends an entry for the kernel.
pub const SLOT_ROOM: usize = 11;

/// The entry of a variable that carries the process id, as it is made
/// before the process id is known: the name, `=`, and room for the digits
/// and a zero byte, all zero.
pub open spec fn pid_slot(name: Seq<u8>) -> Seq<u8> {
    name + seq![EQUALS] + Seq::new(SLOT_ROOM as nat, |i: int| 0u8)
}

/// Makes the entry of a variable that carries the process id, with room
/// for the digits.
pub fn render_pid_slot(name: &Vec<u8>) -> (slot: Vec<u8>)
    ensures
        slot@ == pid_slot(name@),
{
    let mut slot: Vec<u8> = Vec::new();
    append(&mut slot, name);
    slot.push(EQUALS);
    let mut i: usize = 0;
    assert(slot@ =~= name@ + seq![EQUALS] + Seq::new(0 as nat, |k: int| 0u8));
    while i < SLOT_ROOM
        invariant
            i <= SLOT_ROOM,
            slot@ == name@ + seq![EQUALS] + Seq::new(i as nat, |k: int| 0u8),
        decreases SLOT_ROOM - i,
    {
        slot.push(0);
        i = i + 1;
        assert(slot@ =~= name@ + seq![EQUALS] + Seq::new(i as nat, |k: int| 0u8));
    }
    slot
}

/// Writes the process id `pid` into a slot, from the place `at` on, and a
/// zero byte after it; gives the place of that byte. Nothing is allocated:
/// the child does this once it knows its process id.
pub fn stamp_pid(slot: &mut Vec<u8>, at: usize, pid: u32) -> (end: usize)
    requires
        at + SLOT_ROOM <= old(slot).len(),
    ensures
        end == at + decimal(pid as nat).len(),
        end < old(slot).len(),
        final(slot)@ == old(slot)@.take(at as int) + decimal(pid as nat) + seq![0u8] + old(
            slot,
        )@.skip(end + 1),
{
    let end = stamp_decimal(slot, at, pid);
    slot.set(end, 0);
    assert(slot@ =~= old(slot)@.take(at as int) + decimal(pid as nat) + seq![0u8] + old(
        slot,
    )@.skip(end + 1));
    end
}

/// A slot into which the process id is written after its `=` starts with
/// the entry of the variable with the process id as its value, and a zero
/// byte follows.
pub proof fn lemma_stamped_slot(name: Seq<u8>, pid: nat, stamped: Seq<u8>)
    requires
        stamped == ({
            let at = name.len() as int + 1;
            let end = at + decimal(pid).len();
            pid_slot(name).take(at) + decimal(pid) + seq![0u8] + pid_slot(name).skip(end + 1)
        }),
        decimal(pid).len() < SLOT_ROOM,
    ensures
        ({
            let end = name.len() as int + 1 + decimal(pid).len();
            &&& stamped.take(end) == entry(name, decimal(pid))
            &&& stamped[end] == 0
        }),
{
    let at = name.len() as int + 1;
    let end = at + decimal(pid).len();
    assert(pid_slot(name).take(at) =~= name + seq![EQUALS]);
    assert(stamped.take(end) =~= entry(name, decimal(pid)));
}

/// The byte that stands between the name and the value of a variable.
pub const EQUALS: u8 = 61;

/// A variable of the environment.
#[derive(Clone, Debug, PartialEq, Eq)]
pub struct EnvVar {
    /// The name, which holds no `=`.
    pub name: Vec<u8>,
    /// The value.
    pub value: Vec<u8>,
}

/// A variable as contracts speak of it: its name and its value.
pub open spec fn var_view(var: EnvVar) -> (Seq<u8>, Seq<u8>) {
    (var.name@, var.value@)
}

/// The variables of `vars`, each as its name and its value.
pub open spec fn vars_view(vars: Seq<EnvVar>) -> Seq<(Seq<u8>, Seq<u8>)> {
    Seq::new(vars.len(), |i: int| var_view(vars[i]))
}

/// Whether `names` holds `name`.
pub open spec fn names(names: Seq<Seq<u8>>, name: Seq<u8>) -> bool {
    exists|i: int| 0 <= i < names.len() && #[trigger] names[i] == name
}

/// The entry that stands for a variable in the block handed to the new
/// program: the name, `=`, and the value.
pub open spec fn entry(name: Seq<u8>, value: Seq<u8>) -> Seq<u8> {
    name + seq![EQUALS] + value
}

/// The entries of the variables that do not carry the process id.
pub open spec fn plain_entries(vars: Seq<(Seq<u8>, Seq<u8>)>, pid_vars: Seq<Seq<u8>>) -> Seq<
    Seq<u8>,
>
    decreases vars.len(),
{
    if vars.len() == 0 {
        Seq::<Seq<u8>>::empty()
    } else {
        let rest = plain_entries(vars.drop_last(), pid_vars);
        if names(pid_vars, vars.last().0) {
            rest
        } else {
            rest.push(entry(vars.last().0, vars.last().1))
        }
    }
}

/// The entries of the variables that carry the process id `pid`.
pub open spec fn pid_entries(pid_vars: Seq<Seq<u8>>, pid: nat) -> Seq<Seq<u8>> {
    Seq::new(pid_vars.len(), |i: int| entry(pid_vars[i], decimal(pid)))
}

/// The block that is handed to the new program: the variables of the
/// environment, but for those that carry the process id, and then those,
/// each with the process id of the child as its value.
pub open spec fn block(vars: Seq<(Seq<u8>, Seq<u8>)>, pid_vars: Seq<Seq<u8>>, pid: nat) -> Seq<
    Seq<u8>,
> {
    plain_entries(vars, pid_vars) + pid_entries(pid_vars, pid)
}

/// Whether `list` holds `name`.
pub fn named(list: &Vec<Vec<u8>>, name: &Vec<u8>) -> (found: bool)
    ensures
        found == names(crate::bytes::texts(list@), name@),
{
    let mut i: usize = 0;
    while i < list.len()
        invariant
            i <= list.len(),
            forall|k: int| 0 <= k < i ==> (#[trigger] list@[k])@ != name@,
        decreases list.len() - i,
    {
        if same(&list[i], name) {
            assert(crate::bytes::texts(list@)[i as int] == name@);
            return true;
        }
        i = i + 1;
    }
    proof {
        let all = crate::bytes::texts(list@);
        if names(all, name@) {
            let at = choose|at: int| 0 <= at < all.len() && #[trigger] all[at] == name@;
            assert(list@[at]@ == name@);
        }
    }
    false
}

/// Whether no name occurs twice in `names`.
pub open spec fn distinct_names(names: Seq<Seq<u8>>) -> bool {
    forall|i: int, j: int| 0 <= i < j < names.len() ==> #[trigger] names[i] != #[trigger] names[j]
}

/// The names of the variables, in their order.
pub open spec fn var_names(vars: Seq<(Seq<u8>, Seq<u8>)>) -> Seq<Seq<u8>> {
    Seq::new(vars.len(), |i: int| vars[i].0)
}

/// Whether no name occurs twice in `list`.
pub fn names_distinct(list: &Vec<Vec<u8>>) -> (ok: bool)
    ensures
        ok == distinct_names(crate::bytes::texts(list@)),
{
    let ghost all = crate::bytes::texts(list@);
    let mut i: usize = 0;
    while i < list.len()
        invariant
            i <= list.len(),
            all == crate::bytes::texts(list@),
            distinct_names(all.take(i as int)),
        decreases list.len() - i,
    {
        let mut j: usize = 0;
        while j < i
            invariant
                j <= i < list.len(),
                all == crate::bytes::texts(list@),
                forall|k: int| 0 <= k < j ==> #[trigger] all[k] != all[i as int],
            decreases i - j,
        {
            if same(&list[j], &list[i]) {
                assert(all[j as int] == all[i as int]);
                return false;
            }
            j = j + 1;
        }
        proof {
            let longer = all.take(i + 1);
            assert forall|a: int, b: int| 0 <= a < b < longer.len() implies #[trigger] longer[a]
                != #[trigger] longer[b] by {
                if b < i {
                    assert(all.take(i as int)[a] == longer[a]);
                    assert(all.take(i as int)[b] == longer[b]);
                } else {
                    assert(longer[a] == all[a]);
                    assert(longer[b] == all[i as int]);
                }
            }
        }
        i = i + 1;
    }
    assert(all.take(list.len() as int) =~= all);
    true
}

/// The names of the variables, in their order.
pub fn names_of(vars: &Vec<EnvVar>) -> (list: Vec<Vec<u8>>)
    ensures
        crate::bytes::texts(list@) == var_names(vars_view(vars@)),
{
    let mut list: Vec<Vec<u8>> = Vec::new();
    let mut i: usize = 0;
    while i < vars.len()
        invariant
            i <= vars.len(),
            list.len() == i,
            forall|k: int| 0 <= k < i ==> (#[trigger] list@[k])@ == vars@[k].name@,
        decreases vars.len() - i,
    {
        list.push(crate::bytes::copy(&vars[i].name));
        i = i + 1;
    }
    assert(crate::bytes::texts(list@) =~= var_names(vars_view(vars@)));
    list
}

/// The variables once the variable `name` has the value `value`: the
/// variable of that name gets the value where it stands; where there is
/// none, the variable is added at the end.
pub open spec fn with_var(vars: Seq<(Seq<u8>, Seq<u8>)>, name: Seq<u8>, value: Seq<u8>) -> Seq<
    (Seq<u8>, Seq<u8>),
>
    decreases vars.len(),
{
    if vars.len() == 0 {
        seq![(name, value)]
    } else if vars[0].0 == name {
        seq![(name, value)] + vars.drop_first()
    } else {
        seq![vars[0]] + with_var(vars.drop_first(), name, value)
    }
}

/// The variables that a list of settings leaves, made one after the
/// other: each name once, with the value that was set last.
pub open spec fn vars_from(settings: Seq<(Seq<u8>, Seq<u8>)>) -> Seq<(Seq<u8>, Seq<u8>)>
    decreases settings.len(),
{
    if settings.len() == 0 {
        Seq::<(Seq<u8>, Seq<u8>)>::empty()
    } else {
        with_var(vars_from(settings.drop_last()), settings.last().0, settings.last().1)
    }
}

/// Gives the variable `name` the value `value`, in place of the value that
/// it had, if it had one.
pub fn set_var(vars: &mut Vec<EnvVar>, name: Vec<u8>, value: Vec<u8>)
    requires
        distinct_names(var_names(vars_view(old(vars)@))),
    ensures
        vars_view(final(vars)@) == with_var(vars_view(old(vars)@), name@, value@),
        distinct_names(var_names(vars_view(final(vars)@))),
{
    let ghost all = vars_view(vars@);
    let mut i: usize = 0;
    assert(all.take(0) + with_var(all.skip(0), name@, value@) =~= with_var(all, name@, value@)) by {
        assert(all.skip(0) =~= all);
    }
    while i < vars.len()
        invariant
            i <= vars.len(),
            vars@ == old(vars)@,
            all == vars_view(vars@),
            distinct_names(var_names(all)),
            forall|k: int| 0 <= k < i ==> (#[trigger] vars@[k]).name@ != name@,
            with_var(all, name@, value@) == all.take(i as int) + with_var(
                all.skip(i as int),
                name@,
                value@,
            ),
        decreases vars.len() - i,
    {
        let ghost rest = all.skip(i as int);
        assert(rest[0] == all[i as int]);
        assert(rest.drop_first() =~= all.skip(i + 1));
        if same(&vars[i].name, &name) {
            vars.set(i, EnvVar { name, value });
            proof {
                let after = vars_view(vars@);
                assert(after =~= all.take(i as int) + (seq![(name@, value@)] + rest.drop_first()));
                assert(var_names(after) =~= var_names(all));
            }
            return ;
        }
        assert(all.take(i as int) + (seq![rest[0]] + with_var(all.skip(i + 1), name@, value@))
            =~= all.take(i + 1) + with_var(all.skip(i + 1), name@, value@));
        i = i + 1;
    }
    vars.push(EnvVar { name, value });
    proof {
        let after = vars_view(vars@);
        assert(all.skip(all.len() as int).len() == 0);
        assert(after =~= all.take(all.len() as int) + seq![(name@, value@)]);
        let names = var_names(after);
        assert forall|a: int, b: int| 0 <= a < b < names.len() implies #[trigger] names[a]
            != #[trigger] names[b] by {
            if b < all.len() {
                assert(names[a] == var_names(all)[a]);
                assert(names[b] == var_names(all)[b]);
            } else {
                assert(names[a] == old(vars)@[a].name@);
            }
        }
    }
}

/// Makes the variables that a list of settings leaves: each name once, with
/// the value that was set last.
pub fn collect_vars(settings: &Vec<EnvVar>) -> (vars: Vec<EnvVar>)
    ensures
        vars_view(vars@) == vars_from(vars_view(settings@)),
        distinct_names(var_names(vars_view(vars@))),
{
    let ghost all = vars_view(settings@);
    let mut vars: Vec<EnvVar> = Vec::new();
    let mut i: usize = 0;
    assert(vars_view(vars@) =~= vars_from(all.take(0)));
    while i < settings.len()
        invariant
            i <= settings.len(),
            all == vars_view(settings@),
            vars_view(vars@) == vars_from(all.take(i as int)),
            distinct_names(var_names(vars_view(vars@))),
        decreases settings.len() - i,
    {
        proof {
            let longer = all.take(i + 1);
            assert(longer.drop_last() =~= all.take(i as int));
            assert(longer.last() == var_view(settings@[i as int]));
        }
        let name = crate::bytes::copy(&settings[i].name);
        let value = crate::bytes::copy(&settings[i].value);
        set_var(&mut vars, name, value);
        i = i + 1;
    }
    assert(all.take(settings.len() as int) =~= all);
    vars
}

/// A variable that is set where none of its name stands is added at the
/// end.
pub proof fn lemma_with_new_var(vars: Seq<(Seq<u8>, Seq<u8>)>, name: Seq<u8>, value: Seq<u8>)
    requires
        forall|i: int| 0 <= i < vars.len() ==> (#[trigger] vars[i]).0 != name,
    ensures
        with_var(vars, name, value) == vars.push((name, value)),
    decreases vars.len(),
{
    if vars.len() > 0 {
        let rest = vars.drop_first();
        assert forall|i: int| 0 <= i < rest.len() implies (#[trigger] rest[i]).0 != name by {
            assert(rest[i] == vars[i + 1]);
        }
        lemma_with_new_var(rest, name, value);
        assert(seq![vars[0]] + rest.push((name, value)) =~= vars.push((name, value)));
    } else {
        assert(seq![(name, value)] =~= vars.push((name, value)));
    }
}

/// Settings in which no name occurs twice leave the variables as they are
/// listed.
pub proof fn lemma_vars_from_distinct(settings: Seq<(Seq<u8>, Seq<u8>)>)
    requires
        distinct_names(var_names(settings)),
    ensures
        vars_from(settings) == settings,
    decreases settings.len(),
{
    if settings.len() > 0 {
        let earlier = settings.drop_last();
        let last = settings.last();
        let names = var_names(settings);
        assert forall|i: int, j: int| 0 <= i < j < earlier.len() implies #[trigger] var_names(
            earlier,
        )[i] != #[trigger] var_names(earlier)[j] by {
            assert(names[i] == earlier[i].0 && names[j] == earlier[j].0);
        }
        lemma_vars_from_distinct(earlier);
        assert forall|i: int| 0 <= i < earlier.len() implies (#[trigger] earlier[i]).0
            != last.0 by {
            assert(names[i] == earlier[i].0);
            assert(names[settings.len() - 1] == last.0);
        }
        lemma_with_new_var(earlier, last.0, last.1);
        assert(earlier.push(last) =~= settings);
    } else {
        assert(settings =~= Seq::<(Seq<u8>, Seq<u8>)>::empty());
    }
}

/// Writes the entries of the variables that do not carry the process id.
pub fn render_plain(vars: &Vec<EnvVar>, pid_vars: &Vec<Vec<u8>>) -> (out: Vec<Vec<u8>>)
    ensures
        crate::bytes::texts(out@) == plain_entries(
            vars_view(vars@),
            crate::bytes::texts(pid_vars@),
        ),
{
    let ghost all = vars_view(vars@);
    let ghost carriers = crate::bytes::texts(pid_vars@);
    let mut out: Vec<Vec<u8>> = Vec::new();
    let mut i: usize = 0;
    assert(crate::bytes::texts(out@) =~= plain_entries(all.take(0), carriers));
    while i < vars.len()
        invariant
            i <= vars.len(),
            all == vars_view(vars@),
            carriers == crate::bytes::texts(pid_vars@),
            crate::bytes::texts(out@) == plain_entries(all.take(i as int), carriers),
        decreases vars.len() - i,
    {
        proof {
            let longer = all.take(i + 1);
            assert(longer.drop_last() =~= all.take(i as int));
            assert(longer.last() == var_view(vars@[i as int]));
        }
        if !named(pid_vars, &vars[i].name) {
            let mut line: Vec<u8> = Vec::new();
            append(&mut line, &vars[i].name);
            line.push(EQUALS);
            append(&mut line, &vars[i].value);
            assert(line@ =~= entry(vars@[i as int].name@, vars@[i as int].value@));
            out.push(line);
        }
        i = i + 1;
        assert(crate::bytes::texts(out@) =~= plain_entries(all.take(i as int), carriers));
    }
    assert(all.take(vars.len() as int) =~= all);
    out
}

/// Writes the block that is handed to the new program, for a child with
/// the process id `pid`.
pub fn render_block(vars: &Vec<EnvVar>, pid_vars: &Vec<Vec<u8>>, pid: u32) -> (out: Vec<Vec<u8>>)
    ensures
        crate::bytes::texts(out@) == block(
            vars_view(vars@),
            crate::bytes::texts(pid_vars@),
            pid as nat,
        ),
{
    let ghost carriers = crate::bytes::texts(pid_vars@);
    let mut out: Vec<Vec<u8>> = render_plain(vars, pid_vars);
    let ghost plain = crate::bytes::texts(out@);
    let mut k: usize = 0;
    assert(crate::bytes::texts(out@) =~= plain + pid_entries(carriers, pid as nat).take(0));
    while k < pid_vars.len()
        invariant
            k <= pid_vars.len(),
            carriers == crate::bytes::texts(pid_vars@),
            crate::bytes::texts(out@) == plain + pid_entries(carriers, pid as nat).take(k as int),
        decreases pid_vars.len() - k,
    {
        let mut line: Vec<u8> = Vec::new();
        append(&mut line, &pid_vars[k]);
        line.push(EQUALS);
        push_decimal(&mut line, pid as u64);
        assert(line@ =~= entry(pid_vars@[k as int]@, decimal(pid as nat)));
        let ghost before = crate::bytes::texts(out@);
        out.push(line);
        k = k + 1;
        proof {
            let stamped = pid_entries(carriers, pid as nat);
            assert(carriers[k - 1] == pid_vars@[k - 1]@);
            assert(crate::bytes::texts(out@) =~= before.push(line@));
            assert(stamped.take(k as int) =~= stamped.take(k - 1).push(line@));
            assert(before.push(line@) =~= plain + stamped.take(k as int));
        }
    }
    assert(pid_entries(carriers, pid as nat).take(pid_vars.len() as int) =~= pid_entries(
        carriers,
        pid as nat,
    ));
    out
}

} // verus!
