//! Capabilities, and the set of them that a child keeps.

use vstd::prelude::*;

verus! {

/// A capability of a Linux process: a label for a unit of privilege, not
/// the privilege itself.
#[allow(non_camel_case_types)]
#[derive(Clone, Copy, Debug, PartialEq, Eq, Hash, Structural)]
pub enum Capability {
    CAP_CHOWN,
    CAP_DAC_OVERRIDE,
    CAP_DAC_READ_SEARCH,
    CAP_FOWNER,
    CAP_FSETID,
    CAP_KILL,
    CAP_SETGID,
    CAP_SETUID,
    CAP_SETPCAP,
    CAP_LINUX_IMMUTABLE,
    CAP_NET_BIND_SERVICE,
    CAP_NET_BROADCAST,
    CAP_NET_ADMIN,
    CAP_NET_RAW,
    CAP_IPC_LOCK,
    CAP_IPC_OWNER,
    CAP_SYS_MODULE,
    CAP_SYS_RAWIO,
    CAP_SYS_CHROOT,
    CAP_SYS_PTRACE,
    CAP_SYS_PACCT,
    CAP_SYS_ADMIN,
    CAP_SYS_BOOT,
    CAP_SYS_NICE,
    CAP_SYS_RESOURCE,
    CAP_SYS_TIME,
    CAP_SYS_TTY_CONFIG,
    CAP_MKNOD,
    CAP_LEASE,
    CAP_AUDIT_WRITE,
    CAP_AUDIT_CONTROL,
    CAP_SETFCAP,
    CAP_MAC_OVERRIDE,
    CAP_MAC_ADMIN,
    CAP_SYSLOG,
    CAP_WAKE_ALARM,
    CAP_BLOCK_SUSPEND,
    CAP_AUDIT_READ,
    CAP_PERFMON,
    CAP_BPF,
    CAP_CHECKPOINT_RESTORE,
}

/// The number of capabilities.
pub const CAPABILITIES: u8 = 41;

impl Capability {
    /// The number by which the kernel knows the capability.
    pub open spec fn spec_index(self) -> u8 {
        match self {
            Capability::CAP_CHOWN => 0,
            Capability::CAP_DAC_OVERRIDE => 1,
            Capability::CAP_DAC_READ_SEARCH => 2,
            Capability::CAP_FOWNER => 3,
            Capability::CAP_FSETID => 4,
            Capability::CAP_KILL => 5,
            Capability::CAP_SETGID => 6,
            Capability::CAP_SETUID => 7,
            Capability::CAP_SETPCAP => 8,
            Capability::CAP_LINUX_IMMUTABLE => 9,
            Capability::CAP_NET_BIND_SERVICE => 10,
            Capability::CAP_NET_BROADCAST => 11,
            Capability::CAP_NET_ADMIN => 12,
            Capability::CAP_NET_RAW => 13,
            Capability::CAP_IPC_LOCK => 14,
            Capability::CAP_IPC_OWNER => 15,
            Capability::CAP_SYS_MODULE => 16,
            Capability::CAP_SYS_RAWIO => 17,
            Capability::CAP_SYS_CHROOT => 18,
            Capability::CAP_SYS_PTRACE => 19,
            Capability::CAP_SYS_PACCT => 20,
            Capability::CAP_SYS_ADMIN => 21,
            Capability::CAP_SYS_BOOT => 22,
            Capability::CAP_SYS_NICE => 23,
            Capability::CAP_SYS_RESOURCE => 24,
            Capability::CAP_SYS_TIME => 25,
            Capability::CAP_SYS_TTY_CONFIG => 26,
            Capability::CAP_MKNOD => 27,
            Capability::CAP_LEASE => 28,
            Capability::CAP_AUDIT_WRITE => 29,
            Capability::CAP_AUDIT_CONTROL => 30,
            Capability::CAP_SETFCAP => 31,
            Capability::CAP_MAC_OVERRIDE => 32,
            Capability::CAP_MAC_ADMIN => 33,
            Capability::CAP_SYSLOG => 34,
            Capability::CAP_WAKE_ALARM => 35,
            Capability::CAP_BLOCK_SUSPEND => 36,
            Capability::CAP_AUDIT_READ => 37,
            Capability::CAP_PERFMON => 38,
            Capability::CAP_BPF => 39,
            Capability::CAP_CHECKPOINT_RESTORE => 40,
        }
    }

    /// The number by which the kernel knows the capability.
    pub fn index(self) -> (index: u8)
        ensures
            index == self.spec_index(),
            index < CAPABILITIES,
    {
        match self {
            Capability::CAP_CHOWN => 0,
            Capability::CAP_DAC_OVERRIDE => 1,
            Capability::CAP_DAC_READ_SEARCH => 2,
            Capability::CAP_FOWNER => 3,
            Capability::CAP_FSETID => 4,
            Capability::CAP_KILL => 5,
            Capability::CAP_SETGID => 6,
            Capability::CAP_SETUID => 7,
            Capability::CAP_SETPCAP => 8,
            Capability::CAP_LINUX_IMMUTABLE => 9,
            Capability::CAP_NET_BIND_SERVICE => 10,
            Capability::CAP_NET_BROADCAST => 11,
            Capability::CAP_NET_ADMIN => 12,
            Capability::CAP_NET_RAW => 13,
            Capability::CAP_IPC_LOCK => 14,
            Capability::CAP_IPC_OWNER => 15,
            Capability::CAP_SYS_MODULE => 16,
            Capability::CAP_SYS_RAWIO => 17,
            Capability::CAP_SYS_CHROOT => 18,
            Capability::CAP_SYS_PTRACE => 19,
            Capability::CAP_SYS_PACCT => 20,
            Capability::CAP_SYS_ADMIN => 21,
            Capability::CAP_SYS_BOOT => 22,
            Capability::CAP_SYS_NICE => 23,
            Capability::CAP_SYS_RESOURCE => 24,
            Capability::CAP_SYS_TIME => 25,
            Capability::CAP_SYS_TTY_CONFIG => 26,
            Capability::CAP_MKNOD => 27,
            Capability::CAP_LEASE => 28,
            Capability::CAP_AUDIT_WRITE => 29,
            Capability::CAP_AUDIT_CONTROL => 30,
            Capability::CAP_SETFCAP => 31,
            Capability::CAP_MAC_OVERRIDE => 32,
            Capability::CAP_MAC_ADMIN => 33,
            Capability::CAP_SYSLOG => 34,
            Capability::CAP_WAKE_ALARM => 35,
            Capability::CAP_BLOCK_SUSPEND => 36,
            Capability::CAP_AUDIT_READ => 37,
            Capability::CAP_PERFMON => 38,
            Capability::CAP_BPF => 39,
            Capability::CAP_CHECKPOINT_RESTORE => 40,
        }
    }
}

/// Whether bit `index` of `bits` is set.
pub open spec fn bit_set(bits: u64, index: u8) -> bool {
    index < 64 && bits & (1u64 << index) != 0
}

/// Whether bit `index` of the word `word` is set.
pub open spec fn word_bit_set(word: u32, index: u8) -> bool {
    index < 32 && word & (1u32 << index) != 0
}

/// Setting one bit changes that bit and no other.
proof fn lemma_set_bit(bits: u64, which: u8, index: u8)
    requires
        which < 64,
        index < 64,
    ensures
        bit_set(bits | (1u64 << which), index) == (bit_set(bits, index) || index == which),
{
    assert(((bits | (1u64 << which)) & (1u64 << index) != 0) == ((bits & (1u64 << index) != 0)
        || index == which)) by (bit_vector)
        requires
            which < 64,
            index < 64,
    ;
}

/// No bit of zero is set.
proof fn lemma_no_bit(index: u8)
    ensures
        !bit_set(0, index),
{
    assert(0u64 & (1u64 << index) == 0) by (bit_vector);
}

/// The two words of a set hold its bits: the low word the first 32, the
/// high word the rest.
proof fn lemma_words(bits: u64, index: u8)
    requires
        index < 32,
    ensures
        word_bit_set((bits & 0xffff_ffff) as u32, index) == bit_set(bits, index),
        word_bit_set((bits >> 32) as u32, index) == bit_set(bits, (index + 32) as u8),
{
    let other: u8 = (index + 32) as u8;
    assert((((bits & 0xffff_ffff) as u32) & (1u32 << index) != 0) == (bits & (1u64 << index)
        != 0)) by (bit_vector)
        requires
            index < 32,
    ;
    assert((((bits >> 32) as u32) & (1u32 << index) != 0) == (bits & (1u64 << other) != 0))
        by (bit_vector)
        requires
            index < 32,
            other == index + 32,
    ;
}

/// A set of capabilities.
#[derive(Clone, Copy, Debug, PartialEq, Eq)]
pub struct CapSet {
    bits: u64,
}

impl CapSet {
    /// Whether the set holds the capability that the kernel knows by
    /// `index`.
    pub closed spec fn has_index(&self, index: u8) -> bool {
        bit_set(self.bits, index)
    }

    /// The set as a mathematical set of capabilities.
    pub open spec fn view(&self) -> Set<Capability> {
        Set::new(|cap: Capability| self.has_index(cap.spec_index()))
    }

    /// Whether the set holds nothing but capabilities: no number that
    /// stands for none is in it.
    pub open spec fn wf(&self) -> bool {
        forall|index: u8| #[trigger] self.has_index(index) ==> index < CAPABILITIES
    }

    /// The set that holds no capability.
    pub fn empty() -> (set: CapSet)
        ensures
            set.wf(),
            set@ == Set::<Capability>::empty(),
            forall|index: u8| !set.has_index(index),
    {
        let set = CapSet { bits: 0 };
        proof {
            assert forall|index: u8| !set.has_index(index) by {
                lemma_no_bit(index);
            }
            assert(set@ =~= Set::<Capability>::empty());
        }
        set
    }

    /// Adds `cap` to the set.
    pub fn insert(&mut self, cap: Capability)
        ensures
            final(self)@ == old(self)@.insert(cap),
            forall|index: u8|
                index < 64 ==> (final(self).has_index(index) == (old(self).has_index(index)
                    || index == cap.spec_index())),
            old(self).wf() ==> final(self).wf(),
    {
        let which = cap.index();
        let ghost before = self.bits;
        self.bits = self.bits | (1u64 << which);
        proof {
            assert forall|index: u8| index < 64 implies (self.has_index(index) == (old(
                self,
            ).has_index(index) || index == cap.spec_index())) by {
                lemma_set_bit(before, which, index);
            }
            assert(self@ =~= old(self)@.insert(cap)) by {
                assert forall|other: Capability|
                    self@.contains(other) == old(self)@.insert(cap).contains(other) by {
                    lemma_set_bit(before, which, other.spec_index());
                    lemma_index_names(cap, other);
                }
            }
        }
    }

    /// Whether the set holds `cap`.
    pub fn contains(&self, cap: Capability) -> (found: bool)
        ensures
            found == self@.contains(cap),
    {
        self.bits & (1u64 << cap.index()) != 0
    }

    /// The set of the capabilities in `caps`, and of no other.
    pub fn of(caps: &Vec<Capability>) -> (set: CapSet)
        ensures
            set.wf(),
            set@ == caps@.to_set(),
            forall|index: u8|
                set.has_index(index) <==> exists|i: int|
                    0 <= i < caps.len() && (#[trigger] caps[i]).spec_index() == index,
    {
        let mut set = CapSet::empty();
        let mut n: usize = 0;
        while n < caps.len()
            invariant
                n <= caps.len(),
                set.wf(),
                forall|index: u8|
                    set.has_index(index) <==> exists|i: int|
                        0 <= i < n && (#[trigger] caps[i]).spec_index() == index,
            decreases caps.len() - n,
        {
            let ghost before = set;
            set.insert(caps[n]);
            proof {
                assert forall|index: u8|
                    set.has_index(index) <==> exists|i: int|
                        0 <= i < n + 1 && (#[trigger] caps[i]).spec_index() == index by {
                    if index < 64 {
                        if before.has_index(index) {
                            let i = choose|i: int|
                                0 <= i < n && (#[trigger] caps[i]).spec_index() == index;
                            assert(caps[i].spec_index() == index);
                        }
                        if index == caps[n as int].spec_index() {
                            assert(caps[n as int].spec_index() == index);
                        }
                    }
                }
            }
            n = n + 1;
        }
        proof {
            assert(set@ =~= caps@.to_set()) by {
                assert forall|cap: Capability| set@.contains(cap) == caps@.to_set().contains(
                    cap,
                ) by {
                    if set@.contains(cap) {
                        let i = choose|i: int|
                            0 <= i < caps.len() && (#[trigger] caps[i]).spec_index()
                                == cap.spec_index();
                        lemma_index_names(caps[i], cap);
                        assert(caps@[i] == cap);
                    }
                    if caps@.to_set().contains(cap) {
                        let i = choose|i: int| 0 <= i < caps@.len() && caps@[i] == cap;
                        assert(caps[i].spec_index() == cap.spec_index());
                    }
                }
            }
        }
        set
    }

    /// The set as the two words that the kernel takes: bit `i` of the first
    /// word stands for the capability `i`, bit `i` of the second for the
    /// capability `32 + i`.
    pub fn words(&self) -> (words: (u32, u32))
        ensures
            forall|index: u8|
                index < 32 ==> {
                    &&& word_bit_set(words.0, index) == self.has_index(index)
                    &&& word_bit_set(words.1, index) == self.has_index((index + 32) as u8)
                },
    {
        let low = (self.bits & 0xffff_ffff) as u32;
        let high = (self.bits >> 32) as u32;
        proof {
            assert forall|index: u8| index < 32 implies {
                &&& word_bit_set(low, index) == self.has_index(index)
                &&& word_bit_set(high, index) == self.has_index((index + 32) as u8)
            } by {
                lemma_words(self.bits, index);
            }
        }
        (low, high)
    }

    /// The numbers of the capabilities in the set, rising.
    pub fn indexes(&self) -> (list: Vec<u8>)
        ensures
            forall|index: u8| list@.contains(index) <==> self.has_index(index),
            forall|i: int, j: int| 0 <= i < j < list.len() ==> list[i] < list[j],
    {
        let mut list: Vec<u8> = Vec::new();
        let mut at: u8 = 0;
        while at < 64
            invariant
                at <= 64,
                forall|index: u8| list@.contains(index) <==> self.has_index(index) && index < at,
                forall|i: int| 0 <= i < list.len() ==> list[i] < at,
                forall|i: int, j: int| 0 <= i < j < list.len() ==> list[i] < list[j],
            decreases 64 - at,
        {
            let ghost before = list@;
            if self.bits & (1u64 << at) != 0 {
                list.push(at);
                proof {
                    assert(list@[list.len() - 1] == at);
                    assert forall|index: u8|
                        list@.contains(index) <==> self.has_index(index) && index < at + 1 by {
                        if before.contains(index) {
                            let i = choose|i: int| 0 <= i < before.len() && before[i] == index;
                            assert(list@[i] == index);
                        }
                        if list@.contains(index) {
                            let i = choose|i: int| 0 <= i < list@.len() && list@[i] == index;
                            if i < before.len() {
                                assert(before[i] == index);
                            }
                        }
                    }
                }
            }
            at = at + 1;
        }
        list
    }
}

/// Two capabilities with one number are one capability.
pub proof fn lemma_index_names(a: Capability, b: Capability)
    ensures
        a.spec_index() == b.spec_index() <==> a == b,
        a.spec_index() < CAPABILITIES,
{
}

} // verus!
