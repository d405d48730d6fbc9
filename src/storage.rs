//! A contract's storage, as the EVM host sees it: a map from 256-bit slots
//! to 256-bit values, where an unwritten slot reads as zero.

use crate::num::U256;
use vstd::prelude::*;

verus! {

/// A contract's code and storage.
#[derive(Debug, Clone, PartialEq, Eq)]
pub struct EthContractData {
    pub code: Vec<u8>,
    /// Slot and value pairs; each slot appears once. A list rather than a
    /// hash map keyed by the 256-bit type, so that what it holds is stated
    /// (`slots`) and every read and write is proved against it.
    pub entries: Vec<(U256, U256)>,
}

impl EthContractData {
    /// Each slot appears once.
    pub open spec fn wf(&self) -> bool {
        forall|i: int, j: int| 0 <= i < j < self.entries@.len()
            ==> (#[trigger] self.entries@[i]).0.le_bytes@ != (#[trigger] self.entries@[j]).0.le_bytes@
    }

    /// The written slots, as a map from a slot's bytes to its value.
    pub open spec fn slots(&self) -> Map<Seq<u8>, nat> {
        Map::new(
            |k: Seq<u8>| exists|i: int| 0 <= i < self.entries@.len() && (#[trigger] self.entries@[i]).0.le_bytes@ == k,
            |k: Seq<u8>| self.entries@[choose|i: int| 0 <= i < self.entries@.len() && (#[trigger] self.entries@[i]).0.le_bytes@ == k].1.value(),
        )
    }

    /// What the slot `key` holds: its value, or zero if never written.
    pub open spec fn spec_storage_at(&self, key: U256) -> nat {
        if self.slots().contains_key(key.le_bytes@) {
            self.slots()[key.le_bytes@]
        } else {
            0
        }
    }

    /// A contract with `code` and empty storage.
    pub fn new(code: Vec<u8>) -> (r: EthContractData)
        ensures
            r.wf(),
            r.code@ == code@,
            r.entries@.len() == 0,
    {
        EthContractData { code, entries: Vec::new() }
    }

    /// Reads a slot.
    #[verifier::loop_isolation(false)]
    pub fn storage_at(&self, key: &U256) -> (r: U256)
        requires
            self.wf(),
        ensures
            r.value() == self.spec_storage_at(*key),
    {
        let mut i: usize = 0;
        while i < self.entries.len()
            invariant
                i <= self.entries@.len(),
                forall|j: int| 0 <= j < i ==> (#[trigger] self.entries@[j]).0.le_bytes@ != key.le_bytes@,
            decreases self.entries@.len() - i,
        {
            if self.entries[i].0.same(key) {
                proof {
                    assert(self.slots().contains_key(key.le_bytes@));
                    let c = choose|c: int| 0 <= c < self.entries@.len() && (#[trigger] self.entries@[c]).0.le_bytes@ == key.le_bytes@;
                    assert(c == i as int) by {
                        if c != i {
                            if c < i {
                                assert(self.entries@[c].0.le_bytes@ != self.entries@[i as int].0.le_bytes@);
                            } else {
                                assert(self.entries@[i as int].0.le_bytes@ != self.entries@[c].0.le_bytes@);
                            }
                        }
                    }
                }
                return self.entries[i].1;
            }
            i = i + 1;
        }
        proof {
            assert(!self.slots().contains_key(key.le_bytes@));
        }
        U256::zero()
    }

    /// Writes a slot.
    #[verifier::loop_isolation(false)]
    pub fn set_storage(&mut self, key: U256, value: U256)
        requires
            old(self).wf(),
        ensures
            final(self).wf(),
            final(self).code@ == old(self).code@,
            final(self).spec_storage_at(key) == value.value(),
            forall|k: U256| k.le_bytes@ != key.le_bytes@ ==> #[trigger] final(self).spec_storage_at(k) == old(self).spec_storage_at(k),
    {
        let ghost before = self.entries@;
        let mut i: usize = 0;
        while i < self.entries.len()
            invariant
                i <= self.entries@.len(),
                self.entries@ == before,
                self.code == old(self).code,
                forall|j: int| 0 <= j < i ==> (#[trigger] self.entries@[j]).0.le_bytes@ != key.le_bytes@,
            decreases self.entries@.len() - i,
        {
            if self.entries[i].0.same(&key) {
                self.entries.set(i, (key, value));
                proof {
                    assert forall|a: int, b: int| 0 <= a < b < self.entries@.len()
                        implies (#[trigger] self.entries@[a]).0.le_bytes@ != (#[trigger] self.entries@[b]).0.le_bytes@ by {
                        assert(before[a].0.le_bytes@ != before[b].0.le_bytes@);
                    }
                    lemma_slot_at(self, i as int);
                    assert forall|k: U256| k.le_bytes@ != key.le_bytes@ implies #[trigger] self.spec_storage_at(k) == old(self).spec_storage_at(k) by {
                        lemma_same_slots_elsewhere(old(self), self, k, i as int);
                    }
                }
                return;
            }
            i = i + 1;
        }
        self.entries.push((key, value));
        proof {
            let n = before.len() as int;
            assert forall|a: int, b: int| 0 <= a < b < self.entries@.len()
                implies (#[trigger] self.entries@[a]).0.le_bytes@ != (#[trigger] self.entries@[b]).0.le_bytes@ by {
                if b < n {
                    assert(before[a].0.le_bytes@ != before[b].0.le_bytes@);
                } else {
                    assert(self.entries@[a] == before[a]);
                }
            }
            lemma_slot_at(self, n);
            assert forall|k: U256| k.le_bytes@ != key.le_bytes@ implies #[trigger] self.spec_storage_at(k) == old(self).spec_storage_at(k) by {
                lemma_same_slots_elsewhere(old(self), self, k, n);
            }
        }
    }
}

proof fn lemma_slot_at(s: &EthContractData, i: int)
    requires
        s.wf(),
        0 <= i < s.entries@.len(),
    ensures
        s.slots().contains_key(s.entries@[i].0.le_bytes@),
        s.spec_storage_at(s.entries@[i].0) == s.entries@[i].1.value(),
{
    let k = s.entries@[i].0.le_bytes@;
    assert(s.slots().contains_key(k));
    let c = choose|c: int| 0 <= c < s.entries@.len() && (#[trigger] s.entries@[c]).0.le_bytes@ == k;
    if c != i {
        if c < i {
            assert(s.entries@[c].0.le_bytes@ != s.entries@[i].0.le_bytes@);
        } else {
            assert(s.entries@[i].0.le_bytes@ != s.entries@[c].0.le_bytes@);
        }
    }
}

/// Two storages whose entries agree except at position `i` (changed, or
/// added at the end) agree on every other slot.
proof fn lemma_same_slots_elsewhere(a: &EthContractData, b: &EthContractData, k: U256, i: int)
    requires
        a.wf(),
        b.wf(),
        0 <= i < b.entries@.len(),
        b.entries@.len() == a.entries@.len() || (b.entries@.len() == a.entries@.len() + 1 && i == a.entries@.len()),
        forall|j: int| 0 <= j < b.entries@.len() && j != i ==> b.entries@[j] == a.entries@[j],
        i < a.entries@.len() ==> a.entries@[i].0.le_bytes@ == b.entries@[i].0.le_bytes@,
        k.le_bytes@ != b.entries@[i].0.le_bytes@,
    ensures
        b.spec_storage_at(k) == a.spec_storage_at(k),
{
    let key = k.le_bytes@;
    if a.slots().contains_key(key) {
        let c = choose|c: int| 0 <= c < a.entries@.len() && (#[trigger] a.entries@[c]).0.le_bytes@ == key;
        assert(c != i);
        assert(b.entries@[c] == a.entries@[c]);
        lemma_slot_at(a, c);
        lemma_slot_at(b, c);
    } else {
        if b.slots().contains_key(key) {
            let c = choose|c: int| 0 <= c < b.entries@.len() && (#[trigger] b.entries@[c]).0.le_bytes@ == key;
            assert(c != i);
            assert(b.entries@[c] == a.entries@[c]);
            assert(a.slots().contains_key(key));
        }
    }
}

} // verus!
