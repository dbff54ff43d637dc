//! Addresses and storage slots that count as accessed from the start of a transaction.
use vstd::prelude::*;

use crate::fixed::{Address, Word};
use crate::map::{AddressMap, AddressSet, Duplicate, WordSet};

verus! {

/// Precompiles, the coinbase and the EIP-2930 access list. The sender and the recipient are warmed
/// per account instead.
#[derive(Debug, PartialEq, Eq)]
pub struct PrewarmSet {
    addresses: AddressSet,
    slots: AddressMap<WordSet>,
}

/// What a [`PrewarmSet`] holds.
#[verifier::ext_equal]
pub struct PrewarmView {
    pub addresses: Set<Address>,
    pub slots: Set<(Address, Word)>,
}

impl PrewarmView {
    /// The set with no members.
    pub open spec fn empty() -> Self {
        PrewarmView { addresses: Set::empty(), slots: Set::empty() }
    }

    /// The set with `address` added.
    pub open spec fn warm(self, address: Address) -> Self {
        PrewarmView { addresses: self.addresses.insert(address), ..self }
    }

    /// The set with `address` and those of its slots that `keys` lists added.
    pub open spec fn warm_storage(self, address: Address, keys: Seq<Word>) -> Self {
        PrewarmView {
            addresses: self.addresses.insert(address),
            slots: self.slots.union(
                Set::new(|slot: (Address, Word)| slot.0 == address && keys.contains(slot.1)),
            ),
        }
    }
}

impl View for PrewarmSet {
    type V = PrewarmView;

    closed spec fn view(&self) -> PrewarmView {
        PrewarmView {
            addresses: self.addresses@,
            slots: Set::new(
                |slot: (Address, Word)|
                    self.slots@.contains_key(slot.0) && self.slots@[slot.0].contains(slot.1),
            ),
        }
    }
}

impl Duplicate for PrewarmSet {
    fn duplicate(&self) -> (r: Self) {
        PrewarmSet { addresses: self.addresses.duplicate(), slots: self.slots.duplicate() }
    }
}

impl PrewarmSet {
    /// The set with no members.
    pub fn new() -> (r: Self)
        ensures
            r@ == PrewarmView::empty(),
    {
        let r = PrewarmSet { addresses: AddressSet::new(), slots: AddressMap::new() };
        assert(r@ =~= PrewarmView::empty());
        r
    }

    /// Adds an address.
    pub fn warm(&mut self, address: &Address)
        ensures
            final(self)@ == old(self)@.warm(*address),
    {
        self.addresses.insert(*address);
        assert(self@ =~= old(self)@.warm(*address));
    }

    /// Adds one slot of an address.
    fn warm_slot(&mut self, address: &Address, key: Word)
        ensures
            final(self)@ == (PrewarmView { slots: old(self)@.slots.insert((*address, key)), ..old(self)@ }),
    {
        if !self.slots.contains_key(address) {
            self.slots.insert(*address, WordSet::new());
        }
        match self.slots.get_mut(address) {
            Some(keys) => {
                keys.insert(key);
            },
            None => {},
        }
        assert(self@.slots =~= old(self)@.slots.insert((*address, key)));
    }

    /// Adds an address and some of its slots.
    pub fn warm_storage(&mut self, address: &Address, keys: &[Word])
        ensures
            final(self)@ == old(self)@.warm_storage(*address, keys@),
    {
        self.warm(address);
        let mut i: usize = 0;
        assert(self@ =~= old(self)@.warm_storage(*address, keys@.take(0)));
        while i < keys.len()
            invariant
                i <= keys.len(),
                self@ == old(self)@.warm_storage(*address, keys@.take(i as int)),
            decreases keys.len() - i,
        {
            self.warm_slot(address, keys[i]);
            proof {
                let before = keys@.take(i as int);
                let after = keys@.take(i + 1);
                assert(after =~= before.push(keys@[i as int]));
                assert forall|k: Word| #[trigger]
                    after.contains(k) <==> before.contains(k) || k == keys@[i as int] by {
                    if before.contains(k) {
                        let j = choose|j: int| 0 <= j < before.len() && before[j] == k;
                        assert(after[j] == k);
                    }
                    if k == keys@[i as int] {
                        assert(after[i as int] == k);
                    }
                }
                assert(self@ =~= old(self)@.warm_storage(*address, after));
            }
            i += 1;
        }
        assert(keys@.take(keys.len() as int) =~= keys@);
    }

    /// Whether an address is a member.
    pub fn is_warm(&self, address: &Address) -> (r: bool)
        ensures
            r == self@.addresses.contains(*address),
    {
        self.addresses.contains(address)
    }

    /// Whether a slot is a member.
    pub fn is_storage_warm(&self, address: &Address, key: &Word) -> (r: bool)
        ensures
            r == self@.slots.contains((*address, *key)),
    {
        match self.slots.get(address) {
            Some(keys) => keys.contains(key),
            None => false,
        }
    }

    /// Drops every member.
    pub fn clear(&mut self)
        ensures
            final(self)@ == PrewarmView::empty(),
    {
        self.addresses.clear();
        self.slots.clear();
        assert(self@ =~= PrewarmView::empty());
    }
}

} // verus!
