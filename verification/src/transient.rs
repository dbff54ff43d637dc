//! EIP-1153 transient storage.
use vstd::prelude::*;

use crate::db::Database;
use crate::fixed::{Address, FixedBytes, Word};
use crate::journal::JournalEntry;
use crate::map::{enumerates, WordMap};
use crate::model::TxView;
use crate::state::State;

verus! {

/// Whether `slots` lists the transient slots of an account with their values, each once.
pub open spec fn lists_transient(
    slots: Seq<(Word, Word)>,
    transient: Map<(Address, Word), Word>,
    address: Address,
) -> bool {
    &&& forall|i: int, j: int|
        0 <= i < j < slots.len() ==> (#[trigger] slots[i]).0 != (#[trigger] slots[j]).0
    &&& forall|key: Word, value: Word| #[trigger]
        slots.contains((key, value)) <==> transient.contains_pair((address, key), value)
}

/// Transient storage without the slots of one account.
pub open spec fn transient_without(transient: Map<(Address, Word), Word>, address: Address) -> Map<
    (Address, Word),
    Word,
> {
    Map::new(
        |slot: (Address, Word)| transient.contains_key(slot) && slot.0 != address,
        |slot: (Address, Word)| transient[slot],
    )
}

impl<D: Database> State<D> {
    /// Lists a transient slot with `value`.
    pub(crate) fn insert_transient(&mut self, address: &Address, key: &Word, value: &Word)
        ensures
            final(self)@ == old(self)@.with_tx(
                TxView {
                    transient: old(self)@.tx.transient.insert((*address, *key), *value),
                    ..old(self)@.tx
                },
            ),
            final(self).inner == old(self).inner,
    {
        if !self.transient_storage.contains_key(address) {
            self.transient_storage.insert(*address, WordMap::new());
        }
        match self.transient_storage.get_mut(address) {
            Some(slots) => {
                slots.insert(*key, *value);
            },
            None => {},
        }
        assert(self@.tx.transient =~= old(self)@.tx.transient.insert((*address, *key), *value));
    }

    /// Lists a transient slot no longer.
    pub(crate) fn remove_transient(&mut self, address: &Address, key: &Word)
        ensures
            final(self)@ == old(self)@.with_tx(
                TxView {
                    transient: old(self)@.tx.transient.remove((*address, *key)),
                    ..old(self)@.tx
                },
            ),
            final(self).inner == old(self).inner,
    {
        match self.transient_storage.get_mut(address) {
            Some(slots) => {
                let _ = slots.remove(key);
            },
            None => {},
        }
        assert(self@.tx.transient =~= old(self)@.tx.transient.remove((*address, *key)));
    }

    /// The value listed for a transient slot.
    fn listed_transient(&self, address: &Address, key: &Word) -> (r: Option<Word>)
        ensures
            match r {
                Some(value) => self@.tx.transient.contains_pair((*address, *key), value),
                None => !self@.tx.transient.contains_key((*address, *key)),
            },
    {
        match self.transient_storage.get(address) {
            Some(slots) => match slots.get(key) {
                Some(value) => Some(*value),
                None => None,
            },
            None => None,
        }
    }

    /// The value of a transient slot.
    pub fn tload(&self, address: &Address, key: &Word) -> (r: Word)
        ensures
            r == self@.tx.transient_value(*address, *key),
    {
        match self.listed_transient(address, key) {
            Some(value) => value,
            None => FixedBytes::zero(),
        }
    }

    /// Gives a transient slot a value.
    pub fn tstore(&mut self, address: &Address, key: &Word, value: &Word)
        requires
            old(self).wf(),
        ensures
            final(self)@ == old(self)@.with_tx(
                old(self)@.tx.store_transient(*address, *key, *value),
            ),
            final(self).inner.database == old(self).inner.database,
            final(self).wf(),
    {
        let previous = self.listed_transient(address, key);
        let current = match previous {
            Some(previous) => previous,
            None => FixedBytes::zero(),
        };
        if current == *value {
            return ;
        }
        self.inner.journal.push(
            JournalEntry::TransientStorageChange { address: *address, key: *key, previous },
        );
        if value.is_zero() {
            self.remove_transient(address, key);
        } else {
            self.insert_transient(address, key, value);
        }
        assert(self@.tx =~= old(self)@.tx.store_transient(*address, *key, *value));
    }

    /// Takes all transient slots of an account. The journal is left as it is.
    pub fn take_transient_storage(&mut self, address: &Address) -> (r: Vec<(Word, Word)>)
        requires
            old(self).wf(),
        ensures
            lists_transient(r@, old(self)@.tx.transient, *address),
            final(self)@ == old(self)@.with_tx(
                TxView {
                    transient: transient_without(old(self)@.tx.transient, *address),
                    ..old(self)@.tx
                },
            ),
            final(self).inner.database == old(self).inner.database,
            final(self).wf(),
    {
        let taken = self.transient_storage.remove(address);
        assert(self@.tx.transient =~= transient_without(old(self)@.tx.transient, *address));
        let mut r: Vec<(Word, Word)> = Vec::new();
        if let Some(slots) = taken {
            let keys = slots.keys();
            let mut i: usize = 0;
            while i < keys.len()
                invariant
                    i <= keys.len(),
                    enumerates(keys@, slots@.dom()),
                    r.len() == i,
                    forall|j: int|
                        0 <= j < i ==> (#[trigger] r@[j]).0 == keys@[j] && r@[j].1 == slots@[keys@[j]],
                decreases keys.len() - i,
            {
                let key = keys[i];
                assert(keys@.contains(key));
                match slots.get(&key) {
                    Some(value) => {
                        r.push((key, *value));
                    },
                    None => {},
                }
                i += 1;
            }
            assert forall|key: Word, value: Word| #[trigger]
                r@.contains((key, value)) <==> old(self)@.tx.transient.contains_pair(
                    (*address, key),
                    value,
                ) by {
                if r@.contains((key, value)) {
                    let j = choose|j: int| 0 <= j < r.len() && r@[j] == (key, value);
                    assert(keys@.contains(keys@[j]));
                }
                if old(self)@.tx.transient.contains_pair((*address, key), value) {
                    assert(keys@.contains(key));
                    let j = choose|j: int| 0 <= j < keys.len() && keys@[j] == key;
                    assert(r@[j] == (key, value));
                }
            }
        }
        r
    }
}

} // verus!
