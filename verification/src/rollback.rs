//! Undoing what a transaction did since a checkpoint.
use vstd::prelude::*;

use crate::db::Database;
use crate::features::{EvmFeature, EvmFeatures};
use crate::fixed::Address;
use crate::journal::{JournalEntry, StateCheckpoint};
use crate::model::is_touch_keeper;
use crate::state::State;

verus! {

impl<D: Database> State<D> {
    /// Undoes the change behind a journal entry.
    fn undo_entry(&mut self, entry: JournalEntry, eip161: bool)
        ensures
            final(self)@ == old(self)@.with_tx(old(self)@.tx.undo(entry@, eip161)),
            final(self).inner.database == old(self).inner.database,
    {
        match entry {
            JournalEntry::AccountChange {
                address,
                previous,
                previous_is_warm,
                previous_is_touched,
                previous_is_destroyed,
                previous_just_created,
                previous_code_changed,
            } => {
                let keeper = Address::with_last_byte(3);
                assert(is_touch_keeper(address) <==> address == keeper);
                let was_destroyed = match self.accounts.get(&address) {
                    Some(account) => account.is_destroyed,
                    None => false,
                };
                if was_destroyed && !previous_is_destroyed {
                    self.inner.selfdestructs.remove(&address);
                } else if !was_destroyed && previous_is_destroyed {
                    self.inner.selfdestructs.insert(address);
                }
                match self.accounts.get_mut(&address) {
                    Some(account) => {
                        account.present = previous;
                        account.is_warm = previous_is_warm;
                        if !(eip161 && address == keeper) {
                            account.is_touched = previous_is_touched;
                        }
                        account.is_destroyed = previous_is_destroyed;
                        account.just_created = previous_just_created;
                        account.code_changed = previous_code_changed;
                    },
                    None => {},
                }
            },
            JournalEntry::StorageChange { address, key, previous } => {
                match self.storage.get_mut(&address) {
                    Some(overlay) => {
                        match overlay.slots.get_mut(&key) {
                            Some(slot) => {
                                slot.value.current = previous;
                            },
                            None => {},
                        }
                    },
                    None => {},
                }
            },
            JournalEntry::StorageWipe { address, previous } => {
                self.storage.insert(address, previous);
            },
            JournalEntry::TransientStorageChange { address, key, previous } => {
                match previous {
                    Some(value) => {
                        if !value.is_zero() {
                            self.insert_transient(&address, &key, &value);
                        } else {
                            self.remove_transient(&address, &key);
                        }
                    },
                    None => {
                        self.remove_transient(&address, &key);
                    },
                }
            },
            JournalEntry::StorageWarmed { address, key } => {
                match self.storage.get_mut(&address) {
                    Some(overlay) => {
                        match overlay.slots.get_mut(&key) {
                            Some(slot) => {
                                slot.is_warm = false;
                            },
                            None => {},
                        }
                    },
                    None => {},
                }
            },
        }
        assert(self@.tx =~= old(self)@.tx.undo(entry@, eip161));
    }

    /// Undoes the journal down to `journal_len` entries and drops the logs past `logs_len`.
    pub(crate) fn roll_back_to(&mut self, journal_len: usize, logs_len: usize, features: EvmFeatures)
        requires
            old(self).wf(),
        ensures
            final(self)@ == old(self)@.with_tx(
                old(self)@.tx.rolled_back(journal_len as nat, logs_len as nat, features.eip161),
            ),
            final(self).inner.database == old(self).inner.database,
            final(self).wf(),
    {
        if logs_len < self.inner.logs.len() {
            self.inner.logs.truncate(logs_len);
        }
        let eip161 = features.contains(EvmFeature::EIP161);
        let ghost start = self@;
        while self.inner.journal.len() > journal_len
            invariant
                eip161 == features.eip161,
                self@.tx.unwound(journal_len as nat, eip161) == start.tx.unwound(
                    journal_len as nat,
                    eip161,
                ),
                self@.db == start.db,
                self@.history == start.history,
                self.inner.database == old(self).inner.database,
                self@.tx.transient_nonzero(),
            decreases self.inner.journal.len(),
        {
            let ghost before = self@.tx;
            if let Some(entry) = self.inner.journal.pop() {
                proof {
                    assert(before.journal.last() == entry@);
                    assert(self@.tx =~= before.pop_entry());
                }
                self.undo_entry(entry, eip161);
                assert(before.unwound(journal_len as nat, eip161) == self@.tx.unwound(
                    journal_len as nat,
                    eip161,
                ));
            }
        }
    }

    /// Undoes what the transaction did since the checkpoint, and drops the logs since. The
    /// checkpoint must lie in the current history, see [`State::accepts`]. Where the journal or the
    /// logs are shorter than at the checkpoint, they stay.
    pub fn rollback(&mut self, checkpoint: StateCheckpoint, features: EvmFeatures)
        requires
            old(self).wf(),
            checkpoint.generation() == old(self)@.history.generation,
        ensures
            final(self)@ == old(self)@.with_tx(
                old(self)@.tx.rolled_back(
                    checkpoint.journal_len(),
                    checkpoint.logs_len(),
                    features.eip161,
                ),
            ),
            final(self).inner.database == old(self).inner.database,
            final(self).wf(),
    {
        let (journal_len, logs_len) = checkpoint.cursors();
        self.roll_back_to(journal_len, logs_len, features);
    }
}

} // verus!
