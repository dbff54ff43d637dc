//! Loading persistent storage and changing it under the revert journal.
use vstd::prelude::*;

use crate::db::{Database, DbResult, LoadError};
use crate::fixed::{Address, FixedBytes, Word};
use crate::journal::JournalEntry;
use crate::map::Duplicate;
use crate::state::{State, StateView};
use crate::storage::{OverlayView, StorageOverlay, StorageSlot};

verus! {

/// The loaded storage of one account of a state.
pub struct StorageHandle<'h, D> {
    pub state: &'h mut State<D>,
    pub address: Address,
}

/// A loaded slot of a state.
pub struct StorageSlotHandle<'h, D> {
    pub state: &'h mut State<D>,
    pub address: Address,
    pub key: Word,
}

impl<'h, D: Database> View for StorageHandle<'h, D> {
    type V = StateView;

    /// The state that the storage belongs to.
    open spec fn view(&self) -> StateView {
        self.state@
    }
}

impl<'h, D: Database> View for StorageSlotHandle<'h, D> {
    type V = StateView;

    /// The state that the slot belongs to.
    open spec fn view(&self) -> StateView {
        self.state@
    }
}

impl<'h, D: Database> StorageHandle<'h, D> {
    /// What a handle keeps: its account has an overlay.
    pub open spec fn wf(self) -> bool {
        self@.wf() && self@.tx.storage.contains_key(self.address)
    }

    /// The loaded storage of the account.
    pub open spec fn overlay(self) -> OverlayView {
        self@.tx.storage[self.address]
    }

    /// Whether a slot is loaded.
    pub fn is_loaded(&self, key: &Word) -> (r: bool)
        requires
            self.wf(),
        ensures
            r == self.overlay().slots.contains_key(*key),
    {
        match self.state.storage.get(&self.address) {
            Some(overlay) => overlay.slots.contains_key(key),
            None => false,
        }
    }

    /// Whether accessing a slot is warm.
    pub fn is_warm(&self, key: &Word) -> (r: bool)
        requires
            self.wf(),
        ensures
            r == self@.tx.slot_is_warm(self.address, *key),
    {
        if self.state.inner.prewarm_set.is_storage_warm(&self.address, key) {
            return true;
        }
        match self.state.storage.get(&self.address) {
            Some(overlay) => match overlay.slots.get(key) {
                Some(slot) => slot.is_warm,
                None => false,
            },
            None => false,
        }
    }

    /// Whether the storage was wiped.
    pub fn is_wiped(&self) -> (r: bool)
        requires
            self.wf(),
        ensures
            r == self.overlay().wiped,
    {
        match self.state.storage.get(&self.address) {
            Some(overlay) => overlay.wiped,
            None => false,
        }
    }

    /// Wipes the storage for good: a rollback does not bring it back.
    pub fn wipe(&mut self)
        requires
            old(self).wf(),
        ensures
            final(self)@ == old(self)@.with_tx(old(self)@.tx.wipe(old(self).address)),
            final(self).state.inner.database == old(self).state.inner.database,
            final(self).address == old(self).address,
            *final(final(self).state) == *final(old(self).state),
            final(self).wf(),
    {
        match self.state.storage.get_mut(&self.address) {
            Some(overlay) => {
                overlay.wipe();
            },
            None => {},
        }
        assert(self@.tx =~= old(self)@.tx.wipe(old(self).address));
    }

    /// Wipes the storage so that a rollback brings it back.
    pub fn wipe_journaled(&mut self)
        requires
            old(self).wf(),
        ensures
            final(self)@ == old(self)@.with_tx(old(self)@.tx.wipe_journaled(old(self).address)),
            final(self).state.inner.database == old(self).state.inner.database,
            final(self).address == old(self).address,
            *final(final(self).state) == *final(old(self).state),
            final(self).wf(),
    {
        let previous = match self.state.storage.get(&self.address) {
            Some(overlay) => overlay.duplicate(),
            None => StorageOverlay::new(),
        };
        self.state.inner.journal.push(
            JournalEntry::StorageWipe { address: self.address, previous },
        );
        match self.state.storage.get_mut(&self.address) {
            Some(overlay) => {
                overlay.wipe();
            },
            None => {},
        }
        assert(self@.tx =~= old(self)@.tx.wipe_journaled(old(self).address));
    }

    /// Loads a slot and turns into a handle to it, unless the access is cold and cold accesses are
    /// to be skipped. A slot of wiped storage reads as zero. Loading is not journaled. The database is
    /// read only where the slot is neither loaded nor wiped and the access is not skipped.
    pub fn into_slot_with_skip(self, key: Word, skip_cold_load: bool) -> (r: Result<
        StorageSlotHandle<'h, D>,
        LoadError,
    >)
        requires
            self.wf(),
        ensures
            match r {
                Ok(slot) => {
                    &&& !skip_cold_load || self@.tx.slot_is_warm(self.address, key)
                    &&& slot.wf()
                    &&& slot.address == self.address
                    &&& slot.key == key
                    &&& self@.loads_slot(self.address, key, slot@)
                    &&& !self@.tx.slot_needs_read(self.address, key) ==> slot.state.inner == old(
                        self.state,
                    ).inner
                    &&& old(self.state).inner.database.reads_into(slot.state.inner.database)
                    &&& *final(slot.state) == *final(self.state)
                },
                Err(LoadError::ColdLoadSkipped) => {
                    &&& skip_cold_load && !self@.tx.slot_is_warm(self.address, key)
                    &&& *final(self.state) == *old(self.state)
                },
                Err(LoadError::Database(error)) => {
                    &&& !skip_cold_load || self@.tx.slot_is_warm(self.address, key)
                    &&& self@.tx.slot_needs_read(self.address, key)
                    &&& self@.db.answers_storage(self.address, key, Err(error))
                    &&& old(self.state).inner.database.reads_into(final(self.state).inner.database)
                    &&& final(self.state)@ == self@
                },
            },
    {
        let ghost before = self@;
        if skip_cold_load && !self.is_warm(&key) {
            return Err(LoadError::ColdLoadSkipped);
        }
        if !self.is_loaded(&key) {
            let value = if self.is_wiped() {
                assert(self@.finds_slot(self.address, key, FixedBytes::<32>::spec_zero()));
                FixedBytes::zero()
            } else {
                match self.state.inner.database.get_storage(&self.address, &key) {
                    Ok(value) => {
                        assert(before.finds_slot(self.address, key, value));
                        value
                    },
                    Err(error) => {
                        return Err(LoadError::Database(error));
                    },
                }
            };
            match self.state.storage.get_mut(&self.address) {
                Some(overlay) => {
                    overlay.slots.insert(key, StorageSlot::loaded(value));
                },
                None => {},
            }
            assert(self@.tx =~= before.tx.load_slot(self.address, key, value));
        } else {
            assert(before.finds_slot(self.address, key, FixedBytes::<32>::spec_zero()));
        }
        Ok(StorageSlotHandle { state: self.state, address: self.address, key })
    }

    /// Loads a slot and turns into a handle to it.
    pub fn into_slot(self, key: Word) -> (r: DbResult<StorageSlotHandle<'h, D>>)
        requires
            self.wf(),
        ensures
            match r {
                Ok(slot) => {
                    &&& slot.wf()
                    &&& slot.address == self.address
                    &&& slot.key == key
                    &&& self@.loads_slot(self.address, key, slot@)
                    &&& !self@.tx.slot_needs_read(self.address, key) ==> slot.state.inner == old(
                        self.state,
                    ).inner
                    &&& old(self.state).inner.database.reads_into(slot.state.inner.database)
                    &&& *final(slot.state) == *final(self.state)
                },
                Err(error) => {
                    &&& self@.tx.slot_needs_read(self.address, key)
                    &&& self@.db.answers_storage(self.address, key, Err(error))
                    &&& old(self.state).inner.database.reads_into(final(self.state).inner.database)
                    &&& final(self.state)@ == self@
                },
            },
    {
        match self.into_slot_with_skip(key, false) {
            Ok(slot) => Ok(slot),
            Err(LoadError::Database(error)) => Err(error),
            Err(LoadError::ColdLoadSkipped) => vstd::pervasive::unreached(),
        }
    }
}

impl<'h, D: Database> StorageSlotHandle<'h, D> {
    /// What a handle keeps: its slot is loaded.
    pub open spec fn wf(self) -> bool {
        self@.wf() && self@.tx.has_slot(self.address, self.key)
    }

    /// The slot.
    pub open spec fn slot(self) -> StorageSlot {
        self@.tx.slot(self.address, self.key)
    }

    /// The loaded slot.
    fn loaded(&self) -> (r: StorageSlot)
        requires
            self.wf(),
        ensures
            r == self.slot(),
    {
        match self.state.storage.get(&self.address) {
            Some(overlay) => match overlay.slots.get(&self.key) {
                Some(slot) => *slot,
                None => vstd::pervasive::unreached(),
            },
            None => vstd::pervasive::unreached(),
        }
    }

    /// Replaces the slot.
    fn replace(&mut self, slot: StorageSlot)
        requires
            old(self).wf(),
        ensures
            final(self)@ == old(self)@.with_tx(
                old(self)@.tx.with_slot(old(self).address, old(self).key, slot),
            ),
            final(self).state.inner == old(self).state.inner,
            final(self).address == old(self).address,
            final(self).key == old(self).key,
            *final(final(self).state) == *final(old(self).state),
            final(self).wf(),
    {
        match self.state.storage.get_mut(&self.address) {
            Some(overlay) => {
                overlay.slots.insert(self.key, slot);
            },
            None => {},
        }
        assert(self@.tx =~= old(self)@.tx.with_slot(old(self).address, old(self).key, slot));
    }

    /// The value that the transaction found.
    pub fn original(&self) -> (r: Word)
        requires
            self.wf(),
        ensures
            r == self.slot().value.original,
    {
        self.loaded().value.original
    }

    /// The value as it stands.
    pub fn current(&self) -> (r: Word)
        requires
            self.wf(),
        ensures
            r == self.slot().value.current,
    {
        self.loaded().value.current
    }

    /// Whether accessing the slot is warm.
    pub fn is_warm(&self) -> (r: bool)
        requires
            self.wf(),
        ensures
            r == self@.tx.slot_is_warm(self.address, self.key),
    {
        self.loaded().is_warm || self.state.inner.prewarm_set.is_storage_warm(
            &self.address,
            &self.key,
        )
    }

    /// Accesses the slot and says whether the access was cold.
    pub fn warm(&mut self) -> (r: bool)
        requires
            old(self).wf(),
        ensures
            r == !old(self)@.tx.slot_is_warm(old(self).address, old(self).key),
            final(self)@ == old(self)@.with_tx(
                old(self)@.tx.warm_slot(old(self).address, old(self).key),
            ),
            final(self).state.inner.database == old(self).state.inner.database,
            final(self).address == old(self).address,
            final(self).key == old(self).key,
            *final(final(self).state) == *final(old(self).state),
            final(self).wf(),
    {
        if self.is_warm() {
            return false;
        }
        let mut slot = self.loaded();
        slot.is_warm = true;
        self.state.inner.journal.push(
            JournalEntry::StorageWarmed { address: self.address, key: self.key },
        );
        self.replace(slot);
        assert(self@.tx =~= old(self)@.tx.warm_slot(old(self).address, old(self).key));
        true
    }

    /// Gives the slot a value.
    pub fn set(&mut self, value: Word)
        requires
            old(self).wf(),
        ensures
            final(self)@ == old(self)@.with_tx(
                old(self)@.tx.write_slot(old(self).address, old(self).key, value),
            ),
            final(self).state.inner.database == old(self).state.inner.database,
            final(self).address == old(self).address,
            final(self).key == old(self).key,
            *final(final(self).state) == *final(old(self).state),
            final(self).wf(),
    {
        let mut slot = self.loaded();
        let previous = slot.value.current;
        if previous == value {
            return ;
        }
        slot.value.current = value;
        self.state.inner.journal.push(
            JournalEntry::StorageChange { address: self.address, key: self.key, previous },
        );
        self.replace(slot);
        assert(self@.tx =~= old(self)@.tx.write_slot(old(self).address, old(self).key, value));
    }

    /// Gives the slot a value and lets go of it.
    pub fn write(self, value: Word)
        requires
            self.wf(),
        ensures
            final(self.state)@ == self@.with_tx(
                self@.tx.write_slot(self.address, self.key, value),
            ),
            final(self.state).inner.database == old(self.state).inner.database,
            final(self.state).wf(),
    {
        let mut handle = self;
        handle.set(value);
    }
}

impl<D: Database> State<D> {
    /// A handle to the persistent storage of an account. Neither the account nor any slot is
    /// loaded.
    pub fn storage(&mut self, address: &Address) -> (r: StorageHandle<'_, D>)
        requires
            old(self).wf(),
        ensures
            r.wf(),
            r.address == *address,
            r@ == old(self)@.with_tx(old(self)@.tx.open_overlay(*address)),
            r.state.inner == old(self).inner,
            *final(r.state) == *final(self),
    {
        if !self.storage.contains_key(address) {
            self.storage.insert(*address, StorageOverlay::new());
        }
        assert(self@.tx =~= old(self)@.tx.open_overlay(*address));
        StorageHandle { state: self, address: *address }
    }

    /// Loads a slot and returns a handle to it. Where the slot is neither loaded nor wiped, the
    /// database is read once; otherwise not at all.
    pub fn storage_slot(&mut self, address: &Address, key: Word) -> (r: DbResult<
        StorageSlotHandle<'_, D>,
    >)
        requires
            old(self).wf(),
        ensures
            match r {
                Ok(slot) => {
                    &&& slot.wf()
                    &&& slot.address == *address
                    &&& slot.key == key
                    &&& old(self)@.loads_slot(*address, key, slot@)
                    &&& !old(self)@.tx.slot_needs_read(*address, key) ==> slot.state.inner
                        == old(self).inner
                    &&& old(self).inner.database.reads_into(slot.state.inner.database)
                    &&& *final(slot.state) == *final(self)
                },
                Err(error) => {
                    &&& old(self)@.tx.slot_needs_read(*address, key)
                    &&& old(self)@.db.answers_storage(*address, key, Err(error))
                    &&& old(self).inner.database.reads_into(final(self).inner.database)
                    &&& final(self)@ == old(self)@.with_tx(old(self)@.tx.open_overlay(*address))
                    &&& final(self).wf()
                },
            },
    {
        let ghost before = self@;
        let handle = self.storage(address);
        let r = handle.into_slot(key);
        proof {
            lemma_opened_loads(before, *address, key);
        }
        r
    }

    /// Loads a slot and returns a handle to it, unless the access is cold and cold accesses are to
    /// be skipped. A skipped access reads nothing.
    pub fn storage_slot_with_skip(&mut self, address: &Address, key: Word, skip_cold_load: bool) -> (r:
        Result<StorageSlotHandle<'_, D>, LoadError>)
        requires
            old(self).wf(),
        ensures
            match r {
                Ok(slot) => {
                    &&& !skip_cold_load || old(self)@.tx.slot_is_warm(*address, key)
                    &&& slot.wf()
                    &&& slot.address == *address
                    &&& slot.key == key
                    &&& old(self)@.loads_slot(*address, key, slot@)
                    &&& !old(self)@.tx.slot_needs_read(*address, key) ==> slot.state.inner
                        == old(self).inner
                    &&& old(self).inner.database.reads_into(slot.state.inner.database)
                    &&& *final(slot.state) == *final(self)
                },
                Err(LoadError::ColdLoadSkipped) => {
                    &&& skip_cold_load && !old(self)@.tx.slot_is_warm(*address, key)
                    &&& final(self).inner == old(self).inner
                    &&& final(self)@ == old(self)@.with_tx(old(self)@.tx.open_overlay(*address))
                    &&& final(self).wf()
                },
                Err(LoadError::Database(error)) => {
                    &&& !skip_cold_load || old(self)@.tx.slot_is_warm(*address, key)
                    &&& old(self)@.tx.slot_needs_read(*address, key)
                    &&& old(self)@.db.answers_storage(*address, key, Err(error))
                    &&& old(self).inner.database.reads_into(final(self).inner.database)
                    &&& final(self)@ == old(self)@.with_tx(old(self)@.tx.open_overlay(*address))
                    &&& final(self).wf()
                },
            },
    {
        let ghost before = self@;
        let handle = self.storage(address);
        let r = handle.into_slot_with_skip(key, skip_cold_load);
        proof {
            lemma_opened_loads(before, *address, key);
        }
        r
    }

    /// The value of a slot as it stands, read without loading the slot. The database is read only
    /// where the slot is neither loaded nor wiped.
    pub fn storage_slot_untracked(&mut self, address: &Address, key: &Word) -> (r: DbResult<Word>)
        requires
            old(self).wf(),
        ensures
            old(self)@.reads_slot(*address, *key, r),
            old(self).inner.database.reads_into(final(self).inner.database),
            !old(self)@.tx.slot_needs_read(*address, *key) ==> *final(self) == *old(self),
            final(self)@ == old(self)@,
            final(self).wf(),
    {
        if let Some(overlay) = self.storage.get(address) {
            if let Some(slot) = overlay.slots.get(key) {
                return Ok(slot.value.current);
            }
            if overlay.wiped {
                return Ok(FixedBytes::zero());
            }
        }
        self.inner.database.get_storage(address, key)
    }

    /// The value of a slot as it stands, where the slot is loaded.
    pub fn get_storage(&self, address: &Address, key: &Word) -> (r: Option<Word>)
        ensures
            match r {
                Some(value) => self@.tx.has_slot(*address, *key) && value == self@.tx.slot(
                    *address,
                    *key,
                ).value.current,
                None => !self@.tx.has_slot(*address, *key),
            },
    {
        match self.storage.get(address) {
            Some(overlay) => match overlay.slots.get(key) {
                Some(slot) => Some(slot.value.current),
                None => None,
            },
            None => None,
        }
    }

    /// Reads a slot below the transaction: from the accepted state and its database.
    pub fn read_committed_storage(&mut self, address: &Address, key: &Word) -> (r: DbResult<Word>)
        requires
            old(self).wf(),
        ensures
            old(self)@.db.answers_storage(*address, *key, r),
            old(self).inner.database.reads_into(final(self).inner.database),
            final(self)@ == old(self)@,
            final(self).wf(),
    {
        self.inner.database.get_storage(address, key)
    }

    /// Sets whether a loaded slot counts as accessed, without a journal entry. Does nothing where
    /// the slot is not loaded. A pre-warmed slot stays warm.
    pub fn set_storage_warm(&mut self, address: &Address, key: Word, warm: bool)
        requires
            old(self).wf(),
        ensures
            final(self)@ == old(self)@.with_tx(
                if old(self)@.tx.has_slot(*address, key) {
                    old(self)@.tx.with_slot(
                        *address,
                        key,
                        StorageSlot { is_warm: warm, ..old(self)@.tx.slot(*address, key) },
                    )
                } else {
                    old(self)@.tx
                },
            ),
            final(self).inner == old(self).inner,
            final(self).wf(),
    {
        match self.storage.get_mut(address) {
            Some(overlay) => {
                match overlay.slots.get_mut(&key) {
                    Some(slot) => {
                        slot.is_warm = warm;
                    },
                    None => {},
                }
            },
            None => {},
        }
        assert(self@.tx.storage =~= if old(self)@.tx.has_slot(*address, key) {
            old(self)@.tx.with_slot(
                *address,
                key,
                StorageSlot { is_warm: warm, ..old(self)@.tx.slot(*address, key) },
            ).storage
        } else {
            old(self)@.tx.storage
        });
    }
}

/// Opening an overlay first makes no difference to loading a slot.
proof fn lemma_opened_loads(state: StateView, address: Address, key: Word)
    ensures
        ({
            let opened = state.with_tx(state.tx.open_overlay(address));
            &&& forall|after: StateView|
                opened.loads_slot(address, key, after) ==> state.loads_slot(address, key, after)
            &&& opened.tx.slot_needs_read(address, key) == state.tx.slot_needs_read(address, key)
            &&& opened.tx.slot_is_warm(address, key) == state.tx.slot_is_warm(address, key)
        }),
{
    let opened = state.with_tx(state.tx.open_overlay(address));
    assert forall|after: StateView|
        opened.loads_slot(address, key, after) implies state.loads_slot(address, key, after) by {
        let value = choose|value: Word| #[trigger]
            opened.finds_slot(address, key, value) && after == opened.with_tx(
                opened.tx.load_slot(address, key, value),
            );
        assert(state.finds_slot(address, key, value));
        assert(opened.tx.load_slot(address, key, value) == state.tx.load_slot(address, key, value));
    }
}

} // verus!
