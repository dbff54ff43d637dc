//! What the transaction layer of a state holds, and what each step does to it.
use alloy_primitives::Log;
use vstd::prelude::*;

use crate::account::Account;
use crate::fixed::{Address, FixedBytes, Word};
use crate::info::AccountInfo;
use crate::journal::EntryView;
use crate::prewarm::PrewarmView;
use crate::storage::{OverlayView, StorageSlot, TrackedValue};

verus! {

/// The transaction layer: everything that belongs to the transaction in flight.
#[verifier::ext_equal]
pub struct TxView {
    pub accounts: Map<Address, Account>,
    pub storage: Map<Address, OverlayView>,
    /// Transient storage. Slots that hold zero are not listed.
    pub transient: Map<(Address, Word), Word>,
    pub prewarm: PrewarmView,
    pub journal: Seq<EntryView>,
    pub logs: Seq<Log>,
    pub selfdestructs: Set<Address>,
}

/// The address of the precompiled contract whose touch EIP-161 keeps through a rollback.
pub open spec fn is_touch_keeper(address: Address) -> bool {
    address.spec_with_last_byte(3)
}

impl TxView {
    /// The layer of a state in which no transaction has run.
    pub open spec fn empty() -> Self {
        TxView {
            accounts: Map::empty(),
            storage: Map::empty(),
            transient: Map::empty(),
            prewarm: PrewarmView::empty(),
            journal: Seq::empty(),
            logs: Seq::empty(),
            selfdestructs: Set::empty(),
        }
    }

    /// Whether the layer lists no transient slot that holds zero.
    pub open spec fn transient_nonzero(self) -> bool {
        forall|slot: (Address, Word)| #[trigger]
            self.transient.contains_key(slot) ==> self.transient[slot]
                != FixedBytes::<32>::spec_zero()
    }

    /// The layer with one account replaced.
    pub open spec fn with_account(self, address: Address, account: Account) -> Self {
        TxView { accounts: self.accounts.insert(address, account), ..self }
    }

    /// The layer with one more journal entry.
    pub open spec fn with_entry(self, entry: EntryView) -> Self {
        TxView { journal: self.journal.push(entry), ..self }
    }

    /// The layer with one overlay replaced.
    pub open spec fn with_overlay(self, address: Address, overlay: OverlayView) -> Self {
        TxView { storage: self.storage.insert(address, overlay), ..self }
    }

    /// The layer with one slot of a loaded overlay replaced.
    pub open spec fn with_slot(self, address: Address, key: Word, slot: StorageSlot) -> Self {
        self.with_overlay(address, self.storage[address].with_slot(key, slot))
    }

    /// Whether a slot is loaded.
    pub open spec fn has_slot(self, address: Address, key: Word) -> bool {
        self.storage.contains_key(address) && self.storage[address].slots.contains_key(key)
    }

    /// A loaded slot.
    pub open spec fn slot(self, address: Address, key: Word) -> StorageSlot {
        self.storage[address].slots[key]
    }

    /// The value of a transient slot.
    pub open spec fn transient_value(self, address: Address, key: Word) -> Word {
        if self.transient.contains_key((address, key)) {
            self.transient[(address, key)]
        } else {
            FixedBytes::<32>::spec_zero()
        }
    }

    // --- loading ---

    /// Whether accessing an account is warm.
    pub open spec fn account_is_warm(self, address: Address) -> bool {
        ||| self.prewarm.addresses.contains(address)
        ||| self.accounts.contains_key(address) && self.accounts[address].is_warm
    }

    /// Whether accessing a slot is warm.
    pub open spec fn slot_is_warm(self, address: Address, key: Word) -> bool {
        ||| self.prewarm.slots.contains((address, key))
        ||| self.has_slot(address, key) && self.slot(address, key).is_warm
    }

    /// The layer once an account is loaded; `info` is what the database holds.
    pub open spec fn load_account(self, address: Address, info: Option<AccountInfo>) -> Self {
        if self.accounts.contains_key(address) {
            self
        } else {
            self.with_account(
                address,
                Account::spec_loaded(info, self.prewarm.addresses.contains(address)),
            )
        }
    }

    /// The layer once an account has an overlay.
    pub open spec fn open_overlay(self, address: Address) -> Self {
        if self.storage.contains_key(address) {
            self
        } else {
            self.with_overlay(address, OverlayView::empty())
        }
    }

    /// Whether loading a slot has to ask the database.
    pub open spec fn slot_needs_read(self, address: Address, key: Word) -> bool {
        !self.has_slot(address, key) && !(self.storage.contains_key(address)
            && self.storage[address].wiped)
    }

    /// The layer once a slot is loaded; `value` is what the database holds, which matters only
    /// where the slot needs a read.
    pub open spec fn load_slot(self, address: Address, key: Word, value: Word) -> Self {
        let opened = self.open_overlay(address);
        if opened.has_slot(address, key) {
            opened
        } else if opened.storage[address].wiped {
            opened.with_slot(address, key, StorageSlot::spec_loaded(FixedBytes::<32>::spec_zero()))
        } else {
            opened.with_slot(address, key, StorageSlot::spec_loaded(value))
        }
    }

    // --- journaled steps ---

    /// The entry that undoes whatever happens to an account from here on.
    pub open spec fn account_entry(self, address: Address) -> EntryView {
        let account = self.accounts[address];
        EntryView::AccountChange {
            address,
            previous: account.present,
            previous_is_warm: account.is_warm,
            previous_is_touched: account.is_touched,
            previous_is_destroyed: account.is_destroyed,
            previous_just_created: account.just_created,
            previous_code_changed: account.code_changed,
        }
    }

    /// The layer once an account became `account` through a handle, which journals its first
    /// change only.
    pub open spec fn change_account(self, address: Address, journaled: bool, account: Account) -> Self {
        let noted = if journaled {
            self
        } else {
            self.with_entry(self.account_entry(address))
        };
        noted.with_account(address, account)
    }

    /// The layer once an account was marked as self-destructed through a handle.
    pub open spec fn destruct_account(self, address: Address, journaled: bool) -> Self {
        let changed = self.change_account(
            address,
            journaled,
            Account { is_destroyed: true, ..self.accounts[address] },
        );
        TxView { selfdestructs: changed.selfdestructs.insert(address), ..changed }
    }

    /// The layer once a slot was given a value. Writing the value it has changes nothing.
    pub open spec fn write_slot(self, address: Address, key: Word, value: Word) -> Self {
        let slot = self.slot(address, key);
        if slot.value.current == value {
            self
        } else {
            self.with_entry(
                EntryView::StorageChange { address, key, previous: slot.value.current },
            ).with_slot(
                address,
                key,
                StorageSlot { value: TrackedValue { current: value, ..slot.value }, ..slot },
            )
        }
    }

    /// The layer once a slot was accessed. Accessing a warm slot changes nothing.
    pub open spec fn warm_slot(self, address: Address, key: Word) -> Self {
        if self.slot_is_warm(address, key) {
            self
        } else {
            self.with_entry(EntryView::StorageWarmed { address, key }).with_slot(
                address,
                key,
                StorageSlot { is_warm: true, ..self.slot(address, key) },
            )
        }
    }

    /// The layer once an account's storage was wiped with a journal entry.
    pub open spec fn wipe_journaled(self, address: Address) -> Self {
        self.with_entry(
            EntryView::StorageWipe { address, previous: self.storage[address] },
        ).with_overlay(address, self.storage[address].wipe())
    }

    /// The layer once an account's storage was wiped for good.
    pub open spec fn wipe(self, address: Address) -> Self {
        self.with_overlay(address, self.storage[address].wipe())
    }

    /// The layer once a transient slot was given a value. Writing the value it has changes nothing.
    pub open spec fn store_transient(self, address: Address, key: Word, value: Word) -> Self {
        if self.transient_value(address, key) == value {
            self
        } else {
            let noted = self.with_entry(
                EntryView::TransientStorageChange {
                    address,
                    key,
                    previous: if self.transient.contains_key((address, key)) {
                        Some(self.transient[(address, key)])
                    } else {
                        None
                    },
                },
            );
            TxView {
                transient: if value == FixedBytes::<32>::spec_zero() {
                    self.transient.remove((address, key))
                } else {
                    self.transient.insert((address, key), value)
                },
                ..noted
            }
        }
    }

    // --- undoing ---

    /// The layer with the change behind `entry` undone. Under EIP-161 one precompiled contract
    /// keeps its touch.
    pub open spec fn undo(self, entry: EntryView, eip161: bool) -> Self {
        match entry {
            EntryView::AccountChange {
                address,
                previous,
                previous_is_warm,
                previous_is_touched,
                previous_is_destroyed,
                previous_just_created,
                previous_code_changed,
            } => {
                let was_destroyed = self.accounts.contains_key(address)
                    && self.accounts[address].is_destroyed;
                TxView {
                    selfdestructs: if was_destroyed && !previous_is_destroyed {
                        self.selfdestructs.remove(address)
                    } else if !was_destroyed && previous_is_destroyed {
                        self.selfdestructs.insert(address)
                    } else {
                        self.selfdestructs
                    },
                    accounts: if self.accounts.contains_key(address) {
                        let account = self.accounts[address];
                        self.accounts.insert(
                            address,
                            Account {
                                original: account.original,
                                present: previous,
                                is_warm: previous_is_warm,
                                is_touched: if eip161 && is_touch_keeper(address) {
                                    account.is_touched
                                } else {
                                    previous_is_touched
                                },
                                is_destroyed: previous_is_destroyed,
                                just_created: previous_just_created,
                                code_changed: previous_code_changed,
                            },
                        )
                    } else {
                        self.accounts
                    },
                    ..self
                }
            },
            EntryView::StorageChange { address, key, previous } => if self.has_slot(address, key) {
                let slot = self.slot(address, key);
                self.with_slot(
                    address,
                    key,
                    StorageSlot { value: TrackedValue { current: previous, ..slot.value }, ..slot },
                )
            } else {
                self
            },
            EntryView::StorageWipe { address, previous } => self.with_overlay(address, previous),
            EntryView::TransientStorageChange { address, key, previous } => TxView {
                transient: match previous {
                    Some(value) => if value != FixedBytes::<32>::spec_zero() {
                        self.transient.insert((address, key), value)
                    } else {
                        self.transient.remove((address, key))
                    },
                    None => self.transient.remove((address, key)),
                },
                ..self
            },
            EntryView::StorageWarmed { address, key } => if self.has_slot(address, key) {
                self.with_slot(
                    address,
                    key,
                    StorageSlot { is_warm: false, ..self.slot(address, key) },
                )
            } else {
                self
            },
        }
    }

    /// The layer without its last journal entry.
    pub open spec fn pop_entry(self) -> Self {
        TxView { journal: self.journal.drop_last(), ..self }
    }

    /// The layer with the journal undone, last entry first, down to `len` entries.
    pub open spec fn unwound(self, len: nat, eip161: bool) -> Self
        decreases self.journal.len(),
    {
        if self.journal.len() <= len {
            self
        } else {
            self.pop_entry().undo(self.journal.last(), eip161).unwound(len, eip161)
        }
    }

    /// The layer rolled back to a point of `journal_len` journal entries and `logs_len` logs.
    /// Where the layer has fewer of either, those stay.
    pub open spec fn rolled_back(self, journal_len: nat, logs_len: nat, eip161: bool) -> Self {
        TxView {
            logs: if logs_len < self.logs.len() {
                self.logs.take(logs_len as int)
            } else {
                self.logs
            },
            ..self
        }.unwound(journal_len, eip161)
    }
}

} // verus!
