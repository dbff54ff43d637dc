//! The revert journal.
use vstd::prelude::*;

use crate::fixed::{Address, Word};
use crate::info::{copy_info, AccountInfo};
use crate::map::Duplicate;
use crate::storage::{OverlayView, StorageOverlay};

verus! {

/// One change of the transaction layer, with what it takes to undo it.
#[allow(inconsistent_fields)]
#[derive(Debug, PartialEq, Eq)]
pub enum JournalEntry {
    /// An account changed.
    AccountChange {
        address: Address,
        previous: Option<AccountInfo>,
        previous_is_warm: bool,
        previous_is_touched: bool,
        previous_is_destroyed: bool,
        previous_just_created: bool,
        previous_code_changed: bool,
    },
    /// A storage slot got another value.
    StorageChange { address: Address, key: Word, previous: Word },
    /// An account's storage was wiped.
    StorageWipe { address: Address, previous: StorageOverlay },
    /// A transient storage slot got another value.
    TransientStorageChange { address: Address, key: Word, previous: Option<Word> },
    /// A storage slot was accessed for the first time.
    StorageWarmed { address: Address, key: Word },
}

/// What a [`JournalEntry`] holds.
#[allow(inconsistent_fields)]
pub enum EntryView {
    AccountChange {
        address: Address,
        previous: Option<AccountInfo>,
        previous_is_warm: bool,
        previous_is_touched: bool,
        previous_is_destroyed: bool,
        previous_just_created: bool,
        previous_code_changed: bool,
    },
    StorageChange { address: Address, key: Word, previous: Word },
    StorageWipe { address: Address, previous: OverlayView },
    TransientStorageChange { address: Address, key: Word, previous: Option<Word> },
    StorageWarmed { address: Address, key: Word },
}

impl View for JournalEntry {
    type V = EntryView;

    open spec fn view(&self) -> EntryView {
        match *self {
            JournalEntry::AccountChange {
                address,
                previous,
                previous_is_warm,
                previous_is_touched,
                previous_is_destroyed,
                previous_just_created,
                previous_code_changed,
            } => EntryView::AccountChange {
                address,
                previous,
                previous_is_warm,
                previous_is_touched,
                previous_is_destroyed,
                previous_just_created,
                previous_code_changed,
            },
            JournalEntry::StorageChange { address, key, previous } => EntryView::StorageChange {
                address,
                key,
                previous,
            },
            JournalEntry::StorageWipe { address, previous } => EntryView::StorageWipe {
                address,
                previous: previous@,
            },
            JournalEntry::TransientStorageChange { address, key, previous } =>
                EntryView::TransientStorageChange { address, key, previous },
            JournalEntry::StorageWarmed { address, key } => EntryView::StorageWarmed {
                address,
                key,
            },
        }
    }
}

impl Duplicate for JournalEntry {
    fn duplicate(&self) -> (r: Self) {
        match self {
            JournalEntry::AccountChange {
                address,
                previous,
                previous_is_warm,
                previous_is_touched,
                previous_is_destroyed,
                previous_just_created,
                previous_code_changed,
            } => JournalEntry::AccountChange {
                address: *address,
                previous: copy_info(previous),
                previous_is_warm: *previous_is_warm,
                previous_is_touched: *previous_is_touched,
                previous_is_destroyed: *previous_is_destroyed,
                previous_just_created: *previous_just_created,
                previous_code_changed: *previous_code_changed,
            },
            JournalEntry::StorageChange { address, key, previous } => JournalEntry::StorageChange {
                address: *address,
                key: *key,
                previous: *previous,
            },
            JournalEntry::StorageWipe { address, previous } => JournalEntry::StorageWipe {
                address: *address,
                previous: previous.duplicate(),
            },
            JournalEntry::TransientStorageChange { address, key, previous } =>
                JournalEntry::TransientStorageChange {
                    address: *address,
                    key: *key,
                    previous: *previous,
                },
            JournalEntry::StorageWarmed { address, key } => JournalEntry::StorageWarmed {
                address: *address,
                key: *key,
            },
        }
    }
}

/// What a list of journal entries holds.
pub open spec fn entry_views(entries: Seq<JournalEntry>) -> Seq<EntryView> {
    entries.map_values(|entry: JournalEntry| entry@)
}

/// A copy of a list of journal entries.
pub(crate) fn copy_journal(entries: &Vec<JournalEntry>) -> (r: Vec<JournalEntry>)
    ensures
        entry_views(r@) == entry_views(entries@),
{
    let mut r: Vec<JournalEntry> = Vec::new();
    let mut i: usize = 0;
    while i < entries.len()
        invariant
            i <= entries.len(),
            r.len() == i,
            forall|j: int| 0 <= j < i ==> (#[trigger] r@[j])@ == entries@[j]@,
        decreases entries.len() - i,
    {
        r.push(entries[i].duplicate());
        i += 1;
    }
    assert(entry_views(r@) =~= entry_views(entries@));
    r
}

/// A point in the history of a transaction to which a rollback can return.
///
/// A checkpoint belongs to the generation of the history in which it was taken. Replacing the
/// history, by restoring a transaction snapshot or by clearing the transaction, starts another
/// generation.
#[derive(Clone, Copy, PartialEq, Eq, Structural, Debug)]
pub struct StateCheckpoint {
    journal_len: usize,
    logs_len: usize,
    generation: u64,
}

impl StateCheckpoint {
    /// The length of the journal at the point.
    pub closed spec fn journal_len(self) -> nat {
        self.journal_len as nat
    }

    /// The number of logs at the point.
    pub closed spec fn logs_len(self) -> nat {
        self.logs_len as nat
    }

    /// The generation of the history that the point lies in.
    pub closed spec fn generation(self) -> u64 {
        self.generation
    }

    /// A checkpoint is the two lengths and the generation, and nothing more.
    pub proof fn law_checkpoint_is_its_parts(self, other: Self)
        ensures
            self == other <==> {
                &&& self.journal_len() == other.journal_len()
                &&& self.logs_len() == other.logs_len()
                &&& self.generation() == other.generation()
            },
    {
    }

    /// A point of the history.
    pub(crate) fn new(journal_len: usize, logs_len: usize, generation: u64) -> (r: Self)
        ensures
            r.journal_len() == journal_len,
            r.logs_len() == logs_len,
            r.generation() == generation,
    {
        StateCheckpoint { journal_len, logs_len, generation }
    }

    /// The length of the journal and the number of logs at the point.
    pub(crate) fn cursors(&self) -> (r: (usize, usize))
        ensures
            r.0 == self.journal_len(),
            r.1 == self.logs_len(),
    {
        (self.journal_len, self.logs_len)
    }

    /// Whether the point lies in the given generation of the history.
    pub(crate) fn is_of_generation(&self, generation: u64) -> (r: bool)
        ensures
            r == (self.generation() == generation),
    {
        self.generation == generation
    }
}

} // verus!
