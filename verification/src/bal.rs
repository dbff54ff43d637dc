//! EIP-7928 block access lists.
use std::sync::Arc;

use vstd::prelude::*;

use crate::fixed::{Address, FixedBytes, Word};
use crate::info::{copy_info, share, AccountInfo};
use crate::stream::StateChange;

verus! {

/// A position in a block: zero before its transactions, then one more for each of them.
pub type BlockAccessIndex = u64;

/// One access of a block, with the position at which it was made.
#[derive(Debug, PartialEq, Eq)]
pub struct BalEntry {
    pub index: BlockAccessIndex,
    pub change: StateChange,
}

impl Clone for BalEntry {
    fn clone(&self) -> (r: Self)
        ensures
            r == *self,
    {
        BalEntry { index: self.index, change: self.change.clone() }
    }
}

/// The accesses of a block in the order in which they were recorded.
#[derive(Debug, PartialEq, Eq)]
pub struct Bal {
    entries: Vec<BalEntry>,
}

impl View for Bal {
    type V = Seq<BalEntry>;

    closed spec fn view(&self) -> Seq<BalEntry> {
        self.entries@
    }
}

/// The contents that `change` gives the account at `address`, where it writes it.
pub open spec fn account_written(change: StateChange, address: Address) -> Option<Option<AccountInfo>> {
    match change {
        StateChange::Account { address: written, current, .. } => if written == address {
            Some(current)
        } else {
            None
        },
        _ => None,
    }
}

/// Whether `change` reads or writes the account at `address`.
pub open spec fn account_accessed(change: StateChange, address: Address) -> bool {
    match change {
        StateChange::Account { address: accessed, .. } => accessed == address,
        StateChange::AccountRead { address: accessed, .. } => accessed == address,
        _ => false,
    }
}

/// The value that `change` gives a slot, where it writes it. A wipe writes zero to every slot.
pub open spec fn slot_written(change: StateChange, address: Address, key: Word) -> Option<Word> {
    match change {
        StateChange::Storage(write) => if write.address == address && write.key == key {
            Some(write.current)
        } else {
            None
        },
        StateChange::StorageWipe { address: wiped } => if wiped == address {
            Some(FixedBytes::<32>::spec_zero())
        } else {
            None
        },
        _ => None,
    }
}

/// Whether `change` reads or writes a slot.
pub open spec fn slot_accessed(change: StateChange, address: Address, key: Word) -> bool {
    match change {
        StateChange::StorageRead { address: accessed, key: read, .. } => accessed == address && read
            == key,
        _ => slot_written(change, address, key) is Some,
    }
}

/// Whether a list records any access of the account at `address`.
pub open spec fn covers_account(entries: Seq<BalEntry>, address: Address) -> bool {
    exists|i: int| 0 <= i < entries.len() && account_accessed((#[trigger] entries[i]).change, address)
}

/// Whether a list records any access of a slot.
pub open spec fn covers_slot(entries: Seq<BalEntry>, address: Address, key: Word) -> bool {
    exists|i: int| 0 <= i < entries.len() && slot_accessed((#[trigger] entries[i]).change, address, key)
}

/// The last contents that a list gives the account at `address` before position `index`.
pub open spec fn account_at(entries: Seq<BalEntry>, address: Address, index: BlockAccessIndex) -> Option<
    Option<AccountInfo>,
>
    decreases entries.len(),
{
    if entries.len() == 0 {
        None
    } else if entries.last().index < index && account_written(entries.last().change, address) is Some {
        account_written(entries.last().change, address)
    } else {
        account_at(entries.drop_last(), address, index)
    }
}

/// The last value that a list gives a slot before position `index`.
pub open spec fn slot_at(
    entries: Seq<BalEntry>,
    address: Address,
    key: Word,
    index: BlockAccessIndex,
) -> Option<Word>
    decreases entries.len(),
{
    if entries.len() == 0 {
        None
    } else if entries.last().index < index && slot_written(entries.last().change, address, key) is Some {
        slot_written(entries.last().change, address, key)
    } else {
        slot_at(entries.drop_last(), address, key, index)
    }
}

impl Bal {
    /// A list without accesses.
    pub fn new() -> (r: Self)
        ensures
            r@ == Seq::<BalEntry>::empty(),
    {
        Bal { entries: Vec::new() }
    }

    /// Records an access.
    pub fn push(&mut self, entry: BalEntry)
        ensures
            final(self)@ == old(self)@.push(entry),
    {
        self.entries.push(entry);
    }

    /// The accesses in the order in which they were recorded.
    pub fn entries(&self) -> (r: &[BalEntry])
        ensures
            r@ == self@,
    {
        self.entries.as_slice()
    }

    /// A copy of the list.
    pub fn duplicate(&self) -> (r: Self)
        ensures
            r@ == self@,
    {
        let mut entries: Vec<BalEntry> = Vec::new();
        let mut i: usize = 0;
        while i < self.entries.len()
            invariant
                i <= self.entries.len(),
                entries@ == self.entries@.take(i as int),
            decreases self.entries.len() - i,
        {
            entries.push(self.entries[i].clone());
            assert(entries@ =~= self.entries@.take(i + 1));
            i += 1;
        }
        assert(entries@ =~= self.entries@);
        Bal { entries }
    }

    /// Whether any access of the account at `address` is recorded.
    pub fn covers_account(&self, address: &Address) -> (r: bool)
        ensures
            r == covers_account(self@, *address),
    {
        let mut i: usize = 0;
        while i < self.entries.len()
            invariant
                i <= self.entries.len(),
                forall|j: int|
                    0 <= j < i ==> !account_accessed((#[trigger] self@[j]).change, *address),
            decreases self.entries.len() - i,
        {
            let found = match &self.entries[i].change {
                StateChange::Account { address: accessed, .. } => *accessed == *address,
                StateChange::AccountRead { address: accessed, .. } => *accessed == *address,
                _ => false,
            };
            if found {
                assert(account_accessed(self@[i as int].change, *address));
                return true;
            }
            i += 1;
        }
        false
    }

    /// Whether any access of a slot is recorded.
    pub fn covers_slot(&self, address: &Address, key: &Word) -> (r: bool)
        ensures
            r == covers_slot(self@, *address, *key),
    {
        let mut i: usize = 0;
        while i < self.entries.len()
            invariant
                i <= self.entries.len(),
                forall|j: int|
                    0 <= j < i ==> !slot_accessed((#[trigger] self@[j]).change, *address, *key),
            decreases self.entries.len() - i,
        {
            let found = match &self.entries[i].change {
                StateChange::Storage(write) => write.address == *address && write.key == *key,
                StateChange::StorageWipe { address: wiped } => *wiped == *address,
                StateChange::StorageRead { address: accessed, key: read, .. } => *accessed
                    == *address && *read == *key,
                _ => false,
            };
            if found {
                assert(slot_accessed(self@[i as int].change, *address, *key));
                return true;
            }
            i += 1;
        }
        false
    }

    /// The last contents recorded for the account at `address` before position `index`.
    pub fn account_at(&self, address: &Address, index: BlockAccessIndex) -> (r: Option<
        Option<AccountInfo>,
    >)
        ensures
            r == account_at(self@, *address, index),
    {
        let mut i: usize = self.entries.len();
        assert(self@.take(i as int) =~= self@);
        while i > 0
            invariant
                i <= self.entries.len(),
                account_at(self@, *address, index) == account_at(self@.take(i as int), *address, index),
            decreases i,
        {
            let ghost longer = self@.take(i as int);
            assert(longer.drop_last() =~= self@.take(i - 1));
            i -= 1;
            let entry = &self.entries[i];
            if entry.index < index {
                if let StateChange::Account { address: written, current, .. } = &entry.change {
                    if *written == *address {
                        return Some(copy_info(current));
                    }
                }
            }
        }
        None
    }

    /// The last value recorded for a slot before position `index`.
    pub fn slot_at(&self, address: &Address, key: &Word, index: BlockAccessIndex) -> (r: Option<Word>)
        ensures
            r == slot_at(self@, *address, *key, index),
    {
        let mut i: usize = self.entries.len();
        assert(self@.take(i as int) =~= self@);
        while i > 0
            invariant
                i <= self.entries.len(),
                slot_at(self@, *address, *key, index) == slot_at(
                    self@.take(i as int),
                    *address,
                    *key,
                    index,
                ),
            decreases i,
        {
            let ghost longer = self@.take(i as int);
            assert(longer.drop_last() =~= self@.take(i - 1));
            i -= 1;
            let entry = &self.entries[i];
            if entry.index < index {
                match &entry.change {
                    StateChange::Storage(write) => {
                        if write.address == *address && write.key == *key {
                            return Some(write.current);
                        }
                    },
                    StateChange::StorageWipe { address: wiped } => {
                        if *wiped == *address {
                            return Some(FixedBytes::zero());
                        }
                    },
                    _ => {},
                }
            }
        }
        None
    }
}

/// The block access lists that a database works with: one to read from, one under construction.
#[derive(Debug)]
pub struct BalContext {
    bal: Option<Arc<Bal>>,
    allow_db_fallback: bool,
    builder: Option<Bal>,
    index: BlockAccessIndex,
}

/// What a [`BalContext`] holds.
pub struct BalView {
    pub attached: Option<Arc<Bal>>,
    pub allow_db_fallback: bool,
    pub builder: Option<Seq<BalEntry>>,
    pub index: BlockAccessIndex,
}

impl View for BalContext {
    type V = BalView;

    closed spec fn view(&self) -> BalView {
        BalView {
            attached: self.bal,
            allow_db_fallback: self.allow_db_fallback,
            builder: match self.builder {
                Some(builder) => Some(builder@),
                None => None,
            },
            index: self.index,
        }
    }
}

impl BalView {
    /// Nothing attached, nothing under construction, at the start of a block.
    pub open spec fn initial() -> Self {
        BalView { attached: None, allow_db_fallback: false, builder: None, index: 0 }
    }

    /// The context after `change` was accepted at the current position.
    pub open spec fn recorded(self, change: StateChange) -> Self {
        BalView {
            builder: match self.builder {
                Some(entries) => Some(entries.push(BalEntry { index: self.index, change })),
                None => None,
            },
            ..self
        }
    }
}

impl BalContext {
    /// Nothing attached, nothing under construction, at the start of a block.
    pub fn new() -> (r: Self)
        ensures
            r@ == BalView::initial(),
    {
        BalContext { bal: None, allow_db_fallback: false, builder: None, index: 0 }
    }

    /// A copy of the context.
    pub fn duplicate(&self) -> (r: Self)
        ensures
            r@ == self@,
    {
        BalContext {
            bal: match &self.bal {
                Some(bal) => Some(share(bal)),
                None => None,
            },
            allow_db_fallback: self.allow_db_fallback,
            builder: match &self.builder {
                Some(builder) => Some(builder.duplicate()),
                None => None,
            },
            index: self.index,
        }
    }

    /// Attaches a list to read from.
    pub fn set_bal(&mut self, bal: Arc<Bal>)
        ensures
            final(self)@ == (BalView { attached: Some(bal), ..old(self)@ }),
    {
        self.bal = Some(bal);
    }

    /// The list to read from.
    pub fn bal(&self) -> (r: Option<&Arc<Bal>>)
        ensures
            match r {
                Some(bal) => self@.attached == Some(*bal),
                None => self@.attached is None,
            },
    {
        self.bal.as_ref()
    }

    /// Detaches the list to read from.
    pub fn clear_bal(&mut self)
        ensures
            final(self)@ == (BalView { attached: None, ..old(self)@ }),
    {
        self.bal = None;
    }

    /// Sets whether reads that the attached list does not cover go to the database.
    pub fn set_allow_db_fallback(&mut self, allow: bool)
        ensures
            final(self)@ == (BalView { allow_db_fallback: allow, ..old(self)@ }),
    {
        self.allow_db_fallback = allow;
    }

    /// Whether reads that the attached list does not cover go to the database.
    pub fn allow_db_fallback(&self) -> (r: bool)
        ensures
            r == self@.allow_db_fallback,
    {
        self.allow_db_fallback
    }

    /// Starts an empty list under construction where there is none.
    pub fn enable_bal_builder(&mut self)
        ensures
            final(self)@ == (BalView {
                builder: Some(
                    match old(self)@.builder {
                        Some(entries) => entries,
                        None => Seq::empty(),
                    },
                ),
                ..old(self)@
            }),
    {
        if self.builder.is_none() {
            self.builder = Some(Bal::new());
        }
    }

    /// The list under construction.
    pub fn bal_builder(&self) -> (r: Option<&Bal>)
        ensures
            match r {
                Some(bal) => self@.builder == Some(bal@),
                None => self@.builder is None,
            },
    {
        self.builder.as_ref()
    }

    /// Takes the list under construction and returns to the start of a block.
    pub fn take_bal_builder(&mut self) -> (r: Option<Bal>)
        ensures
            match r {
                Some(bal) => old(self)@.builder == Some(bal@),
                None => old(self)@.builder is None,
            },
            final(self)@ == (BalView { builder: None, index: 0, ..old(self)@ }),
    {
        self.index = 0;
        self.builder.take()
    }

    /// The current position.
    pub fn bal_index(&self) -> (r: BlockAccessIndex)
        ensures
            r == self@.index,
    {
        self.index
    }

    /// Moves to a position.
    pub fn set_bal_index(&mut self, index: BlockAccessIndex)
        ensures
            final(self)@ == (BalView { index, ..old(self)@ }),
    {
        self.index = index;
    }

    /// Adds an accepted change to the list under construction, where there is one.
    pub fn record(&mut self, change: &StateChange)
        ensures
            final(self)@ == old(self)@.recorded(*change),
    {
        let index = self.index;
        match &mut self.builder {
            Some(builder) => {
                builder.push(BalEntry { index, change: change.clone() });
            },
            None => {},
        }
    }
}

} // verus!
