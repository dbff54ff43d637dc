//! Persistent storage of the transaction layer.
use vstd::prelude::*;

use crate::fixed::{FixedBytes, Word};
use crate::map::{Duplicate, WordMap};

verus! {

/// A value together with the one the transaction found.
#[derive(Clone, Copy, Debug, PartialEq, Eq)]
pub struct TrackedValue {
    pub original: Word,
    pub current: Word,
}

/// A storage slot loaded by the current transaction.
#[derive(Clone, Copy, Debug, PartialEq, Eq)]
pub struct StorageSlot {
    pub value: TrackedValue,
    /// Whether the transaction has accessed the slot before.
    pub is_warm: bool,
}

impl View for StorageSlot {
    type V = StorageSlot;

    open spec fn view(&self) -> StorageSlot {
        *self
    }
}

impl Duplicate for StorageSlot {
    fn duplicate(&self) -> (r: Self) {
        *self
    }
}

impl StorageSlot {
    /// A slot just read, with nothing changed since.
    pub open spec fn spec_loaded(value: Word) -> Self {
        StorageSlot { value: TrackedValue { original: value, current: value }, is_warm: false }
    }

    /// A slot just read, with nothing changed since.
    pub fn loaded(value: Word) -> (r: Self)
        ensures
            r == StorageSlot::spec_loaded(value),
    {
        StorageSlot { value: TrackedValue { original: value, current: value }, is_warm: false }
    }

    /// Whether accepting the transaction has to write the slot. Where the account's storage is
    /// wiped first, every value but zero has to be written again.
    pub open spec fn spec_is_changed(self, wiped: bool) -> bool {
        if wiped {
            self.value.current != FixedBytes::<32>::spec_zero()
        } else {
            self.value.current != self.value.original
        }
    }

    /// Whether accepting the transaction has to write the slot.
    pub fn is_changed(&self, wiped: bool) -> (r: bool)
        ensures
            r == self.spec_is_changed(wiped),
    {
        if wiped {
            !self.value.current.is_zero()
        } else {
            !(self.value.current == self.value.original)
        }
    }
}

/// The loaded storage of one account.
#[derive(Debug, PartialEq, Eq)]
pub struct StorageOverlay {
    pub slots: WordMap<StorageSlot>,
    /// Whether everything below this overlay reads as zero.
    pub wiped: bool,
}

/// What a [`StorageOverlay`] holds.
#[verifier::ext_equal]
pub struct OverlayView {
    pub slots: Map<Word, StorageSlot>,
    pub wiped: bool,
}

impl View for StorageOverlay {
    type V = OverlayView;

    open spec fn view(&self) -> OverlayView {
        OverlayView { slots: self.slots@, wiped: self.wiped }
    }
}

impl Duplicate for StorageOverlay {
    fn duplicate(&self) -> (r: Self) {
        StorageOverlay { slots: self.slots.duplicate(), wiped: self.wiped }
    }
}

impl OverlayView {
    /// An overlay with nothing loaded.
    pub open spec fn empty() -> Self {
        OverlayView { slots: Map::empty(), wiped: false }
    }

    /// The overlay with `slot` stored under `key`.
    pub open spec fn with_slot(self, key: Word, slot: StorageSlot) -> Self {
        OverlayView { slots: self.slots.insert(key, slot), ..self }
    }

    /// The overlay after a wipe: every loaded slot reads zero, and so does all below.
    pub open spec fn wipe(self) -> Self {
        OverlayView {
            slots: self.slots.map_values(
                |slot: StorageSlot| StorageSlot {
                    value: TrackedValue { current: FixedBytes::<32>::spec_zero(), ..slot.value },
                    ..slot
                },
            ),
            wiped: true,
        }
    }

    /// The overlay with the runtime warmth of every loaded slot cleared.
    pub open spec fn cooled(self) -> Self {
        OverlayView {
            slots: self.slots.map_values(|slot: StorageSlot| StorageSlot { is_warm: false, ..slot }),
            ..self
        }
    }
}

impl StorageOverlay {
    /// An overlay with nothing loaded.
    pub fn new() -> (r: Self)
        ensures
            r@ == OverlayView::empty(),
    {
        StorageOverlay { slots: WordMap::new(), wiped: false }
    }

    /// Zeroes every loaded slot and all storage below. Originals and warmth stay.
    pub fn wipe(&mut self)
        ensures
            final(self)@ == old(self)@.wipe(),
    {
        let keys = self.slots.keys();
        let mut i: usize = 0;
        while i < keys.len()
            invariant
                i <= keys.len(),
                crate::map::enumerates(keys@, old(self)@.slots.dom()),
                self@.slots.dom() =~= old(self)@.slots.dom(),
                self.wiped == old(self).wiped,
                forall|j: int|
                    0 <= j < i ==> self@.slots[#[trigger] keys@[j]] == old(self)@.wipe().slots[keys@[j]],
                forall|j: int|
                    i <= j < keys.len() ==> self@.slots[#[trigger] keys@[j]]
                        == old(self)@.slots[keys@[j]],
            decreases keys.len() - i,
        {
            let key = keys[i];
            assert(keys@.contains(key));
            match self.slots.get_mut(&key) {
                Some(slot) => {
                    slot.value.current = FixedBytes::zero();
                },
                None => {},
            }
            i += 1;
        }
        self.wiped = true;
        assert(self@.slots =~= old(self)@.wipe().slots) by {
            assert forall|k: Word| self@.slots.contains_key(k) implies self@.slots[k]
                == old(self)@.wipe().slots[k] by {
                assert(keys@.contains(k));
                let j = choose|j: int| 0 <= j < keys.len() && keys@[j] == k;
                assert(self@.slots[keys@[j]] == old(self)@.wipe().slots[keys@[j]]);
            }
        }
    }

    /// Clears the runtime warmth of every loaded slot.
    pub fn cool(&mut self)
        ensures
            final(self)@ == old(self)@.cooled(),
    {
        let keys = self.slots.keys();
        let mut i: usize = 0;
        while i < keys.len()
            invariant
                i <= keys.len(),
                crate::map::enumerates(keys@, old(self)@.slots.dom()),
                self@.slots.dom() =~= old(self)@.slots.dom(),
                self.wiped == old(self).wiped,
                forall|j: int|
                    0 <= j < i ==> self@.slots[#[trigger] keys@[j]] == old(self)@.cooled().slots[keys@[j]],
                forall|j: int|
                    i <= j < keys.len() ==> self@.slots[#[trigger] keys@[j]]
                        == old(self)@.slots[keys@[j]],
            decreases keys.len() - i,
        {
            let key = keys[i];
            assert(keys@.contains(key));
            match self.slots.get_mut(&key) {
                Some(slot) => {
                    slot.is_warm = false;
                },
                None => {},
            }
            i += 1;
        }
        assert(self@.slots =~= old(self)@.cooled().slots) by {
            assert forall|k: Word| self@.slots.contains_key(k) implies self@.slots[k]
                == old(self)@.cooled().slots[k] by {
                assert(keys@.contains(k));
                let j = choose|j: int| 0 <= j < keys.len() && keys@[j] == k;
                assert(self@.slots[keys@[j]] == old(self)@.cooled().slots[keys@[j]]);
            }
        }
    }
}

} // verus!
