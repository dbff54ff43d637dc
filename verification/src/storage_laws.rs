//! What the operations on persistent and transient storage do to a slot, and leave of all others.
use vstd::prelude::*;

use crate::db::{Database, DbError, DbResult, LoadError};
use crate::fixed::{Address, FixedBytes, Word};
use crate::journal::EntryView;
use crate::lifetime_laws::{keeps_storage, loses_storage};
use crate::model::TxView;
use crate::state::{State, StateView};
use crate::storage::StorageSlot;
use crate::storage_handle::{StorageHandle, StorageSlotHandle};

verus! {

/// Whether a slot is loaded.
pub open spec fn is_loaded(tx: TxView, address: Address, key: Word) -> bool {
    tx.storage.contains_key(address) && tx.storage[address].slots.contains_key(key)
}

/// Whether the storage of an account is wiped.
pub open spec fn is_wiped(tx: TxView, address: Address) -> bool {
    tx.storage.contains_key(address) && tx.storage[address].wiped
}

/// Whether accessing a slot is warm: it is pre-warmed, or loaded and accessed before.
pub open spec fn is_slot_warm(tx: TxView, address: Address, key: Word) -> bool {
    tx.prewarm.slots.contains((address, key)) || (is_loaded(tx, address, key)
        && tx.storage[address].slots[key].is_warm)
}

/// Whether two states differ in nothing but the storage of one account and the journal.
pub open spec fn changes_one_storage(before: StateView, after: StateView, address: Address) -> bool {
    &&& after.db == before.db
    &&& after.history == before.history
    &&& after.tx.accounts == before.tx.accounts
    &&& after.tx.transient == before.tx.transient
    &&& after.tx.prewarm == before.tx.prewarm
    &&& after.tx.logs == before.tx.logs
    &&& after.tx.selfdestructs == before.tx.selfdestructs
    &&& forall|other: Address|
        other != address ==> #[trigger] keeps_storage(before.tx, after.tx, other)
}

/// Whether two states differ in nothing but one slot and the journal.
pub open spec fn changes_one_slot(
    before: StateView,
    after: StateView,
    address: Address,
    key: Word,
) -> bool {
    &&& changes_one_storage(before, after, address)
    &&& after.tx.storage.contains_key(address)
    &&& after.tx.storage[address].wiped == is_wiped(before.tx, address)
    &&& forall|other: Word|
        other != key ==> {
            &&& #[trigger] after.tx.storage[address].slots.contains_key(other) == is_loaded(
                before.tx,
                address,
                other,
            )
            &&& is_loaded(before.tx, address, other) ==> after.tx.storage[address].slots[other]
                == before.tx.storage[address].slots[other]
        }
}

/// Whether the journal has `entry` more.
pub open spec fn notes(before: StateView, after: StateView, entry: EntryView) -> bool {
    &&& after.tx.journal.len() == before.tx.journal.len() + 1
    &&& after.tx.journal.drop_last() == before.tx.journal
    &&& after.tx.journal.last() == entry
}

// --- slots ---

/// Writing a slot gives it the value and leaves what the transaction found in it, its warmth and
/// every other slot. Where the value is another, the journal notes the one that it replaces;
/// otherwise nothing changes.
pub proof fn law_set_slot<'h, D: Database>(handle: &mut StorageSlotHandle<'h, D>, value: Word)
    requires
        old(handle).wf(),
        call_ensures(StorageSlotHandle::<'h, D>::set, (handle, value), ()),
    ensures
        final(handle).address == old(handle).address,
        final(handle).key == old(handle).key,
        writes_value(old(handle)@, final(handle)@, old(handle).address, old(handle).key, value),
{
    let (before, address, key) = (old(handle)@, old(handle).address, old(handle).key);
    lemma_noted(
        before.tx,
        EntryView::StorageChange { address, key, previous: before.tx.slot(address, key).value.current },
    );
}

/// Whether a loaded slot was given a value and nothing else changed.
pub open spec fn writes_value(
    before: StateView,
    after: StateView,
    address: Address,
    key: Word,
    value: Word,
) -> bool {
    let was = before.tx.storage[address].slots[key];
    let left = after.tx.storage[address].slots[key];
    &&& is_loaded(after.tx, address, key)
    &&& left.value.current == value
    &&& left.value.original == was.value.original
    &&& left.is_warm == was.is_warm
    &&& changes_one_slot(before, after, address, key)
    &&& if was.value.current == value {
        after == before
    } else {
        notes(
            before,
            after,
            EntryView::StorageChange { address, key, previous: was.value.current },
        )
    }
}

/// Writing a slot and letting go of it does the same.
pub proof fn law_write_slot<'h, D: Database>(handle: StorageSlotHandle<'h, D>, value: Word)
    requires
        handle.wf(),
        call_ensures(StorageSlotHandle::<'h, D>::write, (handle, value), ()),
    ensures
        writes_value(handle@, final(handle.state)@, handle.address, handle.key, value),
{
    let (before, address, key) = (handle@, handle.address, handle.key);
    lemma_noted(
        before.tx,
        EntryView::StorageChange { address, key, previous: before.tx.slot(address, key).value.current },
    );
}

/// Accessing a slot says whether it was cold: neither pre-warmed nor accessed before. A cold slot is
/// marked as accessed, which the journal notes, and nothing else changes; a warm one changes nothing.
pub proof fn law_warm_slot<'h, D: Database>(handle: &mut StorageSlotHandle<'h, D>, cold: bool)
    requires
        old(handle).wf(),
        call_ensures(StorageSlotHandle::<'h, D>::warm, (handle,), cold),
    ensures
        final(handle).address == old(handle).address,
        final(handle).key == old(handle).key,
        ({
            let (address, key) = (old(handle).address, old(handle).key);
            let was = old(handle)@.tx.storage[address].slots[key];
            let left = final(handle)@.tx.storage[address].slots[key];
            &&& cold <==> !is_slot_warm(old(handle)@.tx, address, key)
            &&& !cold ==> final(handle)@ == old(handle)@
            &&& cold ==> {
                &&& changes_one_slot(old(handle)@, final(handle)@, address, key)
                &&& is_loaded(final(handle)@.tx, address, key)
                &&& left.is_warm
                &&& left.value.original == was.value.original
                &&& left.value.current == was.value.current
                &&& notes(
                    old(handle)@,
                    final(handle)@,
                    EntryView::StorageWarmed { address, key },
                )
            }
        }),
{
    lemma_noted(
        old(handle)@.tx,
        EntryView::StorageWarmed { address: old(handle).address, key: old(handle).key },
    );
}

/// The readings of a slot handle are those of its slot.
pub proof fn law_slot_readings<'h, D: Database>(
    handle: &StorageSlotHandle<'h, D>,
    original: Word,
    current: Word,
    warm: bool,
)
    requires
        handle.wf(),
        call_ensures(StorageSlotHandle::<'h, D>::original, (handle,), original),
        call_ensures(StorageSlotHandle::<'h, D>::current, (handle,), current),
        call_ensures(StorageSlotHandle::<'h, D>::is_warm, (handle,), warm),
    ensures
        original == handle@.tx.storage[handle.address].slots[handle.key].value.original,
        current == handle@.tx.storage[handle.address].slots[handle.key].value.current,
        warm <==> is_slot_warm(handle@.tx, handle.address, handle.key),
{
}

/// Setting the warmth of a loaded slot changes that and nothing else, not even the journal; a slot
/// that is not loaded stays that way.
pub proof fn law_set_storage_warm<D: Database>(
    state: &mut State<D>,
    address: Address,
    key: Word,
    warm: bool,
)
    requires
        call_ensures(State::<D>::set_storage_warm, (state, &address, key, warm), ()),
    ensures
        final(state)@.tx.journal == old(state)@.tx.journal,
        if is_loaded(old(state)@.tx, address, key) {
            let was = old(state)@.tx.storage[address].slots[key];
            let left = final(state)@.tx.storage[address].slots[key];
            &&& changes_one_slot(old(state)@, final(state)@, address, key)
            &&& is_loaded(final(state)@.tx, address, key)
            &&& left.is_warm == warm
            &&& left.value.original == was.value.original
            &&& left.value.current == was.value.current
        } else {
            final(state)@ == old(state)@
        },
{
}

// --- the storage of an account ---

/// Opening the storage of an account loads nothing, wipes nothing and journals nothing.
pub proof fn law_storage<'h, D: Database>(
    state: &'h mut State<D>,
    address: Address,
    handle: StorageHandle<'h, D>,
)
    requires
        call_ensures(State::<D>::storage, (state, &address), handle),
    ensures
        handle.address == address,
        opens_storage(old(state)@, handle@, address),
{
}

/// Whether the storage of an account is open in `after`, with nothing else changed: an account
/// without open storage has none loaded and none wiped.
pub open spec fn opens_storage(before: StateView, after: StateView, address: Address) -> bool {
    &&& changes_one_storage(before, after, address)
    &&& after.tx.journal == before.tx.journal
    &&& after.tx.storage.contains_key(address)
    &&& after.tx.storage[address].wiped == is_wiped(before.tx, address)
    &&& forall|key: Word|
        {
            &&& #[trigger] after.tx.storage[address].slots.contains_key(key) == is_loaded(
                before.tx,
                address,
                key,
            )
            &&& is_loaded(before.tx, address, key) ==> after.tx.storage[address].slots[key]
                == before.tx.storage[address].slots[key]
        }
}

/// Wiping the storage of an account makes all of it read as zero, keeps what the transaction found
/// in loaded slots and their warmth, and changes nothing else, not even the journal.
pub proof fn law_wipe<'h, D: Database>(handle: &mut StorageHandle<'h, D>)
    requires
        old(handle).wf(),
        call_ensures(StorageHandle::<'h, D>::wipe, (handle,), ()),
    ensures
        final(handle).address == old(handle).address,
        changes_one_storage(old(handle)@, final(handle)@, old(handle).address),
        loses_storage(old(handle)@.tx, final(handle)@.tx, old(handle).address),
        final(handle)@.tx.journal == old(handle)@.tx.journal,
{
}

/// Wiping with a journal entry does the same, and notes the whole storage as it was.
pub proof fn law_wipe_journaled<'h, D: Database>(handle: &mut StorageHandle<'h, D>)
    requires
        old(handle).wf(),
        call_ensures(StorageHandle::<'h, D>::wipe_journaled, (handle,), ()),
    ensures
        final(handle).address == old(handle).address,
        changes_one_storage(old(handle)@, final(handle)@, old(handle).address),
        loses_storage(old(handle)@.tx, final(handle)@.tx, old(handle).address),
        notes(
            old(handle)@,
            final(handle)@,
            EntryView::StorageWipe {
                address: old(handle).address,
                previous: old(handle)@.tx.storage[old(handle).address],
            },
        ),
{
    lemma_noted(
        old(handle)@.tx,
        EntryView::StorageWipe {
            address: old(handle).address,
            previous: old(handle)@.tx.storage[old(handle).address],
        },
    );
}

/// The readings of a storage handle are those of the storage of its account.
pub proof fn law_storage_readings<'h, D: Database>(
    handle: &StorageHandle<'h, D>,
    key: Word,
    loaded: bool,
    warm: bool,
    wiped: bool,
)
    requires
        handle.wf(),
        call_ensures(StorageHandle::<'h, D>::is_loaded, (handle, &key), loaded),
        call_ensures(StorageHandle::<'h, D>::is_warm, (handle, &key), warm),
        call_ensures(StorageHandle::<'h, D>::is_wiped, (handle,), wiped),
    ensures
        loaded <==> is_loaded(handle@.tx, handle.address, key),
        warm <==> is_slot_warm(handle@.tx, handle.address, key),
        wiped <==> is_wiped(handle@.tx, handle.address),
{
}

// --- loading slots ---

/// Whether a slot is loaded in `after` as it was in `before`, or else with the value that it has
/// below the transaction, zero where the storage is wiped: that is what was found and what stands,
/// and it was not accessed. Nothing else differs.
pub open spec fn loads_slot_as_found(
    before: StateView,
    after: StateView,
    address: Address,
    key: Word,
) -> bool {
    let slot = after.tx.storage[address].slots[key];
    &&& changes_one_slot(before, after, address, key)
    &&& after.tx.journal == before.tx.journal
    &&& is_loaded(after.tx, address, key)
    &&& if is_loaded(before.tx, address, key) {
        slot == before.tx.storage[address].slots[key]
    } else {
        &&& slot.value.current == slot.value.original
        &&& !slot.is_warm
        &&& if is_wiped(before.tx, address) {
            slot.value.original == FixedBytes::<32>::spec_zero()
        } else {
            before.db.answers_storage(address, key, Ok(slot.value.original))
        }
    }
}

/// Loading a slot gives a handle to it, with the slot as it stands or as it is below the
/// transaction. It fails only with the answer of the database, where the slot is neither loaded nor
/// wiped, and then loads nothing.
pub proof fn law_storage_slot<'h, D: Database>(
    state: &'h mut State<D>,
    address: Address,
    key: Word,
    r: DbResult<StorageSlotHandle<'h, D>>,
)
    requires
        call_ensures(State::<D>::storage_slot, (state, &address, key), r),
    ensures
        match r {
            Ok(slot) => {
                &&& slot.address == address
                &&& slot.key == key
                &&& loads_slot_as_found(old(state)@, slot@, address, key)
            },
            Err(error) => {
                &&& !is_loaded(old(state)@.tx, address, key)
                &&& !is_wiped(old(state)@.tx, address)
                &&& old(state)@.db.answers_storage(address, key, Err(error))
                &&& opens_storage(old(state)@, final(state)@, address)
            },
        },
{
}

/// Loading a slot is skipped exactly if the caller asks to skip cold accesses and the slot is
/// neither pre-warmed nor loaded and accessed before; then nothing is loaded.
pub proof fn law_storage_slot_with_skip<'h, D: Database>(
    state: &'h mut State<D>,
    address: Address,
    key: Word,
    skip: bool,
    r: Result<StorageSlotHandle<'h, D>, LoadError>,
)
    requires
        call_ensures(State::<D>::storage_slot_with_skip, (state, &address, key, skip), r),
    ensures
        r is Err && r->Err_0 is ColdLoadSkipped <==> skip && !is_slot_warm(
            old(state)@.tx,
            address,
            key,
        ),
        match r {
            Ok(slot) => {
                &&& slot.address == address
                &&& slot.key == key
                &&& loads_slot_as_found(old(state)@, slot@, address, key)
            },
            Err(LoadError::ColdLoadSkipped) => opens_storage(old(state)@, final(state)@, address),
            Err(LoadError::Database(error)) => {
                &&& !is_loaded(old(state)@.tx, address, key)
                &&& !is_wiped(old(state)@.tx, address)
                &&& old(state)@.db.answers_storage(address, key, Err(error))
                &&& opens_storage(old(state)@, final(state)@, address)
            },
        },
{
}

/// Turning a storage handle into one to a slot loads the slot by the same rules.
pub proof fn law_into_slot_with_skip<'h, D: Database>(
    handle: StorageHandle<'h, D>,
    key: Word,
    skip: bool,
    r: Result<StorageSlotHandle<'h, D>, LoadError>,
)
    requires
        handle.wf(),
        call_ensures(StorageHandle::<'h, D>::into_slot_with_skip, (handle, key, skip), r),
    ensures
        r is Err && r->Err_0 is ColdLoadSkipped <==> skip && !is_slot_warm(
            handle@.tx,
            handle.address,
            key,
        ),
        match r {
            Ok(slot) => {
                &&& slot.address == handle.address
                &&& slot.key == key
                &&& loads_slot_as_found(handle@, slot@, handle.address, key)
            },
            Err(LoadError::ColdLoadSkipped) => final(handle.state)@ == handle@,
            Err(LoadError::Database(error)) => {
                &&& !is_loaded(handle@.tx, handle.address, key)
                &&& !is_wiped(handle@.tx, handle.address)
                &&& handle@.db.answers_storage(handle.address, key, Err(error))
                &&& final(handle.state)@ == handle@
            },
        },
{
}

/// The same without skipping.
pub proof fn law_into_slot<'h, D: Database>(
    handle: StorageHandle<'h, D>,
    key: Word,
    r: DbResult<StorageSlotHandle<'h, D>>,
)
    requires
        handle.wf(),
        call_ensures(StorageHandle::<'h, D>::into_slot, (handle, key), r),
    ensures
        match r {
            Ok(slot) => {
                &&& slot.address == handle.address
                &&& slot.key == key
                &&& loads_slot_as_found(handle@, slot@, handle.address, key)
            },
            Err(error) => {
                &&& !is_loaded(handle@.tx, handle.address, key)
                &&& !is_wiped(handle@.tx, handle.address)
                &&& handle@.db.answers_storage(handle.address, key, Err(error))
                &&& final(handle.state)@ == handle@
            },
        },
{
}

// --- reading slots ---

/// Reading a slot without loading it gives what stands where it is loaded, zero where its storage is
/// wiped, else what is below the transaction, and changes nothing.
pub proof fn law_slot_reads<D: Database>(
    state: &mut State<D>,
    address: Address,
    key: Word,
    r: DbResult<Word>,
)
    requires
        call_ensures(State::<D>::storage_slot_untracked, (state, &address, &key), r),
    ensures
        final(state)@ == old(state)@,
        if is_loaded(old(state)@.tx, address, key) {
            r == Ok::<Word, DbError>(old(state)@.tx.storage[address].slots[key].value.current)
        } else if is_wiped(old(state)@.tx, address) {
            r == Ok::<Word, DbError>(FixedBytes::<32>::spec_zero())
        } else {
            old(state)@.db.answers_storage(address, key, r)
        },
{
}

/// Reading a slot below the transaction gives what the accepted state and its database have,
/// whatever the transaction did, and changes nothing.
pub proof fn law_read_committed_storage<D: Database>(
    state: &mut State<D>,
    address: Address,
    key: Word,
    r: DbResult<Word>,
)
    requires
        call_ensures(State::<D>::read_committed_storage, (state, &address, &key), r),
    ensures
        final(state)@ == old(state)@,
        old(state)@.db.answers_storage(address, key, r),
{
}

/// Asking for a loaded slot gives the value that stands, and nothing where the slot is not loaded.
pub proof fn law_get_storage<D: Database>(
    state: &State<D>,
    address: Address,
    key: Word,
    r: Option<Word>,
)
    requires
        call_ensures(State::<D>::get_storage, (state, &address, &key), r),
    ensures
        r == if is_loaded(state@.tx, address, key) {
            Some(state@.tx.storage[address].slots[key].value.current)
        } else {
            None
        },
{
}

// --- transient storage ---

/// What a transient slot holds, zero where it is not listed.
pub open spec fn transient_held(tx: TxView, address: Address, key: Word) -> Word {
    if tx.transient.contains_key((address, key)) {
        tx.transient[(address, key)]
    } else {
        FixedBytes::<32>::spec_zero()
    }
}

/// Reading a transient slot gives what it holds, zero where it is not listed.
pub proof fn law_tload<D: Database>(state: &State<D>, address: Address, key: Word, r: Word)
    requires
        call_ensures(State::<D>::tload, (state, &address, &key), r),
    ensures
        r == transient_held(state@.tx, address, key),
{
}

/// Giving a transient slot a value makes that what a read finds, and changes what a read finds of no
/// other slot, nor anything else but the journal. That notes the value replaced, if it is another.
pub proof fn law_tstore<D: Database>(
    state: &mut State<D>,
    address: Address,
    key: Word,
    value: Word,
    other_address: Address,
    other_key: Word,
)
    requires
        old(state).wf(),
        call_ensures(State::<D>::tstore, (state, &address, &key, &value), ()),
    ensures
        transient_held(final(state)@.tx, other_address, other_key) == if (
            other_address,
            other_key,
        ) == (address, key) {
            value
        } else {
            transient_held(old(state)@.tx, other_address, other_key)
        },
        final(state)@.db == old(state)@.db,
        final(state)@.history == old(state)@.history,
        final(state)@.tx.accounts == old(state)@.tx.accounts,
        final(state)@.tx.storage == old(state)@.tx.storage,
        final(state)@.tx.prewarm == old(state)@.tx.prewarm,
        final(state)@.tx.logs == old(state)@.tx.logs,
        final(state)@.tx.selfdestructs == old(state)@.tx.selfdestructs,
        ({
            let listed = old(state)@.tx.transient.contains_key((address, key));
            let previous = old(state)@.tx.transient[(address, key)];
            let unchanged = if listed {
                previous == value
            } else {
                value == FixedBytes::<32>::spec_zero()
            };
            &&& unchanged ==> final(state)@ == old(state)@
            &&& !unchanged ==> notes(
                old(state)@,
                final(state)@,
                EntryView::TransientStorageChange {
                    address,
                    key,
                    previous: if listed {
                        Some(previous)
                    } else {
                        None
                    },
                },
            )
        }),
{
    let tx = old(state)@.tx;
    lemma_noted(
        tx,
        EntryView::TransientStorageChange {
            address,
            key,
            previous: if tx.transient.contains_key((address, key)) {
                Some(tx.transient[(address, key)])
            } else {
                None
            },
        },
    );
}

/// Taking the transient storage of an account gives each of its slots that hold a value once, with
/// the value, and no other. The account has no transient storage from then on; that of other
/// accounts, and everything else, stays.
pub proof fn law_take_transient_storage<D: Database>(
    state: &mut State<D>,
    address: Address,
    r: Vec<(Word, Word)>,
    slot: (Address, Word),
)
    requires
        call_ensures(State::<D>::take_transient_storage, (state, &address), r),
    ensures
        forall|i: int|
            0 <= i < r@.len() ==> {
                &&& old(state)@.tx.transient.contains_key((address, (#[trigger] r@[i]).0))
                &&& old(state)@.tx.transient[(address, r@[i].0)] == r@[i].1
            },
        forall|i: int, j: int|
            0 <= i < j < r@.len() ==> (#[trigger] r@[i]).0 != (#[trigger] r@[j]).0,
        old(state)@.tx.transient.contains_key(slot) && slot.0 == address ==> r@.contains(
            (slot.1, old(state)@.tx.transient[slot]),
        ),
        final(state)@.tx.transient.contains_key(slot) <==> slot.0 != address
            && old(state)@.tx.transient.contains_key(slot),
        final(state)@.tx.transient.contains_key(slot) ==> final(state)@.tx.transient[slot]
            == old(state)@.tx.transient[slot],
        final(state)@.db == old(state)@.db,
        final(state)@.history == old(state)@.history,
        final(state)@.tx.accounts == old(state)@.tx.accounts,
        final(state)@.tx.storage == old(state)@.tx.storage,
        final(state)@.tx.prewarm == old(state)@.tx.prewarm,
        final(state)@.tx.journal == old(state)@.tx.journal,
        final(state)@.tx.logs == old(state)@.tx.logs,
        final(state)@.tx.selfdestructs == old(state)@.tx.selfdestructs,
{
    assert forall|i: int| 0 <= i < r@.len() implies {
        &&& old(state)@.tx.transient.contains_key((address, (#[trigger] r@[i]).0))
        &&& old(state)@.tx.transient[(address, r@[i].0)] == r@[i].1
    } by {
        assert(r@.contains((r@[i].0, r@[i].1)));
        assert(old(state)@.tx.transient.contains_pair((address, r@[i].0), r@[i].1));
    }
    if old(state)@.tx.transient.contains_key(slot) && slot.0 == address {
        assert(old(state)@.tx.transient.contains_pair(
            (address, slot.1),
            old(state)@.tx.transient[slot],
        ));
    }
}

// --- slots as they are kept ---

/// A slot is written when its transaction is accepted exactly if its value is another than was
/// found, or, where all storage around it is dropped first, another than zero. A slot just read has
/// the value read and was not accessed.
pub proof fn law_slot_is_changed(
    slot: StorageSlot,
    wiped: bool,
    changed: bool,
    value: Word,
    read: StorageSlot,
)
    requires
        call_ensures(StorageSlot::is_changed, (&slot, wiped), changed),
        call_ensures(StorageSlot::loaded, (value,), read),
    ensures
        changed <==> if wiped {
            slot.value.current.value() != 0
        } else {
            slot.value.current.value() != slot.value.original.value()
        },
        read.value.original == value,
        read.value.current == value,
        !read.is_warm,
{
    slot.value.current.law_zero_value();
    slot.value.current.law_value_injective(slot.value.original);
}

// --- proofs ---

/// The journal after one entry more.
proof fn lemma_noted(tx: TxView, entry: EntryView)
    ensures
        tx.journal.push(entry).drop_last() == tx.journal,
        tx.journal.push(entry).last() == entry,
{
    assert(tx.journal.push(entry).drop_last() =~= tx.journal);
}

} // verus!
