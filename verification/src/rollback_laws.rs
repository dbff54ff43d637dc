//! What rolling back brings back, change by change, and what frames and snapshots go back to.
use vstd::prelude::*;

use crate::db::Database;
use crate::features::EvmFeatures;
use crate::fixed::{Address, FixedBytes, Word};
use crate::handle_laws::changes_one_account;
use crate::journal::{EntryView, StateCheckpoint};
use crate::laws::{law_rollback_cuts_journal_and_logs, law_rollback_keeps_prewarm};
use crate::live::{FrameId, SnapshotEpochMismatch, SnapshotLogs, TransactionSnapshot};
use crate::live_laws::law_restore_rebases_frames;
use crate::model::{is_touch_keeper, TxView};
use crate::state::{State, StateView};
use crate::storage_laws::{changes_one_slot, changes_one_storage, is_loaded, transient_held};

verus! {

/// Whether an address is that of the precompiled contract whose touch EIP-161 keeps: nineteen zero
/// bytes and a three.
pub open spec fn keeps_touch(address: Address) -> bool {
    &&& address.bytes@[19] == 3
    &&& forall|i: int| 0 <= i < 19 ==> #[trigger] address.bytes@[i] == 0
}

/// Whether two states differ in nothing but their journals.
pub open spec fn changes_journal_only(before: StateView, after: StateView) -> bool {
    &&& after.db == before.db
    &&& after.history == before.history
    &&& after.tx.accounts == before.tx.accounts
    &&& after.tx.storage == before.tx.storage
    &&& after.tx.transient == before.tx.transient
    &&& after.tx.prewarm == before.tx.prewarm
    &&& after.tx.logs == before.tx.logs
    &&& after.tx.selfdestructs == before.tx.selfdestructs
}

/// Whether `after` is `before` with the change undone that the journal entry notes. An account gets
/// back contents and marks, but for the touch that EIP-161 keeps, and is on record as
/// self-destructed again exactly as its mark says where that changes. A written slot gets back its
/// value, an accessed one is cold again, wiped storage is all back, and a transient slot has its
/// value back. Nothing else differs but the journal.
pub open spec fn takes_back(
    before: StateView,
    entry: EntryView,
    eip161: bool,
    after: StateView,
) -> bool {
    match entry {
        EntryView::AccountChange {
            address,
            previous,
            previous_is_warm,
            previous_is_touched,
            previous_is_destroyed,
            previous_just_created,
            previous_code_changed,
        } => if before.tx.accounts.contains_key(address) {
            let was = before.tx.accounts[address];
            let left = after.tx.accounts[address];
            &&& changes_one_account(before, after, address)
            &&& left.original == was.original
            &&& left.present == previous
            &&& left.is_warm == previous_is_warm
            &&& left.is_touched == if eip161 && keeps_touch(address) {
                was.is_touched
            } else {
                previous_is_touched
            }
            &&& left.is_destroyed == previous_is_destroyed
            &&& left.just_created == previous_just_created
            &&& left.code_changed == previous_code_changed
            &&& forall|other: Address| #[trigger]
                after.tx.selfdestructs.contains(other) == if other == address && was.is_destroyed
                    != previous_is_destroyed {
                    previous_is_destroyed
                } else {
                    before.tx.selfdestructs.contains(other)
                }
        } else {
            &&& after.tx.accounts == before.tx.accounts
            &&& after.tx.storage == before.tx.storage
            &&& after.tx.transient == before.tx.transient
        },
        EntryView::StorageChange { address, key, previous } => if is_loaded(
            before.tx,
            address,
            key,
        ) {
            let was = before.tx.storage[address].slots[key];
            let left = after.tx.storage[address].slots[key];
            &&& changes_one_slot(before, after, address, key)
            &&& is_loaded(after.tx, address, key)
            &&& left.value.current == previous
            &&& left.value.original == was.value.original
            &&& left.is_warm == was.is_warm
        } else {
            changes_journal_only(before, after)
        },
        EntryView::StorageWarmed { address, key } => if is_loaded(before.tx, address, key) {
            let was = before.tx.storage[address].slots[key];
            let left = after.tx.storage[address].slots[key];
            &&& changes_one_slot(before, after, address, key)
            &&& is_loaded(after.tx, address, key)
            &&& !left.is_warm
            &&& left.value.current == was.value.current
            &&& left.value.original == was.value.original
        } else {
            changes_journal_only(before, after)
        },
        EntryView::StorageWipe { address, previous } => {
            &&& changes_one_storage(before, after, address)
            &&& after.tx.storage.contains_key(address)
            &&& after.tx.storage[address] == previous
        },
        EntryView::TransientStorageChange { address, key, previous } => {
            &&& after.db == before.db
            &&& after.history == before.history
            &&& after.tx.accounts == before.tx.accounts
            &&& after.tx.storage == before.tx.storage
            &&& after.tx.prewarm == before.tx.prewarm
            &&& after.tx.logs == before.tx.logs
            &&& after.tx.selfdestructs == before.tx.selfdestructs
            &&& forall|a: Address, k: Word| #[trigger]
                transient_held(after.tx, a, k) == if (a, k) == (address, key) {
                    match previous {
                        Some(value) => value,
                        None => FixedBytes::<32>::spec_zero(),
                    }
                } else {
                    transient_held(before.tx, a, k)
                }
        },
    }
}

/// Rolling back past one journal entry undoes the change that it notes and no other.
pub proof fn law_rollback_takes_back_last_change<D: Database>(
    state: &mut State<D>,
    checkpoint: StateCheckpoint,
    features: EvmFeatures,
)
    requires
        call_ensures(State::<D>::rollback, (state, checkpoint, features), ()),
        old(state)@.tx.journal.len() == checkpoint.journal_len() + 1,
        old(state)@.tx.logs.len() <= checkpoint.logs_len(),
    ensures
        takes_back(
            old(state)@,
            old(state)@.tx.journal.last(),
            features.eip161,
            final(state)@,
        ),
        final(state)@.tx.journal == old(state)@.tx.journal.drop_last(),
{
    let before = old(state)@;
    reveal_with_fuel(TxView::unwound, 2);
    lemma_undo_takes_back(before, before.tx.journal.last(), features.eip161);
}

/// Rolling back past several journal entries is rolling back past the last, and on from there: the
/// state in between is that with the last change undone.
pub proof fn law_rollback_goes_change_by_change<D: Database>(
    state: &mut State<D>,
    checkpoint: StateCheckpoint,
    features: EvmFeatures,
    between: StateView,
)
    requires
        call_ensures(State::<D>::rollback, (state, checkpoint, features), ()),
        old(state)@.tx.journal.len() > checkpoint.journal_len(),
        old(state)@.tx.logs.len() <= checkpoint.logs_len(),
        between == old(state)@.with_tx(
            old(state)@.tx.rolled_back(
                (old(state)@.tx.journal.len() - 1) as nat,
                checkpoint.logs_len(),
                features.eip161,
            ),
        ),
    ensures
        takes_back(old(state)@, old(state)@.tx.journal.last(), features.eip161, between),
        between.tx.journal == old(state)@.tx.journal.drop_last(),
        final(state)@ == between.with_tx(
            between.tx.rolled_back(
                checkpoint.journal_len(),
                checkpoint.logs_len(),
                features.eip161,
            ),
        ),
{
    let before = old(state)@;
    reveal_with_fuel(TxView::unwound, 3);
    lemma_undo_takes_back(before, before.tx.journal.last(), features.eip161);
}

/// Rolling back to where the journal stands undoes nothing, and drops the logs that came since.
/// Whatever it undoes, it keeps the accepted state, the pre-warmed set and the history.
pub proof fn law_rollback_drops_logs<D: Database>(
    state: &mut State<D>,
    checkpoint: StateCheckpoint,
    features: EvmFeatures,
)
    requires
        call_ensures(State::<D>::rollback, (state, checkpoint, features), ()),
    ensures
        final(state)@.db == old(state)@.db,
        final(state)@.history == old(state)@.history,
        final(state)@.tx.prewarm == old(state)@.tx.prewarm,
        final(state)@.tx.logs == if checkpoint.logs_len() < old(state)@.tx.logs.len() {
            old(state)@.tx.logs.take(checkpoint.logs_len() as int)
        } else {
            old(state)@.tx.logs
        },
        final(state)@.tx.journal == if checkpoint.journal_len() < old(state)@.tx.journal.len() {
            old(state)@.tx.journal.take(checkpoint.journal_len() as int)
        } else {
            old(state)@.tx.journal
        },
        old(state)@.tx.journal.len() <= checkpoint.journal_len() ==> {
            &&& final(state)@.tx.accounts == old(state)@.tx.accounts
            &&& final(state)@.tx.storage == old(state)@.tx.storage
            &&& final(state)@.tx.transient == old(state)@.tx.transient
            &&& final(state)@.tx.selfdestructs == old(state)@.tx.selfdestructs
        },
{
    law_rollback_cuts_journal_and_logs(
        old(state)@.tx,
        checkpoint.journal_len(),
        checkpoint.logs_len(),
        features.eip161,
    );
    law_rollback_keeps_prewarm(
        old(state)@.tx,
        checkpoint.journal_len(),
        checkpoint.logs_len(),
        features.eip161,
    );
}

/// A checkpoint says how long journal and logs are, and of which history; it is accepted exactly
/// while that history lasts.
pub proof fn law_checkpoint<D: Database>(
    state: &State<D>,
    checkpoint: StateCheckpoint,
    other: &State<D>,
    accepted: bool,
)
    requires
        call_ensures(State::<D>::checkpoint, (state,), checkpoint),
        call_ensures(State::<D>::accepts, (other, &checkpoint), accepted),
    ensures
        checkpoint.journal_len() == state@.tx.journal.len(),
        checkpoint.logs_len() == state@.tx.logs.len(),
        accepted <==> other@.history.generation == state@.history.generation,
{
}

// --- frames ---

/// Entering a frame makes one more frame active, with a number not given before in the transaction
/// and with the boundaries at which journal and logs stand. Nothing else changes.
pub proof fn law_enter_frame<D: Database>(state: &mut State<D>, frame: FrameId)
    requires
        old(state).wf(),
        old(state)@.history.next_frame < u64::MAX,
        old(state)@.tx.journal.len() <= usize::MAX,
        old(state)@.tx.logs.len() <= usize::MAX,
        call_ensures(State::<D>::enter_frame, (state,), frame),
    ensures
        ({
            let (before, after) = (old(state)@, final(state)@);
            let n = before.history.frames.len() as int;
            &&& after.tx == before.tx
            &&& after.db == before.db
            &&& after.history.identity == before.history.identity
            &&& after.history.epoch == before.history.epoch
            &&& after.history.generation == before.history.generation
            &&& after.history.next_frame > frame.id()
            &&& after.history.frames.len() == n + 1
            &&& after.history.frames.take(n) == before.history.frames
            &&& after.history.frames[n].id == frame.id()
            &&& after.history.frames[n].journal_len == before.tx.journal.len()
            &&& after.history.frames[n].logs_len == before.tx.logs.len()
            &&& forall|i: int| 0 <= i < n ==> (#[trigger] before.history.frames[i]).id != frame.id()
        }),
{
    assert(final(state)@.history.frames.take(old(state)@.history.frames.len() as int)
        =~= old(state)@.history.frames);
}

/// Whether the frames of `after` are those of `before` that were entered before the frame numbered
/// `id`, in the same order.
pub open spec fn frames_before(before: StateView, after: StateView, id: u64) -> bool {
    let n = after.history.frames.len() as int;
    &&& n < before.history.frames.len()
    &&& after.history.frames == before.history.frames.take(n)
    &&& before.history.frames[n].id == id
    &&& after.history.identity == before.history.identity
    &&& after.history.epoch == before.history.epoch
    &&& after.history.generation == before.history.generation
    &&& after.history.next_frame == before.history.next_frame
}

/// Leaving a frame ends it and all frames entered after it, and changes nothing else.
pub proof fn law_exit_frame<D: Database>(state: &mut State<D>, frame: FrameId)
    requires
        old(state).wf(),
        is_active(old(state)@, frame),
        call_ensures(State::<D>::exit_frame, (state, frame), ()),
    ensures
        final(state)@.tx == old(state)@.tx,
        final(state)@.db == old(state)@.db,
        frames_before(old(state)@, final(state)@, frame.id()),
{
}

/// Whether a frame is active.
pub open spec fn is_active(state: StateView, frame: FrameId) -> bool {
    exists|i: int|
        0 <= i < state.history.frames.len() && (#[trigger] state.history.frames[i]).id == frame.id()
}

/// Rolling back a frame ends it and all frames entered after it, and rolls journal and logs back to
/// its boundaries as a rollback to a checkpoint with these would.
pub proof fn law_rollback_frame<D: Database>(
    state: &mut State<D>,
    frame: FrameId,
    features: EvmFeatures,
)
    requires
        old(state).wf(),
        is_active(old(state)@, frame),
        call_ensures(State::<D>::rollback_frame, (state, frame, features), ()),
    ensures
        final(state)@.db == old(state)@.db,
        frames_before(old(state)@, final(state)@, frame.id()),
        ({
            let boundary = old(state)@.history.frames[final(state)@.history.frames.len() as int];
            final(state)@.tx == old(state)@.tx.rolled_back(
                boundary.journal_len as nat,
                boundary.logs_len as nat,
                features.eip161,
            )
        }),
{
}

/// The frames that count as active are those that are.
pub proof fn law_active_frames<D: Database>(
    state: &State<D>,
    frame: FrameId,
    count: usize,
    active: bool,
)
    requires
        call_ensures(State::<D>::active_frames, (state,), count),
        call_ensures(State::<D>::is_active_frame, (state, frame), active),
    ensures
        count == state@.history.frames.len(),
        active <==> is_active(state@, frame),
{
}

// --- transaction snapshots ---

/// A transaction snapshot has the transaction layer and the active frames of the state, and says of
/// which state and transaction it is.
pub proof fn law_transaction_snapshot<D: Database>(state: &State<D>, snapshot: TransactionSnapshot)
    requires
        call_ensures(State::<D>::transaction_snapshot, (state,), snapshot),
    ensures
        snapshot@.tx == state@.tx,
        snapshot@.frames == state@.history.frames,
        snapshot@.identity == state@.history.identity,
        snapshot@.epoch == state@.history.epoch,
{
}

/// A transaction snapshot is refused exactly if it is of another state or of a transaction cleared
/// since, and then nothing changes. Restored, it replaces the transaction layer, but for the logs
/// where they are retained, and nothing of the accepted state.
pub proof fn law_restore_transaction_snapshot<D: Database>(
    state: &mut State<D>,
    snapshot: &TransactionSnapshot,
    logs: SnapshotLogs,
    r: Result<(), SnapshotEpochMismatch>,
)
    requires
        call_ensures(State::<D>::restore_transaction_snapshot, (state, snapshot, logs), r),
    ensures
        ({
            let (before, after) = (old(state)@, final(state)@);
            &&& r is Err <==> snapshot@.identity != before.history.identity || snapshot@.epoch
                != before.history.epoch
            &&& r is Err ==> after == before
            &&& r is Ok ==> {
                &&& after.db == before.db
                &&& after.tx.accounts == snapshot@.tx.accounts
                &&& after.tx.storage == snapshot@.tx.storage
                &&& after.tx.transient == snapshot@.tx.transient
                &&& after.tx.prewarm == snapshot@.tx.prewarm
                &&& after.tx.journal == snapshot@.tx.journal
                &&& after.tx.selfdestructs == snapshot@.tx.selfdestructs
                &&& logs is Restore ==> after.tx.logs == snapshot@.tx.logs
                &&& logs is Retain ==> after.tx.logs == before.tx.logs
                &&& after.history.identity == before.history.identity
                &&& after.history.epoch == before.history.epoch
                &&& after.history.next_frame == before.history.next_frame
                &&& after.history.generation != before.history.generation
                &&& after.history.frames.len() == before.history.frames.len()
            }
        }),
{
}

/// Restoring a snapshot keeps each active frame active: with the journal boundary that it had when
/// the snapshot was taken, or where it was not active then with the end of the restored journal.
/// Retained logs keep the boundaries they have; restored logs have theirs by the same rule.
pub proof fn law_restored_frame_boundaries<D: Database>(
    state: &mut State<D>,
    snapshot: &TransactionSnapshot,
    logs: SnapshotLogs,
    r: Result<(), SnapshotEpochMismatch>,
    i: int,
    captured: int,
)
    requires
        call_ensures(State::<D>::restore_transaction_snapshot, (state, snapshot, logs), r),
        r is Ok,
        snapshot@.wf(),
        snapshot@.tx.journal.len() <= usize::MAX,
        snapshot@.tx.logs.len() <= usize::MAX,
        0 <= i < old(state)@.history.frames.len(),
        -1 <= captured < snapshot@.frames.len(),
        captured >= 0 ==> snapshot@.frames[captured].id == old(state)@.history.frames[i].id,
        captured < 0 ==> forall|j: int|
            0 <= j < snapshot@.frames.len() ==> (#[trigger] snapshot@.frames[j]).id
                != old(state)@.history.frames[i].id,
    ensures
        ({
            let was = old(state)@.history.frames[i];
            let left = final(state)@.history.frames[i];
            let journal_len = if captured >= 0 {
                snapshot@.frames[captured].journal_len as nat
            } else {
                snapshot@.tx.journal.len()
            };
            let logs_len = if captured >= 0 {
                snapshot@.frames[captured].logs_len as nat
            } else {
                snapshot@.tx.logs.len()
            };
            &&& left.id == was.id
            &&& left.journal_len == journal_len
            &&& logs is Retain ==> left.logs_len == was.logs_len
            &&& logs is Restore ==> left.logs_len == logs_len
        }),
{
    law_restore_rebases_frames(old(state)@, snapshot@, logs, i);
    if captured >= 0 {
        assert(snapshot@.frames[captured].id == old(state)@.history.frames[i].id);
    }
}

// --- proofs ---

/// Undoing an entry takes back its change.
proof fn lemma_undo_takes_back(before: StateView, entry: EntryView, eip161: bool)
    ensures
        takes_back(
            before,
            entry,
            eip161,
            before.with_tx(before.tx.pop_entry().undo(entry, eip161)),
        ),
{
    if let EntryView::AccountChange { address, .. } = entry {
        assert(is_touch_keeper(address) <==> keeps_touch(address));
    }
}

} // verus!
