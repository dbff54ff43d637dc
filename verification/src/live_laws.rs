//! What holds of frames, checkpoints and transaction snapshots.
use vstd::prelude::*;

use crate::fixed::Address;
use crate::journal::StateCheckpoint;
use crate::laws::{law_nested_rollbacks_compose, law_rollback_cuts_journal_and_logs};
use crate::live::{frame_position, lists_frame, SnapshotLogs, TransactionView};
use crate::model::TxView;
use crate::reversal::{
    destructed, law_matching_selfdestructs_come_back, law_rollback_goes_through_replaced_logs,
    law_rollback_undoes_all_steps, Step,
};
use crate::state::{bumped, StateView};

verus! {

/// Restoring a snapshot brings back the captured transaction layer, whatever happened since. The
/// accepted state and the database stay as they are, and so do the logs where they are retained.
pub proof fn law_restore_returns_to_capture(captured: StateView, state: StateView, logs: SnapshotLogs)
    ensures
        ({
            let restored = state.restored(captured.transaction_snapshot(), logs);
            &&& restored.tx == TxView { logs: restored.tx.logs, ..captured.tx }
            &&& logs is Restore ==> restored.tx.logs == captured.tx.logs
            &&& logs is Retain ==> restored.tx.logs == state.tx.logs
            &&& restored.db == state.db
            &&& restored.history.identity == state.history.identity
            &&& restored.history.epoch == state.history.epoch
        }),
{
}

/// Restoring keeps the active frames, and no others: captured ones get back the journal boundary
/// they had, others begin where the restored journal ends. Retained logs keep the boundaries at
/// which the frames were entered; restored logs come with boundaries by the same rule as the
/// journal.
pub proof fn law_restore_rebases_frames(
    state: StateView,
    snapshot: TransactionView,
    logs: SnapshotLogs,
    i: int,
)
    requires
        snapshot.wf(),
        snapshot.tx.journal.len() <= usize::MAX,
        snapshot.tx.logs.len() <= usize::MAX,
        0 <= i < state.history.frames.len(),
    ensures
        ({
            let restored = state.restored(snapshot, logs);
            let (old_frame, new_frame) = (state.history.frames[i], restored.history.frames[i]);
            &&& restored.history.frames.len() == state.history.frames.len()
            &&& new_frame.id == old_frame.id
            &&& logs is Retain ==> new_frame.logs_len == old_frame.logs_len
            &&& forall|j: int|
                0 <= j < snapshot.frames.len() && (#[trigger] snapshot.frames[j]).id == old_frame.id
                    ==> {
                    &&& new_frame.journal_len == snapshot.frames[j].journal_len
                    &&& logs is Restore ==> new_frame.logs_len == snapshot.frames[j].logs_len
                }
            &&& !lists_frame(snapshot.frames, old_frame.id) ==> {
                &&& new_frame.journal_len == restored.tx.journal.len()
                &&& logs is Restore ==> new_frame.logs_len == restored.tx.logs.len()
            }
        }),
{
    let id = state.history.frames[i].id;
    assert forall|j: int| 0 <= j < snapshot.frames.len() && (#[trigger] snapshot.frames[j]).id
        == id implies frame_position(snapshot.frames, id) == j && lists_frame(
        snapshot.frames,
        id,
    ) by {
        let k = frame_position(snapshot.frames, id);
        assert(snapshot.frames[k].id == id);
    }
}

/// Rolling back a frame that the restored snapshot did not capture undoes what happened after the
/// restoration and not the restoration itself.
pub proof fn law_newer_frame_keeps_restoration(
    state: StateView,
    snapshot: TransactionView,
    logs: SnapshotLogs,
    i: int,
    steps: Seq<Step>,
    eip161: bool,
)
    requires
        snapshot.wf(),
        snapshot.tx.journal.len() <= usize::MAX,
        snapshot.tx.logs.len() <= usize::MAX,
        0 <= i < state.history.frames.len(),
        !lists_frame(snapshot.frames, state.history.frames[i].id),
        state.restored(snapshot, logs).tx.can_run(steps, eip161),
    ensures
        ({
            let restored = state.restored(snapshot, logs);
            let frame = restored.history.frames[i];
            let rolled = restored.tx.run(steps, eip161).rolled_back(
                frame.journal_len as nat,
                frame.logs_len as nat,
                eip161,
            );
            &&& restored.tx.comes_back_as(
                rolled,
                destructed(steps),
                restored.tx.grows_prewarm(steps, eip161),
                eip161,
            )
            &&& restored.tx.selfdestructs_match() ==> rolled.selfdestructs
                == restored.tx.selfdestructs
            &&& frame.logs_len <= restored.tx.logs.len() ==> rolled.logs == restored.tx.logs.take(
                frame.logs_len as int,
            )
        }),
{
    let restored = state.restored(snapshot, logs);
    let frame = restored.history.frames[i];
    law_restore_rebases_frames(state, snapshot, logs, i);
    let start = restored.tx;
    let end = start.run(steps, eip161);
    law_rollback_undoes_all_steps(start, steps, eip161);
    let (journal_len, logs_len) = (start.journal.len(), frame.logs_len as nat);
    let back = end.rolled_back(journal_len, start.logs.len(), eip161);
    let rolled = end.rolled_back(journal_len, logs_len, eip161);
    law_rollback_cuts_journal_and_logs(end, journal_len, logs_len, eip161);
    if logs_len <= start.logs.len() {
        law_nested_rollbacks_compose(
            end,
            journal_len,
            start.logs.len(),
            journal_len,
            logs_len,
            eip161,
        );
        assert(rolled == back.rolled_back(journal_len, logs_len, eip161));
        assert(rolled.logs =~= start.logs.take(frame.logs_len as int));
    } else {
        law_nested_rollbacks_compose(
            end,
            journal_len,
            logs_len,
            journal_len,
            start.logs.len(),
            eip161,
        );
        assert(back == rolled.rolled_back(journal_len, start.logs.len(), eip161));
    }
    assert(rolled == TxView { logs: rolled.logs, ..back });
    let grew = start.grows_prewarm(steps, eip161);
    assert(start.comes_back_as(rolled, destructed(steps), grew, eip161)) by {
        assert forall|address: Address| #[trigger]
            start.overlay_of(address).only_loads(rolled.overlay_of(address)) by {
            assert(start.overlay_of(address).only_loads(back.overlay_of(address)));
        }
        assert forall|address: Address| #[trigger]
            rolled.selfdestructs.contains(address) == if destructed(steps).contains(address) {
                start.is_marked(address)
            } else {
                start.selfdestructs.contains(address)
            } by {
            assert(back.selfdestructs.contains(address) == if destructed(steps).contains(address) {
                start.is_marked(address)
            } else {
                start.selfdestructs.contains(address)
            });
        }
    }
}

/// Rolling back a frame that the restored snapshot captured still goes back to where the frame
/// began, through the restored history and through whatever happened after the restoration.
pub proof fn law_captured_frame_unwinds_restoration(
    entry: TxView,
    first: Seq<Step>,
    state: StateView,
    snapshot: TransactionView,
    logs: SnapshotLogs,
    i: int,
    j: int,
    second: Seq<Step>,
    eip161: bool,
)
    requires
        entry.transient_nonzero(),
        entry.can_run(first, eip161),
        snapshot.wf(),
        snapshot.tx == entry.run(first, eip161),
        snapshot.tx.journal.len() <= usize::MAX,
        snapshot.tx.logs.len() <= usize::MAX,
        0 <= i < state.history.frames.len(),
        0 <= j < snapshot.frames.len(),
        snapshot.frames[j].id == state.history.frames[i].id,
        snapshot.frames[j].journal_len == entry.journal.len(),
        logs is Restore ==> {
            &&& snapshot.frames[j].logs_len == entry.logs.len()
            &&& entry.logs.len() <= snapshot.tx.logs.len()
            &&& snapshot.tx.logs.take(entry.logs.len() as int) == entry.logs
        },
        logs is Retain ==> {
            &&& state.history.frames[i].logs_len == entry.logs.len()
            &&& entry.logs.len() <= state.tx.logs.len()
            &&& state.tx.logs.take(entry.logs.len() as int) == entry.logs
        },
        state.restored(snapshot, logs).tx.can_run(second, eip161),
    ensures
        ({
            let restored = state.restored(snapshot, logs);
            let frame = restored.history.frames[i];
            let rolled = restored.tx.run(second, eip161).rolled_back(
                frame.journal_len as nat,
                frame.logs_len as nat,
                eip161,
            );
            &&& entry.comes_back_as(
                rolled,
                destructed(first).union(destructed(second)),
                entry.grows_prewarm(first, eip161) && restored.tx.grows_prewarm(second, eip161),
                eip161,
            )
            &&& entry.selfdestructs_match() ==> rolled.selfdestructs == entry.selfdestructs
            &&& rolled.logs == entry.logs
        }),
{
    let restored = state.restored(snapshot, logs);
    law_restore_rebases_frames(state, snapshot, logs, i);
    assert(snapshot.frames[j].id == state.history.frames[i].id);
    law_rollback_goes_through_replaced_logs(entry, first, restored.tx.logs, second, eip161);
    if entry.selfdestructs_match() {
        law_matching_selfdestructs_come_back(
            entry,
            restored.tx.run(second, eip161).rolled_back(
                entry.journal.len(),
                entry.logs.len(),
                eip161,
            ),
            destructed(first).union(destructed(second)),
            entry.grows_prewarm(first, eip161) && restored.tx.grows_prewarm(second, eip161),
            eip161,
        );
    }
}

/// A counter moved on `n` times.
pub open spec fn bumped_times(x: u64, n: nat) -> u64
    decreases n,
{
    if n == 0 {
        x
    } else {
        bumped(bumped_times(x, (n - 1) as nat))
    }
}

/// A counter comes back to where it was only after more than 2^64 - 1 moves.
proof fn lemma_bumped_times(x: u64, n: nat)
    requires
        n <= u64::MAX,
    ensures
        bumped_times(x, n) == if x + n <= u64::MAX {
            x + n
        } else {
            x + n - u64::MAX - 1
        },
    decreases n,
{
    if n > 0 {
        lemma_bumped_times(x, (n - 1) as nat);
    }
}

/// A checkpoint is no longer accepted once the history was replaced, by restoring a snapshot or by
/// clearing the transaction, any number of times short of 2^64.
pub proof fn law_replaced_history_refuses_checkpoints(
    checkpoint: StateCheckpoint,
    before: StateView,
    after: StateView,
    replacements: nat,
)
    requires
        checkpoint.generation() == before.history.generation,
        after.history.generation == bumped_times(before.history.generation, replacements),
        0 < replacements <= u64::MAX,
    ensures
        checkpoint.generation() != after.history.generation,
{
    lemma_bumped_times(before.history.generation, replacements);
}

/// Restoring a snapshot and clearing the transaction each replace the history once.
pub proof fn law_restoring_and_clearing_replace_history(
    state: StateView,
    snapshot: TransactionView,
    logs: SnapshotLogs,
)
    ensures
        state.restored(snapshot, logs).history.generation == bumped_times(
            state.history.generation,
            1,
        ),
        state.cleared().history.generation == bumped_times(state.history.generation, 1),
{
    reveal_with_fuel(bumped_times, 2);
}

/// Once the transaction is cleared, snapshots of it are refused; so are snapshots of a state with
/// another identity.
pub proof fn law_foreign_snapshots_are_refused(captured: StateView, other: StateView)
    ensures
        !captured.cleared().owns(captured.transaction_snapshot()),
        other.history.identity != captured.history.identity ==> !other.owns(
            captured.transaction_snapshot(),
        ),
        captured.owns(captured.transaction_snapshot()),
{
}

/// Rolling back a frame undoes what happened since it was entered, and leaves the frames around it
/// active.
pub proof fn law_frame_rollback_undoes_the_frame(state: StateView, steps: Seq<Step>, eip161: bool)
    requires
        state.wf(),
        state.history.next_frame < u64::MAX,
        state.tx.journal.len() <= usize::MAX,
        state.tx.logs.len() <= usize::MAX,
        state.tx.can_run(steps, eip161),
    ensures
        ({
            let inside = StateView {
                tx: state.tx.run(steps, eip161),
                history: state.history.entered(state.tx.journal.len(), state.tx.logs.len()),
                ..state
            };
            let left = inside.frame_rolled_back(state.history.next_frame, eip161);
            &&& state.tx.comes_back_as(
                left.tx,
                destructed(steps),
                state.tx.grows_prewarm(steps, eip161),
                eip161,
            )
            &&& state.tx.selfdestructs_match() ==> left.tx.selfdestructs == state.tx.selfdestructs
            &&& left.tx.logs == state.tx.logs
            &&& left.history.frames == state.history.frames
            &&& left.db == state.db
            &&& steps.len() == 0 ==> left.tx == state.tx
        }),
{
    let inside = StateView {
        tx: state.tx.run(steps, eip161),
        history: state.history.entered(state.tx.journal.len(), state.tx.logs.len()),
        ..state
    };
    let id = state.history.next_frame;
    let last = state.history.frames.len() as int;
    assert(inside.history.frames[last].id == id);
    let k = frame_position(inside.history.frames, id);
    assert(inside.history.frames[k].id == id);
    assert(k == last) by {
        if k < last {
            assert(state.history.frames[k].id < id);
        }
    }
    assert(inside.history.frames.take(last) =~= state.history.frames);
    law_rollback_undoes_all_steps(state.tx, steps, eip161);
}

} // verus!
