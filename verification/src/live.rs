//! Snapshots of a transaction that can be restored while engine frames are suspended.
//!
//! Restoring replaces the history that an active frame expects to undo, so a journal length alone
//! does not say where the frame began. Each active frame is therefore registered with an identity
//! and its boundaries, and restoring adjusts the boundaries by identity.
use vstd::prelude::*;

use crate::db::Database;
use crate::features::EvmFeatures;
use crate::fixed::B256;
use crate::map::Duplicate;
use crate::model::TxView;
use crate::snapshot::TxLayer;
use crate::state::{bump, bumped, frames_ordered, FrameBoundary, HistoryView, State, StateView};

verus! {

/// The identity of an engine frame, unique within its transaction.
#[derive(Clone, Copy, PartialEq, Eq, Structural, Debug)]
pub struct FrameId {
    id: u64,
}

impl FrameId {
    /// The number of the frame.
    pub closed spec fn id(self) -> u64 {
        self.id
    }
}

/// What restoring a transaction snapshot does to the logs.
#[derive(Clone, Copy, PartialEq, Eq, Structural, Debug)]
pub enum SnapshotLogs {
    /// The current logs stay.
    Retain,
    /// The captured logs come back.
    Restore,
}

/// A transaction snapshot belongs to another state or to a transaction that was cleared.
#[derive(Clone, Copy, PartialEq, Eq, Structural, Debug)]
pub struct SnapshotEpochMismatch;

/// A copy of a transaction layer and of the frames that were active in it. It can be restored any
/// number of times, into the state it was taken from and until the transaction is cleared. The
/// accepted state and the database are not part of it.
#[derive(Debug)]
pub struct TransactionSnapshot {
    pub layer: TxLayer,
    pub frames: Vec<FrameBoundary>,
    pub identity: B256,
    pub epoch: u64,
}

/// What a [`TransactionSnapshot`] holds.
pub struct TransactionView {
    pub tx: TxView,
    pub frames: Seq<FrameBoundary>,
    pub identity: B256,
    pub epoch: u64,
}

impl View for TransactionSnapshot {
    type V = TransactionView;

    open spec fn view(&self) -> TransactionView {
        TransactionView {
            tx: self.layer@,
            frames: self.frames@,
            identity: self.identity,
            epoch: self.epoch,
        }
    }
}

/// Whether a frame with the identity is among `frames`.
pub open spec fn lists_frame(frames: Seq<FrameBoundary>, id: u64) -> bool {
    exists|i: int| 0 <= i < frames.len() && (#[trigger] frames[i]).id == id
}

/// Where among `frames` the frame with the identity is.
pub open spec fn frame_position(frames: Seq<FrameBoundary>, id: u64) -> int {
    choose|i: int| 0 <= i < frames.len() && (#[trigger] frames[i]).id == id
}

impl HistoryView {
    /// The history once another frame was entered.
    pub open spec fn entered(self, journal_len: nat, logs_len: nat) -> Self {
        HistoryView {
            frames: self.frames.push(
                FrameBoundary {
                    id: self.next_frame,
                    journal_len: journal_len as usize,
                    logs_len: logs_len as usize,
                },
            ),
            next_frame: (self.next_frame + 1) as u64,
            ..self
        }
    }

    /// The history once a frame and all frames entered after it are no longer active.
    pub open spec fn left(self, id: u64) -> Self {
        HistoryView { frames: self.frames.take(frame_position(self.frames, id)), ..self }
    }
}

impl TransactionView {
    /// What every transaction snapshot keeps.
    pub open spec fn wf(self) -> bool {
        self.tx.transient_nonzero() && frames_ordered(self.frames)
    }

    /// The boundaries of an active frame once the snapshot is restored. A captured frame gets back
    /// its captured boundaries; any other begins where the restored history ends. Logs that stay
    /// keep the boundaries at which they were entered.
    pub open spec fn rebased(self, frame: FrameBoundary, logs: SnapshotLogs) -> FrameBoundary {
        let target = if lists_frame(self.frames, frame.id) {
            self.frames[frame_position(self.frames, frame.id)]
        } else {
            FrameBoundary {
                id: frame.id,
                journal_len: self.tx.journal.len() as usize,
                logs_len: self.tx.logs.len() as usize,
            }
        };
        FrameBoundary {
            id: frame.id,
            journal_len: target.journal_len,
            logs_len: match logs {
                SnapshotLogs::Retain => frame.logs_len,
                SnapshotLogs::Restore => target.logs_len,
            },
        }
    }
}

impl StateView {
    /// What a transaction snapshot of the state holds.
    pub open spec fn transaction_snapshot(self) -> TransactionView {
        TransactionView {
            tx: self.tx,
            frames: self.history.frames,
            identity: self.history.identity,
            epoch: self.history.epoch,
        }
    }

    /// Whether a transaction snapshot belongs to the state and its current transaction.
    pub open spec fn owns(self, snapshot: TransactionView) -> bool {
        snapshot.identity == self.history.identity && snapshot.epoch == self.history.epoch
    }

    /// The state once a transaction snapshot was restored.
    pub open spec fn restored(self, snapshot: TransactionView, logs: SnapshotLogs) -> Self {
        StateView {
            tx: TxView {
                logs: match logs {
                    SnapshotLogs::Retain => self.tx.logs,
                    SnapshotLogs::Restore => snapshot.tx.logs,
                },
                ..snapshot.tx
            },
            history: HistoryView {
                generation: bumped(self.history.generation),
                frames: self.history.frames.map_values(
                    |frame: FrameBoundary| snapshot.rebased(frame, logs),
                ),
                ..self.history
            },
            ..self
        }
    }

    /// The state once an active frame was rolled back.
    pub open spec fn frame_rolled_back(self, id: u64, eip161: bool) -> Self {
        let frame = self.history.frames[frame_position(self.history.frames, id)];
        StateView {
            tx: self.tx.rolled_back(frame.journal_len as nat, frame.logs_len as nat, eip161),
            history: self.history.left(id),
            ..self
        }
    }
}

/// The position of a frame among `frames`, or their number where it is not among them.
fn find_frame(frames: &Vec<FrameBoundary>, id: u64) -> (r: usize)
    requires
        frames_ordered(frames@),
    ensures
        if lists_frame(frames@, id) {
            r == frame_position(frames@, id) && 0 <= r < frames.len() && frames@[r as int].id == id
        } else {
            r == frames.len()
        },
{
    let mut i: usize = 0;
    while i < frames.len()
        invariant
            i <= frames.len(),
            frames_ordered(frames@),
            forall|j: int| 0 <= j < i ==> (#[trigger] frames@[j]).id != id,
        decreases frames.len() - i,
    {
        if frames[i].id == id {
            proof {
                let k = frame_position(frames@, id);
                assert(frames@[i as int].id == id);
                assert(frames@[k].id == id);
                assert(k == i);
            }
            return i;
        }
        i += 1;
    }
    i
}

impl<D: Database> State<D> {
    /// Registers an engine frame that begins here.
    pub fn enter_frame(&mut self) -> (r: FrameId)
        requires
            old(self).wf(),
            old(self)@.history.next_frame < u64::MAX,
        ensures
            r.id() == old(self)@.history.next_frame,
            final(self)@ == (StateView {
                history: old(self)@.history.entered(
                    old(self)@.tx.journal.len(),
                    old(self)@.tx.logs.len(),
                ),
                ..old(self)@
            }),
            final(self).inner == old(self).inner,
            final(self).wf(),
    {
        let id: u64 = self.history.next_frame;
        self.history.frames.push(
            FrameBoundary {
                id,
                journal_len: self.inner.journal.len(),
                logs_len: self.inner.logs.len(),
            },
        );
        self.history.next_frame = id + 1;
        FrameId { id }
    }

    /// The number of active frames.
    pub fn active_frames(&self) -> (r: usize)
        ensures
            r == self@.history.frames.len(),
    {
        self.history.frames.len()
    }

    /// Whether a frame is active.
    pub fn is_active_frame(&self, frame: FrameId) -> (r: bool)
        requires
            self.wf(),
        ensures
            r == lists_frame(self@.history.frames, frame.id()),
    {
        find_frame(&self.history.frames, frame.id) < self.history.frames.len()
    }

    /// Lets an active frame return with what it did, and with it all frames entered after it.
    pub fn exit_frame(&mut self, frame: FrameId)
        requires
            old(self).wf(),
            lists_frame(old(self)@.history.frames, frame.id()),
        ensures
            final(self)@ == (StateView {
                history: old(self)@.history.left(frame.id()),
                ..old(self)@
            }),
            final(self).inner == old(self).inner,
            final(self).wf(),
    {
        let position = find_frame(&self.history.frames, frame.id);
        self.history.frames.truncate(position);
        assert(self@.history =~= old(self)@.history.left(frame.id()));
    }

    /// Undoes what happened since an active frame began, and lets it return along with all frames
    /// entered after it.
    pub fn rollback_frame(&mut self, frame: FrameId, features: EvmFeatures)
        requires
            old(self).wf(),
            lists_frame(old(self)@.history.frames, frame.id()),
        ensures
            final(self)@ == old(self)@.frame_rolled_back(frame.id(), features.eip161),
            final(self).inner.database == old(self).inner.database,
            final(self).wf(),
    {
        let position = find_frame(&self.history.frames, frame.id);
        let boundary = self.history.frames[position];
        self.roll_back_to(boundary.journal_len, boundary.logs_len, features);
        self.history.frames.truncate(position);
        assert(self@.history =~= old(self)@.history.left(frame.id()));
    }

    /// A copy of the transaction layer and of the active frames.
    pub fn transaction_snapshot(&self) -> (r: TransactionSnapshot)
        requires
            self.wf(),
        ensures
            r@ == self@.transaction_snapshot(),
            r@.wf(),
    {
        let frames = copy_frames(&self.history.frames);
        TransactionSnapshot {
            layer: self.copy_layer(),
            frames,
            identity: self.history.identity,
            epoch: self.history.epoch,
        }
    }

    /// Restores a transaction snapshot. Active frames stay active, with their boundaries adjusted
    /// to the restored history; frames that returned are not brought back. A snapshot of another
    /// state or of a cleared transaction is refused, with nothing changed. Raw checkpoints taken
    /// before are no longer accepted.
    pub fn restore_transaction_snapshot(&mut self, snapshot: &TransactionSnapshot, logs: SnapshotLogs) -> (r:
        Result<(), SnapshotEpochMismatch>)
        requires
            old(self).wf(),
            snapshot@.wf(),
        ensures
            r is Ok <==> old(self)@.owns(snapshot@),
            r is Ok ==> final(self)@ == old(self)@.restored(snapshot@, logs),
            r is Err ==> final(self)@ == old(self)@,
            final(self).inner.database == old(self).inner.database,
            final(self).wf(),
    {
        if !(snapshot.identity == self.history.identity) || snapshot.epoch != self.history.epoch {
            return Err(SnapshotEpochMismatch);
        }
        let frames = rebase_frames(&self.history.frames, snapshot, logs);
        let layer = snapshot.layer.duplicate();
        self.accounts = layer.accounts;
        self.storage = layer.storage;
        self.transient_storage = layer.transient_storage;
        self.inner.prewarm_set = layer.prewarm_set;
        self.inner.journal = layer.journal;
        self.inner.selfdestructs = layer.selfdestructs;
        match logs {
            SnapshotLogs::Retain => {},
            SnapshotLogs::Restore => {
                self.inner.logs = layer.logs;
            },
        }
        self.history.frames = frames;
        self.history.generation = bump(self.history.generation);
        assert(self@.history =~= old(self)@.restored(snapshot@, logs).history);
        Ok(())
    }
}

/// A copy of a list of frames.
fn copy_frames(frames: &Vec<FrameBoundary>) -> (r: Vec<FrameBoundary>)
    ensures
        r@ == frames@,
{
    let mut r: Vec<FrameBoundary> = Vec::new();
    let mut i: usize = 0;
    while i < frames.len()
        invariant
            i <= frames.len(),
            r@ == frames@.take(i as int),
        decreases frames.len() - i,
    {
        r.push(frames[i]);
        assert(r@ =~= frames@.take(i + 1));
        i += 1;
    }
    assert(r@ =~= frames@);
    r
}

/// The boundaries of active frames once a transaction snapshot is restored.
fn rebase_frames(
    frames: &Vec<FrameBoundary>,
    snapshot: &TransactionSnapshot,
    logs: SnapshotLogs,
) -> (r: Vec<FrameBoundary>)
    requires
        snapshot@.wf(),
    ensures
        r@ == frames@.map_values(|frame: FrameBoundary| snapshot@.rebased(frame, logs)),
{
    let mut r: Vec<FrameBoundary> = Vec::new();
    let mut i: usize = 0;
    while i < frames.len()
        invariant
            i <= frames.len(),
            snapshot@.wf(),
            r.len() == i,
            forall|j: int|
                0 <= j < i ==> #[trigger] r@[j] == snapshot@.rebased(frames@[j], logs),
        decreases frames.len() - i,
    {
        let frame = frames[i];
        let position = find_frame(&snapshot.frames, frame.id);
        let (journal_len, captured_logs_len) = if position < snapshot.frames.len() {
            let captured = snapshot.frames[position];
            (captured.journal_len, captured.logs_len)
        } else {
            (snapshot.layer.journal.len(), snapshot.layer.logs.len())
        };
        let logs_len: usize = match logs {
            SnapshotLogs::Retain => frame.logs_len,
            SnapshotLogs::Restore => captured_logs_len,
        };
        r.push(FrameBoundary { id: frame.id, journal_len, logs_len });
        i += 1;
    }
    assert(r@ =~= frames@.map_values(|frame: FrameBoundary| snapshot@.rebased(frame, logs)));
    r
}

} // verus!
