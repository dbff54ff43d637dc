//! Owned copies of a state without its database.
use alloy_primitives::Log;
use vstd::prelude::*;

use crate::account::Account;
use crate::bal::{BalContext, BalView};
use crate::db::{Cache, CacheDB, CacheDbView, CacheView, Database, DbModel, EmptyDB};
use crate::fixed::{Word, B256};
use crate::journal::{copy_journal, entry_views, JournalEntry};
use crate::log::copy_logs;
use crate::map::{AddressMap, AddressSet, Duplicate, WordMap};
use crate::model::TxView;
use crate::prewarm::PrewarmSet;
use crate::state::{
    fresh_identity, transient_slots, History, HistoryView, State, StateInner, StateView,
};
use crate::storage::StorageOverlay;

verus! {

/// A copy of a transaction layer.
#[derive(Debug)]
pub struct TxLayer {
    pub accounts: AddressMap<Account>,
    pub storage: AddressMap<StorageOverlay>,
    pub transient_storage: AddressMap<WordMap<Word>>,
    pub prewarm_set: PrewarmSet,
    pub journal: Vec<JournalEntry>,
    pub logs: Vec<Log>,
    pub selfdestructs: AddressSet,
}

impl View for TxLayer {
    type V = TxView;

    open spec fn view(&self) -> TxView {
        TxView {
            accounts: self.accounts@,
            storage: self.storage@,
            transient: transient_slots(self.transient_storage@),
            prewarm: self.prewarm_set@,
            journal: entry_views(self.journal@),
            logs: self.logs@,
            selfdestructs: self.selfdestructs@,
        }
    }
}

impl Duplicate for TxLayer {
    fn duplicate(&self) -> (r: Self) {
        TxLayer {
            accounts: self.accounts.duplicate(),
            storage: self.storage.duplicate(),
            transient_storage: self.transient_storage.duplicate(),
            prewarm_set: self.prewarm_set.duplicate(),
            journal: copy_journal(&self.journal),
            logs: copy_logs(&self.logs),
            selfdestructs: self.selfdestructs.duplicate(),
        }
    }
}

/// Owned state without a database. It can be kept across executions; to use it again takes the
/// database that should serve what it does not hold.
#[derive(Debug)]
pub struct StateSnapshot {
    pub layer: TxLayer,
    pub cache: Cache,
    pub bal_context: BalContext,
    pub generation: u64,
}

/// What a [`StateSnapshot`] holds.
pub struct SnapshotView {
    pub tx: TxView,
    pub cache: CacheView,
    pub bal: BalView,
    pub generation: u64,
}

impl View for StateSnapshot {
    type V = SnapshotView;

    open spec fn view(&self) -> SnapshotView {
        SnapshotView {
            tx: self.layer@,
            cache: self.cache@,
            bal: self.bal_context@,
            generation: self.generation,
        }
    }
}

impl Clone for StateSnapshot {
    fn clone(&self) -> (r: Self)
        ensures
            r@ == self@,
    {
        StateSnapshot {
            layer: self.layer.duplicate(),
            cache: self.cache.duplicate(),
            bal_context: self.bal_context.duplicate(),
            generation: self.generation,
        }
    }
}

impl SnapshotView {
    /// What every snapshot keeps.
    pub open spec fn wf(self) -> bool {
        self.tx.transient_nonzero()
    }

    /// The state over a database with the given answers.
    pub open spec fn over(self, source: DbModel, identity: B256) -> StateView {
        StateView {
            tx: self.tx,
            db: CacheDbView { cache: self.cache, source, bal: self.bal },
            history: HistoryView {
                generation: self.generation,
                ..HistoryView::initial(identity)
            },
        }
    }
}

impl StateView {
    /// What a snapshot of the state holds.
    pub open spec fn snapshot(self) -> SnapshotView {
        SnapshotView {
            tx: self.tx,
            cache: self.db.cache,
            bal: self.db.bal,
            generation: self.history.generation,
        }
    }
}

impl StateSnapshot {
    /// The captured state over a database. Checkpoints taken before the capture stay accepted; no
    /// engine frame is active.
    ///
    /// The state gets an identity as [`State::new`] gives one.
    pub fn into_state<D: Database>(self, db: D) -> (r: State<D>)
        requires
            self@.wf(),
        ensures
            r@ == self@.over(db.model(), r@.history.identity),
            r.inner.database.db == db,
            r.wf(),
    {
        let identity = fresh_identity();
        self.into_state_as(db, identity)
    }

    /// The captured state over a database, told from other states by `identity`.
    pub fn into_state_as<D: Database>(self, db: D, identity: B256) -> (r: State<D>)
        requires
            self@.wf(),
        ensures
            r@ == self@.over(db.model(), identity),
            r.inner.database.db == db,
            r.wf(),
    {
        let r = State {
            accounts: self.layer.accounts,
            storage: self.layer.storage,
            transient_storage: self.layer.transient_storage,
            inner: StateInner {
                database: CacheDB { cache: self.cache, db, bal_context: self.bal_context },
                prewarm_set: self.layer.prewarm_set,
                journal: self.layer.journal,
                logs: self.layer.logs,
                selfdestructs: self.layer.selfdestructs,
            },
            history: History {
                identity,
                epoch: 0,
                generation: self.generation,
                frames: Vec::new(),
                next_frame: 0,
            },
        };
        assert(r@.history.frames =~= Seq::empty());
        r
    }
}

impl<D: Database> State<D> {
    /// A copy of the transaction layer.
    pub(crate) fn copy_layer(&self) -> (r: TxLayer)
        ensures
            r@ == self@.tx,
    {
        TxLayer {
            accounts: self.accounts.duplicate(),
            storage: self.storage.duplicate(),
            transient_storage: self.transient_storage.duplicate(),
            prewarm_set: self.inner.prewarm_set.duplicate(),
            journal: copy_journal(&self.inner.journal),
            logs: copy_logs(&self.inner.logs),
            selfdestructs: self.inner.selfdestructs.duplicate(),
        }
    }

    /// A copy of everything but the database.
    pub fn snapshot(&self) -> (r: StateSnapshot)
        requires
            self.wf(),
        ensures
            r@ == self@.snapshot(),
            r@.wf(),
    {
        StateSnapshot {
            layer: self.copy_layer(),
            cache: self.inner.database.cache.duplicate(),
            bal_context: self.inner.database.bal_context.duplicate(),
            generation: self.history.generation,
        }
    }

    /// A copy of the state over another database.
    pub fn clone_with<E: Database>(&self, db: E) -> (r: State<E>)
        requires
            self.wf(),
        ensures
            r@ == self@.snapshot().over(db.model(), r@.history.identity),
            r.inner.database.db == db,
            r.wf(),
    {
        self.snapshot().into_state(db)
    }

    /// A copy of the state over a database without contents.
    pub fn clone(&self) -> (r: State<EmptyDB>)
        requires
            self.wf(),
        ensures
            r@ == self@.snapshot().over(EmptyDB::answers(), r@.history.identity),
            r.wf(),
    {
        self.clone_with(EmptyDB)
    }
}

} // verus!
