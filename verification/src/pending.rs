//! The state transition of one transaction, detached from its state.
use vstd::prelude::*;

use crate::account::Account;
use crate::db::Database;
use crate::fixed::Address;
use crate::map::{AddressMap, AddressSet, Duplicate};
use crate::model::TxView;
use crate::state::State;
use crate::storage::{OverlayView, StorageOverlay};
use crate::stream::{
    feed, feeds, list_changes, lists_changes, StateChange, StateChangeSink, StateChangeSource,
};

verus! {

/// The accounts, storage and self-destructs of a transaction, detached from its state.
#[derive(Debug, PartialEq, Eq)]
pub struct PendingState {
    pub accounts: AddressMap<Account>,
    pub storage: AddressMap<StorageOverlay>,
    pub selfdestructs: AddressSet,
}

/// What a [`PendingState`] holds.
#[verifier::ext_equal]
pub struct PendingView {
    pub accounts: Map<Address, Account>,
    pub storage: Map<Address, OverlayView>,
    pub selfdestructs: Set<Address>,
}

impl View for PendingState {
    type V = PendingView;

    open spec fn view(&self) -> PendingView {
        PendingView {
            accounts: self.accounts@,
            storage: self.storage@,
            selfdestructs: self.selfdestructs@,
        }
    }
}

impl Duplicate for PendingState {
    fn duplicate(&self) -> (r: Self) {
        PendingState {
            accounts: self.accounts.duplicate(),
            storage: self.storage.duplicate(),
            selfdestructs: self.selfdestructs.duplicate(),
        }
    }
}

impl StateChangeSource for PendingState {
    open spec fn streams(&self, changes: Seq<StateChange>) -> bool {
        lists_changes(self@.accounts, self@.storage, self@.selfdestructs, changes)
    }

    fn visit<S: StateChangeSink>(&self, sink: &mut S) -> (r: Result<(), S::Error>) {
        let changes = list_changes(&self.accounts, &self.storage, &self.selfdestructs);
        assert(self.streams(changes@));
        feed(sink, &changes)
    }
}

impl PendingView {
    /// A transition that changes nothing.
    pub open spec fn empty() -> Self {
        PendingView { accounts: Map::empty(), storage: Map::empty(), selfdestructs: Set::empty() }
    }
}

impl TxView {
    /// The state transition of the layer.
    pub open spec fn pending(self) -> PendingView {
        PendingView {
            accounts: self.accounts,
            storage: self.storage,
            selfdestructs: self.selfdestructs,
        }
    }

    /// The layer with another state transition. The rest stays.
    pub open spec fn with_pending(self, pending: PendingView) -> Self {
        TxView {
            accounts: pending.accounts,
            storage: pending.storage,
            selfdestructs: pending.selfdestructs,
            ..self
        }
    }
}

impl<D: Database> State<D> {
    /// Gives the changes of the transaction to `sink` in the order in which a database applies
    /// them, until it fails to take one.
    pub fn visit_transaction_changes<S: StateChangeSink>(&self, sink: &mut S) -> (r: Result<
        (),
        S::Error,
    >)
        ensures
            exists|changes: Seq<StateChange>| #[trigger]
                lists_changes(
                    self@.tx.accounts,
                    self@.tx.storage,
                    self@.tx.selfdestructs,
                    changes,
                ) && feeds(*old(sink), changes, r, *final(sink)),
    {
        let changes = list_changes(&self.accounts, &self.storage, &self.inner.selfdestructs);
        assert(lists_changes(
            self@.tx.accounts,
            self@.tx.storage,
            self@.tx.selfdestructs,
            changes@,
        ));
        feed(sink, &changes)
    }

    /// Detaches the state transition of the transaction. The rest of the transaction layer stays.
    pub fn take_pending_state(&mut self) -> (r: PendingState)
        requires
            old(self).wf(),
        ensures
            r@ == old(self)@.tx.pending(),
            final(self)@ == old(self)@.with_tx(old(self)@.tx.with_pending(PendingView::empty())),
            final(self).inner.database == old(self).inner.database,
            final(self).wf(),
    {
        let mut accounts: AddressMap<Account> = AddressMap::new();
        std::mem::swap(&mut accounts, &mut self.accounts);
        let mut storage: AddressMap<StorageOverlay> = AddressMap::new();
        std::mem::swap(&mut storage, &mut self.storage);
        let mut selfdestructs = AddressSet::new();
        std::mem::swap(&mut selfdestructs, &mut self.inner.selfdestructs);
        PendingState { accounts, storage, selfdestructs }
    }

    /// Makes a detached state transition that of the current transaction, in place of the one it
    /// has. The rest of the transaction layer stays.
    pub fn set_pending_state(&mut self, pending: PendingState)
        requires
            old(self).wf(),
        ensures
            final(self)@ == old(self)@.with_tx(old(self)@.tx.with_pending(pending@)),
            final(self).inner.database == old(self).inner.database,
            final(self).wf(),
    {
        self.accounts = pending.accounts;
        self.storage = pending.storage;
        self.inner.selfdestructs = pending.selfdestructs;
    }
}

} // verus!
