//! The state of a chain while transactions run on it.
use std::sync::Arc;

use alloy_primitives::Log;
use vstd::prelude::*;

use crate::account::Account;
use crate::bal::{Bal, BalView, BlockAccessIndex};
use crate::commit::commits;
use crate::db::{CacheDB, CacheDbView, CacheView, Database, DbError, DbResult};
use crate::fixed::{Address, FixedBytes, Word, B256};
use crate::info::AccountInfo;
use crate::journal::{entry_views, JournalEntry, StateCheckpoint};
use crate::map::{AddressMap, AddressSet, WordMap};
use crate::model::TxView;
use crate::prewarm::{PrewarmSet, PrewarmView};
use crate::storage::StorageOverlay;
use crate::stream::{lists_changes, StateChange, StateChangeSource};

verus! {

/// Where the history of a transaction stood when an engine frame was entered.
#[derive(Clone, Copy, PartialEq, Eq, Structural, Debug)]
pub struct FrameBoundary {
    /// Tells the frame from every other frame of its transaction.
    pub id: u64,
    pub journal_len: usize,
    pub logs_len: usize,
}

/// Which history a state is in, and the engine frames that are suspended in it.
#[derive(Debug)]
pub struct History {
    /// Tells the state from every other state.
    pub identity: B256,
    /// Counts the transactions that were cleared.
    pub epoch: u64,
    /// Counts the replacements of the history: restored snapshots and cleared transactions.
    pub generation: u64,
    /// The active frames, outermost first.
    pub frames: Vec<FrameBoundary>,
    /// The identity of the next frame.
    pub next_frame: u64,
}

/// What a [`History`] holds.
#[verifier::ext_equal]
pub struct HistoryView {
    pub identity: B256,
    pub epoch: u64,
    pub generation: u64,
    pub frames: Seq<FrameBoundary>,
    pub next_frame: u64,
}

impl View for History {
    type V = HistoryView;

    open spec fn view(&self) -> HistoryView {
        HistoryView {
            identity: self.identity,
            epoch: self.epoch,
            generation: self.generation,
            frames: self.frames@,
            next_frame: self.next_frame,
        }
    }
}

/// Whether `frames` have increasing identities.
pub open spec fn frames_ordered(frames: Seq<FrameBoundary>) -> bool {
    forall|i: int, j: int|
        0 <= i < j < frames.len() ==> (#[trigger] frames[i]).id < (#[trigger] frames[j]).id
}

/// The counter one past `x`, which starts over at zero after the largest.
pub open spec fn bumped(x: u64) -> u64 {
    if x == u64::MAX {
        0
    } else {
        (x + 1) as u64
    }
}

/// The counter one past `x`, which starts over at zero after the largest.
pub(crate) fn bump(x: u64) -> (r: u64)
    ensures
        r == bumped(x),
{
    if x == u64::MAX {
        0
    } else {
        x + 1
    }
}

impl HistoryView {
    /// The history of a new state.
    pub open spec fn initial(identity: B256) -> Self {
        HistoryView { identity, epoch: 0, generation: 0, frames: Seq::empty(), next_frame: 0 }
    }

    /// The history once the transaction was cleared.
    pub open spec fn cleared(self) -> Self {
        HistoryView {
            epoch: bumped(self.epoch),
            generation: bumped(self.generation),
            frames: Seq::empty(),
            next_frame: 0,
            ..self
        }
    }

    /// Whether the active frames have increasing identities, all given out before.
    pub open spec fn wf(self) -> bool {
        &&& frames_ordered(self.frames)
        &&& forall|i: int| 0 <= i < self.frames.len() ==> (#[trigger] self.frames[i]).id < self.next_frame
    }
}

/// The parts of a [`State`] besides the loaded accounts and their storage.
#[derive(Debug)]
pub struct StateInner<D> {
    /// The accepted state and the database below it.
    pub database: CacheDB<D>,
    /// Precompiles, coinbase and the EIP-2930 access list.
    pub prewarm_set: PrewarmSet,
    /// The revert journal.
    pub journal: Vec<JournalEntry>,
    /// Logs emitted by the current transaction.
    pub logs: Vec<Log>,
    /// Accounts self-destructed in the current transaction.
    pub selfdestructs: AddressSet,
}

/// EVM state: a database, the state accepted over it, and the layer of the transaction in flight
/// with its revert journal.
#[derive(Debug)]
pub struct State<D> {
    /// Accounts loaded by the current transaction.
    pub accounts: AddressMap<Account>,
    /// Persistent storage loaded by the current transaction.
    pub storage: AddressMap<StorageOverlay>,
    /// EIP-1153 transient storage of the current transaction.
    pub transient_storage: AddressMap<WordMap<Word>>,
    pub inner: StateInner<D>,
    pub history: History,
}

/// What a [`State`] holds.
pub struct StateView {
    pub tx: TxView,
    pub db: CacheDbView,
    pub history: HistoryView,
}

/// The slots of nested transient storage by account and key.
pub open spec fn transient_slots(nested: Map<Address, Map<Word, Word>>) -> Map<(Address, Word), Word> {
    Map::new(
        |slot: (Address, Word)| nested.contains_key(slot.0) && nested[slot.0].contains_key(slot.1),
        |slot: (Address, Word)| nested[slot.0][slot.1],
    )
}

impl<D: Database> View for State<D> {
    type V = StateView;

    open spec fn view(&self) -> StateView {
        StateView {
            tx: TxView {
                accounts: self.accounts@,
                storage: self.storage@,
                transient: transient_slots(self.transient_storage@),
                prewarm: self.inner.prewarm_set@,
                journal: entry_views(self.inner.journal@),
                logs: self.inner.logs@,
                selfdestructs: self.inner.selfdestructs@,
            },
            db: self.inner.database@,
            history: self.history@,
        }
    }
}

impl StateView {
    /// What every state keeps: no transient slot is listed with zero, and the active frames are
    /// told apart by their identities.
    pub open spec fn wf(self) -> bool {
        self.tx.transient_nonzero() && self.history.wf()
    }

    /// The state with another transaction layer.
    pub open spec fn with_tx(self, tx: TxView) -> Self {
        StateView { tx, ..self }
    }

    /// The state with other block access lists.
    pub open spec fn with_bal(self, bal: BalView) -> Self {
        StateView { db: CacheDbView { bal, ..self.db }, ..self }
    }

    /// The state with another pre-warmed set.
    pub open spec fn with_prewarm(self, prewarm: PrewarmView) -> Self {
        StateView { tx: TxView { prewarm, ..self.tx }, ..self }
    }

    /// Whether `info` may be what loading an account finds. Where the account is loaded already,
    /// nothing is read.
    pub open spec fn finds_account(self, address: Address, info: Option<AccountInfo>) -> bool {
        self.tx.accounts.contains_key(address) || self.db.answers_account(address, Ok(info))
    }

    /// Whether `value` may be what loading a slot finds. Where the slot is loaded already or its
    /// account's storage is wiped, nothing is read.
    pub open spec fn finds_slot(self, address: Address, key: Word, value: Word) -> bool {
        !self.tx.slot_needs_read(address, key) || self.db.answers_storage(address, key, Ok(value))
    }

    /// Whether a read of an account as it stands may have the outcome.
    pub open spec fn reads_account(self, address: Address, r: DbResult<Option<AccountInfo>>) -> bool {
        if self.tx.accounts.contains_key(address) {
            r == Ok::<Option<AccountInfo>, DbError>(self.tx.accounts[address].present)
        } else {
            self.db.answers_account(address, r)
        }
    }

    /// Whether a read of a slot as it stands may have the outcome.
    pub open spec fn reads_slot(self, address: Address, key: Word, r: DbResult<Word>) -> bool {
        if self.tx.has_slot(address, key) {
            r == Ok::<Word, DbError>(self.tx.slot(address, key).value.current)
        } else if self.tx.slot_needs_read(address, key) {
            self.db.answers_storage(address, key, r)
        } else {
            r == Ok::<Word, DbError>(FixedBytes::<32>::spec_zero())
        }
    }

    /// Whether `after` may be the state once an account is loaded.
    pub open spec fn loads_account(self, address: Address, after: Self) -> bool {
        exists|info: Option<AccountInfo>| #[trigger]
            self.finds_account(address, info) && after == self.with_tx(
                self.tx.load_account(address, info),
            )
    }

    /// Whether `after` may be the state once a slot is loaded.
    pub open spec fn loads_slot(self, address: Address, key: Word, after: Self) -> bool {
        exists|value: Word| #[trigger]
            self.finds_slot(address, key, value) && after == self.with_tx(
                self.tx.load_slot(address, key, value),
            )
    }

    /// The state once the transaction was cleared.
    pub open spec fn cleared(self) -> Self {
        StateView { tx: TxView::empty(), history: self.history.cleared(), ..self }
    }
}

/// Draws 32 bytes with `alloy_primitives::B256::try_random`, which fills them from the system's
/// random number generator, or fails where that does. Nothing is said of the outcome; that no two
/// draws give the same bytes is left to chance.
#[verifier::external_body]
fn draw_identity() -> (r: Option<B256>) {
    match alloy_primitives::B256::try_random() {
        Ok(identity) => Some(FixedBytes { bytes: identity.0 }),
        Err(_) => None,
    }
}

/// The identity of a new state for which `drawn` was drawn. Where nothing could be drawn it is zero,
/// which all such states share.
pub fn identity_from(drawn: Option<B256>) -> (r: B256)
    ensures
        r == (match drawn {
            Some(identity) => identity,
            None => FixedBytes::<32>::spec_zero(),
        }),
{
    match drawn {
        Some(identity) => identity,
        None => FixedBytes::zero(),
    }
}

/// An identity for a new state.
pub(crate) fn fresh_identity() -> (r: B256) {
    identity_from(draw_identity())
}

impl<D: Database> State<D> {
    /// The invariant of a state.
    pub open spec fn wf(self) -> bool {
        self@.wf()
    }

    /// A new state over a database, told from others by an identity drawn at random. Where the
    /// system's random number generator fails, the identity is the one of [`identity_from`], and the
    /// state is not told from others for which it failed too.
    pub fn new(initial: D) -> (r: Self)
        ensures
            r.wf(),
            r@.tx == TxView::empty(),
            r@.db == (CacheDbView {
                cache: CacheView::empty(),
                source: initial.model(),
                bal: BalView::initial(),
            }),
            r@.history == HistoryView::initial(r@.history.identity),
            r.inner.database.db == initial,
    {
        let identity = fresh_identity();
        State::with_identity(initial, identity)
    }

    /// A new state over a database, told from others by `identity`.
    pub fn with_identity(initial: D, identity: B256) -> (r: Self)
        ensures
            r.wf(),
            r@ == (StateView {
                tx: TxView::empty(),
                db: CacheDbView {
                    cache: CacheView::empty(),
                    source: initial.model(),
                    bal: BalView::initial(),
                },
                history: HistoryView::initial(identity),
            }),
            r.inner.database.db == initial,
    {
        let r = State {
            accounts: AddressMap::new(),
            storage: AddressMap::new(),
            transient_storage: AddressMap::new(),
            inner: StateInner {
                database: CacheDB::new(initial),
                prewarm_set: PrewarmSet::new(),
                journal: Vec::new(),
                logs: Vec::new(),
                selfdestructs: AddressSet::new(),
            },
            history: History {
                identity,
                epoch: 0,
                generation: 0,
                frames: Vec::new(),
                next_frame: 0,
            },
        };
        assert(r@.tx =~= TxView::empty());
        assert(r@.history =~= HistoryView::initial(identity));
        r
    }

    /// A point to which [`State::rollback`] can return.
    pub fn checkpoint(&self) -> (r: StateCheckpoint)
        ensures
            r.journal_len() == self@.tx.journal.len(),
            r.logs_len() == self@.tx.logs.len(),
            r.generation() == self@.history.generation,
            forall|other: StateCheckpoint|
                (#[trigger] other.journal_len()) == r.journal_len() && other.logs_len()
                    == r.logs_len() && other.generation() == r.generation() ==> other == r,
    {
        let r = StateCheckpoint::new(
            self.inner.journal.len(),
            self.inner.logs.len(),
            self.history.generation,
        );
        assert forall|other: StateCheckpoint|
            (#[trigger] other.journal_len()) == r.journal_len() && other.logs_len()
                == r.logs_len() && other.generation() == r.generation() implies other == r by {
            r.law_checkpoint_is_its_parts(other);
        }
        r
    }

    /// Whether [`State::rollback`] accepts a checkpoint: the history it was taken in has not been
    /// replaced since.
    pub fn accepts(&self, checkpoint: &StateCheckpoint) -> (r: bool)
        ensures
            r == (checkpoint.generation() == self@.history.generation),
    {
        checkpoint.is_of_generation(self.history.generation)
    }

    /// The database below the accepted state.
    pub fn initial(&self) -> (r: &D)
        ensures
            *r == self.inner.database.db,
            r.model() == self@.db.source,
    {
        &self.inner.database.db
    }

    /// The database below the accepted state, for changing.
    pub fn initial_mut(&mut self) -> (r: &mut D)
        requires
            old(self).wf(),
        ensures
            *r == old(self).inner.database.db,
            final(self).inner.database.db == *final(r),
            final(self)@ == (StateView {
                db: CacheDbView { source: final(r).model(), ..old(self)@.db },
                ..old(self)@
            }),
            final(self).wf(),
    {
        &mut self.inner.database.db
    }

    /// Replaces the database and clears everything that lies over it.
    pub fn set_initial(&mut self, initial: D)
        requires
            old(self).wf(),
            old(self)@.history.frames.len() == 0,
        ensures
            final(self).wf(),
            final(self)@ == (StateView {
                tx: TxView::empty(),
                db: CacheDbView {
                    cache: CacheView::empty(),
                    source: initial.model(),
                    bal: BalView::initial(),
                },
                history: old(self)@.history.cleared(),
            }),
            final(self).inner.database.db == initial,
    {
        self.inner.database = CacheDB::new(initial);
        self.clear_transaction_state();
    }

    /// The accepted state and the database below it.
    pub fn overlay_db(&self) -> (r: &CacheDB<D>)
        ensures
            *r == self.inner.database,
            r@ == self@.db,
    {
        &self.inner.database
    }

    /// The accepted state and the database below it, for changing.
    pub fn overlay_db_mut(&mut self) -> (r: &mut CacheDB<D>)
        requires
            old(self).wf(),
        ensures
            *r == old(self).inner.database,
            final(self).inner.database == *final(r),
            final(self)@ == (StateView { db: final(r)@, ..old(self)@ }),
            final(self).wf(),
    {
        &mut self.inner.database
    }

    /// Accepts the changes that `source` streams.
    pub fn commit_source<S: StateChangeSource>(&mut self, source: &S)
        requires
            old(self).wf(),
        ensures
            exists|changes: Seq<StateChange>| #[trigger]
                source.streams(changes) && final(self)@ == (StateView {
                    db: old(self)@.db.accepted_all(changes),
                    ..old(self)@
                }),
            final(self).inner.database.db == old(self).inner.database.db,
            final(self).wf(),
    {
        self.inner.database.commit_source(source);
        proof {
            let changes = choose|changes: Seq<StateChange>| #[trigger]
                source.streams(changes) && self@.db == old(self)@.db.accepted_all(changes);
            assert(source.streams(changes));
        }
    }

    // --- block access lists ---

    /// Attaches a block access list from which reads are served at the current position. Reads that
    /// it does not cover fail unless [`State::set_allow_bal_db_fallback`] allows them.
    pub fn set_bal(&mut self, bal: Arc<Bal>)
        requires
            old(self).wf(),
        ensures
            final(self)@ == old(self)@.with_bal(
                BalView { attached: Some(bal), ..old(self)@.db.bal },
            ),
            final(self).inner.database.db == old(self).inner.database.db,
            final(self).wf(),
    {
        self.inner.database.bal_context.set_bal(bal);
    }

    /// The attached block access list.
    pub fn bal(&self) -> (r: Option<&Arc<Bal>>)
        ensures
            match r {
                Some(bal) => self@.db.bal.attached == Some(*bal),
                None => self@.db.bal.attached is None,
            },
    {
        self.inner.database.bal_context.bal()
    }

    /// Detaches the block access list.
    pub fn clear_bal(&mut self)
        requires
            old(self).wf(),
        ensures
            final(self)@ == old(self)@.with_bal(BalView { attached: None, ..old(self)@.db.bal }),
            final(self).inner.database.db == old(self).inner.database.db,
            final(self).wf(),
    {
        self.inner.database.bal_context.clear_bal();
    }

    /// Sets whether reads that the attached list does not cover go to the database.
    pub fn set_allow_bal_db_fallback(&mut self, allow: bool)
        requires
            old(self).wf(),
        ensures
            final(self)@ == old(self)@.with_bal(
                BalView { allow_db_fallback: allow, ..old(self)@.db.bal },
            ),
            final(self).inner.database.db == old(self).inner.database.db,
            final(self).wf(),
    {
        self.inner.database.bal_context.set_allow_db_fallback(allow);
    }

    /// Starts building a block access list, to which accepting a transaction adds its accesses at
    /// the current position. A list already under construction is kept.
    pub fn enable_bal_builder(&mut self)
        requires
            old(self).wf(),
        ensures
            final(self)@ == old(self)@.with_bal(
                BalView {
                    builder: Some(
                        match old(self)@.db.bal.builder {
                            Some(entries) => entries,
                            None => Seq::empty(),
                        },
                    ),
                    ..old(self)@.db.bal
                },
            ),
            final(self).inner.database.db == old(self).inner.database.db,
            final(self).wf(),
    {
        self.inner.database.bal_context.enable_bal_builder();
    }

    /// The block access list under construction.
    pub fn bal_builder(&self) -> (r: Option<&Bal>)
        ensures
            match r {
                Some(bal) => self@.db.bal.builder == Some(bal@),
                None => self@.db.bal.builder is None,
            },
    {
        self.inner.database.bal_context.bal_builder()
    }

    /// The current position in the block.
    pub fn bal_index(&self) -> (r: BlockAccessIndex)
        ensures
            r == self@.db.bal.index,
    {
        self.inner.database.bal_context.bal_index()
    }

    /// Returns to the position before the transactions of a block.
    pub fn reset_bal_index(&mut self)
        requires
            old(self).wf(),
        ensures
            final(self)@ == old(self)@.with_bal(BalView { index: 0, ..old(self)@.db.bal }),
            final(self).inner.database.db == old(self).inner.database.db,
            final(self).wf(),
    {
        self.inner.database.bal_context.set_bal_index(0);
    }

    /// Moves to a position in the block.
    pub fn set_bal_index(&mut self, index: BlockAccessIndex)
        requires
            old(self).wf(),
        ensures
            final(self)@ == old(self)@.with_bal(BalView { index, ..old(self)@.db.bal }),
            final(self).inner.database.db == old(self).inner.database.db,
            final(self).wf(),
    {
        self.inner.database.bal_context.set_bal_index(index);
    }

    /// Moves to the next position in the block.
    pub fn bump_bal_index(&mut self)
        requires
            old(self).wf(),
            old(self)@.db.bal.index < u64::MAX,
        ensures
            final(self)@ == old(self)@.with_bal(
                BalView { index: (old(self)@.db.bal.index + 1) as u64, ..old(self)@.db.bal },
            ),
            final(self).inner.database.db == old(self).inner.database.db,
            final(self).wf(),
    {
        let index: u64 = self.inner.database.bal_context.bal_index();
        self.inner.database.bal_context.set_bal_index(index + 1);
    }

    /// Takes the block access list under construction and returns to the position before the
    /// transactions of a block.
    pub fn take_bal_builder(&mut self) -> (r: Option<Bal>)
        requires
            old(self).wf(),
        ensures
            match r {
                Some(bal) => old(self)@.db.bal.builder == Some(bal@),
                None => old(self)@.db.bal.builder is None,
            },
            final(self)@ == old(self)@.with_bal(
                BalView { builder: None, index: 0, ..old(self)@.db.bal },
            ),
            final(self).inner.database.db == old(self).inner.database.db,
            final(self).wf(),
    {
        self.inner.database.bal_context.take_bal_builder()
    }

    /// Reads the hash of a block.
    pub fn block_hash(&mut self, number: &Word) -> (r: DbResult<B256>)
        requires
            old(self).wf(),
        ensures
            (old(self)@.db.source.block_hash)(*number, r),
            old(self).inner.database.reads_into(final(self).inner.database),
            final(self)@ == old(self)@,
            final(self).wf(),
    {
        self.inner.database.get_block_hash(number)
    }

    // --- logs and journal ---

    /// The logs of the current transaction.
    pub fn logs(&self) -> (r: &[Log])
        ensures
            r@ == self@.tx.logs,
    {
        self.inner.logs.as_slice()
    }

    /// The logs of the current transaction, for changing.
    pub fn logs_mut(&mut self) -> (r: &mut Vec<Log>)
        requires
            old(self).wf(),
        ensures
            r@ == old(self)@.tx.logs,
            final(self)@ == old(self)@.with_tx(TxView { logs: final(r)@, ..old(self)@.tx }),
            final(self).inner.database == old(self).inner.database,
            final(self).wf(),
    {
        &mut self.inner.logs
    }

    /// Takes the logs of the current transaction.
    pub fn take_logs(&mut self) -> (r: Vec<Log>)
        requires
            old(self).wf(),
        ensures
            r@ == old(self)@.tx.logs,
            final(self)@ == old(self)@.with_tx(TxView { logs: Seq::empty(), ..old(self)@.tx }),
            final(self).inner.database == old(self).inner.database,
            final(self).wf(),
    {
        let mut logs: Vec<Log> = Vec::new();
        std::mem::swap(&mut logs, &mut self.inner.logs);
        logs
    }

    /// Records a log.
    pub fn log(&mut self, log: Log)
        requires
            old(self).wf(),
        ensures
            final(self)@ == old(self)@.with_tx(
                TxView { logs: old(self)@.tx.logs.push(log), ..old(self)@.tx },
            ),
            final(self).inner.database == old(self).inner.database,
            final(self).wf(),
    {
        self.inner.logs.push(log);
    }

    /// The revert journal of the current transaction.
    pub fn journal(&self) -> (r: &[JournalEntry])
        ensures
            entry_views(r@) == self@.tx.journal,
    {
        self.inner.journal.as_slice()
    }

    // --- pre-warmed set ---

    /// The pre-warmed set.
    pub fn prewarm_set(&self) -> (r: &PrewarmSet)
        ensures
            r@ == self@.tx.prewarm,
    {
        &self.inner.prewarm_set
    }

    /// The pre-warmed set, for changing. What is added survives a rollback and goes with the
    /// transaction.
    pub fn prewarm_set_mut(&mut self) -> (r: &mut PrewarmSet)
        requires
            old(self).wf(),
        ensures
            r@ == old(self)@.tx.prewarm,
            final(self)@ == old(self)@.with_prewarm(final(r)@),
            final(self).inner.database == old(self).inner.database,
            final(self).wf(),
    {
        &mut self.inner.prewarm_set
    }

    /// Pre-warms an address.
    pub fn prewarm(&mut self, address: &Address)
        requires
            old(self).wf(),
        ensures
            final(self)@ == old(self)@.with_prewarm(old(self)@.tx.prewarm.warm(*address)),
            final(self).inner.database == old(self).inner.database,
            final(self).wf(),
    {
        self.inner.prewarm_set.warm(address);
    }

    /// Pre-warms an address and some of its slots.
    pub fn prewarm_storage(&mut self, address: &Address, slots: &[Word])
        requires
            old(self).wf(),
        ensures
            final(self)@ == old(self)@.with_prewarm(
                old(self)@.tx.prewarm.warm_storage(*address, slots@),
            ),
            final(self).inner.database == old(self).inner.database,
            final(self).wf(),
    {
        self.inner.prewarm_set.warm_storage(address, slots);
    }

    /// Pre-warms an address and one of its slots.
    pub fn prewarm_storage_slot(&mut self, address: &Address, key: Word)
        requires
            old(self).wf(),
        ensures
            final(self)@ == old(self)@.with_prewarm(
                old(self)@.tx.prewarm.warm_storage(*address, seq![key]),
            ),
            final(self).inner.database == old(self).inner.database,
            final(self).wf(),
    {
        let slots = [key];
        assert(slots@ =~= seq![key]);
        self.prewarm_storage(address, &slots);
    }

    /// Replaces the pre-warmed set.
    pub fn set_prewarm_set(&mut self, prewarm_set: PrewarmSet)
        requires
            old(self).wf(),
        ensures
            final(self)@ == old(self)@.with_prewarm(prewarm_set@),
            final(self).inner.database == old(self).inner.database,
            final(self).wf(),
    {
        self.inner.prewarm_set = prewarm_set;
    }

    // --- ending a transaction ---

    /// Clears everything that belongs to the current transaction. Every engine frame must have
    /// returned. Checkpoints and transaction snapshots taken before are no longer accepted.
    pub fn clear_transaction_state(&mut self)
        requires
            old(self).wf(),
            old(self)@.history.frames.len() == 0,
        ensures
            final(self)@ == old(self)@.cleared(),
            final(self).inner.database == old(self).inner.database,
            final(self).wf(),
    {
        self.accounts.clear();
        self.storage.clear();
        self.transient_storage.clear();
        self.inner.prewarm_set.clear();
        self.inner.journal.clear();
        self.inner.selfdestructs.clear();
        self.inner.logs.clear();
        self.history.epoch = bump(self.history.epoch);
        self.history.generation = bump(self.history.generation);
        self.history.next_frame = 0;
        assert(self@.tx =~= TxView::empty());
        assert(self@.history =~= old(self)@.history.cleared());
    }

    /// Accepts the current transaction: its writes become part of the accepted state, and its
    /// accounts, storage and self-destructs are cleared. Logs, journal and transient storage stay.
    pub fn commit_transaction(&mut self)
        requires
            old(self).wf(),
        ensures
            final(self)@.tx == (TxView {
                accounts: Map::empty(),
                storage: Map::empty(),
                selfdestructs: Set::empty(),
                ..old(self)@.tx
            }),
            commits(
                old(self)@.db.cache,
                old(self)@.tx.accounts,
                old(self)@.tx.storage,
                Set::empty(),
                final(self)@.db.cache,
            ),
            exists|changes: Seq<StateChange>| #[trigger]
                lists_changes(
                    old(self)@.tx.accounts,
                    old(self)@.tx.storage,
                    Set::empty(),
                    changes,
                ) && final(self)@.db == old(self)@.db.accepted_all(changes),
            final(self)@.db.source == old(self)@.db.source,
            final(self)@.db.bal == (BalView {
                builder: final(self)@.db.bal.builder,
                ..old(self)@.db.bal
            }),
            final(self)@.history == old(self)@.history,
            final(self).inner.database.db == old(self).inner.database.db,
            final(self).wf(),
    {
        self.inner.database.commit(&self.accounts, &self.storage);
        self.accounts.clear();
        self.storage.clear();
        self.inner.selfdestructs.clear();
    }
}

} // verus!
