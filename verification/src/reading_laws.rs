//! When the database is read, what is handed out of a state, and what its view shows.
use std::sync::Arc;

use alloy_primitives::Log;
use vstd::prelude::*;

use crate::account_handle::AccountHandle;
use crate::acceptance_laws::{account_held, slot_held};
use crate::bal::{Bal, BalEntry};
use crate::db::{Cache, CacheDB, Database, DbResult, EmptyDB, LoadError};
use crate::features::{EvmFeature, EvmFeatures, InstrStop, Version};
use crate::fixed::{Address, FixedBytes, Word, B256};
use crate::info::{spec_empty_code_hash, AccountInfo};
use crate::journal::{entry_views, JournalEntry, StateCheckpoint};
use crate::prewarm::PrewarmSet;
use crate::snapshot::StateSnapshot;
use crate::state::{identity_from, State};
use crate::state_laws::{is_blank, is_listless};
use crate::storage_handle::StorageSlotHandle;
use crate::storage_laws::{is_loaded, is_wiped};
use crate::stream::{StateChange, StateChangeSource};
use crate::value_laws::ether;

verus! {

// --- when the database is read ---

/// Loading a loaded account, or skipping a cold one, leaves the database alone.
pub proof fn law_loaded_account_is_not_read<'h, D: Database>(
    state: &'h mut State<D>,
    address: Address,
    r: DbResult<AccountHandle<'h, D>>,
    other: &'h mut State<D>,
    skip: bool,
    q: Result<AccountHandle<'h, D>, LoadError>,
    third: &mut State<D>,
    p: DbResult<Option<AccountInfo>>,
)
    requires
        call_ensures(State::<D>::account, (state, &address), r),
        call_ensures(State::<D>::account_with_skip, (other, &address, skip), q),
        call_ensures(State::<D>::account_info_untracked, (third, &address), p),
    ensures
        old(state)@.tx.accounts.contains_key(address) ==> {
            &&& r is Ok
            &&& r->Ok_0.state.inner.database == old(state).inner.database
        },
        old(other)@.tx.accounts.contains_key(address) && q is Ok ==> q->Ok_0.state.inner.database
            == old(other).inner.database,
        q is Err && q->Err_0 is ColdLoadSkipped ==> final(other).inner.database
            == old(other).inner.database,
        old(third)@.tx.accounts.contains_key(address) ==> final(third).inner.database
            == old(third).inner.database,
{
}

/// Loading a slot that is loaded or whose storage is wiped, or skipping a cold one, leaves the
/// database alone.
pub proof fn law_loaded_slot_is_not_read<'h, D: Database>(
    state: &'h mut State<D>,
    address: Address,
    key: Word,
    r: DbResult<StorageSlotHandle<'h, D>>,
    other: &'h mut State<D>,
    skip: bool,
    q: Result<StorageSlotHandle<'h, D>, LoadError>,
    third: &mut State<D>,
    p: DbResult<Word>,
)
    requires
        call_ensures(State::<D>::storage_slot, (state, &address, key), r),
        call_ensures(State::<D>::storage_slot_with_skip, (other, &address, key, skip), q),
        call_ensures(State::<D>::storage_slot_untracked, (third, &address, &key), p),
    ensures
        is_loaded(old(state)@.tx, address, key) || is_wiped(old(state)@.tx, address) ==> {
            &&& r is Ok
            &&& r->Ok_0.state.inner.database == old(state).inner.database
        },
        (is_loaded(old(other)@.tx, address, key) || is_wiped(old(other)@.tx, address)) && q is Ok
            ==> q->Ok_0.state.inner.database == old(other).inner.database,
        q is Err && q->Err_0 is ColdLoadSkipped ==> final(other).inner.database
            == old(other).inner.database,
        is_loaded(old(third)@.tx, address, key) || is_wiped(old(third)@.tx, address)
            ==> final(third).inner.database == old(third).inner.database,
{
}

/// A transfer reads neither account that is loaded, not the sender where nothing is moved, and not
/// the recipient where the sender cannot pay.
pub proof fn law_transfer_reads_what_is_missing<D: Database>(
    state: &mut State<D>,
    from: Address,
    to: Address,
    value: Word,
    r: DbResult<bool>,
)
    requires
        call_ensures(State::<D>::transfer, (state, &from, &to, &value), r),
    ensures
        ({
            let tx = old(state)@.tx;
            let (pays, receives) = (tx.accounts.contains_key(from), tx.accounts.contains_key(to));
            ||| pays && receives
            ||| receives && value.value() == 0
            ||| pays && value.value() > ether(tx.accounts[from].present)
        }) ==> final(state).inner.database == old(state).inner.database,
{
    FixedBytes::<32>::spec_zero().law_zero_value();
}

/// Creation reads neither account that is loaded, and not the caller where the address is in use or
/// nothing is to be paid.
pub proof fn law_creation_reads_what_is_missing<D: Database>(
    state: &mut State<D>,
    caller: Address,
    address: Address,
    value: Word,
    features: EvmFeatures,
    r: DbResult<Result<(), InstrStop>>,
)
    requires
        call_ensures(
            State::<D>::create_account,
            (state, &caller, &address, &value, features),
            r,
        ),
        old(state)@.tx.accounts.contains_key(address),
    ensures
        ({
            let tx = old(state)@.tx;
            let used = match tx.accounts[address].present {
                Some(info) => info.nonce != 0 || info.code_hash != spec_empty_code_hash(),
                None => false,
            };
            tx.accounts.contains_key(caller) || value.value() == 0 || used
        }) ==> final(state).inner.database == old(state).inner.database,
{
}

/// The end of a transaction reads no account but self-destructed ones that are not loaded.
pub proof fn law_finalizing_reads_what_is_missing<D: Database>(
    state: &mut State<D>,
    version: Version,
    r: DbResult<()>,
)
    requires
        call_ensures(State::<D>::finalize_transaction, (state, &version), r),
        forall|address: Address| #[trigger]
            old(state)@.tx.selfdestructs.contains(address) ==> old(state)@.tx.accounts.contains_key(
                address,
            ),
    ensures
        r is Ok,
        final(state).inner.database == old(state).inner.database,
{
    assert(old(state)@.tx.selfdestructs.subset_of(old(state)@.tx.accounts.dom()));
}

/// What the accepted state has is not read from the database below.
pub proof fn law_accepted_is_not_read<D: Database>(
    db: &mut CacheDB<D>,
    other: &mut CacheDB<D>,
    address: Address,
    key: Word,
    account: DbResult<Option<AccountInfo>>,
    slot: DbResult<Word>,
)
    requires
        call_ensures(<CacheDB<D> as Database>::get_account, (db, &address), account),
        call_ensures(<CacheDB<D> as Database>::get_storage, (other, &address, &key), slot),
    ensures
        account_held(old(db)@.cache, address) is Some ==> final(db).db == old(db).db,
        slot_held(old(other)@.cache, address, key) is Some ==> final(other).db == old(other).db,
        final(db)@.cache == old(db)@.cache && final(db)@.bal == old(db)@.bal,
        final(other)@.cache == old(other)@.cache && final(other)@.bal == old(other)@.bal,
{
}

/// Whether the database below was read at most once, with what lies over it as it was.
pub open spec fn reads_at_most_once<D: Database>(before: CacheDB<D>, after: CacheDB<D>) -> bool {
    &&& after.cache == before.cache
    &&& after.bal_context == before.bal_context
    &&& after.db == before.db || before.db.reads_into(after.db)
}

/// Loading or reading an account or a slot reads the database below at most once, whether it answers
/// or fails.
pub proof fn law_one_read_at_most<'h, D: Database>(
    state: &'h mut State<D>,
    address: Address,
    key: Word,
    r: DbResult<AccountHandle<'h, D>>,
    other: &'h mut State<D>,
    q: DbResult<StorageSlotHandle<'h, D>>,
    third: &mut State<D>,
    p: DbResult<Option<AccountInfo>>,
    fourth: &mut State<D>,
    o: DbResult<Word>,
    fifth: &mut State<D>,
    n: DbResult<Word>,
)
    requires
        call_ensures(State::<D>::account, (state, &address), r),
        call_ensures(State::<D>::storage_slot, (other, &address, key), q),
        call_ensures(State::<D>::account_info_untracked, (third, &address), p),
        call_ensures(State::<D>::storage_slot_untracked, (fourth, &address, &key), o),
        call_ensures(State::<D>::read_committed_storage, (fifth, &address, &key), n),
    ensures
        match r {
            Ok(handle) => reads_at_most_once(
                old(state).inner.database,
                handle.state.inner.database,
            ),
            Err(_) => reads_at_most_once(old(state).inner.database, final(state).inner.database),
        },
        match q {
            Ok(slot) => reads_at_most_once(old(other).inner.database, slot.state.inner.database),
            Err(_) => reads_at_most_once(old(other).inner.database, final(other).inner.database),
        },
        reads_at_most_once(old(third).inner.database, final(third).inner.database),
        reads_at_most_once(old(fourth).inner.database, final(fourth).inner.database),
        reads_at_most_once(old(fifth).inner.database, final(fifth).inner.database),
{
}

/// What happens to the transaction does not reach the accepted state or the database: not a rollback,
/// its being cleared, a write to transient storage, or a log.
pub proof fn law_transaction_leaves_the_database<D: Database>(
    rolled: &mut State<D>,
    checkpoint: StateCheckpoint,
    features: EvmFeatures,
    cleared: &mut State<D>,
    stored: &mut State<D>,
    address: Address,
    key: Word,
    value: Word,
    logged: &mut State<D>,
    log: Log,
)
    requires
        call_ensures(State::<D>::rollback, (rolled, checkpoint, features), ()),
        call_ensures(State::<D>::clear_transaction_state, (cleared,), ()),
        call_ensures(State::<D>::tstore, (stored, &address, &key, &value), ()),
        call_ensures(State::<D>::log, (logged, log), ()),
    ensures
        final(rolled).inner.database == old(rolled).inner.database,
        final(cleared).inner.database == old(cleared).inner.database,
        final(stored).inner.database == old(stored).inner.database,
        final(logged).inner.database == old(logged).inner.database,
{
}

// --- what is handed out ---

/// The readings of a state are those of its parts.
pub proof fn law_state_readings<D: Database>(
    state: &State<D>,
    logs: &[Log],
    journal: &[JournalEntry],
    prewarm: &PrewarmSet,
    bal: Option<&Arc<Bal>>,
    builder: Option<&Bal>,
    index: u64,
    db: &D,
    overlay: &CacheDB<D>,
)
    requires
        call_ensures(State::<D>::logs, (state,), logs),
        call_ensures(State::<D>::journal, (state,), journal),
        call_ensures(State::<D>::prewarm_set, (state,), prewarm),
        call_ensures(State::<D>::bal, (state,), bal),
        call_ensures(State::<D>::bal_builder, (state,), builder),
        call_ensures(State::<D>::bal_index, (state,), index),
        call_ensures(State::<D>::initial, (state,), db),
        call_ensures(State::<D>::overlay_db, (state,), overlay),
    ensures
        logs@ == state.inner.logs@,
        journal@.len() == state.inner.journal@.len(),
        prewarm@ == state.inner.prewarm_set@,
        match bal {
            Some(bal) => state@.db.bal.attached == Some(*bal),
            None => state@.db.bal.attached is None,
        },
        match builder {
            Some(builder) => state@.db.bal.builder == Some(builder@),
            None => state@.db.bal.builder is None,
        },
        index == state@.db.bal.index,
        *db == state.inner.database.db,
        *overlay == state.inner.database,
{
    assert(entry_views(journal@).len() == journal@.len());
}

/// What is handed out for changing is the part itself, and what it becomes is what the state has.
pub proof fn law_parts_for_changing<'h, D: Database>(
    with_logs: &'h mut State<D>,
    logs: &'h mut Vec<Log>,
    with_set: &'h mut State<D>,
    set: &'h mut PrewarmSet,
    with_db: &'h mut State<D>,
    db: &'h mut D,
    with_overlay: &'h mut State<D>,
    overlay: &'h mut CacheDB<D>,
)
    requires
        call_ensures(State::<D>::logs_mut, (with_logs,), logs),
        call_ensures(State::<D>::prewarm_set_mut, (with_set,), set),
        call_ensures(State::<D>::initial_mut, (with_db,), db),
        call_ensures(State::<D>::overlay_db_mut, (with_overlay,), overlay),
    ensures
        old(logs)@ == old(with_logs)@.tx.logs,
        final(with_logs)@.tx.logs == final(logs)@,
        final(with_logs)@.tx.journal == old(with_logs)@.tx.journal,
        final(with_logs)@.tx.accounts == old(with_logs)@.tx.accounts,
        final(with_logs)@.tx.storage == old(with_logs)@.tx.storage,
        final(with_logs)@.db == old(with_logs)@.db,
        old(set)@ == old(with_set)@.tx.prewarm,
        final(with_set)@.tx.prewarm == final(set)@,
        final(with_set)@.tx.journal == old(with_set)@.tx.journal,
        final(with_set)@.tx.accounts == old(with_set)@.tx.accounts,
        final(with_set)@.tx.storage == old(with_set)@.tx.storage,
        final(with_set)@.tx.logs == old(with_set)@.tx.logs,
        final(with_set)@.db == old(with_set)@.db,
        *old(db) == old(with_db).inner.database.db,
        final(with_db).inner.database.db == *final(db),
        final(with_db)@.tx == old(with_db)@.tx,
        final(with_db)@.db.cache == old(with_db)@.db.cache,
        final(with_db)@.db.bal == old(with_db)@.db.bal,
        *old(overlay) == old(with_overlay).inner.database,
        final(with_overlay).inner.database == *final(overlay),
        final(with_overlay)@.tx == old(with_overlay)@.tx,
        final(with_overlay)@.history == old(with_overlay)@.history,
{
}

/// Replacing the pre-warmed set replaces that and nothing else of the transaction.
pub proof fn law_set_prewarm_set<D: Database>(state: &mut State<D>, set: PrewarmSet)
    requires
        call_ensures(State::<D>::set_prewarm_set, (state, set), ()),
    ensures
        final(state)@.tx.prewarm == set@,
        final(state)@.tx.accounts == old(state)@.tx.accounts,
        final(state)@.tx.storage == old(state)@.tx.storage,
        final(state)@.tx.transient == old(state)@.tx.transient,
        final(state)@.tx.journal == old(state)@.tx.journal,
        final(state)@.tx.logs == old(state)@.tx.logs,
        final(state)@.tx.selfdestructs == old(state)@.tx.selfdestructs,
        final(state)@.db == old(state)@.db,
        final(state)@.history == old(state)@.history,
{
}

// --- what a view shows ---

/// The view of a state shows all of it: the loaded accounts and storage, the transient slots, the
/// pre-warmed set, logs, journal and self-destructs, the accepted state and the history.
pub proof fn law_view_shows_the_state<D: Database>(state: &State<D>, address: Address, key: Word)
    ensures
        state@.tx.accounts == state.accounts@,
        state@.tx.storage == state.storage@,
        ({
            let listed = state.transient_storage@.contains_key(address)
                && state.transient_storage@[address].contains_key(key);
            &&& state@.tx.transient.contains_key((address, key)) <==> listed
            &&& listed ==> state@.tx.transient[(address, key)]
                == state.transient_storage@[address][key]
        }),
        state@.tx.prewarm == state.inner.prewarm_set@,
        state@.tx.logs == state.inner.logs@,
        state@.tx.journal.len() == state.inner.journal@.len(),
        forall|i: int|
            0 <= i < state.inner.journal@.len() ==> #[trigger] state@.tx.journal[i]
                == state.inner.journal@[i]@,
        state@.tx.selfdestructs == state.inner.selfdestructs@,
        state@.db.cache.accounts == state.inner.database.cache.accounts@,
        state@.db.cache.storage == state.inner.database.cache.storage@,
        state@.db.cache.contracts == state.inner.database.cache.contracts@,
        state@.db.bal == state.inner.database.bal_context@,
        state@.db.source == state.inner.database.db.model(),
        state@.history.identity == state.history.identity,
        state@.history.epoch == state.history.epoch,
        state@.history.generation == state.history.generation,
        state@.history.frames == state.history.frames@,
        state@.history.next_frame == state.history.next_frame,
{
}

// --- making ---

/// A new accepted state over a database has nothing accepted and no block access list, and reads
/// what the database has.
pub proof fn law_new_database<D: Database>(
    db: D,
    made: CacheDB<D>,
    cache: Cache,
    default: CacheDB<EmptyDB>,
    address: Address,
    account: DbResult<Option<AccountInfo>>,
)
    requires
        call_ensures(CacheDB::<D>::new, (db,), made),
        call_ensures(Cache::new, (), cache),
        call_ensures(<CacheDB<EmptyDB> as Default>::default, (), default),
    ensures
        made.db == db,
        is_blank(made@.cache) && is_blank(cache@) && is_blank(default@.cache),
        is_listless(made@.bal) && is_listless(default@.bal),
        made@.answers_account(address, account) <==> (db.model().account)(address, account),
{
}

/// Writing a slot of the accepted state writes that slot; dropping the storage of an account makes
/// every slot of it read as zero. Nothing else changes.
pub proof fn law_accepted_storage(
    written: &mut Cache,
    dropped: &mut Cache,
    address: Address,
    key: Word,
    value: Word,
    other: Address,
    other_key: Word,
)
    requires
        call_ensures(Cache::set_slot, (written, &address, &key, &value), ()),
        call_ensures(Cache::wipe_storage, (dropped, &address), ()),
    ensures
        slot_held(final(written)@, other, other_key) == if (other, other_key) == (address, key) {
            Some(value)
        } else {
            slot_held(old(written)@, other, other_key)
        },
        slot_held(final(dropped)@, other, other_key) == if other == address {
            Some(FixedBytes::<32>::spec_zero())
        } else {
            slot_held(old(dropped)@, other, other_key)
        },
        account_held(final(written)@, other) == account_held(old(written)@, other),
        account_held(final(dropped)@, other) == account_held(old(dropped)@, other),
        final(written)@.contracts == old(written)@.contracts,
        final(dropped)@.contracts == old(dropped)@.contracts,
{
}

/// Accepting the changes of a source accepts a stream of its, in turn; the transaction in flight and
/// the database below stay.
pub proof fn law_commit_source<D: Database, S: StateChangeSource>(
    state: &mut State<D>,
    source: &S,
    db: &mut CacheDB<D>,
)
    requires
        call_ensures(State::<D>::commit_source::<S>, (state, source), ()),
        call_ensures(CacheDB::<D>::commit_source::<S>, (db, source), ()),
    ensures
        exists|changes: Seq<StateChange>| #[trigger]
            source.streams(changes) && final(state)@.db == old(state)@.db.accepted_all(changes),
        final(state)@.tx == old(state)@.tx,
        final(state)@.history == old(state)@.history,
        final(state).inner.database.db == old(state).inner.database.db,
        exists|changes: Seq<StateChange>| #[trigger]
            source.streams(changes) && final(db)@ == old(db)@.accepted_all(changes),
        final(db).db == old(db).db,
{
}

/// A state gets the identity that was drawn for it, and zero where none could be drawn.
pub proof fn law_identity(drawn: Option<B256>, identity: B256)
    requires
        call_ensures(identity_from, (drawn,), identity),
    ensures
        drawn is Some ==> identity == drawn->0,
        drawn is None ==> identity.value() == 0,
{
    FixedBytes::<32>::spec_zero().law_zero_value();
}

/// A copy of a state, or a snapshot put over a database, has everything of the original but its
/// database.
pub proof fn law_copies<D: Database, E: Database>(
    state: &State<D>,
    db: E,
    copy: State<E>,
    bare: State<EmptyDB>,
    snapshot: StateSnapshot,
    over: E,
    back: State<E>,
    again: StateSnapshot,
)
    requires
        call_ensures(State::<D>::clone_with::<E>, (state, db), copy),
        call_ensures(State::<D>::clone, (state,), bare),
        call_ensures(StateSnapshot::into_state::<E>, (snapshot, over), back),
        call_ensures(<StateSnapshot as Clone>::clone, (&snapshot,), again),
    ensures
        copy@.tx == state@.tx,
        copy@.db.cache == state@.db.cache,
        copy@.db.bal == state@.db.bal,
        copy@.history.generation == state@.history.generation,
        copy@.history.frames.len() == 0,
        copy.inner.database.db == db,
        bare@.tx == state@.tx,
        bare@.db.cache == state@.db.cache,
        bare@.db.bal == state@.db.bal,
        bare@.history.generation == state@.history.generation,
        bare@.history.frames.len() == 0,
        back@.tx == snapshot@.tx,
        back@.db.cache == snapshot@.cache,
        back@.db.bal == snapshot@.bal,
        back@.history.generation == snapshot@.generation,
        back@.history.frames.len() == 0,
        back.inner.database.db == over,
        again@.tx == snapshot@.tx,
        again@.cache == snapshot@.cache,
        again@.bal == snapshot@.bal,
        again@.generation == snapshot@.generation,
{
}

/// A rule is in force exactly if it is in the set; no rule is in the empty set.
pub proof fn law_rules(features: EvmFeatures, none: EvmFeatures, eip161: bool, eip8246: bool)
    requires
        call_ensures(EvmFeatures::empty, (), none),
        call_ensures(EvmFeatures::contains, (features, EvmFeature::EIP161), eip161),
        call_ensures(EvmFeatures::contains, (features, EvmFeature::EIP8246), eip8246),
    ensures
        eip161 <==> features.eip161,
        eip8246 <==> features.eip8246,
        !none.eip161,
        !none.eip8246,
{
    assert(!none.spec_contains(EvmFeature::EIP161));
    assert(!none.spec_contains(EvmFeature::EIP8246));
}

/// A list has what was recorded in it, in order, and says what it has.
pub proof fn law_list_holds_entries(
    list: &mut Bal,
    entry: BalEntry,
    empty: Bal,
    read: &Bal,
    entries: &[BalEntry],
    copy: Bal,
)
    requires
        call_ensures(Bal::push, (list, entry), ()),
        call_ensures(Bal::new, (), empty),
        call_ensures(Bal::entries, (read,), entries),
        call_ensures(Bal::duplicate, (read,), copy),
    ensures
        final(list)@.len() == old(list)@.len() + 1,
        final(list)@.drop_last() == old(list)@,
        final(list)@.last() == entry,
        empty@.len() == 0,
        entries@ == read@,
        copy@ == read@,
{
    assert(final(list)@.drop_last() =~= old(list)@);
}

} // verus!
