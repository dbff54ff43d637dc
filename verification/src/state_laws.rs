//! What the operations of a state do to each of its parts, and leave of the others.
use std::sync::Arc;

use alloy_primitives::Log;
use vstd::prelude::*;

use crate::acceptance_laws::{
    account_held, left_different, law_accepted_account_reads_as_left,
    law_accepted_slot_reads_its_last_value, law_accepted_wipe_clears_storage, slot_held,
};
use crate::bal::{Bal, BalEntry, BalView};
use crate::db::{CacheDB, CacheView, Database, DbError, DbResult};
use crate::features::{EvmFeature, EvmFeatures, InstrStop, SpecId, Version};
use crate::fixed::{Address, FixedBytes, Word, B256};
use crate::info::{spec_empty_code_hash, AccountInfo, Bytecode};
use crate::lifetime_laws::{
    keeps_storage, law_finalized_creates_only_touched_absent,
    law_finalized_deletes_only_touched_dead, law_finalized_leaves_untouched,
    law_finalized_strikes_out_selfdestructed, loses_storage, was_dead,
};
use crate::model::TxView;
use crate::pending::PendingState;
use crate::prewarm::PrewarmSet;
use crate::snapshot::StateSnapshot;
use crate::state::{State, StateView};
use crate::storage_laws::{is_loaded, is_wiped};
use crate::value_laws::{
    ether, keeps_account, keeps_all_but_accounts, keeps_all_but_balance, keeps_marks,
    law_creation_charges_the_caller, law_creation_is_refused, law_creation_leaves_the_rest,
    law_creation_makes_a_contract, law_transfer_changes_balances_only,
    law_transfer_settles_balances, prior,
};

verus! {

/// Whether nothing belongs to a transaction.
pub open spec fn is_idle(tx: TxView) -> bool {
    &&& forall|address: Address| !#[trigger] tx.accounts.contains_key(address)
    &&& forall|address: Address| !#[trigger] tx.storage.contains_key(address)
    &&& forall|slot: (Address, Word)| !#[trigger] tx.transient.contains_key(slot)
    &&& forall|address: Address| !#[trigger] tx.prewarm.addresses.contains(address)
    &&& forall|slot: (Address, Word)| !#[trigger] tx.prewarm.slots.contains(slot)
    &&& forall|address: Address| !#[trigger] tx.selfdestructs.contains(address)
    &&& tx.journal.len() == 0
    &&& tx.logs.len() == 0
}

/// Whether nothing is accepted.
pub open spec fn is_blank(cache: CacheView) -> bool {
    &&& forall|address: Address| !#[trigger] cache.accounts.contains_key(address)
    &&& forall|address: Address| !#[trigger] cache.storage.contains_key(address)
    &&& forall|hash: B256| !#[trigger] cache.contracts.contains_key(hash)
}

/// Whether no block access list is attached or under construction, at the start of a block.
pub open spec fn is_listless(bal: BalView) -> bool {
    bal.attached is None && bal.builder is None && !bal.allow_db_fallback && bal.index == 0
}

/// Whether two states differ in nothing but their block access lists.
pub open spec fn changes_lists_only(before: StateView, after: StateView) -> bool {
    &&& after.tx == before.tx
    &&& after.history == before.history
    &&& after.db.cache == before.db.cache
    &&& after.db.source == before.db.source
}

/// Whether two states differ in nothing but the pre-warmed set.
pub open spec fn changes_prewarm_only(before: StateView, after: StateView) -> bool {
    &&& after.db == before.db
    &&& after.history == before.history
    &&& after.tx.accounts == before.tx.accounts
    &&& after.tx.storage == before.tx.storage
    &&& after.tx.transient == before.tx.transient
    &&& after.tx.journal == before.tx.journal
    &&& after.tx.logs == before.tx.logs
    &&& after.tx.selfdestructs == before.tx.selfdestructs
}

/// Whether two states differ in nothing but the logs.
pub open spec fn changes_logs_only(before: StateView, after: StateView) -> bool {
    &&& after.db == before.db
    &&& after.history == before.history
    &&& after.tx.accounts == before.tx.accounts
    &&& after.tx.storage == before.tx.storage
    &&& after.tx.transient == before.tx.transient
    &&& after.tx.prewarm == before.tx.prewarm
    &&& after.tx.journal == before.tx.journal
    &&& after.tx.selfdestructs == before.tx.selfdestructs
}

// --- making and clearing ---

/// A new state has nothing accepted, no transaction and no block access list, and reads what the
/// database has.
pub proof fn law_new_state<D: Database>(
    db: D,
    identity: B256,
    named: State<D>,
    drawn: State<D>,
    address: Address,
    key: Word,
    account: DbResult<Option<AccountInfo>>,
    slot: DbResult<Word>,
)
    requires
        call_ensures(State::<D>::with_identity, (db, identity), named),
        call_ensures(State::<D>::new, (db,), drawn),
    ensures
        named@.history.identity == identity,
        is_idle(named@.tx) && is_idle(drawn@.tx),
        is_blank(named@.db.cache) && is_blank(drawn@.db.cache),
        is_listless(named@.db.bal) && is_listless(drawn@.db.bal),
        named@.history.frames.len() == 0 && drawn@.history.frames.len() == 0,
        named@.db.answers_account(address, account) <==> (db.model().account)(address, account),
        named@.db.answers_storage(address, key, slot) <==> (db.model().storage)(address, key, slot),
        drawn@.db.answers_account(address, account) <==> (db.model().account)(address, account),
        drawn@.db.answers_storage(address, key, slot) <==> (db.model().storage)(address, key, slot),
{
}

/// Clearing the transaction leaves nothing of it, keeps what is accepted and the database, and ends
/// the history and the epoch in which checkpoints and snapshots were taken.
pub proof fn law_clear_transaction_state<D: Database>(state: &mut State<D>)
    requires
        call_ensures(State::<D>::clear_transaction_state, (state,), ()),
    ensures
        is_idle(final(state)@.tx),
        final(state)@.db == old(state)@.db,
        final(state)@.history.identity == old(state)@.history.identity,
        final(state)@.history.epoch != old(state)@.history.epoch,
        final(state)@.history.generation != old(state)@.history.generation,
        final(state)@.history.frames.len() == 0,
        final(state)@.history.next_frame == 0,
{
}

/// Replacing the database leaves nothing of what lay over the old one, and ends history and epoch.
pub proof fn law_set_initial<D: Database>(
    state: &mut State<D>,
    db: D,
    address: Address,
    key: Word,
    account: DbResult<Option<AccountInfo>>,
    slot: DbResult<Word>,
)
    requires
        call_ensures(State::<D>::set_initial, (state, db), ()),
    ensures
        is_idle(final(state)@.tx),
        is_blank(final(state)@.db.cache),
        is_listless(final(state)@.db.bal),
        final(state)@.db.answers_account(address, account) <==> (db.model().account)(
            address,
            account,
        ),
        final(state)@.db.answers_storage(address, key, slot) <==> (db.model().storage)(
            address,
            key,
            slot,
        ),
        final(state)@.history.identity == old(state)@.history.identity,
        final(state)@.history.epoch != old(state)@.history.epoch,
        final(state)@.history.generation != old(state)@.history.generation,
        final(state)@.history.frames.len() == 0,
{
}

// --- accepting ---

/// Accepting a transaction makes slots and accounts read as it left them, wherever it left them
/// different, and everything else as before; where it wiped storage, slots read as it left them or
/// as zero. Of the transaction only logs, journal, transient storage and the pre-warmed set stay.
pub proof fn law_commit_transaction<D: Database>(
    state: &mut State<D>,
    address: Address,
    key: Word,
    slot: DbResult<Word>,
    account: DbResult<Option<AccountInfo>>,
)
    requires
        call_ensures(State::<D>::commit_transaction, (state,), ()),
        old(state)@.db.bal.attached is None,
    ensures
        ({
            let (before, after) = (old(state)@, final(state)@);
            let overlay = before.tx.storage[address];
            &&& after.db.answers_storage(address, key, slot) <==> if is_wiped(before.tx, address) {
                slot == Ok::<Word, DbError>(
                    if is_loaded(before.tx, address, key) {
                        overlay.slots[key].value.current
                    } else {
                        FixedBytes::<32>::spec_zero()
                    },
                )
            } else if is_loaded(before.tx, address, key) && overlay.slots[key].value.current
                != overlay.slots[key].value.original {
                slot == Ok::<Word, DbError>(overlay.slots[key].value.current)
            } else {
                before.db.answers_storage(address, key, slot)
            }
            &&& after.db.answers_account(address, account) <==> if before.tx.accounts.contains_key(
                address,
            ) && left_different(before.tx.accounts[address]) {
                account == Ok::<Option<AccountInfo>, DbError>(before.tx.accounts[address].present)
            } else {
                before.db.answers_account(address, account)
            }
            &&& !after.tx.accounts.contains_key(address)
            &&& !after.tx.storage.contains_key(address)
            &&& !after.tx.selfdestructs.contains(address)
            &&& after.tx.logs == before.tx.logs
            &&& after.tx.journal == before.tx.journal
            &&& after.tx.transient == before.tx.transient
            &&& after.tx.prewarm == before.tx.prewarm
            &&& after.history == before.history
            &&& after.db.bal.index == before.db.bal.index
            &&& after.db.bal.builder is Some <==> before.db.bal.builder is Some
        }),
{
    let (before, after) = (old(state)@, final(state)@);
    if is_wiped(before.tx, address) {
        law_accepted_wipe_clears_storage(before.tx, before.db, after.db, address, key, slot);
    } else {
        law_accepted_slot_reads_its_last_value(before.tx, before.db, after.db, address, key, slot);
    }
    law_accepted_account_reads_as_left(before.tx, before.db, after.db, address, account);
    let changes = choose|changes: Seq<crate::stream::StateChange>| #[trigger]
        crate::stream::lists_changes(
            before.tx.accounts,
            before.tx.storage,
            Set::empty(),
            changes,
        ) && after.db == before.db.accepted_all(changes);
    crate::bal_laws::law_accepted_changes_are_recorded(before.db, changes);
}

/// An account accepted on its own reads as given, a slot as well; everything else is as it was.
pub proof fn law_inserted_account_and_slot<D: Database>(
    db: &mut CacheDB<D>,
    address: Address,
    info: AccountInfo,
    other: Address,
    key: Word,
)
    requires
        call_ensures(CacheDB::<D>::insert_account_info, (db, &address, info), ()),
    ensures
        account_held(final(db)@.cache, other) == if other == address {
            Some(Some(info))
        } else {
            account_held(old(db)@.cache, other)
        },
        slot_held(final(db)@.cache, other, key) == slot_held(old(db)@.cache, other, key),
        final(db)@.cache.contracts == old(db)@.cache.contracts,
        final(db)@.source == old(db)@.source,
        final(db)@.bal == old(db)@.bal,
{
}

/// A slot accepted on its own reads as given; everything else is as it was.
pub proof fn law_inserted_slot<D: Database>(
    db: &mut CacheDB<D>,
    address: Address,
    key: Word,
    value: Word,
    other: Address,
    other_key: Word,
)
    requires
        call_ensures(CacheDB::<D>::insert_account_storage, (db, &address, &key, &value), ()),
    ensures
        slot_held(final(db)@.cache, other, other_key) == if (other, other_key) == (address, key) {
            Some(value)
        } else {
            slot_held(old(db)@.cache, other, other_key)
        },
        account_held(final(db)@.cache, other) == account_held(old(db)@.cache, other),
        final(db)@.cache.contracts == old(db)@.cache.contracts,
        final(db)@.source == old(db)@.source,
        final(db)@.bal == old(db)@.bal,
{
}

// --- value ---

/// A transfer moves the value or refuses, as far as sender and recipient can be read; it changes
/// nothing of them but balance and touch, and nothing of anything else.
pub proof fn law_transfer<D: Database>(
    state: &mut State<D>,
    from: Address,
    to: Address,
    value: Word,
    r: DbResult<bool>,
    address: Address,
)
    requires
        call_ensures(State::<D>::transfer, (state, &from, &to, &value), r),
    ensures
        ({
            let (before, after) = (old(state)@, final(state)@);
            &&& keeps_all_but_accounts(before, after)
            &&& address != from && address != to ==> keeps_account(before.tx, after.tx, address)
            &&& after.tx.accounts.contains_key(address) ==> keeps_all_but_balance(
                before,
                after,
                address,
            )
            &&& value.value() != 0 && r is Ok ==> {
                &&& r->Ok_0 <==> ether(prior(before.tx, after.tx, from)) >= value.value()
                &&& r->Ok_0 && from != to ==> {
                    let held = ether(prior(before.tx, after.tx, to));
                    &&& ether(after.tx.accounts[from].present) == ether(
                        prior(before.tx, after.tx, from),
                    ) - value.value()
                    &&& held + value.value() < FixedBytes::<32>::modulus() ==> ether(
                        after.tx.accounts[to].present,
                    ) == held + value.value()
                    &&& after.tx.accounts[from].is_touched
                    &&& after.tx.accounts[to].is_touched
                }
                &&& r->Ok_0 && from == to ==> {
                    &&& after.tx.accounts[to].present == prior(before.tx, after.tx, to)
                    &&& after.tx.accounts[to].is_touched
                }
            }
            &&& value.value() == 0 && r is Ok ==> {
                &&& r->Ok_0
                &&& after.tx.accounts[to].present == prior(before.tx, after.tx, to)
                &&& after.tx.accounts[to].is_touched
            }
        }),
{
    let (before, after) = (old(state)@, final(state)@);
    law_transfer_changes_balances_only(before, from, to, value, r, after, address);
    if value.value() != 0 {
        if let Ok(moved) = r {
            law_transfer_settles_balances(before, from, to, value, moved, after);
        }
    }
}

/// Creating a contract leaves a new one at an address not in use, with the endowment that the
/// caller pays, or refuses; see the laws on creation for the parts. Nothing but target and caller
/// changes.
pub proof fn law_create_account<D: Database>(
    state: &mut State<D>,
    caller: Address,
    address: Address,
    value: Word,
    features: EvmFeatures,
    r: DbResult<Result<(), InstrStop>>,
    other: Address,
)
    requires
        call_ensures(
            State::<D>::create_account,
            (state, &caller, &address, &value, features),
            r,
        ),
    ensures
        ({
            let (before, after) = (old(state)@, final(state)@);
            &&& keeps_all_but_accounts(before, after)
            &&& other != caller && other != address ==> keeps_account(before.tx, after.tx, other)
            &&& r is Ok ==> {
                let collides = match prior(before.tx, after.tx, address) {
                    Some(info) => info.nonce != 0 || info.code_hash != spec_empty_code_hash(),
                    None => false,
                };
                let short = value.value() != 0 && ether(prior(before.tx, after.tx, caller))
                    < value.value();
                &&& r->Ok_0 is Ok <==> !collides && !short
                &&& r->Ok_0 == Err::<(), InstrStop>(InstrStop::CreateCollision) <==> collides
                &&& r->Ok_0 is Ok ==> {
                    let left = after.tx.accounts[address];
                    let held = ether(prior(before.tx, after.tx, address));
                    &&& keeps_marks(before, after, address)
                    &&& left.just_created
                    &&& left.is_touched
                    &&& left.present is Some
                    &&& left.present->0.nonce == if features.eip161 {
                        1u64
                    } else {
                        0u64
                    }
                    &&& left.present->0.code_hash == spec_empty_code_hash()
                    &&& left.present->0.code == Some(Bytecode::Empty)
                    &&& caller != address ==> left.present->0.balance.value() == (held
                        + value.value()) % FixedBytes::<32>::modulus()
                    &&& caller == address ==> left.present->0.balance.value() == held
                    &&& caller != address && value.value() != 0 ==> {
                        &&& keeps_all_but_balance(before, after, caller)
                        &&& ether(after.tx.accounts[caller].present) == ether(
                            prior(before.tx, after.tx, caller),
                        ) - value.value()
                    }
                    &&& caller != address && value.value() == 0 ==> keeps_account(
                        before.tx,
                        after.tx,
                        caller,
                    )
                }
            }
        }),
{
    let (before, after) = (old(state)@, final(state)@);
    let eip161 = features.eip161;
    law_creation_leaves_the_rest(before, caller, address, value, eip161, r, after, other);
    if let Ok(outcome) = r {
        law_creation_is_refused(before, caller, address, value, eip161, outcome, after);
        if outcome is Ok {
            assert(before.creates(caller, address, value, eip161, Ok(Ok(())), after));
            law_creation_makes_a_contract(before, caller, address, value, eip161, after);
            if caller != address {
                law_creation_charges_the_caller(
                    before,
                    caller,
                    address,
                    value,
                    eip161,
                    after,
                    other,
                );
            }
        }
    }
}

// --- the end of a transaction ---

/// Ending a transaction deletes touched accounts that exist without nonce, ether and code, where
/// EIP-161 holds, and keeps every other account that did not self-destruct with its contents and its
/// storage; before EIP-161 it deletes none of these and creates touched ones that never existed.
pub proof fn law_finalize_transaction<D: Database>(
    state: &mut State<D>,
    version: Version,
    r: DbResult<()>,
    address: Address,
)
    requires
        call_ensures(State::<D>::finalize_transaction, (state, &version), r),
        r is Ok,
    ensures
        ({
            let (before, after) = (old(state)@, final(state)@);
            let was = before.tx.accounts[address];
            let left = after.tx.accounts[address];
            let loaded = before.tx.accounts.contains_key(address);
            let destructed = before.tx.selfdestructs.contains(address);
            &&& loaded && !destructed && version.features.eip161 ==> {
                &&& after.tx.accounts.contains_key(address)
                &&& if was.is_touched && was_dead(before.tx, address) {
                    left.present is None && loses_storage(before.tx, after.tx, address)
                } else {
                    left.present == was.present && keeps_storage(before.tx, after.tx, address)
                }
            }
            &&& loaded && !destructed && !version.features.eip161 ==> {
                &&& after.tx.accounts.contains_key(address)
                &&& keeps_storage(before.tx, after.tx, address)
                &&& if was.is_touched && was.original is None && was.present is None {
                    &&& left.present is Some
                    &&& left.present->0.nonce == 0
                    &&& left.present->0.balance.value() == 0
                    &&& left.present->0.code_hash == spec_empty_code_hash()
                } else {
                    left.present == was.present
                }
            }
            &&& destructed ==> {
                let held = ether(prior(before.tx, after.tx, address));
                &&& loses_storage(before.tx, after.tx, address)
                &&& if version.features.eip8246 && held != 0 {
                    &&& left.present is Some
                    &&& left.present->0.balance.value() == held
                    &&& left.present->0.nonce == 0
                    &&& left.present->0.code_hash == spec_empty_code_hash()
                } else {
                    left.present is None
                }
            }
            &&& after.tx.accounts.contains_key(address) ==> !left.is_touched
            &&& !loaded && !destructed ==> {
                &&& !after.tx.accounts.contains_key(address)
                &&& keeps_storage(before.tx, after.tx, address)
            }
            &&& after.db == before.db
            &&& after.tx.logs == before.tx.logs
            &&& after.tx.transient == before.tx.transient
            &&& after.tx.prewarm == before.tx.prewarm
            &&& after.tx.selfdestructs == before.tx.selfdestructs
        }),
{
    let (before, after) = (old(state)@, final(state)@);
    let (eip161, eip8246) = (version.features.eip161, version.features.eip8246);
    assert(before.finalizes(eip161, eip8246, Ok(()), after));
    law_finalized_leaves_untouched(before, eip161, eip8246, after, address);
    if before.tx.selfdestructs.contains(address) {
        law_finalized_strikes_out_selfdestructed(before, eip161, eip8246, after, address);
    } else if before.tx.accounts.contains_key(address) {
        if eip161 {
            law_finalized_deletes_only_touched_dead(before, eip8246, after, address);
        } else {
            law_finalized_creates_only_touched_absent(before, eip8246, after, address);
        }
    }
}

/// EIP-161 holds from Spurious Dragon on, EIP-8246 from Amsterdam on.
pub proof fn law_revisions(spec: SpecId, version: Version, eip161: bool, eip8246: bool)
    requires
        call_ensures(Version::base, (spec,), version),
        call_ensures(Version::feature, (&version, EvmFeature::EIP161), eip161),
        call_ensures(Version::feature, (&version, EvmFeature::EIP8246), eip8246),
    ensures
        version.spec == spec,
        eip161 <==> version.features.eip161,
        eip8246 <==> version.features.eip8246,
        eip161 <==> spec != SpecId::FRONTIER && spec != SpecId::HOMESTEAD && spec
            != SpecId::TANGERINE,
        eip8246 <==> spec == SpecId::AMSTERDAM,
{
}

// --- detaching and copying ---

/// Detaching the state transition takes all of it and leaves none; attaching one makes it that of
/// the state. The rest of the state stays either way.
pub proof fn law_pending_state<D: Database>(
    state: &mut State<D>,
    taken: PendingState,
    other: &mut State<D>,
    pending: PendingState,
    address: Address,
)
    requires
        call_ensures(State::<D>::take_pending_state, (state,), taken),
        call_ensures(State::<D>::set_pending_state, (other, pending), ()),
    ensures
        taken@.accounts == old(state)@.tx.accounts,
        taken@.storage == old(state)@.tx.storage,
        taken@.selfdestructs == old(state)@.tx.selfdestructs,
        !final(state)@.tx.accounts.contains_key(address),
        !final(state)@.tx.storage.contains_key(address),
        !final(state)@.tx.selfdestructs.contains(address),
        final(state)@.tx.transient == old(state)@.tx.transient,
        final(state)@.tx.prewarm == old(state)@.tx.prewarm,
        final(state)@.tx.journal == old(state)@.tx.journal,
        final(state)@.tx.logs == old(state)@.tx.logs,
        final(state)@.db == old(state)@.db,
        final(state)@.history == old(state)@.history,
        final(other)@.tx.accounts == pending@.accounts,
        final(other)@.tx.storage == pending@.storage,
        final(other)@.tx.selfdestructs == pending@.selfdestructs,
        final(other)@.tx.transient == old(other)@.tx.transient,
        final(other)@.tx.prewarm == old(other)@.tx.prewarm,
        final(other)@.tx.journal == old(other)@.tx.journal,
        final(other)@.tx.logs == old(other)@.tx.logs,
        final(other)@.db == old(other)@.db,
        final(other)@.history == old(other)@.history,
{
}

/// A snapshot put over a database is a state with the transaction layer, the accepted state and the
/// block access lists of the one it was taken of.
pub proof fn law_snapshot<D: Database, E: Database>(
    state: &State<D>,
    snapshot: StateSnapshot,
    db: E,
    identity: B256,
    copy: State<E>,
)
    requires
        call_ensures(State::<D>::snapshot, (state,), snapshot),
        call_ensures(StateSnapshot::into_state_as::<E>, (snapshot, db, identity), copy),
    ensures
        copy@.tx == state@.tx,
        copy@.db.cache == state@.db.cache,
        copy@.db.bal == state@.db.bal,
        copy@.db.source == db.model(),
        copy@.history.identity == identity,
        copy@.history.generation == state@.history.generation,
        copy@.history.frames.len() == 0,
{
}

// --- logs ---

/// Recording a log adds it at the end; taking the logs gives them all and leaves none. Nothing else
/// changes.
pub proof fn law_logs<D: Database>(
    state: &mut State<D>,
    log: Log,
    other: &mut State<D>,
    taken: Vec<Log>,
)
    requires
        call_ensures(State::<D>::log, (state, log), ()),
        call_ensures(State::<D>::take_logs, (other,), taken),
    ensures
        changes_logs_only(old(state)@, final(state)@),
        final(state)@.tx.logs.len() == old(state)@.tx.logs.len() + 1,
        final(state)@.tx.logs.drop_last() == old(state)@.tx.logs,
        final(state)@.tx.logs.last() == log,
        changes_logs_only(old(other)@, final(other)@),
        taken@ == old(other)@.tx.logs,
        final(other)@.tx.logs.len() == 0,
{
    assert(final(state)@.tx.logs.drop_last() =~= old(state)@.tx.logs);
}

// --- pre-warming ---

/// Pre-warming adds the address, and those of its slots that are asked for, to what is pre-warmed,
/// and changes nothing else.
pub proof fn law_prewarm<D: Database>(
    state: &mut State<D>,
    address: Address,
    slots: &[Word],
    key: Word,
    plain: &mut State<D>,
    single: &mut State<D>,
    other: Address,
    other_key: Word,
)
    requires
        call_ensures(State::<D>::prewarm, (plain, &address), ()),
        call_ensures(State::<D>::prewarm_storage, (state, &address, slots), ()),
        call_ensures(State::<D>::prewarm_storage_slot, (single, &address, key), ()),
    ensures
        changes_prewarm_only(old(plain)@, final(plain)@),
        final(plain)@.tx.prewarm.addresses.contains(other) <==> other == address
            || old(plain)@.tx.prewarm.addresses.contains(other),
        final(plain)@.tx.prewarm.slots.contains((other, other_key))
            <==> old(plain)@.tx.prewarm.slots.contains((other, other_key)),
        changes_prewarm_only(old(state)@, final(state)@),
        final(state)@.tx.prewarm.addresses.contains(other) <==> other == address
            || old(state)@.tx.prewarm.addresses.contains(other),
        final(state)@.tx.prewarm.slots.contains((other, other_key)) <==> (other == address
            && slots@.contains(other_key)) || old(state)@.tx.prewarm.slots.contains(
            (other, other_key),
        ),
        changes_prewarm_only(old(single)@, final(single)@),
        final(single)@.tx.prewarm.addresses.contains(other) <==> other == address
            || old(single)@.tx.prewarm.addresses.contains(other),
        final(single)@.tx.prewarm.slots.contains((other, other_key)) <==> (other == address
            && other_key == key) || old(single)@.tx.prewarm.slots.contains((other, other_key)),
{
    assert(seq![key].contains(other_key) <==> other_key == key) by {
        assert(seq![key][0] == key);
    }
}

/// A pre-warmed set has what was added to it: an address, or an address with slots. A new one, and
/// one cleared, has nothing.
pub proof fn law_prewarm_set(
    set: &mut PrewarmSet,
    slots: &[Word],
    address: Address,
    other: Address,
    key: Word,
    warm: bool,
    slot_warm: bool,
    read: &PrewarmSet,
    plain: &mut PrewarmSet,
    cleared: &mut PrewarmSet,
    made: PrewarmSet,
)
    requires
        call_ensures(PrewarmSet::warm, (plain, &address), ()),
        call_ensures(PrewarmSet::clear, (cleared,), ()),
        call_ensures(PrewarmSet::new, (), made),
        call_ensures(PrewarmSet::warm_storage, (set, &address, slots), ()),
        call_ensures(PrewarmSet::is_warm, (read, &other), warm),
        call_ensures(PrewarmSet::is_storage_warm, (read, &other, &key), slot_warm),
    ensures
        final(set)@.addresses.contains(other) <==> other == address
            || old(set)@.addresses.contains(other),
        final(set)@.slots.contains((other, key)) <==> (other == address && slots@.contains(key))
            || old(set)@.slots.contains((other, key)),
        warm <==> read@.addresses.contains(other),
        slot_warm <==> read@.slots.contains((other, key)),
        final(plain)@.addresses.contains(other) <==> other == address
            || old(plain)@.addresses.contains(other),
        final(plain)@.slots.contains((other, key)) <==> old(plain)@.slots.contains((other, key)),
        !final(cleared)@.addresses.contains(other) && !final(cleared)@.slots.contains((other, key)),
        !made@.addresses.contains(other) && !made@.slots.contains((other, key)),
{
}

// --- block access lists ---

/// Attaching and detaching a block access list, allowing reads to fall back, and moving in the block
/// each change that and nothing else.
pub proof fn law_attached_list<D: Database>(
    attached: &mut State<D>,
    bal: Arc<Bal>,
    detached: &mut State<D>,
    fallback: &mut State<D>,
    allow: bool,
)
    requires
        call_ensures(State::<D>::set_bal, (attached, bal), ()),
        call_ensures(State::<D>::clear_bal, (detached,), ()),
        call_ensures(State::<D>::set_allow_bal_db_fallback, (fallback, allow), ()),
    ensures
        changes_lists_only(old(attached)@, final(attached)@),
        final(attached)@.db.bal.attached == Some(bal),
        final(attached)@.db.bal.allow_db_fallback == old(attached)@.db.bal.allow_db_fallback,
        final(attached)@.db.bal.builder == old(attached)@.db.bal.builder,
        final(attached)@.db.bal.index == old(attached)@.db.bal.index,
        changes_lists_only(old(detached)@, final(detached)@),
        final(detached)@.db.bal.attached is None,
        final(detached)@.db.bal.allow_db_fallback == old(detached)@.db.bal.allow_db_fallback,
        final(detached)@.db.bal.builder == old(detached)@.db.bal.builder,
        final(detached)@.db.bal.index == old(detached)@.db.bal.index,
        changes_lists_only(old(fallback)@, final(fallback)@),
        final(fallback)@.db.bal.allow_db_fallback == allow,
        final(fallback)@.db.bal.attached == old(fallback)@.db.bal.attached,
        final(fallback)@.db.bal.builder == old(fallback)@.db.bal.builder,
        final(fallback)@.db.bal.index == old(fallback)@.db.bal.index,
{
}

/// Moving in the block changes the position and nothing else.
pub proof fn law_list_position<D: Database>(
    moved: &mut State<D>,
    index: u64,
    next: &mut State<D>,
    first: &mut State<D>,
)
    requires
        old(next)@.db.bal.index < u64::MAX,
        call_ensures(State::<D>::set_bal_index, (moved, index), ()),
        call_ensures(State::<D>::bump_bal_index, (next,), ()),
        call_ensures(State::<D>::reset_bal_index, (first,), ()),
    ensures
        changes_lists_only(old(moved)@, final(moved)@),
        final(moved)@.db.bal.index == index,
        final(moved)@.db.bal.attached == old(moved)@.db.bal.attached,
        final(moved)@.db.bal.allow_db_fallback == old(moved)@.db.bal.allow_db_fallback,
        final(moved)@.db.bal.builder == old(moved)@.db.bal.builder,
        changes_lists_only(old(next)@, final(next)@),
        final(next)@.db.bal.index == old(next)@.db.bal.index + 1,
        final(next)@.db.bal.attached == old(next)@.db.bal.attached,
        final(next)@.db.bal.allow_db_fallback == old(next)@.db.bal.allow_db_fallback,
        final(next)@.db.bal.builder == old(next)@.db.bal.builder,
        changes_lists_only(old(first)@, final(first)@),
        final(first)@.db.bal.index == 0,
        final(first)@.db.bal.attached == old(first)@.db.bal.attached,
        final(first)@.db.bal.allow_db_fallback == old(first)@.db.bal.allow_db_fallback,
        final(first)@.db.bal.builder == old(first)@.db.bal.builder,
{
}

/// Starting a list keeps one under construction and otherwise starts an empty one; taking it gives
/// what was recorded, leaves none and returns to the start of the block.
pub proof fn law_built_list<D: Database>(
    started: &mut State<D>,
    finished: &mut State<D>,
    taken: Option<Bal>,
)
    requires
        call_ensures(State::<D>::enable_bal_builder, (started,), ()),
        call_ensures(State::<D>::take_bal_builder, (finished,), taken),
    ensures
        changes_lists_only(old(started)@, final(started)@),
        final(started)@.db.bal.attached == old(started)@.db.bal.attached,
        final(started)@.db.bal.allow_db_fallback == old(started)@.db.bal.allow_db_fallback,
        final(started)@.db.bal.index == old(started)@.db.bal.index,
        old(started)@.db.bal.builder is Some ==> final(started)@.db.bal.builder
            == old(started)@.db.bal.builder,
        old(started)@.db.bal.builder is None ==> final(started)@.db.bal.builder == Some(
            Seq::<BalEntry>::empty(),
        ),
        changes_lists_only(old(finished)@, final(finished)@),
        taken is Some <==> old(finished)@.db.bal.builder is Some,
        taken is Some ==> old(finished)@.db.bal.builder == Some(taken->0@),
        final(finished)@.db.bal.builder is None,
        final(finished)@.db.bal.index == 0,
        final(finished)@.db.bal.attached == old(finished)@.db.bal.attached,
        final(finished)@.db.bal.allow_db_fallback == old(finished)@.db.bal.allow_db_fallback,
{
}

/// Reading a block hash gives an answer of the database and changes nothing.
pub proof fn law_block_hash<D: Database>(state: &mut State<D>, number: Word, r: DbResult<B256>)
    requires
        call_ensures(State::<D>::block_hash, (state, &number), r),
    ensures
        (old(state)@.db.source.block_hash)(number, r),
        final(state)@ == old(state)@,
{
}

} // verus!
