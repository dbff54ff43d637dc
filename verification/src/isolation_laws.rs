//! What isolated transactions are given and leave behind, and what is carried between states.
use vstd::prelude::*;

use crate::account::Account;
use crate::db::{Database, DbError, DbModel, DbResult};
use crate::fixed::{Address, FixedBytes, Word, B256};
use crate::lifetime_laws::keeps_storage;
use crate::model::TxView;
use crate::pending::{PendingState, PendingView};
use crate::state::{State, StateView};
use crate::storage_laws::is_loaded;
use crate::value_laws::keeps_account;

verus! {

// --- merging ---

/// Once an isolated transaction is merged, the storage of an account is wiped exactly if it was
/// wiped in the outer transaction or the isolated one wiped it.
pub proof fn law_merging_keeps_wipes<D: Database>(
    state: &mut State<D>,
    child: PendingState,
    address: Address,
)
    requires
        call_ensures(State::<D>::merge_isolated_state, (state, child), ()),
    ensures
        ({
            let (tx, merged) = (old(state)@.tx, final(state)@.tx);
            let outer = tx.storage.contains_key(address);
            let inner = child@.storage.contains_key(address);
            &&& merged.storage.contains_key(address) <==> outer || inner
            &&& merged.storage.contains_key(address) ==> (merged.storage[address].wiped <==> (outer
                && tx.storage[address].wiped) || (inner && child@.storage[address].wiped))
        }),
{
}

/// Once an isolated transaction is merged that wiped the storage of an account, every slot of it
/// reads as zero that neither transaction has loaded, whatever the database holds.
pub proof fn law_merged_wipe_reads_zero<D: Database>(
    state: &mut State<D>,
    child: PendingState,
    address: Address,
    key: Word,
    r: DbResult<Word>,
)
    requires
        call_ensures(State::<D>::merge_isolated_state, (state, child), ()),
        child@.storage.contains_key(address),
        child@.storage[address].wiped,
        !child@.storage[address].slots.contains_key(key),
        !is_loaded(old(state)@.tx, address, key),
    ensures
        final(state)@.reads_slot(address, key, r) <==> r == Ok::<Word, DbError>(
            FixedBytes::<32>::spec_zero(),
        ),
{
}

/// Once an isolated transaction is merged, a slot that it has loaded holds the value that it left;
/// it is warm where either transaction accessed it, and keeps as original what the outer transaction
/// found where that had loaded it. A slot that the isolated one has not loaded is as it was.
pub proof fn law_merged_slot<D: Database>(
    state: &mut State<D>,
    child: PendingState,
    address: Address,
    key: Word,
)
    requires
        call_ensures(State::<D>::merge_isolated_state, (state, child), ()),
    ensures
        ({
            let (tx, merged) = (old(state)@.tx, final(state)@.tx);
            let outer = tx.storage.contains_key(address) && tx.storage[address].slots.contains_key(
                key,
            );
            let inner = child@.storage.contains_key(address)
                && child@.storage[address].slots.contains_key(key);
            let was = tx.storage[address].slots[key];
            let left = child@.storage[address].slots[key];
            let slot = merged.storage[address].slots[key];
            &&& (merged.storage.contains_key(address) && merged.storage[address].slots.contains_key(
                key,
            )) <==> outer || inner
            &&& inner ==> slot.value.current == left.value.current
            &&& outer && !inner ==> slot.value.current == was.value.current
            &&& outer ==> slot.value.original == was.value.original
            &&& inner && !outer ==> slot.value.original == left.value.original
            &&& outer || inner ==> (slot.is_warm <==> (outer && was.is_warm) || (inner
                && left.is_warm))
        }),
{
}

/// Once an isolated transaction is merged, an account that it has loaded has the contents that it
/// left. Touch, self-destruction, creation and code change stand where either transaction made them.
/// What the outer transaction found and its warmth stay; an account that only the isolated one has
/// loaded is taken over, one that only the outer one has is as it was.
pub proof fn law_merged_account<D: Database>(
    state: &mut State<D>,
    child: PendingState,
    address: Address,
)
    requires
        call_ensures(State::<D>::merge_isolated_state, (state, child), ()),
    ensures
        ({
            let (tx, merged) = (old(state)@.tx, final(state)@.tx);
            let outer = tx.accounts.contains_key(address);
            let inner = child@.accounts.contains_key(address);
            let was = tx.accounts[address];
            let left = child@.accounts[address];
            let account = merged.accounts[address];
            &&& merged.accounts.contains_key(address) <==> outer || inner
            &&& inner ==> account.present == left.present
            &&& outer && !inner ==> account.present == was.present
            &&& outer ==> account.original == was.original && account.is_warm == was.is_warm
            &&& inner && !outer ==> account.original == left.original && account.is_warm
                == left.is_warm
            &&& outer || inner ==> {
                &&& account.is_touched <==> (outer && was.is_touched) || (inner && left.is_touched)
                &&& account.is_destroyed <==> (outer && was.is_destroyed) || (inner
                    && left.is_destroyed)
                &&& account.just_created <==> (outer && was.just_created) || (inner
                    && left.just_created)
                &&& account.code_changed <==> (outer && was.code_changed) || (inner
                    && left.code_changed)
            }
        }),
{
}

/// Once an isolated transaction is merged, the self-destructs on record are those that were, and
/// those of the isolated one whose account is marked. Journal, logs, transient storage and the
/// pre-warmed set are those of the outer transaction.
pub proof fn law_merged_selfdestructs<D: Database>(
    state: &mut State<D>,
    child: PendingState,
    address: Address,
)
    requires
        call_ensures(State::<D>::merge_isolated_state, (state, child), ()),
    ensures
        ({
            let (tx, merged) = (old(state)@.tx, final(state)@.tx);
            let marked = (tx.accounts.contains_key(address) && tx.accounts[address].is_destroyed)
                || (child@.accounts.contains_key(address) && child@.accounts[address].is_destroyed);
            &&& merged.selfdestructs.contains(address) <==> tx.selfdestructs.contains(address) || (
            child@.selfdestructs.contains(address) && marked)
            &&& merged.journal == tx.journal
            &&& merged.logs == tx.logs
            &&& merged.transient == tx.transient
            &&& merged.prewarm == tx.prewarm
            &&& final(state)@.db == old(state)@.db
            &&& final(state)@.history == old(state)@.history
        }),
{
}

// --- starting ---

/// An isolated transaction is given exactly what is loaded, each account and slot as it stands: that
/// counts as found, with the marks it has, with no slot accessed and only pre-warmed accounts.
pub proof fn law_isolated_transaction_is_given_what_stands<D: Database>(
    state: &State<D>,
    pending: PendingState,
    address: Address,
    key: Word,
)
    requires
        call_ensures(State::<D>::prepare_isolated_state, (state,), pending),
    ensures
        ({
            let (tx, given) = (state@.tx, pending@);
            let was = tx.accounts[address];
            let account = given.accounts[address];
            let loaded = tx.storage.contains_key(address) && tx.storage[address].slots.contains_key(
                key,
            );
            let slot = given.storage[address].slots[key];
            &&& given.selfdestructs == tx.selfdestructs
            &&& given.accounts.contains_key(address) == tx.accounts.contains_key(address)
            &&& given.storage.contains_key(address) == tx.storage.contains_key(address)
            &&& tx.accounts.contains_key(address) ==> {
                &&& account.original == was.present
                &&& account.present == was.present
                &&& account.is_warm == tx.prewarm.addresses.contains(address)
                &&& account.is_touched == was.is_touched
                &&& account.is_destroyed == was.is_destroyed
                &&& account.just_created == was.just_created
                &&& account.code_changed == was.code_changed
            }
            &&& tx.storage.contains_key(address) ==> {
                &&& given.storage[address].wiped == tx.storage[address].wiped
                &&& given.storage[address].slots.contains_key(key) == loaded
            }
            &&& loaded ==> {
                &&& slot.value.original == tx.storage[address].slots[key].value.current
                &&& slot.value.current == tx.storage[address].slots[key].value.current
                &&& !slot.is_warm
            }
        }),
{
}

// --- carrying accounts over ---

/// An account carried over from another state has there and here the same contents and marks, and is
/// on record as self-destructed here exactly if it is there. Where storage of it is loaded there, it
/// is wiped here exactly if it is there, slots loaded there are the same here, and others loaded
/// here stay. One that is not loaded there changes nothing.
pub proof fn law_carried_account<D: Database, E: Database>(
    state: &mut State<D>,
    from: &State<E>,
    address: Address,
    key: Word,
)
    requires
        call_ensures(State::<D>::merge_transaction_account_from::<E>, (state, &address, from), ()),
    ensures
        ({
            let (tx, after, source) = (old(state)@.tx, final(state)@.tx, from@.tx);
            let stored = source.storage.contains_key(address);
            let here = tx.storage.contains_key(address) && tx.storage[address].slots.contains_key(
                key,
            );
            let there = stored && source.storage[address].slots.contains_key(key);
            if source.accounts.contains_key(address) {
                &&& after.accounts.contains_key(address)
                &&& after.accounts[address] == source.accounts[address]
                &&& after.selfdestructs.contains(address) <==> source.selfdestructs.contains(address)
                &&& !stored ==> keeps_storage(tx, after, address)
                &&& stored ==> {
                    &&& after.storage.contains_key(address)
                    &&& after.storage[address].wiped == source.storage[address].wiped
                    &&& after.storage[address].slots.contains_key(key) <==> here || there
                    &&& there ==> after.storage[address].slots[key]
                        == source.storage[address].slots[key]
                    &&& here && !there ==> after.storage[address].slots[key]
                        == tx.storage[address].slots[key]
                }
            } else {
                after == tx
            }
        }),
{
}

/// Carrying an account over changes nothing of another, nor anything but accounts, storage and
/// self-destructs.
pub proof fn law_carrying_leaves_the_rest<D: Database, E: Database>(
    state: &mut State<D>,
    from: &State<E>,
    address: Address,
    other: Address,
)
    requires
        call_ensures(State::<D>::merge_transaction_account_from::<E>, (state, &address, from), ()),
        other != address,
    ensures
        ({
            let (tx, after) = (old(state)@.tx, final(state)@.tx);
            &&& final(state)@.db == old(state)@.db
            &&& final(state)@.history == old(state)@.history
            &&& keeps_account(tx, after, other)
            &&& keeps_storage(tx, after, other)
            &&& after.selfdestructs.contains(other) == tx.selfdestructs.contains(other)
            &&& after.journal == tx.journal
            &&& after.logs == tx.logs
            &&& after.transient == tx.transient
            &&& after.prewarm == tx.prewarm
        }),
{
}

/// Clearing the runtime marks of an account clears its touch and the warmth of its loaded slots.
/// Contents, values, all other marks and all other accounts stay.
pub proof fn law_cooled_account<D: Database>(
    state: &mut State<D>,
    address: Address,
    key: Word,
    other: Address,
)
    requires
        call_ensures(
            State::<D>::clear_account_touch_and_storage_warmth,
            (state, &address),
            (),
        ),
    ensures
        ({
            let (tx, after) = (old(state)@.tx, final(state)@.tx);
            let loaded = tx.storage.contains_key(address) && tx.storage[address].slots.contains_key(
                key,
            );
            let was = tx.accounts[address];
            let left = after.accounts[address];
            let slot = after.storage[address].slots[key];
            &&& after.accounts.contains_key(address) == tx.accounts.contains_key(address)
            &&& tx.accounts.contains_key(address) ==> {
                &&& left.original == was.original
                &&& left.present == was.present
                &&& left.is_warm == was.is_warm
                &&& !left.is_touched
                &&& left.is_destroyed == was.is_destroyed
                &&& left.just_created == was.just_created
                &&& left.code_changed == was.code_changed
            }
            &&& after.storage.contains_key(address) == tx.storage.contains_key(address)
            &&& tx.storage.contains_key(address) ==> {
                &&& after.storage[address].wiped == tx.storage[address].wiped
                &&& after.storage[address].slots.contains_key(key) == loaded
            }
            &&& loaded ==> {
                &&& slot.value == tx.storage[address].slots[key].value
                &&& !slot.is_warm
            }
            &&& other != address ==> keeps_account(tx, after, other) && keeps_storage(
                tx,
                after,
                other,
            )
            &&& final(state)@.db == old(state)@.db
            &&& final(state)@.history == old(state)@.history
            &&& after.selfdestructs == tx.selfdestructs
            &&& after.journal == tx.journal
            &&& after.logs == tx.logs
            &&& after.transient == tx.transient
            &&& after.prewarm == tx.prewarm
        }),
{
}

// --- detaching and copying ---

/// Detaching a state transition takes accounts, storage and self-destructs and nothing else;
/// attaching one replaces those and nothing else.
pub proof fn law_transition_is_accounts_storage_and_selfdestructs(tx: TxView, pending: PendingView)
    ensures
        tx.pending().accounts == tx.accounts,
        tx.pending().storage == tx.storage,
        tx.pending().selfdestructs == tx.selfdestructs,
        PendingView::empty().accounts == Map::<Address, Account>::empty(),
        PendingView::empty().storage.dom() == Set::<Address>::empty(),
        PendingView::empty().selfdestructs == Set::<Address>::empty(),
        ({
            let after = tx.with_pending(pending);
            &&& after.accounts == pending.accounts
            &&& after.storage == pending.storage
            &&& after.selfdestructs == pending.selfdestructs
            &&& after.transient == tx.transient
            &&& after.prewarm == tx.prewarm
            &&& after.journal == tx.journal
            &&& after.logs == tx.logs
        }),
{
}

/// A state made from a snapshot has the transaction layer, the accepted state and the block access
/// lists of the state it was taken of. It has no frame active and counts epochs and frames anew.
pub proof fn law_copied_state_starts_anew(
    state: StateView,
    source: DbModel,
    identity: B256,
)
    ensures
        ({
            let copy = state.snapshot().over(source, identity);
            &&& copy.tx.accounts == state.tx.accounts
            &&& copy.tx.storage == state.tx.storage
            &&& copy.tx.transient == state.tx.transient
            &&& copy.tx.prewarm == state.tx.prewarm
            &&& copy.tx.journal == state.tx.journal
            &&& copy.tx.logs == state.tx.logs
            &&& copy.tx.selfdestructs == state.tx.selfdestructs
            &&& copy.db.cache.accounts == state.db.cache.accounts
            &&& copy.db.cache.storage == state.db.cache.storage
            &&& copy.db.cache.contracts == state.db.cache.contracts
            &&& copy.db.bal.attached == state.db.bal.attached
            &&& copy.db.bal.allow_db_fallback == state.db.bal.allow_db_fallback
            &&& copy.db.bal.builder == state.db.bal.builder
            &&& copy.db.bal.index == state.db.bal.index
            &&& copy.history.generation == state.history.generation
            &&& copy.history.identity == identity
            &&& copy.history.epoch == 0
            &&& copy.history.next_frame == 0
            &&& copy.history.frames.len() == 0
        }),
{
}

} // verus!
