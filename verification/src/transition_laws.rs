//! What holds of state transitions: at the end of a transaction, detached, isolated, copied.
use vstd::prelude::*;

use crate::db::{DbModel, DbResult};
use crate::fixed::{Address, FixedBytes, Word, B256};
use crate::info::AccountInfo;
use crate::map::enumerates;
use crate::model::TxView;
use crate::pending::PendingView;
use crate::state::StateView;

verus! {

// --- detaching ---

/// Attaching a detached state transition again undoes the detaching.
pub proof fn law_detach_and_attach(tx: TxView, pending: PendingView)
    ensures
        tx.with_pending(PendingView::empty()).with_pending(tx.pending()) == tx,
        tx.with_pending(pending).pending() == pending,
{
}

/// A state made from a snapshot holds what the state held that the snapshot was taken of, over the
/// new database and with no frame active. Checkpoints taken before the capture stay accepted.
pub proof fn law_snapshot_keeps_everything_in_memory(
    state: StateView,
    source: DbModel,
    identity: B256,
)
    ensures
        ({
            let copy = state.snapshot().over(source, identity);
            &&& copy.tx == state.tx
            &&& copy.db.cache == state.db.cache
            &&& copy.db.bal == state.db.bal
            &&& copy.db.source == source
            &&& copy.history.generation == state.history.generation
            &&& copy.history.frames.len() == 0
            &&& copy.snapshot() == state.snapshot()
        }),
{
}

// --- isolated transactions ---

/// An isolated transaction that does nothing leaves nothing behind: merging what it started with
/// changes nothing.
pub proof fn law_idle_isolated_transaction_changes_nothing(tx: TxView)
    ensures
        tx.merge_isolated(tx.isolated()) == tx,
{
    let merged = tx.merge_isolated(tx.isolated());
    assert(merged.accounts =~= tx.accounts);
    assert forall|a: Address| tx.storage.contains_key(a) implies #[trigger] merged.storage[a]
        == tx.storage[a] by {
        assert(merged.storage[a].slots =~= tx.storage[a].slots);
    }
    assert(merged.storage =~= tx.storage);
    assert(merged.selfdestructs =~= tx.selfdestructs);
}

/// An isolated transaction starts from what stands: every account and slot it is given counts as
/// found that way, no slot is warm, and only pre-warmed accounts are.
pub proof fn law_isolated_transaction_starts_clean(tx: TxView, address: Address, key: Word)
    ensures
        tx.isolated().accounts.dom() =~= tx.accounts.dom(),
        tx.isolated().storage.dom() =~= tx.storage.dom(),
        tx.accounts.contains_key(address) ==> {
            let account = tx.isolated().accounts[address];
            &&& account.original == tx.accounts[address].present
            &&& account.present == tx.accounts[address].present
            &&& account.is_warm == tx.prewarm.addresses.contains(address)
            &&& account.is_touched == tx.accounts[address].is_touched
            &&& account.is_destroyed == tx.accounts[address].is_destroyed
            &&& account.just_created == tx.accounts[address].just_created
            &&& account.code_changed == tx.accounts[address].code_changed
        },
        tx.storage.contains_key(address) ==> tx.isolated().storage[address].wiped
            == tx.storage[address].wiped,
        tx.has_slot(address, key) ==> {
            let slot = tx.isolated().storage[address].slots[key];
            &&& slot.value.original == tx.slot(address, key).value.current
            &&& slot.value.current == tx.slot(address, key).value.current
            &&& !slot.is_warm
        },
{
}

/// Merging an isolated transaction keeps what the outer transaction found and its account warmth,
/// takes over what the isolated one left, and forgets nothing that was loaded.
pub proof fn law_merging_keeps_originals(tx: TxView, child: PendingView, address: Address, key: Word)
    ensures
        ({
            let merged = tx.merge_isolated(child);
            &&& merged.journal == tx.journal
            &&& merged.logs == tx.logs
            &&& merged.transient == tx.transient
            &&& merged.prewarm == tx.prewarm
            &&& tx.selfdestructs.subset_of(merged.selfdestructs)
            &&& tx.accounts.contains_key(address) ==> {
                &&& merged.accounts.contains_key(address)
                &&& merged.accounts[address].original == tx.accounts[address].original
                &&& merged.accounts[address].is_warm == tx.accounts[address].is_warm
            }
            &&& child.accounts.contains_key(address) ==> {
                &&& merged.accounts.contains_key(address)
                &&& merged.accounts[address].present == child.accounts[address].present
            }
            &&& tx.has_slot(address, key) ==> {
                &&& merged.has_slot(address, key)
                &&& merged.slot(address, key).value.original == tx.slot(
                    address,
                    key,
                ).value.original
            }
            &&& child.storage.contains_key(address) && child.storage[address].slots.contains_key(key)
                ==> {
                &&& merged.has_slot(address, key)
                &&& merged.slot(address, key).value.current
                    == child.storage[address].slots[key].value.current
            }
        }),
{
}

// --- the end of a transaction ---

/// After the end of a transaction under EIP-161, no account that it touched exists and is dead.
pub proof fn law_finalized_leaves_no_touched_dead(
    before: StateView,
    eip8246: bool,
    after: StateView,
    address: Address,
)
    requires
        before.finalizes(true, eip8246, Ok(()), after),
        before.tx.touched().contains(address),
    ensures
        after.tx.accounts.contains_key(address),
        !after.tx.accounts[address].is_existing_dead(),
{
    let (order, found) = lemma_finalizes(before, true, eip8246, after);
    let destroyed = before.destroy_all(order, found, eip8246);
    let dead = choose|dead: Seq<Address>| #[trigger]
        enumerates(dead, destroyed.dead_among(before.tx.touched())) && after == before.with_tx(
            destroyed.strike_all(dead, false).settled(
                before.tx.touched(),
                before.tx.selfdestructs,
            ),
        );
    assert(dead.contains(address) <==> destroyed.dead_among(before.tx.touched()).contains(address));
}

/// After the end of a transaction, a self-destructed account is gone, or under EIP-8246 nothing is
/// left of it but its balance, and all its storage reads as zero.
pub proof fn law_finalized_destroys_selfdestructed(
    before: StateView,
    eip161: bool,
    eip8246: bool,
    after: StateView,
    address: Address,
    key: Word,
)
    requires
        before.finalizes(eip161, eip8246, Ok(()), after),
        before.tx.selfdestructs.contains(address),
    ensures
        after.tx.selfdestructs == before.tx.selfdestructs,
        after.tx.accounts.contains_key(address),
        match after.tx.accounts[address].present {
            Some(info) => {
                &&& eip8246
                &&& info.balance.value() != 0
                &&& info == AccountInfo { balance: info.balance, ..AccountInfo::spec_default() }
                &&& !after.tx.accounts[address].is_destroyed
            },
            None => true,
        },
        eip8246 && before.tx.accounts.contains_key(address) && before.tx.balance(address) != 0
            ==> after.tx.accounts[address].present is Some && after.tx.balance(address)
            == before.tx.balance(address),
        after.tx.storage.contains_key(address),
        after.tx.storage[address].wiped,
        after.tx.has_slot(address, key) ==> after.tx.slot(address, key).value.current
            == FixedBytes::<32>::spec_zero(),
{
    let (order, found) = lemma_finalizes(before, eip161, eip8246, after);
    let destroyed = before.destroy_all(order, found, eip8246);
    assert(order.contains(address));
    FixedBytes::<32>::spec_zero().law_zero_value();
    if eip161 {
        let dead = choose|dead: Seq<Address>| #[trigger]
            enumerates(dead, destroyed.dead_among(before.tx.touched())) && after == before.with_tx(
                destroyed.strike_all(dead, false).settled(
                    before.tx.touched(),
                    before.tx.selfdestructs,
                ),
            );
        assert(dead.contains(address) <==> destroyed.dead_among(before.tx.touched()).contains(
            address,
        ));
        assert(!dead.contains(address));
    }
}

/// The end of a transaction leaves alone what it has no rule for: logs, transient storage, the
/// pre-warmed set, and every account and all storage of accounts that were neither touched nor
/// self-destructed. No touch is left.
pub proof fn law_finalized_leaves_the_rest(
    before: StateView,
    eip161: bool,
    eip8246: bool,
    after: StateView,
    address: Address,
)
    requires
        before.finalizes(eip161, eip8246, Ok(()), after),
    ensures
        after.tx.logs == before.tx.logs,
        after.tx.transient == before.tx.transient,
        after.tx.prewarm == before.tx.prewarm,
        after.db == before.db,
        after.history == before.history,
        !before.tx.selfdestructs.contains(address) && !before.tx.touched().contains(address) ==> {
            &&& after.tx.accounts.contains_key(address) == before.tx.accounts.contains_key(address)
            &&& after.tx.accounts.contains_key(address) ==> after.tx.accounts[address]
                == before.tx.accounts[address]
            &&& after.tx.storage.contains_key(address) == before.tx.storage.contains_key(address)
            &&& after.tx.storage.contains_key(address) ==> after.tx.storage[address]
                == before.tx.storage[address]
        },
        after.tx.accounts.contains_key(address) ==> !after.tx.accounts[address].is_touched,
{
    let (order, found) = lemma_finalizes(before, eip161, eip8246, after);
    let destroyed = before.destroy_all(order, found, eip8246);
    assert(order.contains(address) <==> before.tx.selfdestructs.contains(address));
    if eip161 {
        let dead = choose|dead: Seq<Address>| #[trigger]
            enumerates(dead, destroyed.dead_among(before.tx.touched())) && after == before.with_tx(
                destroyed.strike_all(dead, false).settled(
                    before.tx.touched(),
                    before.tx.selfdestructs,
                ),
            );
        assert(dead.contains(address) <==> destroyed.dead_among(before.tx.touched()).contains(
            address,
        ));
    }
}

/// Before EIP-161, a touched account that neither exists nor did before the transaction is created
/// as empty, and no account is deleted but those that self-destructed.
pub proof fn law_finalized_materializes_touched(
    before: StateView,
    eip8246: bool,
    after: StateView,
    address: Address,
)
    requires
        before.finalizes(false, eip8246, Ok(()), after),
        before.tx.accounts.contains_key(address),
        !before.tx.selfdestructs.contains(address),
    ensures
        after.tx.accounts.contains_key(address),
        ({
            let (old_account, new_account) = (
                before.tx.accounts[address],
                after.tx.accounts[address],
            );
            if old_account.is_touched && old_account.original is None && old_account.present is None {
                new_account.present == Some(AccountInfo::spec_default()) && new_account.just_created
            } else {
                new_account.present == old_account.present && new_account.just_created
                    == old_account.just_created
            }
        }),
{
    let (order, found) = lemma_finalizes(before, false, eip8246, after);
    assert(order.contains(address) <==> before.tx.selfdestructs.contains(address));
}

/// The end of a transaction can fail only where a self-destructed account was never loaded.
pub proof fn law_finalizing_loaded_accounts_succeeds(
    before: StateView,
    eip161: bool,
    eip8246: bool,
    r: DbResult<()>,
    after: StateView,
)
    requires
        before.finalizes(eip161, eip8246, r, after),
        before.tx.selfdestructs.subset_of(before.tx.accounts.dom()),
    ensures
        r is Ok,
{
}

/// The order in which self-destructed accounts were dealt with, and what was found of them.
proof fn lemma_finalizes(before: StateView, eip161: bool, eip8246: bool, after: StateView) -> (r: (
    Seq<Address>,
    Map<Address, Option<AccountInfo>>,
))
    requires
        before.finalizes(eip161, eip8246, Ok(()), after),
    ensures
        enumerates(r.0, before.tx.selfdestructs),
        before.settles(before.destroy_all(r.0, r.1, eip8246), eip161, after),
{
    choose|order: Seq<Address>, found: Map<Address, Option<AccountInfo>>|
        #![trigger before.finds_all(order, found)]
        {
            &&& before.finds_all(order, found)
            &&& enumerates(order, before.tx.selfdestructs)
            &&& before.settles(before.destroy_all(order, found, eip8246), eip161, after)
        }
}

} // verus!
