//! What holds of block access lists built while transactions are accepted.
use vstd::prelude::*;

use crate::bal::{account_at, slot_at, BalEntry, BlockAccessIndex};
use crate::commit::{
    committed_storage, law_changes_commit, writes_account, writes_slot, writes_storage,
};
use crate::db::{CacheDbView, CacheView};
use crate::fixed::{Address, FixedBytes, Word};
use crate::model::TxView;
use crate::stream::{lists_changes, StateChange};

verus! {

/// The entries that record `changes` at a position.
pub open spec fn recorded_at(changes: Seq<StateChange>, index: BlockAccessIndex) -> Seq<BalEntry> {
    changes.map_values(|change: StateChange| BalEntry { index, change })
}

/// Accepting changes adds all of them, at the current position, to a list under construction, and
/// starts none.
pub proof fn law_accepted_changes_are_recorded(db: CacheDbView, changes: Seq<StateChange>)
    ensures
        db.accepted_all(changes).bal.index == db.bal.index,
        db.accepted_all(changes).bal.builder == match db.bal.builder {
            Some(entries) => Some(entries + recorded_at(changes, db.bal.index)),
            None => None,
        },
    decreases changes.len(),
{
    if changes.len() == 0 {
        if let Some(entries) = db.bal.builder {
            assert(entries + recorded_at(changes, db.bal.index) =~= entries);
        }
    } else {
        let shorter = changes.drop_last();
        law_accepted_changes_are_recorded(db, shorter);
        if let Some(entries) = db.bal.builder {
            assert(entries + recorded_at(changes, db.bal.index) =~= (entries + recorded_at(
                shorter,
                db.bal.index,
            )).push(BalEntry { index: db.bal.index, change: changes.last() }));
        }
    }
}

/// What recorded changes say of a slot is what the accepted state has of it once they are applied
/// to nothing.
proof fn lemma_recorded_slot(
    base: Seq<BalEntry>,
    changes: Seq<StateChange>,
    index: BlockAccessIndex,
    later: BlockAccessIndex,
    address: Address,
    key: Word,
)
    requires
        index < later,
    ensures
        ({
            let storage = CacheView::empty().applied_all(changes).storage_of(address);
            slot_at(base + recorded_at(changes, index), address, key, later)
                == if storage.slots.contains_key(key) {
                Some(storage.slots[key])
            } else if storage.wiped {
                Some(FixedBytes::<32>::spec_zero())
            } else {
                slot_at(base, address, key, later)
            }
        }),
    decreases changes.len(),
{
    let entries = base + recorded_at(changes, index);
    if changes.len() == 0 {
        assert(entries =~= base);
    } else {
        let shorter = changes.drop_last();
        lemma_recorded_slot(base, shorter, index, later, address, key);
        assert(entries.drop_last() =~= base + recorded_at(shorter, index));
        assert(entries.last() == BalEntry { index, change: changes.last() });
    }
}

/// What recorded changes say of an account is what the accepted state has of it once they are
/// applied to nothing.
proof fn lemma_recorded_account(
    base: Seq<BalEntry>,
    changes: Seq<StateChange>,
    index: BlockAccessIndex,
    later: BlockAccessIndex,
    address: Address,
)
    requires
        index < later,
    ensures
        ({
            let accounts = CacheView::empty().applied_all(changes).accounts;
            account_at(base + recorded_at(changes, index), address, later)
                == if accounts.contains_key(address) {
                Some(accounts[address])
            } else {
                account_at(base, address, later)
            }
        }),
    decreases changes.len(),
{
    let entries = base + recorded_at(changes, index);
    if changes.len() == 0 {
        assert(entries =~= base);
    } else {
        let shorter = changes.drop_last();
        lemma_recorded_account(base, shorter, index, later, address);
        assert(entries.drop_last() =~= base + recorded_at(shorter, index));
        assert(entries.last() == BalEntry { index, change: changes.last() });
    }
}

/// A list built while a transaction was accepted serves reads at later positions with what the
/// transaction left: written slots with their last value, other slots of wiped storage with zero,
/// written accounts with their contents. Of everything else it says what it said before.
pub proof fn law_built_list_serves_accepted_writes(
    tx: TxView,
    changes: Seq<StateChange>,
    base: Seq<BalEntry>,
    index: BlockAccessIndex,
    later: BlockAccessIndex,
    address: Address,
    key: Word,
)
    requires
        lists_changes(tx.accounts, tx.storage, Set::empty(), changes),
        index < later,
    ensures
        slot_at(base + recorded_at(changes, index), address, key, later)
            == if tx.storage.contains_key(address) && writes_slot(tx.storage[address], key) {
            Some(tx.slot(address, key).value.current)
        } else if tx.storage.contains_key(address) && tx.storage[address].wiped {
            Some(FixedBytes::<32>::spec_zero())
        } else {
            slot_at(base, address, key, later)
        },
        account_at(base + recorded_at(changes, index), address, later) == if writes_account(
            tx.accounts,
            Set::empty(),
            address,
        ) {
            Some(tx.accounts[address].present)
        } else {
            account_at(base, address, later)
        },
{
    law_changes_commit(CacheView::empty(), tx.accounts, tx.storage, Set::empty(), changes);
    lemma_recorded_slot(base, changes, index, later, address, key);
    lemma_recorded_account(base, changes, index, later, address);
    let after = CacheView::empty().applied_all(changes);
    let overlay = tx.storage[address];
    if tx.storage.contains_key(address) && writes_storage(overlay) {
        assert(after.storage_of(address) == committed_storage(
            CacheView::empty().storage_of(address),
            overlay,
        ));
    } else {
        assert(tx.storage.contains_key(address) ==> !writes_slot(overlay, key));
    }
}

} // verus!
