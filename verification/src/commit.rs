//! Folding a transaction into the accepted state.
use vstd::prelude::*;

use crate::account::Account;
use crate::bal::BalView;
use crate::db::{CacheDB, CacheDbView, CacheView, CachedStorageView, Database};
use crate::fixed::{Address, Word, B256};
use crate::info::{AccountInfo, Bytecode};
use crate::map::{enumerates, AddressMap, AddressSet};
use crate::storage::{OverlayView, StorageOverlay};
use crate::stream::{
    account_changes, code_change, code_changes, feed, feeds, list_changes, lists_changes,
    orders_complete, overlay_changes, slot_change, slot_changes, storage_changes, takes_all,
    StateChange, StateChangeSink, StateChangeSource,
};

verus! {

/// Whether accepting the overlay writes the slot.
pub open spec fn writes_slot(overlay: OverlayView, key: Word) -> bool {
    overlay.slots.contains_key(key) && overlay.slots[key].spec_is_changed(overlay.wiped)
}

/// Whether accepting the overlay changes the accepted storage of its account.
pub open spec fn writes_storage(overlay: OverlayView) -> bool {
    overlay.wiped || exists|key: Word| writes_slot(overlay, key)
}

/// The accepted storage of an account once the overlay is accepted over `base`.
pub open spec fn committed_storage(base: CachedStorageView, overlay: OverlayView) -> CachedStorageView {
    let start = if overlay.wiped {
        CachedStorageView { slots: Map::empty(), wiped: true }
    } else {
        base
    };
    CachedStorageView {
        slots: Map::new(
            |key: Word| start.slots.contains_key(key) || writes_slot(overlay, key),
            |key: Word|
                if writes_slot(overlay, key) {
                    overlay.slots[key].value.current
                } else {
                    start.slots[key]
                },
        ),
        wiped: start.wiped,
    }
}

/// Whether accepting the transaction writes the account.
pub open spec fn writes_account(
    accounts: Map<Address, Account>,
    selfdestructs: Set<Address>,
    address: Address,
) -> bool {
    &&& accounts.contains_key(address)
    &&& {
        ||| accounts[address].spec_is_changed()
        ||| accounts[address].just_created
        ||| selfdestructs.contains(address)
    }
}

/// The accepted accounts once a transaction is accepted.
pub open spec fn committed_accounts(
    cache: CacheView,
    accounts: Map<Address, Account>,
    selfdestructs: Set<Address>,
) -> Map<Address, Option<AccountInfo>> {
    Map::new(
        |address: Address|
            cache.accounts.contains_key(address) || writes_account(accounts, selfdestructs, address),
        |address: Address|
            if writes_account(accounts, selfdestructs, address) {
                accounts[address].present
            } else {
                cache.accounts[address]
            },
    )
}

/// The accepted storage of all accounts once a transaction is accepted.
pub open spec fn committed_storages(cache: CacheView, storage: Map<Address, OverlayView>) -> Map<
    Address,
    CachedStorageView,
> {
    Map::new(
        |address: Address|
            cache.storage.contains_key(address) || (storage.contains_key(address) && writes_storage(
                storage[address],
            )),
        |address: Address|
            if storage.contains_key(address) && writes_storage(storage[address]) {
                committed_storage(cache.storage_of(address), storage[address])
            } else {
                cache.storage[address]
            },
    )
}

/// Whether `contracts` is what the accepted code becomes once a transaction is accepted: the code
/// that its accounts brought in, and the code that was there under every other hash.
pub open spec fn commits_contracts(
    before: Map<B256, Bytecode>,
    accounts: Map<Address, Account>,
    contracts: Map<B256, Bytecode>,
) -> bool {
    forall|hash: B256|
        {
            &&& #[trigger] contracts.contains_key(hash) <==> before.contains_key(hash)
                || brings_code(accounts, hash)
            &&& brings_code(accounts, hash) ==> exists|address: Address| #[trigger]
                accounts.contains_key(address) && accounts[address].spec_changed_code() == Some(
                    (hash, contracts[hash]),
                )
            &&& contracts.contains_key(hash) && !brings_code(accounts, hash) ==> contracts[hash]
                == before[hash]
        }
}

/// The hash of the code that a transaction gave the account, if it did.
pub open spec fn code_hash_brought(account: Account) -> Option<B256> {
    match account.spec_changed_code() {
        Some((hash, _)) => Some(hash),
        None => None,
    }
}

/// Whether a transaction gave some account code with this hash.
pub open spec fn brings_code(accounts: Map<Address, Account>, hash: B256) -> bool {
    exists|address: Address| #[trigger]
        accounts.contains_key(address) && code_hash_brought(accounts[address]) == Some(hash)
}

/// Whether `after` is what the accepted state becomes once a transaction is accepted.
pub open spec fn commits(
    before: CacheView,
    accounts: Map<Address, Account>,
    storage: Map<Address, OverlayView>,
    selfdestructs: Set<Address>,
    after: CacheView,
) -> bool {
    &&& after.accounts == committed_accounts(before, accounts, selfdestructs)
    &&& after.storage == committed_storages(before, storage)
    &&& commits_contracts(before.contracts, accounts, after.contracts)
}

impl CacheView {
    /// The accepted state with all of `changes` applied in turn.
    pub open spec fn applied_all(self, changes: Seq<StateChange>) -> Self
        decreases changes.len(),
    {
        if changes.len() == 0 {
            self
        } else {
            self.applied_all(changes.drop_last()).applied(changes.last())
        }
    }
}

proof fn lemma_applied_all_concat(cache: CacheView, a: Seq<StateChange>, b: Seq<StateChange>)
    ensures
        cache.applied_all(a + b) == cache.applied_all(a).applied_all(b),
    decreases b.len(),
{
    if b.len() == 0 {
        assert(a + b =~= a);
    } else {
        assert((a + b).drop_last() =~= a + b.drop_last());
        lemma_applied_all_concat(cache, a, b.drop_last());
    }
}

/// Accepting changes folds them into the accepted state and moves nothing else but the list under
/// construction.
proof fn lemma_accepted_all(db: CacheDbView, changes: Seq<StateChange>)
    ensures
        db.accepted_all(changes).cache == db.cache.applied_all(changes),
        db.accepted_all(changes).source == db.source,
        db.accepted_all(changes).bal.attached == db.bal.attached,
        db.accepted_all(changes).bal.allow_db_fallback == db.bal.allow_db_fallback,
        db.accepted_all(changes).bal.index == db.bal.index,
    decreases changes.len(),
{
    if changes.len() > 0 {
        lemma_accepted_all(db, changes.drop_last());
    }
}

/// A database that takes changes ends as its view says it does.
proof fn lemma_takes_all_accepted<D: Database>(db: CacheDB<D>, changes: Seq<StateChange>, after: CacheDB<D>)
    requires
        takes_all(db, changes, after),
    ensures
        after@ == db@.accepted_all(changes),
        after.db == db.db,
    decreases changes.len(),
{
    if changes.len() > 0 {
        let before = choose|before: CacheDB<D>|
            takes_all(db, changes.drop_last(), before) && #[trigger] before.takes(
                changes.last(),
                None,
                after,
            );
        lemma_takes_all_accepted(db, changes.drop_last(), before);
    }
}

proof fn lemma_code_changes(cache: CacheView, accounts: Map<Address, Account>, order: Seq<Address>)
    requires
        forall|i: int| 0 <= i < order.len() ==> accounts.contains_key(#[trigger] order[i]),
    ensures
        ({
            let after = cache.applied_all(code_changes(accounts, order));
            &&& after.accounts == cache.accounts
            &&& after.storage == cache.storage
            &&& commits_contracts(
                cache.contracts,
                accounts.restrict(order.to_set()),
                after.contracts,
            )
        }),
    decreases order.len(),
{
    let after = cache.applied_all(code_changes(accounts, order));
    let limited = accounts.restrict(order.to_set());
    if order.len() == 0 {
        assert(forall|hash: B256| !brings_code(limited, hash));
    } else {
        let rest = order.drop_last();
        let address = order.last();
        let fewer = accounts.restrict(rest.to_set());
        lemma_code_changes(cache, accounts, rest);
        let before = cache.applied_all(code_changes(accounts, rest));
        lemma_applied_all_concat(cache, code_changes(accounts, rest), code_change(accounts[address]));
        assert(order =~= rest.push(address));
        assert forall|a: Address| limited.contains_key(a) <==> fewer.contains_key(a) || a == address by {
            assert(order.to_set().contains(a) <==> order.contains(a));
            assert(rest.to_set().contains(a) <==> rest.contains(a));
            if rest.contains(a) {
                let i = choose|i: int| 0 <= i < rest.len() && rest[i] == a;
                assert(order[i] == a);
            }
            assert(order[order.len() - 1] == address);
        }
        let change = code_change(accounts[address]);
        if change.len() == 0 {
            assert(after == before);
            assert forall|hash: B256|
                {
                    &&& #[trigger] after.contracts.contains_key(hash)
                        <==> cache.contracts.contains_key(hash) || brings_code(limited, hash)
                    &&& brings_code(limited, hash) ==> exists|a: Address| #[trigger]
                        limited.contains_key(a) && limited[a].spec_changed_code() == Some(
                            (hash, after.contracts[hash]),
                        )
                    &&& after.contracts.contains_key(hash) && !brings_code(limited, hash)
                        ==> after.contracts[hash] == cache.contracts[hash]
                } by {
                assert(before.contracts.contains_key(hash) <==> cache.contracts.contains_key(hash)
                    || brings_code(fewer, hash));
                if brings_code(limited, hash) {
                    let a = choose|a: Address| #[trigger]
                        limited.contains_key(a) && code_hash_brought(limited[a]) == Some(hash);
                    assert(fewer.contains_key(a));
                    assert(brings_code(fewer, hash));
                    let b = choose|b: Address| #[trigger]
                        fewer.contains_key(b) && fewer[b].spec_changed_code() == Some(
                            (hash, before.contracts[hash]),
                        );
                    assert(limited.contains_key(b));
                }
                if brings_code(fewer, hash) {
                    let a = choose|a: Address| #[trigger]
                        fewer.contains_key(a) && code_hash_brought(fewer[a]) == Some(hash);
                    assert(limited.contains_key(a));
                }
            }
        } else {
            let (new_hash, code) = accounts[address].spec_changed_code()->0;
            assert(change.drop_last() =~= Seq::<StateChange>::empty());
            assert(before.applied_all(change.drop_last()) == before);
            assert(after.contracts == before.contracts.insert(new_hash, code));
            assert forall|hash: B256|
                {
                    &&& #[trigger] after.contracts.contains_key(hash)
                        <==> cache.contracts.contains_key(hash) || brings_code(limited, hash)
                    &&& brings_code(limited, hash) ==> exists|a: Address| #[trigger]
                        limited.contains_key(a) && limited[a].spec_changed_code() == Some(
                            (hash, after.contracts[hash]),
                        )
                    &&& after.contracts.contains_key(hash) && !brings_code(limited, hash)
                        ==> after.contracts[hash] == cache.contracts[hash]
                } by {
                assert(before.contracts.contains_key(hash) <==> cache.contracts.contains_key(hash)
                    || brings_code(fewer, hash));
                if hash == new_hash {
                    assert(limited.contains_key(address));
                } else {
                    if brings_code(limited, hash) {
                        let a = choose|a: Address| #[trigger]
                            limited.contains_key(a) && code_hash_brought(limited[a]) == Some(hash);
                        assert(fewer.contains_key(a));
                        assert(brings_code(fewer, hash));
                        let b = choose|b: Address| #[trigger]
                            fewer.contains_key(b) && fewer[b].spec_changed_code() == Some(
                                (hash, before.contracts[hash]),
                            );
                        assert(limited.contains_key(b));
                    }
                    if brings_code(fewer, hash) {
                        let a = choose|a: Address| #[trigger]
                            fewer.contains_key(a) && code_hash_brought(fewer[a]) == Some(hash);
                        assert(limited.contains_key(a));
                    }
                }
            }
        }
    }
}

/// The accepted state after the changes of the slots in `order`.
spec fn after_slots(cache: CacheView, address: Address, overlay: OverlayView, order: Seq<Word>) -> CacheView {
    cache.applied_all(slot_changes(address, overlay, order))
}

/// The effect of the changes of the slots in `order` on the storage of their account.
proof fn lemma_slot_changes(cache: CacheView, address: Address, overlay: OverlayView, order: Seq<Word>)
    requires
        forall|i: int| 0 <= i < order.len() ==> overlay.slots.contains_key(#[trigger] order[i]),
    ensures
        after_slots(cache, address, overlay, order).accounts == cache.accounts,
        after_slots(cache, address, overlay, order).contracts == cache.contracts,
        forall|a: Address|
            a != address ==> (#[trigger] after_slots(cache, address, overlay, order).storage.contains_key(a)
                <==> cache.storage.contains_key(a)),
        forall|a: Address|
            a != address ==> #[trigger] after_slots(cache, address, overlay, order).storage[a]
                == cache.storage[a],
        after_slots(cache, address, overlay, order).storage.contains_key(address)
            <==> cache.storage.contains_key(address) || exists|key: Word| #[trigger]
            writes_slot(overlay, key) && order.contains(key),
        after_slots(cache, address, overlay, order).storage_of(address).wiped == cache.storage_of(
            address,
        ).wiped,
        forall|key: Word| #[trigger]
            after_slots(cache, address, overlay, order).storage_of(address).slots.contains_key(key)
                <==> cache.storage_of(address).slots.contains_key(key) || (writes_slot(overlay, key)
                && order.contains(key)),
        forall|key: Word|
            #![trigger after_slots(cache, address, overlay, order).storage_of(address).slots[key]]
            after_slots(cache, address, overlay, order).storage_of(address).slots.contains_key(key)
                ==> after_slots(cache, address, overlay, order).storage_of(address).slots[key] == (
            if writes_slot(overlay, key) && order.contains(key) {
                overlay.slots[key].value.current
            } else {
                cache.storage_of(address).slots[key]
            }),
    decreases order.len(),
{
    if order.len() > 0 {
        let rest = order.drop_last();
        let last = order.last();
        lemma_slot_changes(cache, address, overlay, rest);
        let before = cache.applied_all(slot_changes(address, overlay, rest));
        let changes = slot_changes(address, overlay, order);
        assert(changes.drop_last() =~= slot_changes(address, overlay, rest));
        let after = cache.applied_all(changes);
        assert(after == before.applied(slot_change(address, last, overlay.slots[last], overlay.wiped)));
        assert forall|key: Word| order.contains(key) <==> rest.contains(key) || key == last by {
            if rest.contains(key) {
                let i = choose|i: int| 0 <= i < rest.len() && rest[i] == key;
                assert(order[i] == key);
            }
            if order.contains(key) && key != last {
                let i = choose|i: int| 0 <= i < order.len() && order[i] == key;
                assert(rest[i] == key);
            }
            assert(order[order.len() - 1] == last);
        }
        assert(overlay.slots.contains_key(order[order.len() - 1]));
        if writes_slot(overlay, last) {
            assert(order.contains(last));
        }
    }
}

/// The effect of the changes of one overlay.
proof fn lemma_overlay_changes(cache: CacheView, address: Address, overlay: OverlayView, order: Seq<Word>)
    requires
        enumerates(order, overlay.slots.dom()),
    ensures
        ({
            let after = cache.applied_all(overlay_changes(address, overlay, order));
            &&& after.accounts == cache.accounts
            &&& after.contracts == cache.contracts
            &&& after.storage == (if writes_storage(overlay) {
                cache.storage.insert(
                    address,
                    committed_storage(cache.storage_of(address), overlay),
                )
            } else {
                cache.storage
            })
        }),
{
    assert forall|i: int| 0 <= i < order.len() implies overlay.slots.contains_key(
        #[trigger] order[i],
    ) by {
        assert(order.contains(order[i]));
    }
    let slots = slot_changes(address, overlay, order);
    let start = if overlay.wiped {
        let wipe = seq![StateChange::StorageWipe { address }];
        lemma_applied_all_concat(cache, wipe, slots);
        assert(wipe.drop_last() =~= Seq::<StateChange>::empty());
        assert(cache.applied_all(wipe.drop_last()) == cache);
        cache.applied(StateChange::StorageWipe { address })
    } else {
        cache
    };
    lemma_slot_changes(start, address, overlay, order);
    let after = cache.applied_all(overlay_changes(address, overlay, order));
    assert(after == start.applied_all(slots));
    assert forall|key: Word| writes_slot(overlay, key) implies order.contains(key) by {
        assert(overlay.slots.dom().contains(key));
    }
    let base = committed_storage(cache.storage_of(address), overlay);
    if writes_storage(overlay) {
        assert(after.storage.contains_key(address));
        assert(after.storage[address].slots =~= base.slots);
        assert(after.storage[address] =~= base);
        assert(after.storage =~= cache.storage.insert(address, base));
    } else {
        if after.storage.contains_key(address) {
            assert(after.storage_of(address).slots =~= cache.storage_of(address).slots);
            assert(after.storage[address] =~= cache.storage[address]);
        }
        assert(after.storage =~= cache.storage);
    }
}

proof fn lemma_storage_changes(
    cache: CacheView,
    storage: Map<Address, OverlayView>,
    order: Seq<Address>,
    slot_orders: Seq<Seq<Word>>,
)
    requires
        order.no_duplicates(),
        forall|i: int| 0 <= i < order.len() ==> storage.contains_key(#[trigger] order[i]),
        slot_orders.len() >= order.len(),
        forall|i: int|
            0 <= i < order.len() ==> enumerates(
                #[trigger] slot_orders[i],
                storage[order[i]].slots.dom(),
            ),
    ensures
        ({
            let after = cache.applied_all(storage_changes(storage, order, slot_orders));
            &&& after.accounts == cache.accounts
            &&& after.contracts == cache.contracts
            &&& after.storage == committed_storages(cache, storage.restrict(order.to_set()))
        }),
    decreases order.len(),
{
    let after = cache.applied_all(storage_changes(storage, order, slot_orders));
    if order.len() == 0 {
        assert(after.storage =~= committed_storages(cache, storage.restrict(order.to_set())));
    } else {
        let rest = order.drop_last();
        let address = order.last();
        let fewer = storage.restrict(rest.to_set());
        let limited = storage.restrict(order.to_set());
        lemma_storage_changes(cache, storage, rest, slot_orders);
        let before = cache.applied_all(storage_changes(storage, rest, slot_orders));
        let last = overlay_changes(address, storage[address], slot_orders[order.len() - 1]);
        lemma_applied_all_concat(cache, storage_changes(storage, rest, slot_orders), last);
        assert(enumerates(
            slot_orders[order.len() - 1],
            storage[order[order.len() - 1]].slots.dom(),
        ));
        lemma_overlay_changes(before, address, storage[address], slot_orders[order.len() - 1]);
        assert(!rest.contains(address));
        assert forall|a: Address| limited.contains_key(a) <==> fewer.contains_key(a) || a == address by {
            if rest.contains(a) {
                let i = choose|i: int| 0 <= i < rest.len() && rest[i] == a;
                assert(order[i] == a);
            }
            if order.contains(a) && a != address {
                let i = choose|i: int| 0 <= i < order.len() && order[i] == a;
                assert(rest[i] == a);
            }
            assert(order[order.len() - 1] == address);
        }
        assert(!fewer.contains_key(address));
        assert(before.storage_of(address) == cache.storage_of(address));
        assert(after.storage =~= committed_storages(cache, limited));
    }
}

proof fn lemma_account_changes(
    cache: CacheView,
    accounts: Map<Address, Account>,
    selfdestructs: Set<Address>,
    order: Seq<Address>,
)
    requires
        forall|i: int| 0 <= i < order.len() ==> accounts.contains_key(#[trigger] order[i]),
    ensures
        ({
            let after = cache.applied_all(account_changes(accounts, selfdestructs, order));
            &&& after.storage == cache.storage
            &&& after.contracts == cache.contracts
            &&& after.accounts == committed_accounts(
                cache,
                accounts.restrict(order.to_set()),
                selfdestructs,
            )
        }),
    decreases order.len(),
{
    let changes = account_changes(accounts, selfdestructs, order);
    let after = cache.applied_all(changes);
    let limited = accounts.restrict(order.to_set());
    if order.len() == 0 {
        assert(after.accounts =~= committed_accounts(cache, limited, selfdestructs));
    } else {
        let rest = order.drop_last();
        let address = order.last();
        let fewer = accounts.restrict(rest.to_set());
        lemma_account_changes(cache, accounts, selfdestructs, rest);
        assert(changes.drop_last() =~= account_changes(accounts, selfdestructs, rest));
        let before = cache.applied_all(changes.drop_last());
        assert forall|a: Address| limited.contains_key(a) <==> fewer.contains_key(a) || a == address by {
            if rest.contains(a) {
                let i = choose|i: int| 0 <= i < rest.len() && rest[i] == a;
                assert(order[i] == a);
            }
            if order.contains(a) && a != address {
                let i = choose|i: int| 0 <= i < order.len() && order[i] == a;
                assert(rest[i] == a);
            }
            assert(order[order.len() - 1] == address);
        }
        assert(accounts.contains_key(order[order.len() - 1]));
        assert(after.accounts =~= committed_accounts(cache, limited, selfdestructs));
    }
}

/// Applying every change of a transaction, in whatever order a list has them, commits it.
pub proof fn law_changes_commit(
    cache: CacheView,
    accounts: Map<Address, Account>,
    storage: Map<Address, OverlayView>,
    selfdestructs: Set<Address>,
    changes: Seq<StateChange>,
)
    requires
        lists_changes(accounts, storage, selfdestructs, changes),
    ensures
        commits(cache, accounts, storage, selfdestructs, cache.applied_all(changes)),
{
    let (order, storage_order, slot_orders) = choose|
        order: Seq<Address>,
        storage_order: Seq<Address>,
        slot_orders: Seq<Seq<Word>>,
    |
        #![trigger orders_complete(accounts, storage, order, storage_order, slot_orders)]
        {
            &&& orders_complete(accounts, storage, order, storage_order, slot_orders)
            &&& changes == code_changes(accounts, order) + storage_changes(
                storage,
                storage_order,
                slot_orders,
            ) + account_changes(accounts, selfdestructs, order)
        };
    let codes = code_changes(accounts, order);
    let stores = storage_changes(storage, storage_order, slot_orders);
    let writes = account_changes(accounts, selfdestructs, order);
    lemma_applied_all_concat(cache, codes + stores, writes);
    lemma_applied_all_concat(cache, codes, stores);
    let first = cache.applied_all(codes);
    let second = first.applied_all(stores);
    assert forall|i: int| 0 <= i < order.len() implies accounts.contains_key(#[trigger] order[i]) by {
        assert(order.contains(order[i]));
    }
    assert forall|i: int| 0 <= i < storage_order.len() implies storage.contains_key(
        #[trigger] storage_order[i],
    ) by {
        assert(storage_order.contains(storage_order[i]));
    }
    assert(accounts.restrict(order.to_set()) =~= accounts) by {
        assert forall|a: Address| accounts.contains_key(a) implies order.to_set().contains(a) by {
            assert(order.contains(a));
        }
    }
    assert(storage.restrict(storage_order.to_set()) =~= storage) by {
        assert forall|a: Address| storage.contains_key(a) implies storage_order.to_set().contains(a) by {
            assert(storage_order.contains(a));
        }
    }
    lemma_code_changes(cache, accounts, order);
    lemma_storage_changes(first, storage, storage_order, slot_orders);
    lemma_account_changes(second, accounts, selfdestructs, order);
    assert(committed_storages(first, storage) =~= committed_storages(cache, storage));
    assert(committed_accounts(second, accounts, selfdestructs) =~= committed_accounts(
        cache,
        accounts,
        selfdestructs,
    ));
}

impl<D: Database> CacheDB<D> {
    /// Accepts a transaction.
    pub fn commit(
        &mut self,
        accounts: &AddressMap<Account>,
        storage: &AddressMap<StorageOverlay>,
    )
        ensures
            commits(old(self)@.cache, accounts@, storage@, Set::empty(), final(self)@.cache),
            exists|changes: Seq<StateChange>| #[trigger]
                lists_changes(accounts@, storage@, Set::empty(), changes) && final(self)@
                    == old(self)@.accepted_all(changes),
            final(self)@.source == old(self)@.source,
            final(self)@.bal == (BalView { builder: final(self)@.bal.builder, ..old(self)@.bal }),
            final(self).db == old(self).db,
    {
        let changes = list_changes(accounts, storage, &AddressSet::new());
        let ghost before = *self;
        let r = feed(self, &changes);
        proof {
            assert(feeds(before, changes@, r, *self));
            assert(r is Ok);
            assert(lists_changes(accounts@, storage@, Set::empty(), changes@));
            lemma_takes_all_accepted(before, changes@, *self);
            lemma_accepted_all(before@, changes@);
            law_changes_commit(before@.cache, accounts@, storage@, Set::empty(), changes@);
        }
    }

    /// Accepts the changes that `source` streams.
    pub fn commit_source<S: StateChangeSource>(&mut self, source: &S)
        ensures
            exists|changes: Seq<StateChange>| #[trigger]
                source.streams(changes) && final(self)@ == old(self)@.accepted_all(changes),
            final(self).db == old(self).db,
    {
        let ghost before = *self;
        let r = source.visit(self);
        proof {
            let changes = choose|changes: Seq<StateChange>| #[trigger]
                source.streams(changes) && feeds(before, changes, r, *self);
            assert(feeds(before, changes, r, *self));
            assert(r is Ok);
            lemma_takes_all_accepted(before, changes, *self);
        }
    }
}

} // verus!
