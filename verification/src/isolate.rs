//! Carrying loaded state into an isolated transaction and back, and from one state to another.
use vstd::prelude::*;

use crate::account::Account;
use crate::db::Database;
use crate::fixed::{Address, Word};
use crate::info::copy_info;
use crate::map::{enumerates, AddressMap, Duplicate};
use crate::model::TxView;
use crate::pending::{PendingState, PendingView};
use crate::prewarm::PrewarmView;
use crate::state::State;
use crate::storage::{OverlayView, StorageOverlay, StorageSlot, TrackedValue};

verus! {

impl Account {
    /// The account as an isolated transaction finds it: what stands is what it started from.
    pub open spec fn isolated(self, is_warm: bool) -> Self {
        Account { original: self.present, is_warm, ..self }
    }

    /// The account once an isolated transaction left `child` behind. What the outer transaction
    /// found stays, and so does the warmth.
    pub open spec fn merged(self, child: Self) -> Self {
        Account {
            present: child.present,
            is_touched: self.is_touched || child.is_touched,
            is_destroyed: self.is_destroyed || child.is_destroyed,
            just_created: self.just_created || child.just_created,
            code_changed: self.code_changed || child.code_changed,
            ..self
        }
    }
}

impl StorageSlot {
    /// The slot once an isolated transaction left `child` behind. What the outer transaction found
    /// stays, and warmth is combined.
    pub open spec fn merged(self, child: Self) -> Self {
        StorageSlot {
            value: TrackedValue { current: child.value.current, ..self.value },
            is_warm: self.is_warm || child.is_warm,
        }
    }
}

impl OverlayView {
    /// The storage as an isolated transaction finds it: what stands is what it started from, and
    /// no slot counts as accessed.
    pub open spec fn isolated(self) -> Self {
        OverlayView {
            slots: self.slots.map_values(
                |slot: StorageSlot| StorageSlot::spec_loaded(slot.value.current),
            ),
            ..self
        }
    }

    /// The storage once an isolated transaction left `child` behind.
    pub open spec fn merged(self, child: Self) -> Self {
        OverlayView {
            slots: Map::new(
                |key: Word| self.slots.contains_key(key) || child.slots.contains_key(key),
                |key: Word|
                    if !child.slots.contains_key(key) {
                        self.slots[key]
                    } else if !self.slots.contains_key(key) {
                        child.slots[key]
                    } else {
                        self.slots[key].merged(child.slots[key])
                    },
            ),
            wiped: self.wiped || child.wiped,
        }
    }

    /// The storage with all of `source` copied over it.
    pub open spec fn overwritten(self, source: Self) -> Self {
        OverlayView { slots: self.slots.union_prefer_right(source.slots), wiped: source.wiped }
    }
}

/// Loaded accounts as an isolated transaction finds them. Only pre-warmed ones are warm.
pub open spec fn isolated_accounts(accounts: Map<Address, Account>, prewarm: PrewarmView) -> Map<
    Address,
    Account,
> {
    Map::new(
        |a: Address| accounts.contains_key(a),
        |a: Address| accounts[a].isolated(prewarm.addresses.contains(a)),
    )
}

/// Loaded storage as an isolated transaction finds it.
pub open spec fn isolated_storage(storage: Map<Address, OverlayView>) -> Map<Address, OverlayView> {
    storage.map_values(|overlay: OverlayView| overlay.isolated())
}

/// Accounts once an isolated transaction left `child` behind.
pub open spec fn merged_accounts(parent: Map<Address, Account>, child: Map<Address, Account>) -> Map<
    Address,
    Account,
> {
    Map::new(
        |a: Address| parent.contains_key(a) || child.contains_key(a),
        |a: Address|
            if !child.contains_key(a) {
                parent[a]
            } else if !parent.contains_key(a) {
                child[a]
            } else {
                parent[a].merged(child[a])
            },
    )
}

/// Storage once an isolated transaction left `child` behind.
pub open spec fn merged_storage(
    parent: Map<Address, OverlayView>,
    child: Map<Address, OverlayView>,
) -> Map<Address, OverlayView> {
    Map::new(
        |a: Address| parent.contains_key(a) || child.contains_key(a),
        |a: Address|
            if !child.contains_key(a) {
                parent[a]
            } else if !parent.contains_key(a) {
                OverlayView::empty().merged(child[a])
            } else {
                parent[a].merged(child[a])
            },
    )
}

impl TxView {
    /// The state transition with which an isolated transaction starts.
    pub open spec fn isolated(self) -> PendingView {
        PendingView {
            accounts: isolated_accounts(self.accounts, self.prewarm),
            storage: isolated_storage(self.storage),
            selfdestructs: self.selfdestructs,
        }
    }

    /// The layer once an isolated transaction left `child` behind. Of its self-destructs only those
    /// count whose account is still marked.
    pub open spec fn merge_isolated(self, child: PendingView) -> Self {
        let accounts = merged_accounts(self.accounts, child.accounts);
        TxView {
            accounts,
            storage: merged_storage(self.storage, child.storage),
            selfdestructs: self.selfdestructs.union(
                child.selfdestructs.intersect(
                    Set::new(|a: Address| accounts.contains_key(a) && accounts[a].is_destroyed),
                ),
            ),
            ..self
        }
    }

    /// The layer with one account and its storage copied over from `source`, where it is loaded.
    pub open spec fn copy_account(self, address: Address, source: TxView) -> Self {
        if !source.accounts.contains_key(address) {
            self
        } else {
            TxView {
                accounts: self.accounts.insert(address, source.accounts[address]),
                storage: if source.storage.contains_key(address) {
                    self.storage.insert(
                        address,
                        self.open_overlay(address).storage[address].overwritten(
                            source.storage[address],
                        ),
                    )
                } else {
                    self.storage
                },
                selfdestructs: if source.selfdestructs.contains(address) {
                    self.selfdestructs.insert(address)
                } else {
                    self.selfdestructs.remove(address)
                },
                ..self
            }
        }
    }

    /// The layer with an account's touch and the warmth of its loaded slots cleared.
    pub open spec fn cool_account(self, address: Address) -> Self {
        TxView {
            accounts: if self.accounts.contains_key(address) {
                self.accounts.insert(
                    address,
                    Account { is_touched: false, ..self.accounts[address] },
                )
            } else {
                self.accounts
            },
            storage: if self.storage.contains_key(address) {
                self.storage.insert(address, self.storage[address].cooled())
            } else {
                self.storage
            },
            ..self
        }
    }
}

impl StorageOverlay {
    /// A copy as an isolated transaction finds it.
    fn isolated(&self) -> (r: Self)
        ensures
            r@ == self@.isolated(),
    {
        let keys = self.slots.keys();
        let mut r = StorageOverlay::new();
        r.wiped = self.wiped;
        let mut i: usize = 0;
        while i < keys.len()
            invariant
                i <= keys.len(),
                enumerates(keys@, self.slots@.dom()),
                r.wiped == self.wiped,
                forall|k: Word| #[trigger]
                    r.slots@.contains_key(k) <==> keys@.take(i as int).contains(k),
                forall|k: Word| #[trigger]
                    r.slots@.contains_key(k) ==> r.slots@[k] == self@.isolated().slots[k],
            decreases keys.len() - i,
        {
            let key = keys[i];
            proof {
                assert(keys@.contains(key));
                lemma_take_contains(keys@, i as int);
            }
            match self.slots.get(&key) {
                Some(slot) => {
                    r.slots.insert(key, StorageSlot::loaded(slot.value.current));
                },
                None => {},
            }
            i += 1;
        }
        assert(keys@.take(keys.len() as int) =~= keys@);
        assert(r.slots@ =~= self@.isolated().slots);
        r
    }

    /// Merges what an isolated transaction left behind.
    fn merge(&mut self, child: &StorageOverlay)
        ensures
            final(self)@ == old(self)@.merged(child@),
    {
        let keys = child.slots.keys();
        self.wiped = self.wiped || child.wiped;
        let mut i: usize = 0;
        while i < keys.len()
            invariant
                i <= keys.len(),
                enumerates(keys@, child.slots@.dom()),
                self.wiped == (old(self).wiped || child.wiped),
                forall|k: Word| #[trigger]
                    self.slots@.contains_key(k) <==> old(self).slots@.contains_key(k)
                        || keys@.take(i as int).contains(k),
                forall|k: Word| #[trigger]
                    self.slots@.contains_key(k) ==> self.slots@[k] == if keys@.take(
                        i as int,
                    ).contains(k) {
                        old(self)@.merged(child@).slots[k]
                    } else {
                        old(self).slots@[k]
                    },
            decreases keys.len() - i,
        {
            let key = keys[i];
            proof {
                assert(keys@.contains(key));
                lemma_take_contains(keys@, i as int);
                assert(!keys@.take(i as int).contains(key));
            }
            match child.slots.get(&key) {
                Some(slot) => {
                    let merged = match self.slots.get(&key) {
                        Some(own) => StorageSlot {
                            value: TrackedValue {
                                original: own.value.original,
                                current: slot.value.current,
                            },
                            is_warm: own.is_warm || slot.is_warm,
                        },
                        None => *slot,
                    };
                    self.slots.insert(key, merged);
                },
                None => {},
            }
            i += 1;
        }
        assert(keys@.take(keys.len() as int) =~= keys@);
        assert(self.slots@ =~= old(self)@.merged(child@).slots);
    }

    /// Copies all of `source` over what is loaded.
    fn overwrite(&mut self, source: &StorageOverlay)
        ensures
            final(self)@ == old(self)@.overwritten(source@),
    {
        let keys = source.slots.keys();
        self.wiped = source.wiped;
        let mut i: usize = 0;
        while i < keys.len()
            invariant
                i <= keys.len(),
                enumerates(keys@, source.slots@.dom()),
                self.wiped == source.wiped,
                forall|k: Word| #[trigger]
                    self.slots@.contains_key(k) <==> old(self).slots@.contains_key(k)
                        || keys@.take(i as int).contains(k),
                forall|k: Word| #[trigger]
                    self.slots@.contains_key(k) ==> self.slots@[k] == if keys@.take(
                        i as int,
                    ).contains(k) {
                        source.slots@[k]
                    } else {
                        old(self).slots@[k]
                    },
            decreases keys.len() - i,
        {
            let key = keys[i];
            proof {
                assert(keys@.contains(key));
                lemma_take_contains(keys@, i as int);
            }
            match source.slots.get(&key) {
                Some(slot) => {
                    self.slots.insert(key, *slot);
                },
                None => {},
            }
            i += 1;
        }
        assert(keys@.take(keys.len() as int) =~= keys@);
        assert(self.slots@ =~= old(self)@.overwritten(source@).slots);
    }
}

/// What one more element of a sequence adds.
proof fn lemma_take_contains<T>(s: Seq<T>, i: int)
    requires
        0 <= i < s.len(),
    ensures
        forall|x: T| #[trigger] s.take(i + 1).contains(x) <==> s.take(i).contains(x) || x == s[i],
{
    let (short, long) = (s.take(i), s.take(i + 1));
    assert forall|x: T| #[trigger] long.contains(x) <==> short.contains(x) || x == s[i] by {
        if long.contains(x) {
            let j = choose|j: int| 0 <= j < long.len() && long[j] == x;
            if j < i {
                assert(short[j] == x);
            }
        }
        if short.contains(x) {
            let j = choose|j: int| 0 <= j < short.len() && short[j] == x;
            assert(long[j] == x);
        }
        if x == s[i] {
            assert(long[i] == x);
        }
    }
}

impl<D: Database> State<D> {
    /// A copy of the loaded state with which an isolated transaction starts.
    pub fn prepare_isolated_state(&self) -> (r: PendingState)
        ensures
            r@ == self@.tx.isolated(),
    {
        let keys = self.accounts.keys();
        let mut accounts: AddressMap<Account> = AddressMap::new();
        let mut i: usize = 0;
        while i < keys.len()
            invariant
                i <= keys.len(),
                enumerates(keys@, self@.tx.accounts.dom()),
                forall|a: Address| #[trigger]
                    accounts@.contains_key(a) <==> keys@.take(i as int).contains(a),
                forall|a: Address| #[trigger]
                    accounts@.contains_key(a) ==> accounts@[a] == self@.tx.isolated().accounts[a],
            decreases keys.len() - i,
        {
            let address = keys[i];
            proof {
                assert(keys@.contains(address));
                lemma_take_contains(keys@, i as int);
            }
            match self.accounts.get(&address) {
                Some(account) => {
                    let mut copy = account.clone();
                    copy.original = copy_info(&account.present);
                    copy.is_warm = self.inner.prewarm_set.is_warm(&address);
                    accounts.insert(address, copy);
                },
                None => {},
            }
            i += 1;
        }
        assert(keys@.take(keys.len() as int) =~= keys@);
        assert(accounts@ =~= self@.tx.isolated().accounts);
        let storage_keys = self.storage.keys();
        let mut storage: AddressMap<StorageOverlay> = AddressMap::new();
        let mut j: usize = 0;
        while j < storage_keys.len()
            invariant
                j <= storage_keys.len(),
                enumerates(storage_keys@, self@.tx.storage.dom()),
                forall|a: Address| #[trigger]
                    storage@.contains_key(a) <==> storage_keys@.take(j as int).contains(a),
                forall|a: Address| #[trigger]
                    storage@.contains_key(a) ==> storage@[a] == self@.tx.isolated().storage[a],
            decreases storage_keys.len() - j,
        {
            let address = storage_keys[j];
            proof {
                assert(storage_keys@.contains(address));
                lemma_take_contains(storage_keys@, j as int);
            }
            match self.storage.get(&address) {
                Some(overlay) => {
                    storage.insert(address, overlay.isolated());
                },
                None => {},
            }
            j += 1;
        }
        assert(storage_keys@.take(storage_keys.len() as int) =~= storage_keys@);
        assert(storage@ =~= self@.tx.isolated().storage);
        PendingState { accounts, storage, selfdestructs: self.inner.selfdestructs.duplicate() }
    }

    /// Merges one account that an isolated transaction left behind.
    fn merge_account(&mut self, address: Address, child: &Account)
        ensures
            final(self).accounts@ == old(self).accounts@.insert(
                address,
                if old(self).accounts@.contains_key(address) {
                    old(self).accounts@[address].merged(*child)
                } else {
                    *child
                },
            ),
            final(self).storage == old(self).storage,
            final(self).transient_storage == old(self).transient_storage,
            final(self).inner == old(self).inner,
            final(self).history == old(self).history,
    {
        let merged = match self.accounts.get(&address) {
            Some(own) => Account {
                original: copy_info(&own.original),
                present: copy_info(&child.present),
                is_warm: own.is_warm,
                is_touched: own.is_touched || child.is_touched,
                is_destroyed: own.is_destroyed || child.is_destroyed,
                just_created: own.just_created || child.just_created,
                code_changed: own.code_changed || child.code_changed,
            },
            None => child.clone(),
        };
        self.accounts.insert(address, merged);
    }

    /// Merges the storage of one account that an isolated transaction left behind.
    fn merge_overlay(&mut self, address: Address, child: &StorageOverlay)
        ensures
            final(self).storage@ == old(self).storage@.insert(
                address,
                (if old(self).storage@.contains_key(address) {
                    old(self).storage@[address]
                } else {
                    OverlayView::empty()
                }).merged(child@),
            ),
            final(self).accounts == old(self).accounts,
            final(self).transient_storage == old(self).transient_storage,
            final(self).inner == old(self).inner,
            final(self).history == old(self).history,
    {
        if !self.storage.contains_key(&address) {
            self.storage.insert(address, StorageOverlay::new());
        }
        match self.storage.get_mut(&address) {
            Some(overlay) => {
                overlay.merge(child);
            },
            None => {},
        }
        assert(self.storage@ =~= old(self).storage@.insert(
            address,
            (if old(self).storage@.contains_key(address) {
                old(self).storage@[address]
            } else {
                OverlayView::empty()
            }).merged(child@),
        ));
    }

    /// Merges the loaded state that an isolated transaction left behind, without journal entries.
    pub fn merge_isolated_state(&mut self, child: PendingState)
        requires
            old(self).wf(),
        ensures
            final(self)@ == old(self)@.with_tx(old(self)@.tx.merge_isolated(child@)),
            final(self).inner.database == old(self).inner.database,
            final(self).wf(),
    {
        let keys = child.accounts.keys();
        let mut i: usize = 0;
        while i < keys.len()
            invariant
                i <= keys.len(),
                enumerates(keys@, child@.accounts.dom()),
                forall|a: Address| #[trigger]
                    self.accounts@.contains_key(a) <==> old(self).accounts@.contains_key(a)
                        || keys@.take(i as int).contains(a),
                forall|a: Address| #[trigger]
                    self.accounts@.contains_key(a) ==> self.accounts@[a] == if keys@.take(
                        i as int,
                    ).contains(a) {
                        merged_accounts(old(self).accounts@, child@.accounts)[a]
                    } else {
                        old(self).accounts@[a]
                    },
                self.storage == old(self).storage,
                self.transient_storage == old(self).transient_storage,
                self.inner == old(self).inner,
                self.history == old(self).history,
            decreases keys.len() - i,
        {
            let address = keys[i];
            proof {
                assert(keys@.contains(address));
                lemma_take_contains(keys@, i as int);
                assert(!keys@.take(i as int).contains(address));
            }
            match child.accounts.get(&address) {
                Some(account) => {
                    self.merge_account(address, account);
                },
                None => {},
            }
            i += 1;
        }
        assert(keys@.take(keys.len() as int) =~= keys@);
        assert(self.accounts@ =~= merged_accounts(old(self).accounts@, child@.accounts));
        let storage_keys = child.storage.keys();
        let mut j: usize = 0;
        while j < storage_keys.len()
            invariant
                j <= storage_keys.len(),
                enumerates(storage_keys@, child@.storage.dom()),
                forall|a: Address| #[trigger]
                    self.storage@.contains_key(a) <==> old(self).storage@.contains_key(a)
                        || storage_keys@.take(j as int).contains(a),
                forall|a: Address| #[trigger]
                    self.storage@.contains_key(a) ==> self.storage@[a] == if storage_keys@.take(
                        j as int,
                    ).contains(a) {
                        merged_storage(old(self).storage@, child@.storage)[a]
                    } else {
                        old(self).storage@[a]
                    },
                self.accounts@ == merged_accounts(old(self).accounts@, child@.accounts),
                self.transient_storage == old(self).transient_storage,
                self.inner == old(self).inner,
                self.history == old(self).history,
            decreases storage_keys.len() - j,
        {
            let address = storage_keys[j];
            proof {
                assert(storage_keys@.contains(address));
                lemma_take_contains(storage_keys@, j as int);
                assert(!storage_keys@.take(j as int).contains(address));
            }
            match child.storage.get(&address) {
                Some(overlay) => {
                    self.merge_overlay(address, overlay);
                },
                None => {},
            }
            j += 1;
        }
        assert(storage_keys@.take(storage_keys.len() as int) =~= storage_keys@);
        assert(self.storage@ =~= merged_storage(old(self).storage@, child@.storage));
        let destroyed = child.selfdestructs.members();
        let ghost marked = Set::new(
            |a: Address| self.accounts@.contains_key(a) && self.accounts@[a].is_destroyed,
        );
        let mut k: usize = 0;
        while k < destroyed.len()
            invariant
                k <= destroyed.len(),
                enumerates(destroyed@, child@.selfdestructs),
                marked == Set::new(
                    |a: Address| self.accounts@.contains_key(a) && self.accounts@[a].is_destroyed,
                ),
                forall|a: Address| #[trigger]
                    self.inner.selfdestructs@.contains(a) <==> old(self).inner.selfdestructs@.contains(
                        a,
                    ) || (destroyed@.take(k as int).contains(a) && marked.contains(a)),
                self.accounts@ == merged_accounts(old(self).accounts@, child@.accounts),
                self.storage@ == merged_storage(old(self).storage@, child@.storage),
                self.transient_storage == old(self).transient_storage,
                self.inner.database == old(self).inner.database,
                self.inner.prewarm_set == old(self).inner.prewarm_set,
                self.inner.journal == old(self).inner.journal,
                self.inner.logs == old(self).inner.logs,
                self.history == old(self).history,
            decreases destroyed.len() - k,
        {
            let address = destroyed[k];
            proof {
                assert(destroyed@.contains(address));
                lemma_take_contains(destroyed@, k as int);
            }
            let still_pending = match self.accounts.get(&address) {
                Some(account) => account.is_destroyed,
                None => false,
            };
            if still_pending {
                self.inner.selfdestructs.insert(address);
            }
            k += 1;
        }
        assert(destroyed@.take(destroyed.len() as int) =~= destroyed@);
        assert(self@.tx =~= old(self)@.tx.merge_isolated(child@));
    }

    /// Copies an account and its storage, as they stand in the transaction of another state, into
    /// the current transaction. Does nothing where the account is not loaded there. Slots that only
    /// this state has loaded stay. No journal entry is added.
    pub fn merge_transaction_account_from<E: Database>(&mut self, address: &Address, source: &State<E>)
        requires
            old(self).wf(),
        ensures
            final(self)@ == old(self)@.with_tx(old(self)@.tx.copy_account(*address, source@.tx)),
            final(self).inner.database == old(self).inner.database,
            final(self).wf(),
    {
        match source.accounts.get(address) {
            Some(account) => {
                self.accounts.insert(*address, account.clone());
            },
            None => {
                return ;
            },
        }
        match source.storage.get(address) {
            Some(overlay) => {
                if !self.storage.contains_key(address) {
                    self.storage.insert(*address, StorageOverlay::new());
                }
                match self.storage.get_mut(address) {
                    Some(own) => {
                        own.overwrite(overlay);
                    },
                    None => {},
                }
            },
            None => {},
        }
        if source.inner.selfdestructs.contains(address) {
            self.inner.selfdestructs.insert(*address);
        } else {
            self.inner.selfdestructs.remove(address);
        }
        assert(self@.tx =~= old(self)@.tx.copy_account(*address, source@.tx));
    }

    /// Clears an account's touch and the warmth of its loaded slots, without journal entries. The
    /// warmth of the account stays, and so does the pre-warmed set.
    pub fn clear_account_touch_and_storage_warmth(&mut self, address: &Address)
        requires
            old(self).wf(),
        ensures
            final(self)@ == old(self)@.with_tx(old(self)@.tx.cool_account(*address)),
            final(self).inner == old(self).inner,
            final(self).wf(),
    {
        match self.accounts.get_mut(address) {
            Some(account) => {
                account.is_touched = false;
            },
            None => {},
        }
        match self.storage.get_mut(address) {
            Some(overlay) => {
                overlay.cool();
            },
            None => {},
        }
        assert(self@.tx =~= old(self)@.tx.cool_account(*address));
    }
}

} // verus!
