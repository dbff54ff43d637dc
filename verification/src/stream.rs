//! Streams of state changes, in the order in which a database applies them.
use vstd::prelude::*;

use crate::account::Account;
use crate::fixed::{Address, Word, B256};
use crate::info::{copy_info, AccountInfo, Bytecode};
use crate::map::{enumerates, AddressMap, AddressSet};
use crate::storage::{OverlayView, StorageOverlay, StorageSlot};

verus! {

/// A storage slot with the value a transaction found and the one it left.
#[derive(Clone, Copy, Debug, PartialEq, Eq)]
pub struct StorageChange {
    pub address: Address,
    pub key: Word,
    pub original: Word,
    pub current: Word,
}

/// An account with the contents a transaction found and those it left.
#[derive(Debug)]
pub struct AccountChangeRef<'c> {
    pub address: Address,
    pub original: Option<&'c AccountInfo>,
    pub current: Option<&'c AccountInfo>,
    pub created: bool,
    pub selfdestructed: bool,
}

/// One element of a stream of state changes.
#[derive(Debug, PartialEq, Eq)]
pub enum StateChange {
    /// Code became part of the state.
    Bytecode { code_hash: B256, code: Bytecode },
    /// All storage of an account was dropped.
    StorageWipe { address: Address },
    /// A slot has to be written.
    Storage(StorageChange),
    /// A slot was read and needs no write.
    StorageRead { address: Address, key: Word, value: Word },
    /// An account has to be written.
    Account {
        address: Address,
        original: Option<AccountInfo>,
        current: Option<AccountInfo>,
        created: bool,
        selfdestructed: bool,
    },
    /// An account was read and needs no write.
    AccountRead { address: Address, current: Option<AccountInfo> },
}

impl Clone for StateChange {
    fn clone(&self) -> (r: Self)
        ensures
            r == *self,
    {
        match self {
            StateChange::Bytecode { code_hash, code } => StateChange::Bytecode {
                code_hash: *code_hash,
                code: code.clone(),
            },
            StateChange::StorageWipe { address } => StateChange::StorageWipe { address: *address },
            StateChange::Storage(change) => StateChange::Storage(*change),
            StateChange::StorageRead { address, key, value } => StateChange::StorageRead {
                address: *address,
                key: *key,
                value: *value,
            },
            StateChange::Account { address, original, current, created, selfdestructed } =>
                StateChange::Account {
                    address: *address,
                    original: copy_info(original),
                    current: copy_info(current),
                    created: *created,
                    selfdestructed: *selfdestructed,
                },
            StateChange::AccountRead { address, current } => StateChange::AccountRead {
                address: *address,
                current: copy_info(current),
            },
        }
    }
}

/// What a borrowed optional account refers to.
pub open spec fn referent(info: Option<&AccountInfo>) -> Option<AccountInfo> {
    match info {
        Some(info) => Some(*info),
        None => None,
    }
}

impl<'c> AccountChangeRef<'c> {
    /// The change as an element of a stream.
    pub open spec fn change(self) -> StateChange {
        StateChange::Account {
            address: self.address,
            original: referent(self.original),
            current: referent(self.current),
            created: self.created,
            selfdestructed: self.selfdestructed,
        }
    }
}

/// The error in `result`, if it holds one.
pub open spec fn failure<E>(result: Result<(), E>) -> Option<E> {
    match result {
        Ok(_) => None,
        Err(error) => Some(error),
    }
}

/// A consumer of state changes.
pub trait StateChangeSink: Sized {
    /// What the consumer reports when it stops a stream.
    type Error;

    /// Whether the consumer, given `change` in the state `self`, may be in the state `after` from
    /// then on, having taken the change where `failure` is `None` and failed with it otherwise.
    spec fn takes(&self, change: StateChange, failure: Option<Self::Error>, after: Self) -> bool;

    /// Takes code that became part of the state.
    fn bytecode(&mut self, code_hash: B256, code: &Bytecode) -> (r: Result<(), Self::Error>)
        ensures
            old(self).takes(StateChange::Bytecode { code_hash, code: *code }, failure(r), *final(self)),
    ;

    /// Takes the loss of all storage of an account.
    fn storage_wipe(&mut self, address: Address) -> (r: Result<(), Self::Error>)
        ensures
            old(self).takes(StateChange::StorageWipe { address }, failure(r), *final(self)),
    ;

    /// Takes a slot that has to be written.
    fn storage(&mut self, change: StorageChange) -> (r: Result<(), Self::Error>)
        ensures
            old(self).takes(StateChange::Storage(change), failure(r), *final(self)),
    ;

    /// Takes a slot that was only read.
    fn storage_read(&mut self, address: Address, key: Word, value: Word) -> (r: Result<
        (),
        Self::Error,
    >)
        ensures
            old(self).takes(StateChange::StorageRead { address, key, value }, failure(r), *final(self)),
    ;

    /// Takes an account that has to be written.
    fn account(&mut self, change: AccountChangeRef<'_>) -> (r: Result<(), Self::Error>)
        ensures
            old(self).takes(change.change(), failure(r), *final(self)),
    ;

    /// Takes an account that was only read.
    fn account_read(&mut self, address: Address, current: Option<&AccountInfo>) -> (r: Result<
        (),
        Self::Error,
    >)
        ensures
            old(self).takes(
                StateChange::AccountRead { address, current: referent(current) },
                failure(r),
                *final(self),
            ),
    ;
}

/// A consumer that ignores everything.
#[derive(Clone, Copy, Debug)]
pub struct NoopChangeSink;

impl StateChangeSink for NoopChangeSink {
    type Error = ();

    open spec fn takes(&self, change: StateChange, failure: Option<()>, after: Self) -> bool {
        failure is None && after == *self
    }

    fn bytecode(&mut self, code_hash: B256, code: &Bytecode) -> (r: Result<(), ()>) {
        Ok(())
    }

    fn storage_wipe(&mut self, address: Address) -> (r: Result<(), ()>) {
        Ok(())
    }

    fn storage(&mut self, change: StorageChange) -> (r: Result<(), ()>) {
        Ok(())
    }

    fn storage_read(&mut self, address: Address, key: Word, value: Word) -> (r: Result<(), ()>) {
        Ok(())
    }

    fn account(&mut self, change: AccountChangeRef<'_>) -> (r: Result<(), ()>) {
        Ok(())
    }

    fn account_read(&mut self, address: Address, current: Option<&AccountInfo>) -> (r: Result<
        (),
        (),
    >) {
        Ok(())
    }
}

/// Whether `sink`, given all of `changes` in turn, may take each one and end as `after`.
pub open spec fn takes_all<S: StateChangeSink>(sink: S, changes: Seq<StateChange>, after: S) -> bool
    decreases changes.len(),
{
    if changes.len() == 0 {
        after == sink
    } else {
        exists|before: S|
            takes_all(sink, changes.drop_last(), before) && #[trigger] before.takes(
                changes.last(),
                None,
                after,
            )
    }
}

/// Whether `result` and `after` may be the outcome of giving `changes` to `sink` in turn until it
/// fails to take one.
pub open spec fn feeds<S: StateChangeSink>(
    sink: S,
    changes: Seq<StateChange>,
    result: Result<(), S::Error>,
    after: S,
) -> bool {
    match result {
        Ok(()) => takes_all(sink, changes, after),
        Err(_) => exists|n: int, before: S|
            #![trigger takes_all(sink, changes.take(n), before)]
            {
                &&& 0 <= n < changes.len()
                &&& takes_all(sink, changes.take(n), before)
                &&& before.takes(changes[n], failure(result), after)
            },
    }
}

/// Gives one change to the method of `sink` that is for it.
fn feed_one<S: StateChangeSink>(sink: &mut S, change: &StateChange) -> (r: Result<(), S::Error>)
    ensures
        old(sink).takes(*change, failure(r), *final(sink)),
{
    match change {
        StateChange::Bytecode { code_hash, code } => sink.bytecode(*code_hash, code),
        StateChange::StorageWipe { address } => sink.storage_wipe(*address),
        StateChange::Storage(change) => sink.storage(*change),
        StateChange::StorageRead { address, key, value } => sink.storage_read(*address, *key, *value),
        StateChange::Account { address, original, current, created, selfdestructed } => sink.account(
            AccountChangeRef {
                address: *address,
                original: original.as_ref(),
                current: current.as_ref(),
                created: *created,
                selfdestructed: *selfdestructed,
            },
        ),
        StateChange::AccountRead { address, current } => sink.account_read(
            *address,
            current.as_ref(),
        ),
    }
}

/// Gives `changes` to `sink` in turn until it fails to take one.
pub fn feed<S: StateChangeSink>(sink: &mut S, changes: &Vec<StateChange>) -> (r: Result<
    (),
    S::Error,
>)
    ensures
        feeds(*old(sink), changes@, r, *final(sink)),
{
    let mut i: usize = 0;
    while i < changes.len()
        invariant
            i <= changes.len(),
            takes_all(*old(sink), changes@.take(i as int), *sink),
        decreases changes.len() - i,
    {
        let ghost before = *sink;
        let r = feed_one(sink, &changes[i]);
        match r {
            Ok(()) => {},
            Err(_) => {
                assert(takes_all(*old(sink), changes@.take(i as int), before));
                return r;
            },
        }
        proof {
            let longer = changes@.take(i + 1);
            assert(longer.drop_last() =~= changes@.take(i as int));
            assert(takes_all(*old(sink), longer.drop_last(), before));
            assert(before.takes(longer.last(), None, *sink));
            assert(takes_all(*old(sink), longer, *sink));
        }
        i += 1;
    }
    assert(changes@.take(changes.len() as int) =~= changes@);
    Ok(())
}

/// The code that `account` brought into the state, if it did.
pub open spec fn code_change(account: Account) -> Seq<StateChange> {
    match account.spec_changed_code() {
        Some((code_hash, code)) => seq![StateChange::Bytecode { code_hash, code }],
        None => Seq::empty(),
    }
}

/// What a stream says of one slot.
pub open spec fn slot_change(address: Address, key: Word, slot: StorageSlot, wiped: bool) -> StateChange {
    if slot.spec_is_changed(wiped) {
        StateChange::Storage(
            StorageChange { address, key, original: slot.value.original, current: slot.value.current },
        )
    } else {
        StateChange::StorageRead { address, key, value: slot.value.current }
    }
}

/// What a stream says of one account.
pub open spec fn account_change(address: Address, account: Account, selfdestructed: bool) -> StateChange {
    if account.spec_is_changed() || account.just_created || selfdestructed {
        StateChange::Account {
            address,
            original: account.original,
            current: account.present,
            created: account.just_created,
            selfdestructed,
        }
    } else {
        StateChange::AccountRead { address, current: account.present }
    }
}

/// The code changes of the accounts in `order`.
pub open spec fn code_changes(accounts: Map<Address, Account>, order: Seq<Address>) -> Seq<StateChange>
    decreases order.len(),
{
    if order.len() == 0 {
        Seq::empty()
    } else {
        code_changes(accounts, order.drop_last()) + code_change(accounts[order.last()])
    }
}

/// The changes of the slots in `order` of one account.
pub open spec fn slot_changes(address: Address, overlay: OverlayView, order: Seq<Word>) -> Seq<StateChange>
    decreases order.len(),
{
    if order.len() == 0 {
        Seq::empty()
    } else {
        slot_changes(address, overlay, order.drop_last()).push(
            slot_change(address, order.last(), overlay.slots[order.last()], overlay.wiped),
        )
    }
}

/// The storage changes of one account: a wipe first, where there was one, then its slots.
pub open spec fn overlay_changes(address: Address, overlay: OverlayView, order: Seq<Word>) -> Seq<
    StateChange,
> {
    if overlay.wiped {
        seq![StateChange::StorageWipe { address }] + slot_changes(address, overlay, order)
    } else {
        slot_changes(address, overlay, order)
    }
}

/// The storage changes of the accounts in `order`, whose slots are in the orders of `slot_orders`.
pub open spec fn storage_changes(
    storage: Map<Address, OverlayView>,
    order: Seq<Address>,
    slot_orders: Seq<Seq<Word>>,
) -> Seq<StateChange>
    decreases order.len(),
{
    if order.len() == 0 {
        Seq::empty()
    } else {
        storage_changes(storage, order.drop_last(), slot_orders) + overlay_changes(
            order.last(),
            storage[order.last()],
            slot_orders[order.len() - 1],
        )
    }
}

/// The account changes of the accounts in `order`.
pub open spec fn account_changes(
    accounts: Map<Address, Account>,
    selfdestructs: Set<Address>,
    order: Seq<Address>,
) -> Seq<StateChange>
    decreases order.len(),
{
    if order.len() == 0 {
        Seq::empty()
    } else {
        account_changes(accounts, selfdestructs, order.drop_last()).push(
            account_change(
                order.last(),
                accounts[order.last()],
                selfdestructs.contains(order.last()),
            ),
        )
    }
}

/// Whether the orders list every account, every account with storage and every slot once.
pub open spec fn orders_complete(
    accounts: Map<Address, Account>,
    storage: Map<Address, OverlayView>,
    order: Seq<Address>,
    storage_order: Seq<Address>,
    slot_orders: Seq<Seq<Word>>,
) -> bool {
    &&& enumerates(order, accounts.dom())
    &&& enumerates(storage_order, storage.dom())
    &&& slot_orders.len() == storage_order.len()
    &&& forall|i: int|
        0 <= i < storage_order.len() ==> enumerates(
            #[trigger] slot_orders[i],
            storage[storage_order[i]].slots.dom(),
        )
}

/// Whether `changes` says once of each part of a transaction layer what became of it, in the order
/// in which a database applies it: code, then storage, then accounts. The order within each of
/// these is free.
pub open spec fn lists_changes(
    accounts: Map<Address, Account>,
    storage: Map<Address, OverlayView>,
    selfdestructs: Set<Address>,
    changes: Seq<StateChange>,
) -> bool {
    exists|order: Seq<Address>, storage_order: Seq<Address>, slot_orders: Seq<Seq<Word>>|
        #![trigger orders_complete(accounts, storage, order, storage_order, slot_orders)]
        {
            &&& orders_complete(accounts, storage, order, storage_order, slot_orders)
            &&& changes == code_changes(accounts, order) + storage_changes(
                storage,
                storage_order,
                slot_orders,
            ) + account_changes(accounts, selfdestructs, order)
        }
}

/// Appends to `changes` what a stream says of the storage of one account, and returns the order of
/// the slots in it.
fn list_overlay(address: Address, overlay: &StorageOverlay, changes: &mut Vec<StateChange>) -> (r:
    Vec<Word>)
    ensures
        enumerates(r@, overlay@.slots.dom()),
        final(changes)@ == old(changes)@ + overlay_changes(address, overlay@, r@),
{
    if overlay.wiped {
        changes.push(StateChange::StorageWipe { address });
    }
    let keys = overlay.slots.keys();
    let ghost start = changes@;
    let mut i: usize = 0;
    while i < keys.len()
        invariant
            i <= keys.len(),
            enumerates(keys@, overlay@.slots.dom()),
            changes@ == start + slot_changes(address, overlay@, keys@.take(i as int)),
        decreases keys.len() - i,
    {
        let key = keys[i];
        assert(keys@.contains(key));
        match overlay.slots.get(&key) {
            Some(slot) => {
                if slot.is_changed(overlay.wiped) {
                    changes.push(
                        StateChange::Storage(
                            StorageChange {
                                address,
                                key,
                                original: slot.value.original,
                                current: slot.value.current,
                            },
                        ),
                    );
                } else {
                    changes.push(
                        StateChange::StorageRead { address, key, value: slot.value.current },
                    );
                }
            },
            None => {},
        }
        proof {
            let longer = keys@.take(i + 1);
            assert(longer.drop_last() =~= keys@.take(i as int));
            assert(changes@ =~= start + slot_changes(address, overlay@, longer));
        }
        i += 1;
    }
    assert(keys@.take(keys.len() as int) =~= keys@);
    assert(changes@ =~= old(changes)@ + overlay_changes(address, overlay@, keys@));
    keys
}

/// Lists the changes of a transaction layer.
pub fn list_changes(
    accounts: &AddressMap<Account>,
    storage: &AddressMap<StorageOverlay>,
    selfdestructs: &AddressSet,
) -> (r: Vec<StateChange>)
    ensures
        lists_changes(accounts@, storage@, selfdestructs@, r@),
{
    let mut changes: Vec<StateChange> = Vec::new();
    let order = accounts.keys();
    let mut i: usize = 0;
    while i < order.len()
        invariant
            i <= order.len(),
            enumerates(order@, accounts@.dom()),
            changes@ == code_changes(accounts@, order@.take(i as int)),
        decreases order.len() - i,
    {
        let address = order[i];
        assert(order@.contains(address));
        match accounts.get(&address) {
            Some(account) => {
                if let Some((code_hash, code)) = account.changed_code() {
                    changes.push(StateChange::Bytecode { code_hash, code: code.clone() });
                }
            },
            None => {},
        }
        proof {
            let longer = order@.take(i + 1);
            assert(longer.drop_last() =~= order@.take(i as int));
            assert(changes@ =~= code_changes(accounts@, longer));
        }
        i += 1;
    }
    assert(order@.take(order.len() as int) =~= order@);
    let ghost codes = changes@;
    let storage_order = storage.keys();
    let ghost mut slot_orders: Seq<Seq<Word>> = Seq::empty();
    let mut j: usize = 0;
    assert(changes@ =~= codes + storage_changes(storage@, storage_order@.take(0), slot_orders));
    while j < storage_order.len()
        invariant
            j <= storage_order.len(),
            enumerates(storage_order@, storage@.dom()),
            slot_orders.len() == j,
            forall|i: int|
                0 <= i < j ==> enumerates(
                    #[trigger] slot_orders[i],
                    storage@[storage_order@[i]].slots.dom(),
                ),
            changes@ == codes + storage_changes(storage@, storage_order@.take(j as int), slot_orders),
        decreases storage_order.len() - j,
    {
        let address = storage_order[j];
        assert(storage_order@.contains(address));
        match storage.get(&address) {
            Some(overlay) => {
                let ghost before = changes@;
                let slot_order = list_overlay(address, overlay, &mut changes);
                proof {
                    let shorter = storage_order@.take(j as int);
                    let longer = storage_order@.take(j + 1);
                    let extended = slot_orders.push(slot_order@);
                    assert(longer.drop_last() =~= shorter);
                    lemma_storage_changes_frame(storage@, shorter, slot_orders, extended);
                    assert(changes@ =~= codes + storage_changes(storage@, longer, extended));
                    slot_orders = extended;
                }
            },
            None => {},
        }
        j += 1;
    }
    assert(storage_order@.take(storage_order.len() as int) =~= storage_order@);
    let ghost stored = changes@;
    let mut k: usize = 0;
    while k < order.len()
        invariant
            k <= order.len(),
            enumerates(order@, accounts@.dom()),
            changes@ == stored + account_changes(accounts@, selfdestructs@, order@.take(k as int)),
        decreases order.len() - k,
    {
        let address = order[k];
        assert(order@.contains(address));
        match accounts.get(&address) {
            Some(account) => {
                let selfdestructed = selfdestructs.contains(&address);
                if account.is_changed() || account.is_created() || selfdestructed {
                    changes.push(
                        StateChange::Account {
                            address,
                            original: copy_info(&account.original),
                            current: copy_info(&account.present),
                            created: account.is_created(),
                            selfdestructed,
                        },
                    );
                } else {
                    changes.push(
                        StateChange::AccountRead { address, current: copy_info(&account.present) },
                    );
                }
            },
            None => {},
        }
        proof {
            let longer = order@.take(k + 1);
            assert(longer.drop_last() =~= order@.take(k as int));
            assert(changes@ =~= stored + account_changes(accounts@, selfdestructs@, longer));
        }
        k += 1;
    }
    proof {
        assert(orders_complete(accounts@, storage@, order@, storage_order@, slot_orders));
        assert(changes@ =~= code_changes(accounts@, order@) + storage_changes(
            storage@,
            storage_order@,
            slot_orders,
        ) + account_changes(accounts@, selfdestructs@, order@));
    }
    changes
}

/// `storage_changes` reads only as many slot orders as there are accounts.
proof fn lemma_storage_changes_frame(
    storage: Map<Address, OverlayView>,
    order: Seq<Address>,
    a: Seq<Seq<Word>>,
    b: Seq<Seq<Word>>,
)
    requires
        forall|i: int| 0 <= i < order.len() ==> a[i] == b[i],
    ensures
        storage_changes(storage, order, a) == storage_changes(storage, order, b),
    decreases order.len(),
{
    if order.len() > 0 {
        lemma_storage_changes_frame(storage, order.drop_last(), a, b);
    }
}

/// A producer of state changes.
pub trait StateChangeSource: Sized {
    /// Whether the producer may stream exactly `changes`.
    spec fn streams(&self, changes: Seq<StateChange>) -> bool;

    /// Gives the changes to `sink` in turn until it fails to take one.
    fn visit<S: StateChangeSink>(&self, sink: &mut S) -> (r: Result<(), S::Error>)
        ensures
            exists|changes: Seq<StateChange>| #[trigger]
                self.streams(changes) && feeds(*old(sink), changes, r, *final(sink)),
    ;
}

} // verus!
