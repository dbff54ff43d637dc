//! What a stream of state changes says of a transaction, how often, and in what order.
use vstd::prelude::*;

use crate::acceptance_laws::left_different;
use crate::account::Account;
use crate::db::Database;
use crate::fixed::{Address, FixedBytes, Word};
use crate::map::{enumerates, AddressMap, AddressSet};
use crate::pending::PendingState;
use crate::state::State;
use crate::storage::{OverlayView, StorageOverlay, StorageSlot};
use crate::stream::{
    account_change, account_changes, code_change, code_changes, failure, feed, feeds, list_changes,
    lists_changes, orders_complete, overlay_changes, slot_change, slot_changes, storage_changes,
    takes_all, AccountChangeRef, NoopChangeSink, StateChange, StateChangeSink, StateChangeSource,
};

verus! {

/// Whether `change` is code that the transaction gave the account, under the hash of its code.
pub open spec fn is_code_of(account: Account, change: StateChange) -> bool {
    match change {
        StateChange::Bytecode { code_hash, code } => {
            &&& account.code_changed
            &&& account.present is Some
            &&& account.present->0.code == Some(code)
            &&& account.present->0.code_hash == code_hash
        },
        _ => false,
    }
}

/// Whether a slot has to be written: its value is another than was found, or, where all storage
/// around it is dropped first, another than zero.
pub open spec fn is_written(slot: StorageSlot, wiped: bool) -> bool {
    if wiped {
        slot.value.current != FixedBytes::<32>::spec_zero()
    } else {
        slot.value.current != slot.value.original
    }
}

/// Whether `change` says what became of the storage of an account: of all of it that it was dropped,
/// of a slot with what it held and holds that it has to be written, or of a slot with what it holds
/// that it has not.
pub open spec fn is_storage_of(address: Address, overlay: OverlayView, change: StateChange) -> bool {
    match change {
        StateChange::StorageWipe { address: wiped } => wiped == address && overlay.wiped,
        StateChange::Storage(write) => {
            &&& write.address == address
            &&& overlay.slots.contains_key(write.key)
            &&& write.original == overlay.slots[write.key].value.original
            &&& write.current == overlay.slots[write.key].value.current
            &&& is_written(overlay.slots[write.key], overlay.wiped)
        },
        StateChange::StorageRead { address: read, key, value } => {
            &&& read == address
            &&& overlay.slots.contains_key(key)
            &&& value == overlay.slots[key].value.current
            &&& !is_written(overlay.slots[key], overlay.wiped)
        },
        _ => false,
    }
}

/// Whether `change` says what became of an account: where the transaction left it different or it
/// self-destructed, what it was and is, whether it was created and whether it self-destructed;
/// otherwise what it is.
pub open spec fn is_account_of(
    address: Address,
    account: Account,
    destructed: bool,
    change: StateChange,
) -> bool {
    match change {
        StateChange::Account { address: written, original, current, created, selfdestructed } => {
            &&& written == address
            &&& original == account.original
            &&& current == account.present
            &&& created == account.just_created
            &&& selfdestructed == destructed
            &&& left_different(account) || destructed
        },
        StateChange::AccountRead { address: read, current } => {
            &&& read == address
            &&& current == account.present
            &&& !left_different(account) && !destructed
        },
        _ => false,
    }
}

/// Whether `change` is something that a stream of the transaction has to say.
pub open spec fn is_said(
    accounts: Map<Address, Account>,
    storage: Map<Address, OverlayView>,
    selfdestructs: Set<Address>,
    change: StateChange,
) -> bool {
    ||| exists|a: Address| #[trigger] accounts.contains_key(a) && is_code_of(accounts[a], change)
    ||| exists|a: Address| #[trigger]
        storage.contains_key(a) && is_storage_of(a, storage[a], change)
    ||| exists|a: Address| #[trigger]
        accounts.contains_key(a) && is_account_of(
            a,
            accounts[a],
            selfdestructs.contains(a),
            change,
        )
}

/// A stream of changes says what it has to say of the transaction, and nothing else: all new code,
/// every wipe, every loaded slot and every loaded account, the last two as written or as read.
pub proof fn law_stream_says_everything(
    accounts: Map<Address, Account>,
    storage: Map<Address, OverlayView>,
    selfdestructs: Set<Address>,
    changes: Seq<StateChange>,
    change: StateChange,
)
    requires
        lists_changes(accounts, storage, selfdestructs, changes),
    ensures
        changes.contains(change) <==> is_said(accounts, storage, selfdestructs, change),
{
    let (order, storage_order, slot_orders) = lemma_orders(accounts, storage, selfdestructs, changes);
    let codes = code_changes(accounts, order);
    let stores = storage_changes(storage, storage_order, slot_orders);
    let writes = account_changes(accounts, selfdestructs, order);
    lemma_concat_contains(codes + stores, writes, change);
    lemma_concat_contains(codes, stores, change);
    lemma_codes(accounts, order, change);
    lemma_stores(storage, storage_order, slot_orders, change);
    lemma_accounts(accounts, selfdestructs, order, change);
    if changes.contains(change) {
        if codes.contains(change) {
            let a = choose|a: Address| #[trigger] order.contains(a) && is_code_of(accounts[a], change);
            assert(accounts.contains_key(a));
        } else if stores.contains(change) {
            let a = choose|a: Address| #[trigger]
                storage_order.contains(a) && is_storage_of(a, storage[a], change);
            assert(storage.contains_key(a));
        } else {
            let a = choose|a: Address| #[trigger]
                order.contains(a) && is_account_of(
                    a,
                    accounts[a],
                    selfdestructs.contains(a),
                    change,
                );
            assert(accounts.contains_key(a));
        }
    }
    if is_said(accounts, storage, selfdestructs, change) {
        if exists|a: Address| #[trigger]
            accounts.contains_key(a) && is_code_of(accounts[a], change) {
            let a = choose|a: Address| #[trigger]
                accounts.contains_key(a) && is_code_of(accounts[a], change);
            assert(order.contains(a));
        } else if exists|a: Address| #[trigger]
            storage.contains_key(a) && is_storage_of(a, storage[a], change) {
            let a = choose|a: Address| #[trigger]
                storage.contains_key(a) && is_storage_of(a, storage[a], change);
            assert(storage_order.contains(a));
        } else {
            let a = choose|a: Address| #[trigger]
                accounts.contains_key(a) && is_account_of(
                    a,
                    accounts[a],
                    selfdestructs.contains(a),
                    change,
                );
            assert(order.contains(a));
        }
    }
}

/// The stage of a stream to which a change belongs: code first, then storage, then accounts.
pub open spec fn stage(change: StateChange) -> int {
    match change {
        StateChange::Bytecode { .. } => 0,
        StateChange::StorageWipe { .. } => 1,
        StateChange::Storage(_) => 1,
        StateChange::StorageRead { .. } => 1,
        StateChange::Account { .. } => 2,
        StateChange::AccountRead { .. } => 2,
    }
}

/// Whether `change` is of a slot of an account.
pub open spec fn is_slot_of(address: Address, change: StateChange) -> bool {
    match change {
        StateChange::Storage(write) => write.address == address,
        StateChange::StorageRead { address: read, .. } => read == address,
        _ => false,
    }
}

/// Whether `change` drops all storage of an account.
pub open spec fn is_wipe_of(address: Address, change: StateChange) -> bool {
    match change {
        StateChange::StorageWipe { address: wiped } => wiped == address,
        _ => false,
    }
}

/// In a stream of changes, code comes before storage and storage before accounts; storage of an
/// account is dropped before any of its slots is said; and nothing but code is said twice.
pub proof fn law_stream_is_in_order(
    accounts: Map<Address, Account>,
    storage: Map<Address, OverlayView>,
    selfdestructs: Set<Address>,
    changes: Seq<StateChange>,
    i: int,
    j: int,
    address: Address,
)
    requires
        lists_changes(accounts, storage, selfdestructs, changes),
        0 <= i < j < changes.len(),
    ensures
        stage(changes[i]) <= stage(changes[j]),
        is_slot_of(address, changes[i]) ==> !is_wipe_of(address, changes[j]),
        changes[i] == changes[j] ==> changes[i] is Bytecode,
{
    let (order, storage_order, slot_orders) = lemma_orders(accounts, storage, selfdestructs, changes);
    let codes = code_changes(accounts, order);
    let stores = storage_changes(storage, storage_order, slot_orders);
    let writes = account_changes(accounts, selfdestructs, order);
    lemma_code_stage(accounts, order);
    lemma_tidy(storage, storage_order, slot_orders);
    lemma_account_positions(accounts, selfdestructs, order);
    let first = codes.len() as int;
    let second = first + stores.len();
    assert forall|k: int| 0 <= k < changes.len() implies #[trigger] changes[k] == if k < first {
        codes[k]
    } else if k < second {
        stores[k - first]
    } else {
        writes[k - second]
    } by {}
    if first <= i && j < second {
        assert(stores[i - first] != stores[j - first]);
        assert(is_slot_of(address, stores[i - first]) ==> !is_wipe_of(address, stores[j - first]));
    }
    if second <= i {
        assert(order[i - second] != order[j - second]);
    }
}

/// What lists the changes of a transaction lists such a stream.
pub proof fn law_list_changes(
    accounts: &AddressMap<Account>,
    storage: &AddressMap<StorageOverlay>,
    selfdestructs: &AddressSet,
    changes: Vec<StateChange>,
    change: StateChange,
)
    requires
        call_ensures(list_changes, (accounts, storage, selfdestructs), changes),
    ensures
        changes@.contains(change) <==> is_said(accounts@, storage@, selfdestructs@, change),
{
    law_stream_says_everything(accounts@, storage@, selfdestructs@, changes@, change);
}

/// Visiting the changes of a transaction, of the one in flight or of one detached, gives the
/// consumer such a stream.
pub proof fn law_visited_changes<D: Database, S: StateChangeSink>(
    state: &State<D>,
    sink: &mut S,
    r: Result<(), S::Error>,
    pending: &PendingState,
    other: &mut S,
    q: Result<(), S::Error>,
)
    requires
        call_ensures(State::<D>::visit_transaction_changes::<S>, (state, sink), r),
        call_ensures(<PendingState as StateChangeSource>::visit::<S>, (pending, other), q),
    ensures
        exists|changes: Seq<StateChange>|
            #![trigger feeds(*old(sink), changes, r, *final(sink))]
            {
                &&& feeds(*old(sink), changes, r, *final(sink))
                &&& forall|change: StateChange| #[trigger]
                    changes.contains(change) <==> is_said(
                        state@.tx.accounts,
                        state@.tx.storage,
                        state@.tx.selfdestructs,
                        change,
                    )
            },
        exists|changes: Seq<StateChange>|
            #![trigger feeds(*old(other), changes, q, *final(other))]
            {
                &&& feeds(*old(other), changes, q, *final(other))
                &&& forall|change: StateChange| #[trigger]
                    changes.contains(change) <==> is_said(
                        pending@.accounts,
                        pending@.storage,
                        pending@.selfdestructs,
                        change,
                    )
            },
{
    let tx = state@.tx;
    let changes = choose|changes: Seq<StateChange>| #[trigger]
        lists_changes(tx.accounts, tx.storage, tx.selfdestructs, changes) && feeds(
            *old(sink),
            changes,
            r,
            *final(sink),
        );
    assert forall|change: StateChange| #[trigger] changes.contains(change) <==> is_said(
        tx.accounts,
        tx.storage,
        tx.selfdestructs,
        change,
    ) by {
        law_stream_says_everything(tx.accounts, tx.storage, tx.selfdestructs, changes, change);
    }
    assert(feeds(*old(sink), changes, r, *final(sink)));
    let detached = choose|changes: Seq<StateChange>| #[trigger]
        pending.streams(changes) && feeds(*old(other), changes, q, *final(other));
    assert forall|change: StateChange| #[trigger] detached.contains(change) <==> is_said(
        pending@.accounts,
        pending@.storage,
        pending@.selfdestructs,
        change,
    ) by {
        law_stream_says_everything(
            pending@.accounts,
            pending@.storage,
            pending@.selfdestructs,
            detached,
            change,
        );
    }
    assert(feeds(*old(other), detached, q, *final(other)));
}

/// A borrowed account change is the change of the account it names, with the contents it refers to
/// and the marks it has; a consumer fails with what it reports, and otherwise does not fail.
pub proof fn law_borrowed_change<'c, E>(borrowed: AccountChangeRef<'c>, result: Result<(), E>)
    ensures
        match borrowed.change() {
            StateChange::Account { address, original, current, created, selfdestructed } => {
                &&& address == borrowed.address
                &&& original is Some <==> borrowed.original is Some
                &&& original is Some ==> original->0 == *borrowed.original->0
                &&& current is Some <==> borrowed.current is Some
                &&& current is Some ==> current->0 == *borrowed.current->0
                &&& created == borrowed.created
                &&& selfdestructed == borrowed.selfdestructed
            },
            _ => false,
        },
        failure(result) is Some <==> result is Err,
        result is Err ==> failure(result) == Some(result->Err_0),
{
}

/// A consumer that ignores everything takes everything.
pub proof fn law_noop_consumer(
    sink: NoopChangeSink,
    change: StateChange,
    failed: Option<()>,
    after: NoopChangeSink,
)
    requires
        sink.takes(change, failed, after),
    ensures
        failed is None,
{
}

/// A consumer that takes a stream takes its changes one by one from first to last: of no changes it
/// takes none, and of one more it takes that in the state in which the others left it.
pub proof fn law_consumer_takes_one_by_one<S: StateChangeSink>(
    sink: S,
    changes: Seq<StateChange>,
    change: StateChange,
    after: S,
)
    ensures
        takes_all(sink, Seq::empty(), after) <==> after == sink,
        takes_all(sink, changes.push(change), after) <==> exists|between: S| #[trigger]
            takes_all(sink, changes, between) && between.takes(change, None, after),
{
    let longer = changes.push(change);
    assert(longer.drop_last() =~= changes);
    assert(longer.last() == change);
    if takes_all(sink, longer, after) {
        let between = choose|between: S|
            takes_all(sink, longer.drop_last(), between) && #[trigger] between.takes(
                longer.last(),
                None,
                after,
            );
        assert(takes_all(sink, changes, between) && between.takes(change, None, after));
    }
    if exists|between: S| #[trigger]
        takes_all(sink, changes, between) && between.takes(change, None, after) {
        let between = choose|between: S| #[trigger]
            takes_all(sink, changes, between) && between.takes(change, None, after);
        assert(takes_all(sink, longer.drop_last(), between));
        assert(between.takes(longer.last(), None, after));
    }
}

/// A stream ends well exactly where the consumer takes all of it; where it fails, the consumer has
/// taken what came before the change that it failed to take, and nothing after.
pub proof fn law_stream_stops_at_failure<S: StateChangeSink>(
    sink: &mut S,
    changes: &Vec<StateChange>,
    r: Result<(), S::Error>,
)
    requires
        call_ensures(feed::<S>, (sink, changes), r),
    ensures
        match r {
            Ok(_) => takes_all(*old(sink), changes@, *final(sink)),
            Err(error) => exists|n: int, between: S|
                #![trigger takes_all(*old(sink), changes@.take(n), between)]
                {
                    &&& 0 <= n < changes@.len()
                    &&& takes_all(*old(sink), changes@.take(n), between)
                    &&& between.takes(changes@[n], Some(error), *final(sink))
                },
        },
{
}

// --- proofs ---

/// The orders behind a stream.
proof fn lemma_orders(
    accounts: Map<Address, Account>,
    storage: Map<Address, OverlayView>,
    selfdestructs: Set<Address>,
    changes: Seq<StateChange>,
) -> (r: (Seq<Address>, Seq<Address>, Seq<Seq<Word>>))
    requires
        lists_changes(accounts, storage, selfdestructs, changes),
    ensures
        orders_complete(accounts, storage, r.0, r.1, r.2),
        changes == code_changes(accounts, r.0) + storage_changes(storage, r.1, r.2)
            + account_changes(accounts, selfdestructs, r.0),
{
    choose|order: Seq<Address>, storage_order: Seq<Address>, slot_orders: Seq<Seq<Word>>|
        #![trigger orders_complete(accounts, storage, order, storage_order, slot_orders)]
        {
            &&& orders_complete(accounts, storage, order, storage_order, slot_orders)
            &&& changes == code_changes(accounts, order) + storage_changes(
                storage,
                storage_order,
                slot_orders,
            ) + account_changes(accounts, selfdestructs, order)
        }
}

/// What two sequences contain together.
proof fn lemma_concat_contains<T>(a: Seq<T>, b: Seq<T>, x: T)
    ensures
        (a + b).contains(x) <==> a.contains(x) || b.contains(x),
{
    if a.contains(x) {
        let i = choose|i: int| 0 <= i < a.len() && a[i] == x;
        assert((a + b)[i] == x);
    }
    if b.contains(x) {
        let i = choose|i: int| 0 <= i < b.len() && b[i] == x;
        assert((a + b)[a.len() + i] == x);
    }
    if (a + b).contains(x) {
        let i = choose|i: int| 0 <= i < (a + b).len() && (a + b)[i] == x;
        if i < a.len() {
            assert(a[i] == x);
        } else {
            assert(b[i - a.len()] == x);
        }
    }
}

/// What a sequence contains besides its last element.
proof fn lemma_last_contains<T>(s: Seq<T>, x: T)
    requires
        s.len() > 0,
    ensures
        s.contains(x) <==> s.drop_last().contains(x) || x == s.last(),
{
    assert(s =~= s.drop_last() + seq![s.last()]);
    lemma_concat_contains(s.drop_last(), seq![s.last()], x);
    assert(seq![s.last()].contains(x) <==> x == s.last()) by {
        assert(seq![s.last()][0] == s.last());
    }
}

proof fn lemma_codes(accounts: Map<Address, Account>, order: Seq<Address>, change: StateChange)
    ensures
        code_changes(accounts, order).contains(change) <==> exists|a: Address| #[trigger]
            order.contains(a) && is_code_of(accounts[a], change),
    decreases order.len(),
{
    if order.len() > 0 {
        let rest = order.drop_last();
        let last = order.last();
        lemma_codes(accounts, rest, change);
        lemma_concat_contains(code_changes(accounts, rest), code_change(accounts[last]), change);
        lemma_one_code(accounts[last], change);
        lemma_last_contains(order, last);
        if exists|a: Address| #[trigger] rest.contains(a) && is_code_of(accounts[a], change) {
            let a = choose|a: Address| #[trigger]
                rest.contains(a) && is_code_of(accounts[a], change);
            lemma_last_contains(order, a);
            assert(order.contains(a));
        }
        if exists|a: Address| #[trigger] order.contains(a) && is_code_of(accounts[a], change) {
            let a = choose|a: Address| #[trigger]
                order.contains(a) && is_code_of(accounts[a], change);
            lemma_last_contains(order, a);
        }
    }
}

proof fn lemma_one_code(account: Account, change: StateChange)
    ensures
        code_change(account).contains(change) <==> is_code_of(account, change),
{
    if let Some((code_hash, code)) = account.spec_changed_code() {
        let said = StateChange::Bytecode { code_hash, code };
        assert(seq![said][0] == said);
    }
}

proof fn lemma_code_stage(accounts: Map<Address, Account>, order: Seq<Address>)
    ensures
        forall|i: int|
            0 <= i < code_changes(accounts, order).len() ==> #[trigger] code_changes(
                accounts,
                order,
            )[i] is Bytecode,
    decreases order.len(),
{
    if order.len() > 0 {
        lemma_code_stage(accounts, order.drop_last());
    }
}

proof fn lemma_account_positions(
    accounts: Map<Address, Account>,
    selfdestructs: Set<Address>,
    order: Seq<Address>,
)
    ensures
        account_changes(accounts, selfdestructs, order).len() == order.len(),
        forall|i: int|
            0 <= i < order.len() ==> #[trigger] account_changes(accounts, selfdestructs, order)[i]
                == account_change(order[i], accounts[order[i]], selfdestructs.contains(order[i])),
    decreases order.len(),
{
    if order.len() > 0 {
        lemma_account_positions(accounts, selfdestructs, order.drop_last());
    }
}

proof fn lemma_accounts(
    accounts: Map<Address, Account>,
    selfdestructs: Set<Address>,
    order: Seq<Address>,
    change: StateChange,
)
    ensures
        account_changes(accounts, selfdestructs, order).contains(change) <==> exists|
            a: Address,
        | #[trigger]
            order.contains(a) && is_account_of(a, accounts[a], selfdestructs.contains(a), change),
{
    let said = account_changes(accounts, selfdestructs, order);
    lemma_account_positions(accounts, selfdestructs, order);
    if said.contains(change) {
        let i = choose|i: int| 0 <= i < said.len() && said[i] == change;
        let a = order[i];
        lemma_one_account(a, accounts[a], selfdestructs.contains(a), change);
        assert(order.contains(a));
    }
    if exists|a: Address| #[trigger]
        order.contains(a) && is_account_of(a, accounts[a], selfdestructs.contains(a), change) {
        let a = choose|a: Address| #[trigger]
            order.contains(a) && is_account_of(a, accounts[a], selfdestructs.contains(a), change);
        let i = choose|i: int| 0 <= i < order.len() && order[i] == a;
        lemma_one_account(a, accounts[a], selfdestructs.contains(a), change);
        assert(said[i] == change);
    }
}

proof fn lemma_one_account(
    address: Address,
    account: Account,
    destructed: bool,
    change: StateChange,
)
    ensures
        account_change(address, account, destructed) == change <==> is_account_of(
            address,
            account,
            destructed,
            change,
        ),
{
    if let (Some(found), Some(left)) = (account.original, account.present) {
        found.balance.law_value_injective(left.balance);
    }
}

proof fn lemma_slot_positions(address: Address, overlay: OverlayView, order: Seq<Word>)
    ensures
        slot_changes(address, overlay, order).len() == order.len(),
        forall|i: int|
            0 <= i < order.len() ==> #[trigger] slot_changes(address, overlay, order)[i]
                == slot_change(address, order[i], overlay.slots[order[i]], overlay.wiped),
    decreases order.len(),
{
    if order.len() > 0 {
        lemma_slot_positions(address, overlay, order.drop_last());
    }
}

/// What a stream says of the storage of one account.
proof fn lemma_overlay(address: Address, overlay: OverlayView, order: Seq<Word>, change: StateChange)
    requires
        enumerates(order, overlay.slots.dom()),
    ensures
        overlay_changes(address, overlay, order).contains(change) <==> is_storage_of(
            address,
            overlay,
            change,
        ),
{
    let slots = slot_changes(address, overlay, order);
    let wipe = StateChange::StorageWipe { address };
    lemma_slot_positions(address, overlay, order);
    lemma_concat_contains(seq![wipe], slots, change);
    assert(seq![wipe].contains(change) <==> change == wipe) by {
        assert(seq![wipe][0] == wipe);
    }
    if slots.contains(change) {
        let i = choose|i: int| 0 <= i < slots.len() && slots[i] == change;
        assert(order.contains(order[i]));
    }
    let key = match change {
        StateChange::Storage(write) => write.key,
        StateChange::StorageRead { key, .. } => key,
        _ => FixedBytes::<32>::spec_zero(),
    };
    if is_storage_of(address, overlay, change) && change != wipe {
        assert(order.contains(key));
        let i = choose|i: int| 0 <= i < order.len() && order[i] == key;
        assert(slots[i] == change);
    }
}

/// In what a stream says of the storage of one account, nothing comes twice, and a wipe first.
proof fn lemma_overlay_tidy(address: Address, overlay: OverlayView, order: Seq<Word>)
    requires
        enumerates(order, overlay.slots.dom()),
    ensures
        is_tidy(overlay_changes(address, overlay, order)),
{
    let slots = slot_changes(address, overlay, order);
    let said = overlay_changes(address, overlay, order);
    lemma_slot_positions(address, overlay, order);
    let shift: int = if overlay.wiped {
        1
    } else {
        0
    };
    assert forall|i: int, j: int| 0 <= i < j < said.len() implies #[trigger] said[i]
        != #[trigger] said[j] && !is_wipe_before(said[j], said[i]) by {
        if i >= shift {
            assert(said[i] == slots[i - shift] && said[j] == slots[j - shift]);
            assert(order[i - shift] != order[j - shift]);
        } else {
            assert(said[j] == slots[j - shift]);
        }
    }
}

/// Whether `wipe` drops the storage of which `slot` is a slot.
spec fn is_wipe_before(wipe: StateChange, slot: StateChange) -> bool {
    match wipe {
        StateChange::StorageWipe { address } => is_slot_of(address, slot),
        _ => false,
    }
}

/// Whether changes are of storage, nothing comes twice, and no slot before the wipe around it.
spec fn is_tidy(said: Seq<StateChange>) -> bool {
    &&& forall|i: int, j: int|
        0 <= i < j < said.len() ==> #[trigger] said[i] != #[trigger] said[j] && !is_wipe_before(
            said[j],
            said[i],
        )
}

/// Whether `change` is of the storage of an account.
spec fn is_about(address: Address, change: StateChange) -> bool {
    is_slot_of(address, change) || is_wipe_of(address, change)
}

proof fn lemma_stores(
    storage: Map<Address, OverlayView>,
    order: Seq<Address>,
    slot_orders: Seq<Seq<Word>>,
    change: StateChange,
)
    requires
        slot_orders.len() >= order.len(),
        forall|i: int|
            0 <= i < order.len() ==> enumerates(
                #[trigger] slot_orders[i],
                storage[order[i]].slots.dom(),
            ),
    ensures
        storage_changes(storage, order, slot_orders).contains(change) <==> exists|
            a: Address,
        | #[trigger]
            order.contains(a) && is_storage_of(a, storage[a], change),
    decreases order.len(),
{
    if order.len() > 0 {
        let rest = order.drop_last();
        let last = order.last();
        let slots = slot_orders[order.len() - 1];
        assert(enumerates(slots, storage[order[order.len() - 1]].slots.dom()));
        assert forall|i: int| 0 <= i < rest.len() implies enumerates(
            #[trigger] slot_orders[i],
            storage[rest[i]].slots.dom(),
        ) by {
            assert(rest[i] == order[i]);
        }
        lemma_stores(storage, rest, slot_orders, change);
        lemma_overlay(last, storage[last], slots, change);
        lemma_concat_contains(
            storage_changes(storage, rest, slot_orders),
            overlay_changes(last, storage[last], slots),
            change,
        );
        lemma_last_contains(order, last);
        if exists|a: Address| #[trigger] rest.contains(a) && is_storage_of(a, storage[a], change) {
            let a = choose|a: Address| #[trigger]
                rest.contains(a) && is_storage_of(a, storage[a], change);
            lemma_last_contains(order, a);
            assert(order.contains(a));
        }
        if exists|a: Address| #[trigger] order.contains(a) && is_storage_of(a, storage[a], change) {
            let a = choose|a: Address| #[trigger]
                order.contains(a) && is_storage_of(a, storage[a], change);
            lemma_last_contains(order, a);
        }
    }
}

proof fn lemma_tidy(
    storage: Map<Address, OverlayView>,
    order: Seq<Address>,
    slot_orders: Seq<Seq<Word>>,
)
    requires
        order.no_duplicates(),
        slot_orders.len() >= order.len(),
        forall|i: int|
            0 <= i < order.len() ==> enumerates(
                #[trigger] slot_orders[i],
                storage[order[i]].slots.dom(),
            ),
    ensures
        is_tidy(storage_changes(storage, order, slot_orders)),
        forall|i: int|
            0 <= i < storage_changes(storage, order, slot_orders).len() ==> stage(
                #[trigger] storage_changes(storage, order, slot_orders)[i],
            ) == 1,
    decreases order.len(),
{
    let said = storage_changes(storage, order, slot_orders);
    assert forall|i: int| 0 <= i < said.len() implies stage(#[trigger] said[i]) == 1 by {
        lemma_stores(storage, order, slot_orders, said[i]);
        assert(said.contains(said[i]));
    }
    if order.len() > 0 {
        let rest = order.drop_last();
        let last = order.last();
        let slots = slot_orders[order.len() - 1];
        let before = storage_changes(storage, rest, slot_orders);
        let own = overlay_changes(last, storage[last], slots);
        assert(enumerates(slots, storage[order[order.len() - 1]].slots.dom()));
        assert forall|i: int| 0 <= i < rest.len() implies enumerates(
            #[trigger] slot_orders[i],
            storage[rest[i]].slots.dom(),
        ) by {
            assert(rest[i] == order[i]);
        }
        assert(rest.no_duplicates());
        lemma_tidy(storage, rest, slot_orders);
        lemma_overlay_tidy(last, storage[last], slots);
        assert forall|i: int, j: int| 0 <= i < j < said.len() implies #[trigger] said[i]
            != #[trigger] said[j] && !is_wipe_before(said[j], said[i]) by {
            let n = before.len() as int;
            if j < n {
                assert(said[i] == before[i] && said[j] == before[j]);
            } else if i >= n {
                assert(said[i] == own[i - n] && said[j] == own[j - n]);
            } else {
                assert(said[i] == before[i] && said[j] == own[j - n]);
                lemma_stores(storage, rest, slot_orders, before[i]);
                assert(before.contains(before[i]));
                let a = choose|a: Address| #[trigger]
                    rest.contains(a) && is_storage_of(a, storage[a], before[i]);
                let k = choose|k: int| 0 <= k < rest.len() && rest[k] == a;
                assert(order[k] == a && order[order.len() - 1] == last);
                assert(a != last);
                lemma_overlay(last, storage[last], slots, own[j - n]);
                assert(own.contains(own[j - n]));
                assert(is_about(a, said[i]) && is_about(last, said[j]));
            }
        }
    }
}

} // verus!
