//! What reads of the accepted state find once transactions and changes are accepted.
use vstd::prelude::*;

use crate::account::Account;
use crate::bal::{
    account_at, covers_account, covers_slot, slot_at, BalEntry, BalView, BlockAccessIndex,
};
use crate::bal_laws::{law_built_list_serves_accepted_writes, recorded_at};
use crate::commit::{brings_code, code_hash_brought, commits};
use crate::db::{CacheDB, CacheDbView, CacheView, Database, DbError, DbResult, EmptyDB};
use crate::fixed::{Address, FixedBytes, Word, B256};
use crate::info::{AccountInfo, Bytecode};
use crate::laws::law_accepted_writes_read_back;
use crate::model::TxView;
use crate::stream::{lists_changes, StateChange, StateChangeSink};

verus! {

// --- accepting transactions ---

/// Once a transaction is accepted, a slot whose storage it did not wipe reads as the value it left
/// wherever that is another than it found, zero included. Every other such slot reads as before.
pub proof fn law_accepted_slot_reads_its_last_value(
    tx: TxView,
    before: CacheDbView,
    after: CacheDbView,
    address: Address,
    key: Word,
    r: DbResult<Word>,
)
    requires
        commits(before.cache, tx.accounts, tx.storage, Set::empty(), after.cache),
        after.source == before.source,
        before.bal.attached is None,
        after.bal.attached is None,
        tx.storage.contains_key(address) ==> !tx.storage[address].wiped,
    ensures
        ({
            let loaded = tx.storage.contains_key(address)
                && tx.storage[address].slots.contains_key(key);
            let slot = tx.storage[address].slots[key];
            if loaded && slot.value.current != slot.value.original {
                after.answers_storage(address, key, r) <==> r == Ok::<Word, DbError>(
                    slot.value.current,
                )
            } else {
                after.answers_storage(address, key, r) <==> before.answers_storage(address, key, r)
            }
        }),
{
    lemma_reads(tx, before, after, address, key, r, Ok(None));
}

/// Once a transaction is accepted that wiped the storage of an account, its loaded slots read as the
/// values that the transaction left, and every other slot of the account reads as zero.
pub proof fn law_accepted_wipe_clears_storage(
    tx: TxView,
    before: CacheDbView,
    after: CacheDbView,
    address: Address,
    key: Word,
    r: DbResult<Word>,
)
    requires
        commits(before.cache, tx.accounts, tx.storage, Set::empty(), after.cache),
        after.source == before.source,
        before.bal.attached is None,
        after.bal.attached is None,
        tx.storage.contains_key(address),
        tx.storage[address].wiped,
    ensures
        after.answers_storage(address, key, r) <==> r == Ok::<Word, DbError>(
            if tx.storage[address].slots.contains_key(key) {
                tx.storage[address].slots[key].value.current
            } else {
                FixedBytes::<32>::spec_zero()
            },
        ),
{
    lemma_reads(tx, before, after, address, key, r, Ok(None));
}

/// Whether a transaction left an account other than it found it: created by it, or different in
/// existence, nonce, balance or code.
pub open spec fn left_different(account: Account) -> bool {
    ||| account.just_created
    ||| match (account.original, account.present) {
        (Some(found), Some(left)) => {
            ||| found.nonce != left.nonce
            ||| found.balance != left.balance
            ||| found.code_hash != left.code_hash
        },
        (None, None) => false,
        _ => true,
    }
}

/// Once a transaction is accepted, an account that it created, or whose existence, nonce, balance or
/// code it changed, reads as it was left. Every other account reads as before.
pub proof fn law_accepted_account_reads_as_left(
    tx: TxView,
    before: CacheDbView,
    after: CacheDbView,
    address: Address,
    r: DbResult<Option<AccountInfo>>,
)
    requires
        commits(before.cache, tx.accounts, tx.storage, Set::empty(), after.cache),
        after.source == before.source,
        before.bal.attached is None,
        after.bal.attached is None,
    ensures
        if tx.accounts.contains_key(address) && left_different(tx.accounts[address]) {
            after.answers_account(address, r) <==> r == Ok::<Option<AccountInfo>, DbError>(
                tx.accounts[address].present,
            )
        } else {
            after.answers_account(address, r) <==> before.answers_account(address, r)
        },
{
    lemma_reads(tx, before, after, address, FixedBytes::<32>::spec_zero(), Err(DbError::NotInBal), r);
    lemma_left_different(tx.accounts[address]);
}

/// Once a transaction is accepted, the code that it gave an account is there under the hash of the
/// account's code; where accounts with that hash were given different code, that of one of them is.
/// Code under any other hash is what it was.
pub proof fn law_accepted_code_is_found(
    tx: TxView,
    before: CacheView,
    after: CacheView,
    address: Address,
    hash: B256,
)
    requires
        commits(before, tx.accounts, tx.storage, Set::empty(), after),
    ensures
        gives_code(tx, address, hash) ==> {
            &&& after.contracts.contains_key(hash)
            &&& exists|giver: Address| #[trigger]
                gives_code(tx, giver, hash) && tx.accounts[giver].present->0.code == Some(
                    after.contracts[hash],
                )
        },
        (forall|giver: Address| !#[trigger] gives_code(tx, giver, hash)) ==> {
            &&& after.contracts.contains_key(hash) == before.contracts.contains_key(hash)
            &&& before.contracts.contains_key(hash) ==> after.contracts[hash]
                == before.contracts[hash]
        },
{
    if gives_code(tx, address, hash) {
        assert(code_hash_brought(tx.accounts[address]) == Some(hash));
        assert(brings_code(tx.accounts, hash));
        assert(after.contracts.contains_key(hash));
        let giver = choose|giver: Address| #[trigger]
            tx.accounts.contains_key(giver) && tx.accounts[giver].spec_changed_code() == Some(
                (hash, after.contracts[hash]),
            );
        assert(gives_code(tx, giver, hash));
    }
    if forall|giver: Address| !#[trigger] gives_code(tx, giver, hash) {
        if brings_code(tx.accounts, hash) {
            let giver = choose|giver: Address| #[trigger]
                tx.accounts.contains_key(giver) && code_hash_brought(tx.accounts[giver]) == Some(
                    hash,
                );
            assert(gives_code(tx, giver, hash));
        }
        assert(after.contracts.contains_key(hash) <==> before.contracts.contains_key(hash));
    }
}

/// Whether a transaction replaced the code of an account, leaving it with code of this hash.
pub open spec fn gives_code(tx: TxView, address: Address, hash: B256) -> bool {
    &&& tx.accounts.contains_key(address)
    &&& tx.accounts[address].code_changed
    &&& match tx.accounts[address].present {
        Some(info) => info.code is Some && info.code_hash == hash,
        None => false,
    }
}

// --- accepting single changes ---

/// A change that is accepted has its own effect and no other: code is stored under its hash, a wipe
/// drops the storage of its account, a written slot has its value and a written account its
/// contents. What was only read changes nothing.
pub proof fn law_accepted_change_takes_effect(
    cache: CacheView,
    change: StateChange,
    address: Address,
    key: Word,
    hash: B256,
)
    ensures
        ({
            let after = cache.applied(change);
            let base = slot_held(cache, address, key);
            &&& slot_held(after, address, key) == match change {
                StateChange::Storage(write) => if write.address == address && write.key == key {
                    Some(write.current)
                } else {
                    base
                },
                StateChange::StorageWipe { address: wiped } => if wiped == address {
                    Some(FixedBytes::<32>::spec_zero())
                } else {
                    base
                },
                _ => base,
            }
            &&& account_held(after, address) == match change {
                StateChange::Account { address: written, current, .. } => if written == address {
                    Some(current)
                } else {
                    account_held(cache, address)
                },
                _ => account_held(cache, address),
            }
            &&& code_held(after, hash) == match change {
                StateChange::Bytecode { code_hash, code } => if code_hash == hash {
                    Some(code)
                } else {
                    code_held(cache, hash)
                },
                _ => code_held(cache, hash),
            }
        }),
{
}

/// Changes are accepted in turn: no changes leave the accepted state as it is, and one more has its
/// effect, by the law above, on what the others left.
pub proof fn law_changes_are_accepted_in_turn(
    db: CacheDbView,
    changes: Seq<StateChange>,
    change: StateChange,
)
    ensures
        db.accepted_all(Seq::empty()) == db,
        db.accepted_all(changes.push(change)).cache == db.accepted_all(changes).cache.applied(
            change,
        ),
        db.accepted_all(changes.push(change)).source == db.accepted_all(changes).source,
{
    assert(changes.push(change).drop_last() =~= changes);
}

/// Each change that a database is given takes effect, by the law above, and none is refused.
pub proof fn law_database_takes_changes<D: Database>(
    db: CacheDB<D>,
    change: StateChange,
    failure: Option<DbError>,
    after: CacheDB<D>,
)
    requires
        db.takes(change, failure, after),
    ensures
        failure is None,
        after@.cache == db@.cache.applied(change),
        after.db == db.db,
        after@.bal.attached == db@.bal.attached,
        after@.bal.index == db@.bal.index,
        after@.bal.allow_db_fallback == db@.bal.allow_db_fallback,
        match db@.bal.builder {
            Some(entries) => {
                &&& after@.bal.builder is Some
                &&& after@.bal.builder->0.len() == entries.len() + 1
                &&& after@.bal.builder->0.drop_last() == entries
                &&& after@.bal.builder->0.last().index == db@.bal.index
                &&& after@.bal.builder->0.last().change == change
            },
            None => after@.bal.builder is None,
        },
{
    if let Some(entries) = db@.bal.builder {
        let entry = BalEntry { index: db@.bal.index, change };
        assert(entries.push(entry).drop_last() =~= entries);
    }
}

/// The value that the accepted state has of a slot, zero where all storage around it is gone.
pub open spec fn slot_held(cache: CacheView, address: Address, key: Word) -> Option<Word> {
    if !cache.storage.contains_key(address) {
        None
    } else if cache.storage[address].slots.contains_key(key) {
        Some(cache.storage[address].slots[key])
    } else if cache.storage[address].wiped {
        Some(FixedBytes::<32>::spec_zero())
    } else {
        None
    }
}

/// What the accepted state has of an account.
pub open spec fn account_held(cache: CacheView, address: Address) -> Option<Option<AccountInfo>> {
    if cache.accounts.contains_key(address) {
        Some(cache.accounts[address])
    } else {
        None
    }
}

/// The code that the accepted state has under a hash.
pub open spec fn code_held(cache: CacheView, hash: B256) -> Option<Bytecode> {
    if cache.contracts.contains_key(hash) {
        Some(cache.contracts[hash])
    } else {
        None
    }
}

/// A slot accepted on its own has its value; every other slot, every account and all code are as
/// they were.
pub proof fn law_inserted_slot_reads_back(
    cache: CacheView,
    address: Address,
    key: Word,
    value: Word,
    other_address: Address,
    other_key: Word,
)
    ensures
        slot_held(cache.with_slot(address, key, value), other_address, other_key) == if (
            other_address,
            other_key,
        ) == (address, key) {
            Some(value)
        } else {
            slot_held(cache, other_address, other_key)
        },
        cache.with_slot(address, key, value).accounts == cache.accounts,
        cache.with_slot(address, key, value).contracts == cache.contracts,
{
}

// --- reading ---

/// Without an attached list, reads find what the accepted state has, and go to the database below
/// for nothing else.
pub proof fn law_reads_prefer_the_accepted_state(
    db: CacheDbView,
    address: Address,
    key: Word,
    account: DbResult<Option<AccountInfo>>,
    slot: DbResult<Word>,
)
    requires
        db.bal.attached is None,
    ensures
        db.answers_account(address, account) <==> match account_held(db.cache, address) {
            Some(info) => account == Ok::<Option<AccountInfo>, DbError>(info),
            None => (db.source.account)(address, account),
        },
        db.answers_storage(address, key, slot) <==> match slot_held(db.cache, address, key) {
            Some(value) => slot == Ok::<Word, DbError>(value),
            None => (db.source.storage)(address, key, slot),
        },
{
}

/// Reads of a database without an attached list find what the accepted state has, else what the
/// database below has, and change neither.
pub proof fn law_database_reads<D: Database>(
    db: &mut CacheDB<D>,
    other: &mut CacheDB<D>,
    address: Address,
    key: Word,
    account: DbResult<Option<AccountInfo>>,
    slot: DbResult<Word>,
)
    requires
        old(db)@.bal.attached is None,
        old(other)@.bal.attached is None,
        call_ensures(<CacheDB<D> as Database>::get_account, (db, &address), account),
        call_ensures(<CacheDB<D> as Database>::get_storage, (other, &address, &key), slot),
    ensures
        match account_held(old(db)@.cache, address) {
            Some(info) => account == Ok::<Option<AccountInfo>, DbError>(info),
            None => (old(db).db.model().account)(address, account),
        },
        match slot_held(old(other)@.cache, address, key) {
            Some(value) => slot == Ok::<Word, DbError>(value),
            None => (old(other).db.model().storage)(address, key, slot),
        },
        final(db)@ == old(db)@,
        final(other)@ == old(other)@,
{
    law_reads_prefer_the_accepted_state(old(db)@, address, key, account, slot);
    law_reads_prefer_the_accepted_state(old(other)@, address, key, account, slot);
}

/// In a database without contents no account exists, and all storage and every block hash is zero.
pub proof fn law_empty_database(
    db: &mut EmptyDB,
    other: &mut EmptyDB,
    third: &mut EmptyDB,
    address: Address,
    key: Word,
    account: DbResult<Option<AccountInfo>>,
    slot: DbResult<Word>,
    hash: DbResult<B256>,
)
    requires
        call_ensures(<EmptyDB as Database>::get_account, (db, &address), account),
        call_ensures(<EmptyDB as Database>::get_storage, (other, &address, &key), slot),
        call_ensures(<EmptyDB as Database>::get_block_hash, (third, &key), hash),
    ensures
        account == Ok::<Option<AccountInfo>, DbError>(None),
        slot is Ok && slot->Ok_0.value() == 0,
        hash is Ok && hash->Ok_0.value() == 0,
{
    FixedBytes::<32>::spec_zero().law_zero_value();
}

/// Whether an entry of a list made before position `index` leaves the account at `address`.
pub open spec fn leaves_account(entry: BalEntry, address: Address, index: BlockAccessIndex) -> bool {
    &&& entry.index < index
    &&& match entry.change {
        StateChange::Account { address: written, .. } => written == address,
        _ => false,
    }
}

/// Whether an entry of a list made before position `index` leaves the slot: it writes the slot, or
/// drops all storage of its account.
pub open spec fn leaves_slot(
    entry: BalEntry,
    address: Address,
    key: Word,
    index: BlockAccessIndex,
) -> bool {
    &&& entry.index < index
    &&& match entry.change {
        StateChange::Storage(write) => write.address == address && write.key == key,
        StateChange::StorageWipe { address: wiped } => wiped == address,
        _ => false,
    }
}

/// With a list attached, a read of an account finds the contents that the last entry before the
/// current position gave it.
pub proof fn law_attached_list_serves_last_account(
    db: CacheDbView,
    last: int,
    address: Address,
    r: DbResult<Option<AccountInfo>>,
)
    requires
        db.bal.attached is Some,
        0 <= last < db.bal.attached->0@.len(),
        leaves_account(db.bal.attached->0@[last], address, db.bal.index),
        forall|i: int|
            last < i < db.bal.attached->0@.len() ==> !leaves_account(
                #[trigger] db.bal.attached->0@[i],
                address,
                db.bal.index,
            ),
    ensures
        match db.bal.attached->0@[last].change {
            StateChange::Account { current, .. } => db.answers_account(address, r) <==> r == Ok::<
                Option<AccountInfo>,
                DbError,
            >(current),
            _ => false,
        },
{
    let entries = db.bal.attached->0@;
    lemma_account_at(entries, address, db.bal.index, last);
    assert(crate::bal::account_accessed(entries[last].change, address));
    assert(covers_account(entries, address));
}

/// With a list attached, a read of a slot finds the value that the last entry before the current
/// position gave it, zero where that dropped all storage of the account.
pub proof fn law_attached_list_serves_last_slot(
    db: CacheDbView,
    last: int,
    address: Address,
    key: Word,
    r: DbResult<Word>,
)
    requires
        db.bal.attached is Some,
        0 <= last < db.bal.attached->0@.len(),
        leaves_slot(db.bal.attached->0@[last], address, key, db.bal.index),
        forall|i: int|
            last < i < db.bal.attached->0@.len() ==> !leaves_slot(
                #[trigger] db.bal.attached->0@[i],
                address,
                key,
                db.bal.index,
            ),
    ensures
        match db.bal.attached->0@[last].change {
            StateChange::Storage(write) => db.answers_storage(address, key, r) <==> r == Ok::<
                Word,
                DbError,
            >(write.current),
            StateChange::StorageWipe { .. } => db.answers_storage(address, key, r) <==> r == Ok::<
                Word,
                DbError,
            >(FixedBytes::<32>::spec_zero()),
            _ => false,
        },
{
    let entries = db.bal.attached->0@;
    lemma_slot_at(entries, address, key, db.bal.index, last);
    assert(crate::bal::slot_accessed(entries[last].change, address, key));
    assert(covers_slot(entries, address, key));
}

/// With a list attached that has no entry of an account before the current position, a read of the
/// account is refused where the list does not mention the account at all and reads may not fall
/// back; otherwise it finds what it would without the list.
pub proof fn law_attached_list_refuses_unlisted_account(
    db: CacheDbView,
    address: Address,
    r: DbResult<Option<AccountInfo>>,
)
    requires
        db.bal.attached is Some,
        forall|i: int|
            0 <= i < db.bal.attached->0@.len() ==> !leaves_account(
                #[trigger] db.bal.attached->0@[i],
                address,
                db.bal.index,
            ),
    ensures
        ({
            let listed = exists|i: int|
                0 <= i < db.bal.attached->0@.len() && match (
                #[trigger] db.bal.attached->0@[i]).change {
                    StateChange::Account { address: accessed, .. } => accessed == address,
                    StateChange::AccountRead { address: accessed, .. } => accessed == address,
                    _ => false,
                };
            if !listed && !db.bal.allow_db_fallback {
                db.answers_account(address, r) <==> r == Err::<Option<AccountInfo>, DbError>(
                    DbError::NotInBal,
                )
            } else {
                db.answers_account(address, r) <==> match account_held(db.cache, address) {
                    Some(info) => r == Ok::<Option<AccountInfo>, DbError>(info),
                    None => (db.source.account)(address, r),
                }
            }
        }),
{
    let entries = db.bal.attached->0@;
    lemma_account_at(entries, address, db.bal.index, -1);
}

/// The same of a slot. A list mentions a slot where it has a read or a write of it, or a wipe of the
/// storage of its account.
pub proof fn law_attached_list_refuses_unlisted_slot(
    db: CacheDbView,
    address: Address,
    key: Word,
    r: DbResult<Word>,
)
    requires
        db.bal.attached is Some,
        forall|i: int|
            0 <= i < db.bal.attached->0@.len() ==> !leaves_slot(
                #[trigger] db.bal.attached->0@[i],
                address,
                key,
                db.bal.index,
            ),
    ensures
        ({
            let listed = exists|i: int|
                0 <= i < db.bal.attached->0@.len() && match (
                #[trigger] db.bal.attached->0@[i]).change {
                    StateChange::Storage(write) => write.address == address && write.key == key,
                    StateChange::StorageWipe { address: wiped } => wiped == address,
                    StateChange::StorageRead { address: accessed, key: read, .. } => accessed
                        == address && read == key,
                    _ => false,
                };
            if !listed && !db.bal.allow_db_fallback {
                db.answers_storage(address, key, r) <==> r == Err::<Word, DbError>(
                    DbError::NotInBal,
                )
            } else {
                db.answers_storage(address, key, r) <==> match slot_held(db.cache, address, key) {
                    Some(value) => r == Ok::<Word, DbError>(value),
                    None => (db.source.storage)(address, key, r),
                }
            }
        }),
{
    let entries = db.bal.attached->0@;
    lemma_slot_at(entries, address, key, db.bal.index, -1);
}

/// A list built while a transaction was accepted says at later positions what the transaction left:
/// of accounts that it left different their contents, of slots that it left different their values,
/// of slots of storage that it wiped the value it left, and zero where it loaded none.
pub proof fn law_built_list_serves_what_was_left(
    tx: TxView,
    changes: Seq<StateChange>,
    base: Seq<BalEntry>,
    index: BlockAccessIndex,
    later: BlockAccessIndex,
    address: Address,
    key: Word,
)
    requires
        lists_changes(tx.accounts, tx.storage, Set::empty(), changes),
        index < later,
    ensures
        ({
            let entries = base + recorded_at(changes, index);
            let loaded = tx.storage.contains_key(address)
                && tx.storage[address].slots.contains_key(key);
            let slot = tx.storage[address].slots[key];
            &&& slot_at(entries, address, key, later) == if tx.storage.contains_key(address)
                && tx.storage[address].wiped {
                Some(
                    if loaded {
                        slot.value.current
                    } else {
                        FixedBytes::<32>::spec_zero()
                    },
                )
            } else if loaded && slot.value.current != slot.value.original {
                Some(slot.value.current)
            } else {
                slot_at(base, address, key, later)
            }
            &&& account_at(entries, address, later) == if tx.accounts.contains_key(address)
                && left_different(tx.accounts[address]) {
                Some(tx.accounts[address].present)
            } else {
                account_at(base, address, later)
            }
        }),
{
    law_built_list_serves_accepted_writes(tx, changes, base, index, later, address, key);
    lemma_left_different(tx.accounts[address]);
}

// --- proofs ---

/// What the accepted state answers without an attached list.
proof fn lemma_reads(
    tx: TxView,
    before: CacheDbView,
    after: CacheDbView,
    address: Address,
    key: Word,
    slot: DbResult<Word>,
    account: DbResult<Option<AccountInfo>>,
)
    requires
        commits(before.cache, tx.accounts, tx.storage, Set::empty(), after.cache),
        after.source == before.source,
        before.bal.attached is None,
        after.bal.attached is None,
    ensures
        after.answers_storage(address, key, slot) <==> if tx.storage.contains_key(address)
            && crate::commit::writes_slot(tx.storage[address], key) {
            slot == Ok::<Word, DbError>(tx.slot(address, key).value.current)
        } else if tx.storage.contains_key(address) && tx.storage[address].wiped {
            slot == Ok::<Word, DbError>(FixedBytes::<32>::spec_zero())
        } else {
            before.answers_storage(address, key, slot)
        },
        after.answers_account(address, account) <==> if crate::commit::writes_account(
            tx.accounts,
            Set::empty(),
            address,
        ) {
            account == Ok::<Option<AccountInfo>, DbError>(tx.accounts[address].present)
        } else {
            before.answers_account(address, account)
        },
{
    let same_list = CacheDbView {
        bal: BalView { builder: after.bal.builder, ..before.bal },
        ..after
    };
    law_accepted_writes_read_back(tx, before, same_list, address, key, slot, account);
}

/// What makes accepting a transaction write an account.
proof fn lemma_left_different(account: Account)
    ensures
        left_different(account) == (account.spec_is_changed() || account.just_created),
{
    if let (Some(found), Some(left)) = (account.original, account.present) {
        found.balance.law_value_injective(left.balance);
    }
}

/// What a list says of an account whose last entry before a position is `last`, or that has none
/// where `last` is negative.
proof fn lemma_account_at(
    entries: Seq<BalEntry>,
    address: Address,
    index: BlockAccessIndex,
    last: int,
)
    requires
        -1 <= last < entries.len(),
        last >= 0 ==> leaves_account(entries[last], address, index),
        forall|i: int|
            last < i < entries.len() ==> !leaves_account(#[trigger] entries[i], address, index),
    ensures
        account_at(entries, address, index) == if last < 0 {
            None
        } else {
            match entries[last].change {
                StateChange::Account { current, .. } => Some(current),
                _ => None,
            }
        },
    decreases entries.len(),
{
    if entries.len() > 0 && last < entries.len() - 1 {
        let shorter = entries.drop_last();
        assert(!leaves_account(entries[entries.len() - 1], address, index));
        assert forall|i: int| last < i < shorter.len() implies !leaves_account(
            #[trigger] shorter[i],
            address,
            index,
        ) by {
            assert(shorter[i] == entries[i]);
        }
        lemma_account_at(shorter, address, index, last);
    }
}

/// The same of a slot.
proof fn lemma_slot_at(
    entries: Seq<BalEntry>,
    address: Address,
    key: Word,
    index: BlockAccessIndex,
    last: int,
)
    requires
        -1 <= last < entries.len(),
        last >= 0 ==> leaves_slot(entries[last], address, key, index),
        forall|i: int|
            last < i < entries.len() ==> !leaves_slot(#[trigger] entries[i], address, key, index),
    ensures
        slot_at(entries, address, key, index) == if last < 0 {
            None
        } else {
            match entries[last].change {
                StateChange::Storage(write) => Some(write.current),
                StateChange::StorageWipe { .. } => Some(FixedBytes::<32>::spec_zero()),
                _ => None,
            }
        },
    decreases entries.len(),
{
    if entries.len() > 0 && last < entries.len() - 1 {
        let shorter = entries.drop_last();
        assert(!leaves_slot(entries[entries.len() - 1], address, key, index));
        assert forall|i: int| last < i < shorter.len() implies !leaves_slot(
            #[trigger] shorter[i],
            address,
            key,
            index,
        ) by {
            assert(shorter[i] == entries[i]);
        }
        lemma_slot_at(shorter, address, key, index, last);
    }
}

} // verus!
