//! Databases, and the accepted state that lies over one.
use vstd::prelude::*;

use crate::bal::{account_at, covers_account, covers_slot, slot_at, BalContext, BalView};
use crate::fixed::{Address, FixedBytes, Word, B256};
use crate::info::{copy_info, AccountInfo, Bytecode};
use crate::map::{AddressMap, Duplicate, WordMap};
use crate::stream::{AccountChangeRef, StateChange, StateChangeSink, StorageChange};

verus! {

/// Why a read failed.
#[derive(Debug, PartialEq, Eq)]
pub enum DbError {
    /// The backing database failed.
    Backend(String),
    /// The attached block access list does not cover the read.
    NotInBal,
}

/// The outcome of a read.
pub type DbResult<T> = Result<T, DbError>;

/// Why a load did not happen.
#[derive(Debug, PartialEq, Eq)]
pub enum LoadError {
    /// The database failed.
    Database(DbError),
    /// The access is cold and the caller asked to skip cold accesses.
    ColdLoadSkipped,
}

/// The answers that a database may give.
#[verifier::ext_equal]
pub struct DbModel {
    /// Whether a read of an account may have the outcome.
    pub account: spec_fn(Address, DbResult<Option<AccountInfo>>) -> bool,
    /// Whether a read of a storage slot may have the outcome.
    pub storage: spec_fn(Address, Word, DbResult<Word>) -> bool,
    /// Whether a read of a block hash may have the outcome.
    pub block_hash: spec_fn(Word, DbResult<B256>) -> bool,
}

/// A source of accounts, storage and block hashes.
pub trait Database: Sized {
    /// The answers that the database may give, now and after any number of reads.
    spec fn model(&self) -> DbModel;

    /// Whether one read may leave the database as `after`.
    spec fn reads_into(&self, after: Self) -> bool;

    /// Reads an account.
    fn get_account(&mut self, address: &Address) -> (r: DbResult<Option<AccountInfo>>)
        ensures
            (old(self).model().account)(*address, r),
            final(self).model() == old(self).model(),
            old(self).reads_into(*final(self)),
    ;

    /// Reads a storage slot.
    fn get_storage(&mut self, address: &Address, key: &Word) -> (r: DbResult<Word>)
        ensures
            (old(self).model().storage)(*address, *key, r),
            final(self).model() == old(self).model(),
            old(self).reads_into(*final(self)),
    ;

    /// Reads the hash of a block.
    fn get_block_hash(&mut self, number: &Word) -> (r: DbResult<B256>)
        ensures
            (old(self).model().block_hash)(*number, r),
            final(self).model() == old(self).model(),
            old(self).reads_into(*final(self)),
    ;
}

/// A database without contents: no account exists, all storage and every block hash is zero.
#[derive(Clone, Copy, Debug)]
pub struct EmptyDB;

impl Default for EmptyDB {
    fn default() -> (r: Self)
        ensures
            r == EmptyDB,
    {
        EmptyDB
    }
}

impl EmptyDB {
    /// The answers of a database without contents.
    pub open spec fn answers() -> DbModel {
        DbModel {
            account: |address: Address, r: DbResult<Option<AccountInfo>>| r == Ok::<
                Option<AccountInfo>,
                DbError,
            >(None),
            storage: |address: Address, key: Word, r: DbResult<Word>| r == Ok::<Word, DbError>(
                FixedBytes::<32>::spec_zero(),
            ),
            block_hash: |number: Word, r: DbResult<B256>| r == Ok::<B256, DbError>(
                FixedBytes::<32>::spec_zero(),
            ),
        }
    }
}

impl Database for EmptyDB {
    open spec fn model(&self) -> DbModel {
        EmptyDB::answers()
    }

    open spec fn reads_into(&self, after: Self) -> bool {
        after == *self
    }

    fn get_account(&mut self, address: &Address) -> (r: DbResult<Option<AccountInfo>>) {
        Ok(None)
    }

    fn get_storage(&mut self, address: &Address, key: &Word) -> (r: DbResult<Word>) {
        Ok(FixedBytes::zero())
    }

    fn get_block_hash(&mut self, number: &Word) -> (r: DbResult<B256>) {
        Ok(FixedBytes::zero())
    }
}

/// An accepted account, `None` where it is accepted that none exists.
#[derive(Debug, PartialEq, Eq)]
pub struct CachedAccount {
    pub info: Option<AccountInfo>,
}

impl View for CachedAccount {
    type V = Option<AccountInfo>;

    open spec fn view(&self) -> Option<AccountInfo> {
        self.info
    }
}

impl Duplicate for CachedAccount {
    fn duplicate(&self) -> (r: Self) {
        CachedAccount { info: copy_info(&self.info) }
    }
}

/// The accepted storage of one account.
#[derive(Debug, PartialEq, Eq)]
pub struct CachedStorage {
    pub slots: WordMap<Word>,
    /// Whether slots that are not listed read as zero.
    pub wiped: bool,
}

/// What a [`CachedStorage`] holds.
#[verifier::ext_equal]
pub struct CachedStorageView {
    pub slots: Map<Word, Word>,
    pub wiped: bool,
}

impl View for CachedStorage {
    type V = CachedStorageView;

    open spec fn view(&self) -> CachedStorageView {
        CachedStorageView { slots: self.slots@, wiped: self.wiped }
    }
}

impl Duplicate for CachedStorage {
    fn duplicate(&self) -> (r: Self) {
        CachedStorage { slots: self.slots.duplicate(), wiped: self.wiped }
    }
}

/// The accepted state.
#[derive(Debug, PartialEq, Eq)]
pub struct Cache {
    pub accounts: AddressMap<CachedAccount>,
    pub storage: AddressMap<CachedStorage>,
    pub contracts: WordMap<Bytecode>,
}

/// What a [`Cache`] holds.
#[verifier::ext_equal]
pub struct CacheView {
    pub accounts: Map<Address, Option<AccountInfo>>,
    pub storage: Map<Address, CachedStorageView>,
    pub contracts: Map<B256, Bytecode>,
}

impl View for Cache {
    type V = CacheView;

    open spec fn view(&self) -> CacheView {
        CacheView {
            accounts: self.accounts@,
            storage: self.storage@,
            contracts: self.contracts@,
        }
    }
}

impl Duplicate for Cache {
    fn duplicate(&self) -> (r: Self) {
        Cache {
            accounts: self.accounts.duplicate(),
            storage: self.storage.duplicate(),
            contracts: self.contracts.duplicate(),
        }
    }
}

impl CacheView {
    /// Nothing accepted yet.
    pub open spec fn empty() -> Self {
        CacheView { accounts: Map::empty(), storage: Map::empty(), contracts: Map::empty() }
    }

    /// The accepted storage of an account, where none is accepted an empty one.
    pub open spec fn storage_of(self, address: Address) -> CachedStorageView {
        if self.storage.contains_key(address) {
            self.storage[address]
        } else {
            CachedStorageView { slots: Map::empty(), wiped: false }
        }
    }

    /// The accepted state with one slot written.
    pub open spec fn with_slot(self, address: Address, key: Word, value: Word) -> Self {
        let storage = self.storage_of(address);
        CacheView {
            storage: self.storage.insert(
                address,
                CachedStorageView { slots: storage.slots.insert(key, value), ..storage },
            ),
            ..self
        }
    }

    /// The accepted state with `change` applied.
    pub open spec fn applied(self, change: StateChange) -> Self {
        match change {
            StateChange::Bytecode { code_hash, code } => CacheView {
                contracts: self.contracts.insert(code_hash, code),
                ..self
            },
            StateChange::StorageWipe { address } => CacheView {
                storage: self.storage.insert(
                    address,
                    CachedStorageView { slots: Map::empty(), wiped: true },
                ),
                ..self
            },
            StateChange::Storage(write) => self.with_slot(write.address, write.key, write.current),
            StateChange::Account { address, current, .. } => CacheView {
                accounts: self.accounts.insert(address, current),
                ..self
            },
            _ => self,
        }
    }

    /// Whether the accepted state has a slot: its value, or that all storage around it is gone.
    pub open spec fn holds_slot(self, address: Address, key: Word) -> bool {
        self.storage_of(address).slots.contains_key(key) || self.storage_of(address).wiped
    }

    /// Whether a read of an account through the accepted state to `source` may have the outcome.
    pub open spec fn answers_account(
        self,
        source: DbModel,
        address: Address,
        r: DbResult<Option<AccountInfo>>,
    ) -> bool {
        if self.accounts.contains_key(address) {
            r == Ok::<Option<AccountInfo>, DbError>(self.accounts[address])
        } else {
            (source.account)(address, r)
        }
    }

    /// Whether a read of a slot through the accepted state to `source` may have the outcome.
    pub open spec fn answers_storage(
        self,
        source: DbModel,
        address: Address,
        key: Word,
        r: DbResult<Word>,
    ) -> bool {
        if self.storage_of(address).slots.contains_key(key) {
            r == Ok::<Word, DbError>(self.storage_of(address).slots[key])
        } else if self.storage_of(address).wiped {
            r == Ok::<Word, DbError>(FixedBytes::<32>::spec_zero())
        } else {
            (source.storage)(address, key, r)
        }
    }
}

impl Cache {
    /// Nothing accepted yet.
    pub fn new() -> (r: Self)
        ensures
            r@ == CacheView::empty(),
    {
        Cache { accounts: AddressMap::new(), storage: AddressMap::new(), contracts: WordMap::new() }
    }

    /// Writes one slot.
    pub fn set_slot(&mut self, address: &Address, key: &Word, value: &Word)
        ensures
            final(self)@ == old(self)@.with_slot(*address, *key, *value),
    {
        if !self.storage.contains_key(address) {
            self.storage.insert(*address, CachedStorage { slots: WordMap::new(), wiped: false });
        }
        match self.storage.get_mut(address) {
            Some(storage) => {
                storage.slots.insert(*key, *value);
            },
            None => {},
        }
        assert(self@ =~= old(self)@.with_slot(*address, *key, *value));
    }

    /// Drops all storage of an account.
    pub fn wipe_storage(&mut self, address: &Address)
        ensures
            final(self)@ == old(self)@.applied(StateChange::StorageWipe { address: *address }),
    {
        let wiped = CachedStorage { slots: WordMap::new(), wiped: true };
        self.storage.insert(*address, wiped);
    }
}

/// The accepted state over a database.
#[derive(Debug)]
pub struct CacheDB<D> {
    pub cache: Cache,
    pub db: D,
    pub bal_context: BalContext,
}

/// What a [`CacheDB`] holds.
pub struct CacheDbView {
    pub cache: CacheView,
    /// The answers of the database below.
    pub source: DbModel,
    pub bal: BalView,
}

impl CacheDbView {
    /// Whether the attached block access list decides a read of an account: it refuses the read, or
    /// records a write before the current position.
    pub open spec fn bal_decides_account(self, address: Address) -> bool {
        match self.bal.attached {
            Some(bal) => {
                ||| !covers_account(bal@, address) && !self.bal.allow_db_fallback
                ||| account_at(bal@, address, self.bal.index) is Some
            },
            None => false,
        }
    }

    /// Whether the attached block access list decides a read of a slot.
    pub open spec fn bal_decides_slot(self, address: Address, key: Word) -> bool {
        match self.bal.attached {
            Some(bal) => {
                ||| !covers_slot(bal@, address, key) && !self.bal.allow_db_fallback
                ||| slot_at(bal@, address, key, self.bal.index) is Some
            },
            None => false,
        }
    }

    /// Whether a read of an account may have the outcome: from the attached block access list where
    /// it records a write before the current position, else from the accepted state and the
    /// database below. A read that the list does not cover fails unless it may fall back.
    pub open spec fn answers_account(self, address: Address, r: DbResult<Option<AccountInfo>>) -> bool {
        match self.bal.attached {
            Some(bal) => if !covers_account(bal@, address) && !self.bal.allow_db_fallback {
                r == Err::<Option<AccountInfo>, DbError>(DbError::NotInBal)
            } else if account_at(bal@, address, self.bal.index) is Some {
                r == Ok::<Option<AccountInfo>, DbError>(account_at(bal@, address, self.bal.index)->0)
            } else {
                self.cache.answers_account(self.source, address, r)
            },
            None => self.cache.answers_account(self.source, address, r),
        }
    }

    /// Whether a read of a slot may have the outcome, by the same rule.
    pub open spec fn answers_storage(self, address: Address, key: Word, r: DbResult<Word>) -> bool {
        match self.bal.attached {
            Some(bal) => if !covers_slot(bal@, address, key) && !self.bal.allow_db_fallback {
                r == Err::<Word, DbError>(DbError::NotInBal)
            } else if slot_at(bal@, address, key, self.bal.index) is Some {
                r == Ok::<Word, DbError>(slot_at(bal@, address, key, self.bal.index)->0)
            } else {
                self.cache.answers_storage(self.source, address, key, r)
            },
            None => self.cache.answers_storage(self.source, address, key, r),
        }
    }

    /// Whether reads of an account have one outcome only.
    pub open spec fn answers_account_once(self, address: Address) -> bool {
        forall|a: DbResult<Option<AccountInfo>>, b: DbResult<Option<AccountInfo>>| #[trigger]
            self.answers_account(address, a) && #[trigger] self.answers_account(address, b) ==> a
                == b
    }

    /// Whether reads of a slot have one outcome only.
    pub open spec fn answers_storage_once(self, address: Address, key: Word) -> bool {
        forall|a: DbResult<Word>, b: DbResult<Word>| #[trigger]
            self.answers_storage(address, key, a) && #[trigger] self.answers_storage(
                address,
                key,
                b,
            ) ==> a == b
    }

    /// The answers of the accepted state over its database.
    pub open spec fn model(self) -> DbModel {
        DbModel {
            account: |address: Address, r: DbResult<Option<AccountInfo>>|
                self.answers_account(address, r),
            storage: |address: Address, key: Word, r: DbResult<Word>|
                self.answers_storage(address, key, r),
            block_hash: self.source.block_hash,
        }
    }

    /// The database after it accepted `change`.
    pub open spec fn accepted(self, change: StateChange) -> Self {
        CacheDbView {
            cache: self.cache.applied(change),
            bal: self.bal.recorded(change),
            ..self
        }
    }

    /// The database after it accepted all of `changes` in turn.
    pub open spec fn accepted_all(self, changes: Seq<StateChange>) -> Self
        decreases changes.len(),
    {
        if changes.len() == 0 {
            self
        } else {
            self.accepted_all(changes.drop_last()).accepted(changes.last())
        }
    }
}

impl<D: Database> View for CacheDB<D> {
    type V = CacheDbView;

    open spec fn view(&self) -> CacheDbView {
        CacheDbView { cache: self.cache@, source: self.db.model(), bal: self.bal_context@ }
    }
}

impl Default for CacheDB<EmptyDB> {
    fn default() -> (r: Self)
        ensures
            r@ == (CacheDbView {
                cache: CacheView::empty(),
                source: EmptyDB::answers(),
                bal: BalView::initial(),
            }),
    {
        CacheDB::new(EmptyDB)
    }
}

impl<D: Database> CacheDB<D> {
    /// Nothing accepted yet over `db`.
    pub fn new(db: D) -> (r: Self)
        ensures
            r@ == (CacheDbView {
                cache: CacheView::empty(),
                source: db.model(),
                bal: BalView::initial(),
            }),
            r.db == db,
    {
        CacheDB { cache: Cache::new(), db, bal_context: BalContext::new() }
    }

    /// Accepts the contents of an account.
    pub fn insert_account_info(&mut self, address: &Address, info: AccountInfo)
        ensures
            final(self)@ == (CacheDbView {
                cache: CacheView {
                    accounts: old(self)@.cache.accounts.insert(*address, Some(info)),
                    ..old(self)@.cache
                },
                ..old(self)@
            }),
            final(self).db == old(self).db,
    {
        self.cache.accounts.insert(*address, CachedAccount { info: Some(info) });
    }

    /// Accepts the value of a slot.
    pub fn insert_account_storage(&mut self, address: &Address, key: &Word, value: &Word)
        ensures
            final(self)@ == (CacheDbView {
                cache: old(self)@.cache.with_slot(*address, *key, *value),
                ..old(self)@
            }),
            final(self).db == old(self).db,
    {
        self.cache.set_slot(address, key, value);
    }

    /// Reads an account from the accepted state, else from the database below.
    fn read_account(&mut self, address: &Address) -> (r: DbResult<Option<AccountInfo>>)
        ensures
            old(self)@.cache.answers_account(old(self)@.source, *address, r),
            old(self).reads_into(*final(self)),
            old(self)@.cache.accounts.contains_key(*address) ==> *final(self) == *old(self),
            final(self)@ == old(self)@,
    {
        if let Some(account) = self.cache.accounts.get(address) {
            return Ok(copy_info(&account.info));
        }
        self.db.get_account(address)
    }

    /// Reads a slot from the accepted state, else from the database below.
    fn read_storage(&mut self, address: &Address, key: &Word) -> (r: DbResult<Word>)
        ensures
            old(self)@.cache.answers_storage(old(self)@.source, *address, *key, r),
            old(self).reads_into(*final(self)),
            old(self)@.cache.holds_slot(*address, *key) ==> *final(self) == *old(self),
            final(self)@ == old(self)@,
    {
        if let Some(storage) = self.cache.storage.get(address) {
            if let Some(value) = storage.slots.get(key) {
                return Ok(*value);
            }
            if storage.wiped {
                return Ok(FixedBytes::zero());
            }
        }
        self.db.get_storage(address, key)
    }
}

impl<D: Database> Database for CacheDB<D> {
    open spec fn model(&self) -> DbModel {
        self@.model()
    }

    /// At most one read of the database below, and nothing else.
    open spec fn reads_into(&self, after: Self) -> bool {
        ||| after == *self
        ||| self.db.reads_into(after.db) && after == CacheDB { db: after.db, ..*self }
    }

    /// Reads an account. The database below is read only where neither the attached block access
    /// list nor the accepted state has the answer.
    fn get_account(&mut self, address: &Address) -> (r: DbResult<Option<AccountInfo>>)
        ensures
            old(self)@.bal_decides_account(*address) || old(self)@.cache.accounts.contains_key(
                *address,
            ) ==> *final(self) == *old(self),
            final(self)@ == old(self)@,
    {
        if let Some(bal) = self.bal_context.bal() {
            if !bal.covers_account(address) && !self.bal_context.allow_db_fallback() {
                return Err(DbError::NotInBal);
            }
            if let Some(info) = bal.account_at(address, self.bal_context.bal_index()) {
                return Ok(info);
            }
        }
        self.read_account(address)
    }

    /// Reads a slot. The database below is read only where neither the attached block access list
    /// nor the accepted state has the answer.
    fn get_storage(&mut self, address: &Address, key: &Word) -> (r: DbResult<Word>)
        ensures
            old(self)@.bal_decides_slot(*address, *key) || old(self)@.cache.holds_slot(
                *address,
                *key,
            ) ==> *final(self) == *old(self),
            final(self)@ == old(self)@,
    {
        if let Some(bal) = self.bal_context.bal() {
            if !bal.covers_slot(address, key) && !self.bal_context.allow_db_fallback() {
                return Err(DbError::NotInBal);
            }
            if let Some(value) = bal.slot_at(address, key, self.bal_context.bal_index()) {
                return Ok(value);
            }
        }
        self.read_storage(address, key)
    }

    fn get_block_hash(&mut self, number: &Word) -> (r: DbResult<B256>)
        ensures
            final(self)@ == old(self)@,
    {
        self.db.get_block_hash(number)
    }
}

impl<D: Database> StateChangeSink for CacheDB<D> {
    type Error = DbError;

    open spec fn takes(&self, change: StateChange, failure: Option<DbError>, after: Self) -> bool {
        failure is None && after@ == self@.accepted(change) && after.db == self.db
    }

    fn bytecode(&mut self, code_hash: B256, code: &Bytecode) -> (r: Result<(), DbError>) {
        self.cache.contracts.insert(code_hash, code.clone());
        self.bal_context.record(&StateChange::Bytecode { code_hash, code: code.clone() });
        Ok(())
    }

    fn storage_wipe(&mut self, address: Address) -> (r: Result<(), DbError>) {
        self.cache.wipe_storage(&address);
        self.bal_context.record(&StateChange::StorageWipe { address });
        Ok(())
    }

    fn storage(&mut self, change: StorageChange) -> (r: Result<(), DbError>) {
        self.cache.set_slot(&change.address, &change.key, &change.current);
        self.bal_context.record(&StateChange::Storage(change));
        Ok(())
    }

    fn storage_read(&mut self, address: Address, key: Word, value: Word) -> (r: Result<(), DbError>) {
        self.bal_context.record(&StateChange::StorageRead { address, key, value });
        Ok(())
    }

    fn account(&mut self, change: AccountChangeRef<'_>) -> (r: Result<(), DbError>) {
        let original = match change.original {
            Some(info) => Some(info.clone()),
            None => None,
        };
        let current = match change.current {
            Some(info) => Some(info.clone()),
            None => None,
        };
        self.cache.accounts.insert(change.address, CachedAccount { info: copy_info(&current) });
        let change = StateChange::Account {
            address: change.address,
            original,
            current,
            created: change.created,
            selfdestructed: change.selfdestructed,
        };
        self.bal_context.record(&change);
        Ok(())
    }

    fn account_read(&mut self, address: Address, current: Option<&AccountInfo>) -> (r: Result<
        (),
        DbError,
    >) {
        let current = match current {
            Some(info) => Some(info.clone()),
            None => None,
        };
        self.bal_context.record(&StateChange::AccountRead { address, current });
        Ok(())
    }
}

} // verus!
