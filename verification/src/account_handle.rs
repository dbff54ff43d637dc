//! Loading accounts and changing them under the revert journal.
use vstd::prelude::*;

use crate::account::Account;
use crate::db::{Database, DbResult, LoadError};
use crate::fixed::{Address, FixedBytes, Word, B256};
use crate::info::{copy_info, AccountInfo, Bytecode};
use crate::journal::JournalEntry;
use crate::state::{State, StateView};

verus! {

/// A loaded account of a state. The first change through a handle journals the account as it was,
/// so that a rollback undoes all changes through the handle together.
pub struct AccountHandle<'h, D> {
    pub state: &'h mut State<D>,
    pub address: Address,
    /// Whether this handle has journaled the account.
    pub journaled: bool,
}

impl<'h, D: Database> View for AccountHandle<'h, D> {
    type V = StateView;

    /// The state that the account belongs to.
    open spec fn view(&self) -> StateView {
        self.state@
    }
}

impl<'h, D: Database> AccountHandle<'h, D> {
    /// What a handle keeps: its account is loaded.
    pub open spec fn wf(self) -> bool {
        self@.wf() && self@.tx.accounts.contains_key(self.address)
    }

    /// The account.
    pub open spec fn account(self) -> Account {
        self@.tx.accounts[self.address]
    }

    /// The loaded account, for reading.
    fn loaded(&self) -> (r: &Account)
        requires
            self.wf(),
        ensures
            *r == self.account(),
    {
        match self.state.accounts.get(&self.address) {
            Some(account) => account,
            None => vstd::pervasive::unreached(),
        }
    }

    /// Replaces the account, journaled unless this handle has done so before.
    fn change(&mut self, account: Account)
        requires
            old(self).wf(),
        ensures
            final(self)@ == old(self)@.with_tx(
                old(self)@.tx.change_account(
                    old(self).address,
                    old(self).journaled,
                    account,
                ),
            ),
            final(self).state.inner.database == old(self).state.inner.database,
            final(self).address == old(self).address,
            final(self).journaled,
            *final(final(self).state) == *final(old(self).state),
            final(self).wf(),
    {
        if !self.journaled {
            let before = self.loaded().clone();
            self.state.inner.journal.push(
                JournalEntry::AccountChange {
                    address: self.address,
                    previous: before.present,
                    previous_is_warm: before.is_warm,
                    previous_is_touched: before.is_touched,
                    previous_is_destroyed: before.is_destroyed,
                    previous_just_created: before.just_created,
                    previous_code_changed: before.code_changed,
                },
            );
            self.journaled = true;
        }
        self.state.accounts.insert(self.address, account);
        assert(self.state@.tx =~= old(self)@.tx.change_account(
            old(self).address,
            old(self).journaled,
            account,
        ));
    }

    /// The contents of the account, `None` where it does not exist.
    pub fn get(&self) -> (r: Option<&AccountInfo>)
        requires
            self.wf(),
        ensures
            match r {
                Some(info) => self.account().present == Some(*info),
                None => self.account().present is None,
            },
    {
        self.loaded().present.as_ref()
    }

    /// Whether the account exists.
    pub fn is_existing(&self) -> (r: bool)
        requires
            self.wf(),
        ensures
            r == (self.account().present is Some),
    {
        self.loaded().present.is_some()
    }

    /// The balance of the account.
    pub fn balance(&self) -> (r: Word)
        requires
            self.wf(),
        ensures
            r == self.account().contents().balance,
    {
        match self.get() {
            Some(info) => info.balance,
            None => FixedBytes::zero(),
        }
    }

    /// The nonce of the account.
    pub fn nonce(&self) -> (r: u64)
        requires
            self.wf(),
        ensures
            r == self.account().contents().nonce,
    {
        match self.get() {
            Some(info) => info.nonce,
            None => 0,
        }
    }

    /// Whether accessing the account is warm.
    pub fn is_warm(&self) -> (r: bool)
        requires
            self.wf(),
        ensures
            r == self@.tx.account_is_warm(self.address),
    {
        self.loaded().is_warm || self.state.inner.prewarm_set.is_warm(&self.address)
    }

    /// Whether the transaction created the account.
    pub fn is_created(&self) -> (r: bool)
        requires
            self.wf(),
        ensures
            r == self.account().just_created,
    {
        self.loaded().is_created()
    }

    /// Whether the account has self-destructed.
    pub fn is_destructed(&self) -> (r: bool)
        requires
            self.wf(),
        ensures
            r == self.account().is_destroyed,
    {
        self.loaded().is_destroyed
    }

    /// Whether the account exists and is dead in the sense of EIP-161.
    pub fn is_existing_dead(&self) -> (r: bool)
        requires
            self.wf(),
        ensures
            r == (self.account().present is Some && self.account().contents().spec_is_dead()),
    {
        match self.get() {
            Some(info) => info.is_dead(),
            None => false,
        }
    }

    /// Touches the account in the sense of EIP-161.
    pub fn touch(&mut self)
        requires
            old(self).wf(),
        ensures
            old(self).account().is_touched ==> final(self)@ == old(self)@
                && final(self).journaled == old(self).journaled,
            !old(self).account().is_touched ==> final(self).journaled && final(self)@
                == old(self)@.with_tx(
                old(self)@.tx.change_account(
                    old(self).address,
                    old(self).journaled,
                    Account { is_touched: true, ..old(self).account() },
                ),
            ),
            final(self).state.inner.database == old(self).state.inner.database,
            final(self).address == old(self).address,
            *final(final(self).state) == *final(old(self).state),
            final(self).wf(),
    {
        if !self.loaded().is_touched {
            let mut account = self.loaded().clone();
            account.is_touched = true;
            self.change(account);
        }
    }

    /// Accesses the account and says whether the access was cold.
    pub fn warm(&mut self) -> (r: bool)
        requires
            old(self).wf(),
        ensures
            r == !old(self)@.tx.account_is_warm(old(self).address),
            !r ==> final(self)@ == old(self)@ && final(self).journaled
                == old(self).journaled,
            r ==> final(self).journaled && final(self)@ == old(self)@.with_tx(
                old(self)@.tx.change_account(
                    old(self).address,
                    old(self).journaled,
                    Account { is_warm: true, ..old(self).account() },
                ),
            ),
            final(self).state.inner.database == old(self).state.inner.database,
            final(self).address == old(self).address,
            *final(final(self).state) == *final(old(self).state),
            final(self).wf(),
    {
        if self.is_warm() {
            return false;
        }
        let mut account = self.loaded().clone();
        account.is_warm = true;
        self.change(account);
        true
    }

    /// Replaces the contents of the account, which exists from then on.
    pub fn set_info(&mut self, info: AccountInfo)
        requires
            old(self).wf(),
        ensures
            final(self)@ == old(self)@.with_tx(
                old(self)@.tx.change_account(
                    old(self).address,
                    old(self).journaled,
                    Account { present: Some(info), ..old(self).account() },
                ),
            ),
            final(self).state.inner.database == old(self).state.inner.database,
            final(self).address == old(self).address,
            final(self).journaled,
            *final(final(self).state) == *final(old(self).state),
            final(self).wf(),
    {
        let mut account = self.loaded().clone();
        account.present = Some(info);
        self.change(account);
    }

    /// A copy of the contents of the account, where it does not exist those of an empty one.
    fn contents(&self) -> (r: AccountInfo)
        requires
            self.wf(),
        ensures
            r == self.account().contents(),
    {
        match self.get() {
            Some(info) => info.clone(),
            None => AccountInfo::default(),
        }
    }

    /// Sets the balance of the account, which exists and is touched from then on.
    pub fn set_balance(&mut self, balance: Word)
        requires
            old(self).wf(),
        ensures
            final(self)@ == old(self)@.with_tx(
                old(self)@.tx.change_account(
                    old(self).address,
                    old(self).journaled,
                    old(self).account().with_balance(balance),
                ),
            ),
            final(self).state.inner.database == old(self).state.inner.database,
            final(self).address == old(self).address,
            final(self).journaled,
            *final(final(self).state) == *final(old(self).state),
            final(self).wf(),
    {
        let mut info = self.contents();
        info.balance = balance;
        let mut account = self.loaded().clone();
        account.present = Some(info);
        account.is_touched = true;
        self.change(account);
    }

    /// Sets the nonce of the account, which exists and is touched from then on.
    pub fn set_nonce(&mut self, nonce: u64)
        requires
            old(self).wf(),
        ensures
            final(self)@ == old(self)@.with_tx(
                old(self)@.tx.change_account(
                    old(self).address,
                    old(self).journaled,
                    Account {
                        present: Some(AccountInfo { nonce, ..old(self).account().contents() }),
                        is_touched: true,
                        ..old(self).account()
                    },
                ),
            ),
            final(self).state.inner.database == old(self).state.inner.database,
            final(self).address == old(self).address,
            final(self).journaled,
            *final(final(self).state) == *final(old(self).state),
            final(self).wf(),
    {
        let mut info = self.contents();
        info.nonce = nonce;
        let mut account = self.loaded().clone();
        account.present = Some(info);
        account.is_touched = true;
        self.change(account);
    }

    /// Gives the account code with its hash. The account exists and is touched from then on.
    pub fn set_code(&mut self, code_hash: B256, code: Bytecode)
        requires
            old(self).wf(),
        ensures
            final(self)@ == old(self)@.with_tx(
                old(self)@.tx.change_account(
                    old(self).address,
                    old(self).journaled,
                    Account {
                        present: Some(
                            AccountInfo {
                                code_hash,
                                code: Some(code),
                                ..old(self).account().contents()
                            },
                        ),
                        is_touched: true,
                        code_changed: true,
                        ..old(self).account()
                    },
                ),
            ),
            final(self).state.inner.database == old(self).state.inner.database,
            final(self).address == old(self).address,
            final(self).journaled,
            *final(final(self).state) == *final(old(self).state),
            final(self).wf(),
    {
        let mut info = self.contents();
        info.code_hash = code_hash;
        info.code = Some(code);
        let mut account = self.loaded().clone();
        account.present = Some(info);
        account.is_touched = true;
        account.code_changed = true;
        self.change(account);
    }

    /// Marks the account as created by the transaction.
    pub fn mark_created(&mut self)
        requires
            old(self).wf(),
        ensures
            final(self)@ == old(self)@.with_tx(
                old(self)@.tx.change_account(
                    old(self).address,
                    old(self).journaled,
                    Account { just_created: true, ..old(self).account() },
                ),
            ),
            final(self).state.inner.database == old(self).state.inner.database,
            final(self).address == old(self).address,
            final(self).journaled,
            *final(final(self).state) == *final(old(self).state),
            final(self).wf(),
    {
        let mut account = self.loaded().clone();
        account.just_created = true;
        self.change(account);
    }

    /// Marks the account as self-destructed.
    pub fn mark_destructed(&mut self)
        requires
            old(self).wf(),
        ensures
            final(self)@ == old(self)@.with_tx(
                old(self)@.tx.destruct_account(old(self).address, old(self).journaled),
            ),
            final(self).state.inner.database == old(self).state.inner.database,
            final(self).address == old(self).address,
            final(self).journaled,
            *final(final(self).state) == *final(old(self).state),
            final(self).wf(),
    {
        let mut account = self.loaded().clone();
        account.is_destroyed = true;
        self.change(account);
        self.state.inner.selfdestructs.insert(self.address);
        assert(self.state@.tx =~= old(self)@.tx.destruct_account(
            old(self).address,
            old(self).journaled,
        ));
    }

    /// Deletes the account at the end of a transaction.
    pub fn delete_for_finalization(&mut self)
        requires
            old(self).wf(),
        ensures
            final(self)@ == old(self)@.with_tx(
                old(self)@.tx.change_account(
                    old(self).address,
                    old(self).journaled,
                    old(self).account().deleted(),
                ),
            ),
            final(self).state.inner.database == old(self).state.inner.database,
            final(self).address == old(self).address,
            final(self).journaled,
            *final(final(self).state) == *final(old(self).state),
            final(self).wf(),
    {
        let mut account = self.loaded().clone();
        account.present = None;
        self.change(account);
    }

    /// Leaves nothing but the balance of a self-destructed account at the end of a transaction.
    pub fn reset_selfdestructed_for_finalization(&mut self)
        requires
            old(self).wf(),
        ensures
            final(self)@ == old(self)@.with_tx(
                old(self)@.tx.change_account(
                    old(self).address,
                    old(self).journaled,
                    old(self).account().reduced_to_balance(),
                ),
            ),
            final(self).state.inner.database == old(self).state.inner.database,
            final(self).address == old(self).address,
            final(self).journaled,
            *final(final(self).state) == *final(old(self).state),
            final(self).wf(),
    {
        let balance = self.balance();
        let mut account = self.loaded().clone();
        account.present = Some(AccountInfo::default().with_balance(balance));
        account.is_destroyed = false;
        account.code_changed = false;
        self.change(account);
    }
}

impl<D: Database> State<D> {
    /// Loads an account, unless the access is cold and cold accesses are to be skipped. Loading is
    /// not journaled. The database is read only where the account is not loaded yet and the access is
    /// not skipped.
    pub(crate) fn account_raw_with_skip(&mut self, address: &Address, skip_cold: bool) -> (r: Result<
        (),
        LoadError,
    >)
        requires
            old(self).wf(),
        ensures
            final(self).wf(),
            old(self)@.tx.accounts.contains_key(*address) || (skip_cold
                && !old(self)@.tx.account_is_warm(*address)) ==> *final(self) == *old(self),
            old(self).inner.database.reads_into(final(self).inner.database),
            match r {
                Ok(_) => {
                    &&& !skip_cold || old(self)@.tx.account_is_warm(*address)
                    &&& old(self)@.loads_account(*address, final(self)@)
                    &&& final(self)@.tx.accounts.contains_key(*address)
                },
                Err(LoadError::ColdLoadSkipped) => {
                    &&& skip_cold && !old(self)@.tx.account_is_warm(*address)
                    &&& final(self)@ == old(self)@
                },
                Err(LoadError::Database(error)) => {
                    &&& !skip_cold || old(self)@.tx.account_is_warm(*address)
                    &&& !old(self)@.tx.accounts.contains_key(*address)
                    &&& old(self)@.db.answers_account(*address, Err(error))
                    &&& final(self)@ == old(self)@
                },
            },
    {
        let prewarmed = self.inner.prewarm_set.is_warm(address);
        match self.accounts.get(address) {
            Some(account) => {
                if skip_cold && !account.is_warm && !prewarmed {
                    return Err(LoadError::ColdLoadSkipped);
                }
                assert(self@.finds_account(*address, None));
                return Ok(());
            },
            None => {},
        }
        if skip_cold && !prewarmed {
            return Err(LoadError::ColdLoadSkipped);
        }
        match self.inner.database.get_account(address) {
            Ok(info) => {
                assert(old(self)@.finds_account(*address, info));
                self.accounts.insert(*address, Account::loaded(info, prewarmed));
                assert(self@.tx =~= old(self)@.tx.load_account(*address, info));
                Ok(())
            },
            Err(error) => Err(LoadError::Database(error)),
        }
    }

    /// Loads an account.
    pub(crate) fn account_raw(&mut self, address: &Address) -> (r: DbResult<()>)
        requires
            old(self).wf(),
        ensures
            final(self).wf(),
            old(self)@.tx.accounts.contains_key(*address) ==> *final(self) == *old(self),
            old(self).inner.database.reads_into(final(self).inner.database),
            match r {
                Ok(_) => {
                    &&& old(self)@.loads_account(*address, final(self)@)
                    &&& final(self)@.tx.accounts.contains_key(*address)
                },
                Err(error) => {
                    &&& !old(self)@.tx.accounts.contains_key(*address)
                    &&& old(self)@.db.answers_account(*address, Err(error))
                    &&& final(self)@ == old(self)@
                },
            },
    {
        match self.account_raw_with_skip(address, false) {
            Ok(()) => Ok(()),
            Err(LoadError::Database(error)) => Err(error),
            Err(LoadError::ColdLoadSkipped) => vstd::pervasive::unreached(),
        }
    }

    /// Loads an account and returns a handle to it. Where the account is not loaded yet, the database
    /// is read once; where it is, not at all.
    pub fn account(&mut self, address: &Address) -> (r: DbResult<AccountHandle<'_, D>>)
        requires
            old(self).wf(),
        ensures
            match r {
                Ok(handle) => {
                    &&& handle.wf()
                    &&& handle.address == *address
                    &&& !handle.journaled
                    &&& old(self)@.loads_account(*address, handle@)
                    &&& old(self)@.tx.accounts.contains_key(*address) ==> *handle.state
                        == *old(self)
                    &&& old(self).inner.database.reads_into(handle.state.inner.database)
                    &&& *final(handle.state) == *final(self)
                },
                Err(error) => {
                    &&& !old(self)@.tx.accounts.contains_key(*address)
                    &&& old(self)@.db.answers_account(*address, Err(error))
                    &&& old(self).inner.database.reads_into(final(self).inner.database)
                    &&& final(self)@ == old(self)@
                    &&& final(self).wf()
                },
            },
    {
        match self.account_raw(address) {
            Ok(()) => Ok(AccountHandle { state: self, address: *address, journaled: false }),
            Err(error) => Err(error),
        }
    }

    /// Loads an account and returns a handle to it, unless the access is cold and cold accesses are
    /// to be skipped. A skipped access reads nothing.
    pub fn account_with_skip(&mut self, address: &Address, skip_cold_load: bool) -> (r: Result<
        AccountHandle<'_, D>,
        LoadError,
    >)
        requires
            old(self).wf(),
        ensures
            match r {
                Ok(handle) => {
                    &&& !skip_cold_load || old(self)@.tx.account_is_warm(*address)
                    &&& handle.wf()
                    &&& handle.address == *address
                    &&& !handle.journaled
                    &&& old(self)@.loads_account(*address, handle@)
                    &&& old(self)@.tx.accounts.contains_key(*address) ==> *handle.state
                        == *old(self)
                    &&& old(self).inner.database.reads_into(handle.state.inner.database)
                    &&& *final(handle.state) == *final(self)
                },
                Err(LoadError::ColdLoadSkipped) => {
                    &&& skip_cold_load && !old(self)@.tx.account_is_warm(*address)
                    &&& *final(self) == *old(self)
                    &&& final(self).wf()
                },
                Err(LoadError::Database(error)) => {
                    &&& !skip_cold_load || old(self)@.tx.account_is_warm(*address)
                    &&& !old(self)@.tx.accounts.contains_key(*address)
                    &&& old(self)@.db.answers_account(*address, Err(error))
                    &&& old(self).inner.database.reads_into(final(self).inner.database)
                    &&& final(self)@ == old(self)@
                    &&& final(self).wf()
                },
            },
    {
        match self.account_raw_with_skip(address, skip_cold_load) {
            Ok(()) => Ok(AccountHandle { state: self, address: *address, journaled: false }),
            Err(error) => Err(error),
        }
    }

    /// The contents of an account as they stand, read without loading the account. The database is
    /// read only where the account is not loaded.
    pub fn account_info_untracked(&mut self, address: &Address) -> (r: DbResult<Option<AccountInfo>>)
        requires
            old(self).wf(),
        ensures
            old(self)@.reads_account(*address, r),
            old(self).inner.database.reads_into(final(self).inner.database),
            old(self)@.tx.accounts.contains_key(*address) ==> *final(self) == *old(self),
            final(self)@ == old(self)@,
            final(self).wf(),
    {
        if let Some(account) = self.accounts.get(address) {
            return Ok(copy_info(&account.present));
        }
        self.inner.database.get_account(address)
    }
}

} // verus!
