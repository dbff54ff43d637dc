//! Moving value between accounts and creating contracts.
use vstd::prelude::*;

use crate::account::Account;
use crate::db::{Database, DbError, DbResult};
use crate::features::{EvmFeature, EvmFeatures, InstrStop};
use crate::fixed::{law_word_of, word_of, Address, FixedBytes, Word};
use crate::info::{empty_code_hash, spec_empty_code_hash, AccountInfo, Bytecode};
use crate::model::TxView;
use crate::state::{State, StateView};

verus! {

impl TxView {
    /// The balance of a loaded account.
    pub open spec fn balance(self, address: Address) -> nat {
        self.accounts[address].contents().balance.value()
    }

    /// The layer once a loaded account was touched. Touching it again changes nothing.
    pub open spec fn touch_account(self, address: Address) -> Self {
        if self.accounts[address].is_touched {
            self
        } else {
            self.change_account(
                address,
                false,
                Account { is_touched: true, ..self.accounts[address] },
            )
        }
    }

    /// The layer once a loaded account was given a balance.
    pub open spec fn set_balance(self, address: Address, balance: nat) -> Self {
        self.change_account(address, false, self.accounts[address].with_balance(word_of(balance)))
    }

    /// The layer once a loaded account paid `value`.
    pub open spec fn debit(self, address: Address, value: Word) -> Self {
        self.set_balance(address, (self.balance(address) - value.value()) as nat)
    }

    /// The layer once a loaded account received `value`. A balance stops at the largest word.
    pub open spec fn credit(self, address: Address, value: Word) -> Self {
        let sum = self.balance(address) + value.value();
        self.set_balance(
            address,
            if sum < FixedBytes::<32>::modulus() {
                sum
            } else {
                (FixedBytes::<32>::modulus() - 1) as nat
            },
        )
    }

    /// Whether a loaded account already holds a contract.
    pub open spec fn holds_contract(self, address: Address) -> bool {
        match self.accounts[address].present {
            Some(info) => info.nonce != 0 || info.code_hash != spec_empty_code_hash(),
            None => false,
        }
    }

    /// Whether a transfer has to ask the database for an account.
    pub open spec fn transfer_needs_read(self, from: Address, to: Address, value: Word) -> bool {
        if value.value() == 0 {
            !self.accounts.contains_key(to)
        } else {
            ||| !self.accounts.contains_key(from)
            ||| !self.accounts.contains_key(to) && self.balance(from) >= value.value()
        }
    }

    /// Whether creating a contract has to ask the database for an account.
    pub open spec fn creation_needs_read(self, caller: Address, address: Address, value: Word) -> bool {
        ||| !self.accounts.contains_key(address)
        ||| !self.accounts.contains_key(caller) && !self.holds_contract(address) && value.value()
            != 0
    }

    /// The layer once a loaded account became a new contract endowed with `value`. The balance it
    /// held stays; EIP-161 starts it at nonce one.
    pub open spec fn create_contract(self, address: Address, value: Word, eip161: bool) -> Self {
        self.change_account(
            address,
            false,
            Account {
                present: Some(
                    AccountInfo {
                        nonce: if eip161 {
                            1
                        } else {
                            0
                        },
                        balance: word_of(
                            (self.balance(address) + value.value()) % FixedBytes::<32>::modulus(),
                        ),
                        code_hash: spec_empty_code_hash(),
                        code: Some(Bytecode::Empty),
                    },
                ),
                just_created: true,
                is_touched: true,
                ..self.accounts[address]
            },
        )
    }
}

impl StateView {
    /// The state once a loaded account was touched.
    pub open spec fn touch_account(self, address: Address) -> Self {
        self.with_tx(self.tx.touch_account(address))
    }

    /// The state once a loaded account paid `value`.
    pub open spec fn debit(self, address: Address, value: Word) -> Self {
        self.with_tx(self.tx.debit(address, value))
    }

    /// The state once a loaded account received `value`.
    pub open spec fn credit(self, address: Address, value: Word) -> Self {
        self.with_tx(self.tx.credit(address, value))
    }

    /// The state once a loaded account became a new contract.
    pub open spec fn create_contract(self, address: Address, value: Word, eip161: bool) -> Self {
        self.with_tx(self.tx.create_contract(address, value, eip161))
    }

    /// Whether loading an account may fail with `error`.
    pub open spec fn fails_account(self, address: Address, error: DbError) -> bool {
        !self.tx.accounts.contains_key(address) && self.db.answers_account(address, Err(error))
    }

    /// Whether `r` and `after` may be the outcome of a transfer. Without value the recipient is
    /// touched. Otherwise the sender is loaded; it pays only if it can, and what it pays the
    /// recipient receives. A failed read leaves what was done before it.
    pub open spec fn transfers(
        self,
        from: Address,
        to: Address,
        value: Word,
        r: DbResult<bool>,
        after: Self,
    ) -> bool {
        if value.value() == 0 {
            match r {
                Ok(moved) => moved && exists|loaded: StateView| #[trigger]
                    self.loads_account(to, loaded) && after == loaded.touch_account(to),
                Err(error) => self.fails_account(to, error) && after == self,
            }
        } else {
            match r {
                Ok(false) => exists|loaded: StateView| #[trigger]
                    self.loads_account(from, loaded) && loaded.tx.balance(from) < value.value()
                        && after == loaded,
                Ok(true) => exists|loaded: StateView| #[trigger]
                    self.loads_account(from, loaded) && loaded.tx.balance(from) >= value.value() && (
                    if from == to {
                        after == loaded.touch_account(from)
                    } else {
                        exists|paid: StateView| #[trigger]
                            loaded.debit(from, value).loads_account(to, paid) && after
                                == paid.credit(to, value)
                    }),
                Err(error) => {
                    ||| self.fails_account(from, error) && after == self
                    ||| exists|loaded: StateView| #[trigger]
                        self.loads_account(from, loaded) && loaded.tx.balance(from) >= value.value()
                            && from != to && loaded.debit(from, value).fails_account(to, error)
                            && after == loaded.debit(from, value)
                },
            }
        }
    }

    /// Whether `r` and `after` may be the outcome of creating a contract. The target is loaded and
    /// must not hold a contract; then the caller, unless there is nothing to pay, is loaded and must
    /// be able to pay; then the target becomes the contract.
    pub open spec fn creates(
        self,
        caller: Address,
        address: Address,
        value: Word,
        eip161: bool,
        r: DbResult<Result<(), InstrStop>>,
        after: Self,
    ) -> bool {
        match r {
            Ok(Ok(_)) => exists|loaded: StateView| #[trigger]
                self.loads_account(address, loaded) && !loaded.tx.holds_contract(address) && (
                if value.value() == 0 {
                    after == loaded.create_contract(address, value, eip161)
                } else {
                    exists|both: StateView| #[trigger]
                        loaded.loads_account(caller, both) && both.tx.balance(caller)
                            >= value.value() && after == both.debit(caller, value).create_contract(
                            address,
                            value,
                            eip161,
                        )
                }),
            Ok(Err(InstrStop::CreateCollision)) => self.loads_account(address, after)
                && after.tx.holds_contract(address),
            Ok(Err(InstrStop::OutOfFunds)) => exists|loaded: StateView| #[trigger]
                self.loads_account(address, loaded) && !loaded.tx.holds_contract(address)
                    && value.value() != 0 && loaded.loads_account(caller, after)
                    && after.tx.balance(caller) < value.value(),
            Err(error) => {
                ||| self.fails_account(address, error) && after == self
                ||| self.loads_account(address, after) && !after.tx.holds_contract(address)
                    && value.value() != 0 && after.fails_account(caller, error)
            },
        }
    }
}

impl<D: Database> State<D> {
    /// Moves `value` from one account to another and says whether the sender could pay.
    pub fn transfer(&mut self, from: &Address, to: &Address, value: &Word) -> (r: DbResult<bool>)
        requires
            old(self).wf(),
        ensures
            old(self)@.transfers(*from, *to, *value, r, final(self)@),
            !old(self)@.tx.transfer_needs_read(*from, *to, *value) ==> final(self).inner.database
                == old(self).inner.database,
            final(self).wf(),
    {
        if value.is_zero() {
            let mut account = match self.account(to) {
                Ok(account) => account,
                Err(error) => {
                    return Err(error);
                },
            };
            account.touch();
            return Ok(true);
        }
        if *from == *to {
            let mut account = match self.account(from) {
                Ok(account) => account,
                Err(error) => {
                    return Err(error);
                },
            };
            let ghost loaded = account@;
            assert(old(self)@.loads_account(*from, loaded));
            if account.balance().less_than(value) {
                return Ok(false);
            }
            account.touch();
            return Ok(true);
        }
        let mut from_account = match self.account(from) {
            Ok(account) => account,
            Err(error) => {
                return Err(error);
            },
        };
        let ghost loaded = from_account@;
        assert(old(self)@.loads_account(*from, loaded));
        let new_from_balance = match from_account.balance().checked_sub(value) {
            Some(balance) => balance,
            None => {
                return Ok(false);
            },
        };
        proof {
            law_word_of(new_from_balance);
        }
        from_account.set_balance(new_from_balance);
        from_account.touch();
        assert(self@ == loaded.debit(*from, *value));
        let mut to_account = match self.account(to) {
            Ok(account) => account,
            Err(error) => {
                return Err(error);
            },
        };
        let ghost paid = to_account@;
        assert(loaded.debit(*from, *value).loads_account(*to, paid));
        let new_to_balance = to_account.balance().saturating_add(value);
        proof {
            law_word_of(new_to_balance);
        }
        to_account.set_balance(new_to_balance);
        to_account.touch();
        assert(self@ == paid.credit(*to, *value));
        Ok(true)
    }

    /// Makes an account a new contract and moves an endowment to it from the caller.
    pub fn create_account(
        &mut self,
        caller: &Address,
        address: &Address,
        value: &Word,
        features: EvmFeatures,
    ) -> (r: DbResult<Result<(), InstrStop>>)
        requires
            old(self).wf(),
        ensures
            old(self)@.creates(*caller, *address, *value, features.eip161, r, final(self)@),
            !old(self)@.tx.creation_needs_read(*caller, *address, *value)
                ==> final(self).inner.database == old(self).inner.database,
            final(self).wf(),
    {
        let occupied = match self.account(address) {
            Ok(account) => match account.get() {
                Some(info) => info.nonce != 0 || !(info.code_hash == empty_code_hash()),
                None => false,
            },
            Err(error) => {
                return Err(error);
            },
        };
        let ghost loaded = self@;
        assert(old(self)@.loads_account(*address, loaded));
        if occupied {
            return Ok(Err(InstrStop::CreateCollision));
        }
        let ghost mut both = loaded;
        if !value.is_zero() {
            let mut caller_account = match self.account(caller) {
                Ok(account) => account,
                Err(error) => {
                    return Err(error);
                },
            };
            proof {
                both = caller_account@;
            }
            assert(loaded.loads_account(*caller, both));
            let new_caller_balance = match caller_account.balance().checked_sub(value) {
                Some(balance) => balance,
                None => {
                    return Ok(Err(InstrStop::OutOfFunds));
                },
            };
            proof {
                law_word_of(new_caller_balance);
            }
            caller_account.set_balance(new_caller_balance);
            assert(self@ == both.debit(*caller, *value));
        }
        let ghost paid = self@;
        let mut target = match self.account(address) {
            Ok(account) => account,
            Err(error) => {
                return Err(error);
            },
        };
        assert(target@ == paid);
        let balance = target.balance().wrapping_add(value);
        proof {
            law_word_of(balance);
        }
        let nonce: u64 = if features.contains(EvmFeature::EIP161) {
            1
        } else {
            0
        };
        target.set_info(
            AccountInfo { nonce, balance, code_hash: empty_code_hash(), code: Some(Bytecode::Empty) },
        );
        target.mark_created();
        target.touch();
        assert(self@.tx =~= paid.tx.create_contract(*address, *value, features.eip161));
        Ok(Ok(()))
    }
}

} // verus!
