//! Accounts of the transaction layer.
use vstd::prelude::*;

use crate::fixed::{Word, B256};
use crate::info::{copy_info, AccountInfo, Bytecode};
use crate::map::Duplicate;

verus! {

/// An account loaded by the current transaction.
#[derive(Debug, PartialEq, Eq)]
pub struct Account {
    /// The account as the transaction found it, `None` where it did not exist.
    pub original: Option<AccountInfo>,
    /// The account as it stands, `None` where it does not exist.
    pub present: Option<AccountInfo>,
    /// Whether the transaction has accessed the account before.
    pub is_warm: bool,
    /// Whether the transaction has touched the account in the sense of EIP-161.
    pub is_touched: bool,
    /// Whether the account has self-destructed.
    pub is_destroyed: bool,
    /// Whether the transaction created the account.
    pub just_created: bool,
    /// Whether the transaction replaced the code.
    pub code_changed: bool,
}

impl Clone for Account {
    fn clone(&self) -> (r: Self)
        ensures
            r == *self,
    {
        Account {
            original: copy_info(&self.original),
            present: copy_info(&self.present),
            is_warm: self.is_warm,
            is_touched: self.is_touched,
            is_destroyed: self.is_destroyed,
            just_created: self.just_created,
            code_changed: self.code_changed,
        }
    }
}

impl View for Account {
    type V = Account;

    open spec fn view(&self) -> Account {
        *self
    }
}

impl Duplicate for Account {
    fn duplicate(&self) -> (r: Self) {
        self.clone()
    }
}

/// Whether two optional accounts differ in existence, nonce, balance or code.
pub open spec fn infos_differ(a: Option<AccountInfo>, b: Option<AccountInfo>) -> bool {
    match (a, b) {
        (Some(a), Some(b)) => !a.spec_same_contents(b),
        (None, None) => false,
        _ => true,
    }
}

impl Account {
    /// An account just read, with nothing changed since.
    pub open spec fn spec_loaded(info: Option<AccountInfo>, is_warm: bool) -> Self {
        Account {
            original: info,
            present: info,
            is_warm,
            is_touched: false,
            is_destroyed: false,
            just_created: false,
            code_changed: false,
        }
    }

    /// An account just read, with nothing changed since.
    pub fn loaded(info: Option<AccountInfo>, is_warm: bool) -> (r: Self)
        ensures
            r == Account::spec_loaded(info, is_warm),
    {
        let present = copy_info(&info);
        Account {
            original: info,
            present,
            is_warm,
            is_touched: false,
            is_destroyed: false,
            just_created: false,
            code_changed: false,
        }
    }

    /// Whether existence, nonce, balance or code differ from what the transaction found.
    pub open spec fn spec_is_changed(self) -> bool {
        infos_differ(self.original, self.present)
    }

    /// Whether existence, nonce, balance or code differ from what the transaction found.
    pub fn is_changed(&self) -> (r: bool)
        ensures
            r == self.spec_is_changed(),
    {
        match (&self.original, &self.present) {
            (Some(a), Some(b)) => !a.same_contents(b),
            (None, None) => false,
            _ => true,
        }
    }

    /// Whether the transaction created the account.
    pub fn is_created(&self) -> (r: bool)
        ensures
            r == self.just_created,
    {
        self.just_created
    }

    /// The code that the transaction gave the account, with its hash.
    pub open spec fn spec_changed_code(self) -> Option<(B256, Bytecode)> {
        match self.present {
            Some(info) => match info.code {
                Some(code) => if self.code_changed {
                    Some((info.code_hash, code))
                } else {
                    None
                },
                None => None,
            },
            None => None,
        }
    }

    /// The code that the transaction gave the account, with its hash.
    pub fn changed_code(&self) -> (r: Option<(B256, &Bytecode)>)
        ensures
            match r {
                Some((hash, code)) => self.spec_changed_code() == Some((hash, *code)),
                None => self.spec_changed_code() is None,
            },
    {
        if !self.code_changed {
            return None;
        }
        match &self.present {
            Some(info) => match &info.code {
                Some(code) => Some((info.code_hash, code)),
                None => None,
            },
            None => None,
        }
    }

    /// The contents of the account, where it does not exist those of an empty one.
    pub open spec fn contents(self) -> AccountInfo {
        match self.present {
            Some(info) => info,
            None => AccountInfo::spec_default(),
        }
    }

    /// The account with another balance. It exists and is touched.
    pub open spec fn with_balance(self, balance: Word) -> Self {
        Account {
            present: Some(AccountInfo { balance, ..self.contents() }),
            is_touched: true,
            ..self
        }
    }

    /// The account deleted at the end of a transaction.
    pub open spec fn deleted(self) -> Self {
        Account { present: None, ..self }
    }

    /// A self-destructed account reduced to its balance at the end of a transaction.
    pub open spec fn reduced_to_balance(self) -> Self {
        Account {
            present: Some(
                AccountInfo { balance: self.contents().balance, ..AccountInfo::spec_default() },
            ),
            is_destroyed: false,
            code_changed: false,
            ..self
        }
    }
}

} // verus!
