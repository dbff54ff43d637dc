//! Account contents: nonce, balance and code.
use std::sync::Arc;

use vstd::prelude::*;

use crate::fixed::{FixedBytes, Word, B256};
use crate::map::Duplicate;

verus! {

/// Calls `Arc::clone`: another handle to the same shared value.
#[verifier::external_body]
pub(crate) fn share<T>(shared: &Arc<T>) -> (r: Arc<T>)
    ensures
        r == *shared,
{
    Arc::clone(shared)
}

/// The Keccak-256 hash of no bytes, the code hash of an account without code.
pub open spec fn spec_empty_code_hash() -> B256 {
    FixedBytes {
        bytes: [
            0xc5, 0xd2, 0x46, 0x01, 0x86, 0xf7, 0x23, 0x3c, 0x92, 0x7e, 0x7d, 0xb2, 0xdc, 0xc7, 0x03, 0xc0,
            0xe5, 0x00, 0xb6, 0x53, 0xca, 0x82, 0x27, 0x3b, 0x7b, 0xfa, 0xd8, 0x04, 0x5d, 0x85, 0xa4, 0x70,
        ],
    }
}

/// Reads the constant `alloy_primitives::KECCAK256_EMPTY`, whose bytes its definition spells out.
#[verifier::external_body]
pub(crate) fn empty_code_hash() -> (r: B256)
    ensures
        r == spec_empty_code_hash(),
{
    FixedBytes { bytes: alloy_primitives::KECCAK256_EMPTY.0 }
}

/// Contract code, shared between the copies of the accounts that hold it.
#[derive(Debug, PartialEq, Eq)]
pub enum Bytecode {
    /// No code.
    Empty,
    /// At least one byte of code.
    Code(Arc<Vec<u8>>),
}

impl Bytecode {
    /// The bytes of the code.
    pub open spec fn bytes(self) -> Seq<u8> {
        match self {
            Bytecode::Empty => Seq::empty(),
            Bytecode::Code(code) => code@,
        }
    }

    /// Code made of `bytes`.
    pub fn new(bytes: Vec<u8>) -> (r: Self)
        ensures
            r.bytes() == bytes@,
            r is Empty <==> bytes@.len() == 0,
    {
        if bytes.len() == 0 {
            assert(bytes@ =~= Seq::<u8>::empty());
            Bytecode::Empty
        } else {
            Bytecode::Code(Arc::new(bytes))
        }
    }
}

impl Clone for Bytecode {
    fn clone(&self) -> (r: Self)
        ensures
            r == *self,
    {
        match self {
            Bytecode::Empty => Bytecode::Empty,
            Bytecode::Code(code) => Bytecode::Code(share(code)),
        }
    }
}

impl View for Bytecode {
    type V = Bytecode;

    open spec fn view(&self) -> Bytecode {
        *self
    }
}

impl Duplicate for Bytecode {
    fn duplicate(&self) -> (r: Self) {
        self.clone()
    }
}

/// The contents of an existing account.
#[derive(Debug, PartialEq, Eq)]
pub struct AccountInfo {
    pub nonce: u64,
    pub balance: Word,
    pub code_hash: B256,
    /// The code, where it has been loaded along with the account.
    pub code: Option<Bytecode>,
}

impl Clone for AccountInfo {
    fn clone(&self) -> (r: Self)
        ensures
            r == *self,
    {
        AccountInfo {
            nonce: self.nonce,
            balance: self.balance,
            code_hash: self.code_hash,
            code: match &self.code {
                Some(code) => Some(code.clone()),
                None => None,
            },
        }
    }
}

impl View for AccountInfo {
    type V = AccountInfo;

    open spec fn view(&self) -> AccountInfo {
        *self
    }
}

impl Duplicate for AccountInfo {
    fn duplicate(&self) -> (r: Self) {
        self.clone()
    }
}

impl Default for AccountInfo {
    fn default() -> (r: Self)
        ensures
            r == AccountInfo::spec_default(),
    {
        AccountInfo {
            nonce: 0,
            balance: FixedBytes::zero(),
            code_hash: empty_code_hash(),
            code: Some(Bytecode::Empty),
        }
    }
}

impl AccountInfo {
    /// The contents of an account with no nonce, balance or code.
    pub open spec fn spec_default() -> Self {
        AccountInfo {
            nonce: 0,
            balance: FixedBytes::spec_zero(),
            code_hash: spec_empty_code_hash(),
            code: Some(Bytecode::Empty),
        }
    }

    /// The same contents with another balance.
    pub fn with_balance(self, balance: Word) -> (r: Self)
        ensures
            r == (AccountInfo { balance, ..self }),
    {
        AccountInfo { nonce: self.nonce, balance, code_hash: self.code_hash, code: self.code }
    }

    /// Whether the account is dead in the sense of EIP-161: no nonce, no balance and no code.
    pub open spec fn spec_is_dead(self) -> bool {
        &&& self.nonce == 0
        &&& self.balance.value() == 0
        &&& self.code_hash == spec_empty_code_hash()
    }

    /// Whether the account is dead in the sense of EIP-161: no nonce, no balance and no code.
    pub fn is_dead(&self) -> (r: bool)
        ensures
            r == self.spec_is_dead(),
    {
        self.nonce == 0 && self.balance.is_zero() && self.code_hash == empty_code_hash()
    }

    /// Whether two accounts hold the same nonce, balance and code. Code is told apart by its hash.
    pub open spec fn spec_same_contents(self, other: Self) -> bool {
        &&& self.nonce == other.nonce
        &&& self.balance == other.balance
        &&& self.code_hash == other.code_hash
    }

    /// Whether two accounts hold the same nonce, balance and code. Code is told apart by its hash.
    pub fn same_contents(&self, other: &Self) -> (r: bool)
        ensures
            r == self.spec_same_contents(*other),
    {
        self.nonce == other.nonce && self.balance == other.balance && self.code_hash
            == other.code_hash
    }
}

/// A copy of an optional account.
pub(crate) fn copy_info(info: &Option<AccountInfo>) -> (r: Option<AccountInfo>)
    ensures
        r == *info,
{
    match info {
        Some(info) => Some(info.clone()),
        None => None,
    }
}

} // verus!
