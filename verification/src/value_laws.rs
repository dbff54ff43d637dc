//! What transfers and contract creation do to the accounts involved, and leave of all others.
use vstd::prelude::*;

use crate::account::Account;
use crate::db::DbResult;
use crate::features::InstrStop;
use crate::fixed::{word_of, Address, FixedBytes, Word};
use crate::info::{spec_empty_code_hash, AccountInfo, Bytecode};
use crate::model::TxView;
use crate::state::StateView;

verus! {

/// The ether that an account holds, none where it does not exist.
pub open spec fn ether(info: Option<AccountInfo>) -> nat {
    match info {
        Some(info) => info.balance.value(),
        None => 0,
    }
}

/// What an account held when an operation came to it: what stood where it was loaded, otherwise
/// what was read of it, which `after` has on record.
pub open spec fn prior(before: TxView, after: TxView, address: Address) -> Option<AccountInfo> {
    if before.accounts.contains_key(address) {
        before.accounts[address].present
    } else {
        after.accounts[address].original
    }
}

/// Whether an account that `after` has loaded carries the marks it had, those of an account just
/// read where it was not loaded. Touch and creation are left open.
pub open spec fn keeps_marks(before: StateView, after: StateView, address: Address) -> bool {
    let left = after.tx.accounts[address];
    &&& after.tx.accounts.contains_key(address)
    &&& if before.tx.accounts.contains_key(address) {
        let found = before.tx.accounts[address];
        &&& left.original == found.original
        &&& left.is_warm == found.is_warm
        &&& left.is_destroyed == found.is_destroyed
        &&& left.code_changed == found.code_changed
        &&& found.is_touched ==> left.is_touched
        &&& found.just_created ==> left.just_created
    } else {
        &&& before.db.answers_account(address, Ok(left.original))
        &&& left.is_warm == before.tx.prewarm.addresses.contains(address)
        &&& !left.is_destroyed
        &&& !left.code_changed
    }
}

/// Whether nothing of an account that `after` has loaded differs from what the operation found but
/// its balance and its touch. An account that did not exist has no nonce and no code where it
/// exists now.
pub open spec fn keeps_all_but_balance(before: StateView, after: StateView, address: Address) -> bool {
    let left = after.tx.accounts[address];
    &&& keeps_marks(before, after, address)
    &&& left.just_created == (before.tx.accounts.contains_key(address)
        && before.tx.accounts[address].just_created)
    &&& match (prior(before.tx, after.tx, address), left.present) {
        (Some(found), Some(info)) => {
            &&& info.nonce == found.nonce
            &&& info.code_hash == found.code_hash
            &&& info.code == found.code
        },
        (Some(_), None) => false,
        (None, Some(info)) => {
            &&& info.nonce == 0
            &&& info.code_hash == spec_empty_code_hash()
            &&& info.code == Some(Bytecode::Empty)
        },
        (None, None) => true,
    }
}

/// Whether an account is as it was: not loaded, or with the same contents and marks.
pub open spec fn keeps_account(before: TxView, after: TxView, address: Address) -> bool {
    &&& after.accounts.contains_key(address) == before.accounts.contains_key(address)
    &&& before.accounts.contains_key(address) ==> after.accounts[address] == before.accounts[address]
}

/// Whether two states differ in nothing but accounts and in journal entries that `after` has more.
pub open spec fn keeps_all_but_accounts(before: StateView, after: StateView) -> bool {
    &&& after.db == before.db
    &&& after.history == before.history
    &&& after.tx.storage == before.tx.storage
    &&& after.tx.transient == before.tx.transient
    &&& after.tx.prewarm == before.tx.prewarm
    &&& after.tx.logs == before.tx.logs
    &&& after.tx.selfdestructs == before.tx.selfdestructs
    &&& before.tx.journal.len() <= after.tx.journal.len()
    &&& after.tx.journal.take(before.tx.journal.len() as int) == before.tx.journal
}

// --- transfers ---

/// A transfer changes nothing of sender and recipient but balance and touch, and nothing of any
/// other account; storage, transient storage, warm sets, logs and self-destructs stay.
pub proof fn law_transfer_changes_balances_only(
    before: StateView,
    from: Address,
    to: Address,
    value: Word,
    r: DbResult<bool>,
    after: StateView,
    address: Address,
)
    requires
        before.transfers(from, to, value, r, after),
    ensures
        keeps_all_but_accounts(before, after),
        address != from && address != to ==> keeps_account(before.tx, after.tx, address),
        after.tx.accounts.contains_key(address) ==> keeps_all_but_balance(before, after, address),
        before.tx.accounts.contains_key(address) ==> after.tx.accounts.contains_key(address),
{
    assert(after.tx.journal.take(before.tx.journal.len() as int) =~= before.tx.journal);
}

/// A transfer of value goes through exactly if the sender holds the value. Then the sender has it
/// less and the recipient has it more, up to the largest balance there is, and both are touched.
/// Otherwise no loaded account changes.
pub proof fn law_transfer_settles_balances(
    before: StateView,
    from: Address,
    to: Address,
    value: Word,
    moved: bool,
    after: StateView,
)
    requires
        before.transfers(from, to, value, Ok(moved), after),
        value.value() != 0,
    ensures
        after.tx.accounts.contains_key(from),
        moved <==> ether(prior(before.tx, after.tx, from)) >= value.value(),
        moved ==> {
            &&& after.tx.accounts.contains_key(to)
            &&& after.tx.accounts[from].is_touched
            &&& after.tx.accounts[to].is_touched
        },
        moved && from != to ==> {
            let held = ether(prior(before.tx, after.tx, to));
            &&& after.tx.accounts[from].present is Some
            &&& after.tx.accounts[to].present is Some
            &&& ether(after.tx.accounts[from].present) == ether(
                prior(before.tx, after.tx, from),
            ) - value.value()
            &&& held + value.value() < FixedBytes::<32>::modulus() ==> ether(
                after.tx.accounts[to].present,
            ) == held + value.value()
            &&& held + value.value() >= FixedBytes::<32>::modulus() ==> ether(
                after.tx.accounts[to].present,
            ) == FixedBytes::<32>::modulus() - 1
        },
        moved && from == to ==> after.tx.accounts[from].present == prior(before.tx, after.tx, from),
        !moved ==> {
            &&& after.tx.accounts[from].present == prior(before.tx, after.tx, from)
            &&& after.tx.journal == before.tx.journal
            &&& forall|a: Address| #[trigger]
                before.tx.accounts.contains_key(a) ==> after.tx.accounts[a] == before.tx.accounts[a]
        },
{
    FixedBytes::<32>::spec_zero().law_zero_value();
    let sender = choose|loaded: StateView| #[trigger]
        before.loads_account(from, loaded) && if moved {
            loaded.tx.balance(from) >= value.value() && (if from == to {
                after == loaded.touch_account(from)
            } else {
                exists|paid: StateView| #[trigger]
                    loaded.debit(from, value).loads_account(to, paid) && after == paid.credit(
                        to,
                        value,
                    )
            })
        } else {
            loaded.tx.balance(from) < value.value() && after == loaded
        };
    lemma_balance(sender.tx.accounts[from]);
    if moved && from != to {
        let paid = choose|paid: StateView| #[trigger]
            sender.debit(from, value).loads_account(to, paid) && after == paid.credit(to, value);
        lemma_balance(paid.tx.accounts[to]);
        lemma_spelt((sender.tx.balance(from) - value.value()) as nat);
        let sum = paid.tx.balance(to) + value.value();
        value.law_value_bounded();
        if sum < FixedBytes::<32>::modulus() {
            lemma_spelt(sum);
        } else {
            lemma_spelt((FixedBytes::<32>::modulus() - 1) as nat);
        }
    }
}

/// A transfer of nothing goes through, whatever the sender holds: it loads and touches the
/// recipient, and changes no contents.
pub proof fn law_transfer_of_nothing_touches(
    before: StateView,
    from: Address,
    to: Address,
    value: Word,
    moved: bool,
    after: StateView,
    address: Address,
)
    requires
        before.transfers(from, to, value, Ok(moved), after),
        value.value() == 0,
    ensures
        moved,
        after.tx.accounts.contains_key(to),
        after.tx.accounts[to].is_touched,
        after.tx.accounts[to].present == prior(before.tx, after.tx, to),
        address != to ==> keeps_account(before.tx, after.tx, address),
{
}

/// A transfer fails only with the answer of the database to a read of the sender or the recipient,
/// where that was not loaded. Then no account has changed but the sender, which may have paid.
pub proof fn law_transfer_fails_on_failed_read(
    before: StateView,
    from: Address,
    to: Address,
    value: Word,
    r: DbResult<bool>,
    after: StateView,
    address: Address,
)
    requires
        before.transfers(from, to, value, r, after),
    ensures
        match r {
            Ok(_) => true,
            Err(error) => {
                ||| !before.tx.accounts.contains_key(from) && before.db.answers_account(
                    from,
                    Err(error),
                )
                ||| !before.tx.accounts.contains_key(to) && before.db.answers_account(to, Err(error))
            },
        },
        before.tx.accounts.contains_key(from) && before.tx.accounts.contains_key(to) ==> r is Ok,
        r is Err ==> {
            &&& address != from && before.tx.accounts.contains_key(address)
                ==> after.tx.accounts[address] == before.tx.accounts[address]
            &&& !before.tx.accounts.contains_key(to) ==> !after.tx.accounts.contains_key(to)
            &&& after.tx.accounts.contains_key(from) ==> {
                let held = ether(prior(before.tx, after.tx, from));
                let left = ether(after.tx.accounts[from].present);
                ||| keeps_account(before.tx, after.tx, from)
                ||| value.value() != 0 && held >= value.value() && left == held - value.value()
            }
        },
{
    FixedBytes::<32>::spec_zero().law_zero_value();
    if r is Err && after != before {
        let error = r->Err_0;
        let loaded = choose|loaded: StateView| #[trigger]
            before.loads_account(from, loaded) && loaded.tx.balance(from) >= value.value() && from
                != to && loaded.debit(from, value).fails_account(to, error) && after
                == loaded.debit(from, value);
        lemma_balance(loaded.tx.accounts[from]);
        lemma_spelt((loaded.tx.balance(from) - value.value()) as nat);
    }
}

// --- creation ---

/// A creation that goes through leaves a contract with nonce one under EIP-161 and none before,
/// with the balance that the address held and the endowment, with the hash of no bytes as its code
/// hash and with no code. It is marked as created and touched; its other marks stay.
pub proof fn law_creation_makes_a_contract(
    before: StateView,
    caller: Address,
    address: Address,
    value: Word,
    eip161: bool,
    after: StateView,
)
    requires
        before.creates(caller, address, value, eip161, Ok(Ok(())), after),
    ensures
        keeps_marks(before, after, address),
        after.tx.accounts[address].just_created,
        after.tx.accounts[address].is_touched,
        match after.tx.accounts[address].present {
            Some(info) => {
                let held = ether(prior(before.tx, after.tx, address));
                &&& info.nonce == if eip161 {
                    1u64
                } else {
                    0u64
                }
                &&& info.code_hash == spec_empty_code_hash()
                &&& info.code == Some(Bytecode::Empty)
                &&& caller != address ==> info.balance.value() == (held + value.value())
                    % FixedBytes::<32>::modulus()
                &&& caller == address ==> info.balance.value() == held
            },
            None => false,
        },
{
    FixedBytes::<32>::spec_zero().law_zero_value();
    let loaded = choose|loaded: StateView| #[trigger]
        before.loads_account(address, loaded) && !loaded.tx.holds_contract(address) && (
        if value.value() == 0 {
            after == loaded.create_contract(address, value, eip161)
        } else {
            exists|both: StateView| #[trigger]
                loaded.loads_account(caller, both) && both.tx.balance(caller) >= value.value()
                    && after == both.debit(caller, value).create_contract(address, value, eip161)
        });
    lemma_balance(loaded.tx.accounts[address]);
    let held = loaded.tx.balance(address);
    if value.value() == 0 {
        lemma_modulo(held + value.value());
        lemma_small(held);
    } else {
        let both = choose|both: StateView| #[trigger]
            loaded.loads_account(caller, both) && both.tx.balance(caller) >= value.value() && after
                == both.debit(caller, value).create_contract(address, value, eip161);
        lemma_balance(both.tx.accounts[caller]);
        lemma_spelt((both.tx.balance(caller) - value.value()) as nat);
        let paid = both.debit(caller, value).tx;
        lemma_modulo(paid.balance(address) + value.value());
        if caller == address {
            lemma_small(held);
        }
    }
}

/// A creation that goes through costs the caller the endowment and changes nothing else of it but
/// its touch; without an endowment the caller is as it was, and so is every other account.
pub proof fn law_creation_charges_the_caller(
    before: StateView,
    caller: Address,
    address: Address,
    value: Word,
    eip161: bool,
    after: StateView,
    other: Address,
)
    requires
        before.creates(caller, address, value, eip161, Ok(Ok(())), after),
        caller != address,
    ensures
        value.value() != 0 ==> {
            &&& keeps_all_but_balance(before, after, caller)
            &&& after.tx.accounts[caller].present is Some
            &&& after.tx.accounts[caller].is_touched
            &&& ether(prior(before.tx, after.tx, caller)) >= value.value()
            &&& ether(after.tx.accounts[caller].present) == ether(
                prior(before.tx, after.tx, caller),
            ) - value.value()
        },
        value.value() == 0 ==> keeps_account(before.tx, after.tx, caller),
        other != caller && other != address ==> keeps_account(before.tx, after.tx, other),
{
    FixedBytes::<32>::spec_zero().law_zero_value();
    if value.value() != 0 {
        let loaded = choose|loaded: StateView| #[trigger]
            before.loads_account(address, loaded) && !loaded.tx.holds_contract(address) && (
            exists|both: StateView| #[trigger]
                loaded.loads_account(caller, both) && both.tx.balance(caller) >= value.value()
                    && after == both.debit(caller, value).create_contract(address, value, eip161));
        let both = choose|both: StateView| #[trigger]
            loaded.loads_account(caller, both) && both.tx.balance(caller) >= value.value() && after
                == both.debit(caller, value).create_contract(address, value, eip161);
        lemma_balance(both.tx.accounts[caller]);
        lemma_spelt((both.tx.balance(caller) - value.value()) as nat);
    }
}

/// Whatever comes of it, creation leaves all but accounts alone, loses no loaded account, and
/// changes no account but target and caller.
pub proof fn law_creation_leaves_the_rest(
    before: StateView,
    caller: Address,
    address: Address,
    value: Word,
    eip161: bool,
    r: DbResult<Result<(), InstrStop>>,
    after: StateView,
    other: Address,
)
    requires
        before.creates(caller, address, value, eip161, r, after),
    ensures
        keeps_all_but_accounts(before, after),
        other != caller && other != address ==> keeps_account(before.tx, after.tx, other),
        before.tx.accounts.contains_key(other) ==> after.tx.accounts.contains_key(other),
{
    assert(after.tx.journal.take(before.tx.journal.len() as int) =~= before.tx.journal);
}

/// Creation collides exactly if the address is in use: an account exists there with a nonce or with
/// code. Short of that it runs out of funds exactly if the caller cannot pay the endowment. In
/// neither event does a loaded account change.
pub proof fn law_creation_is_refused(
    before: StateView,
    caller: Address,
    address: Address,
    value: Word,
    eip161: bool,
    r: Result<(), InstrStop>,
    after: StateView,
)
    requires
        before.creates(caller, address, value, eip161, Ok(r), after),
    ensures
        after.tx.accounts.contains_key(address),
        r == Err::<(), InstrStop>(InstrStop::CreateCollision) <==> (match prior(
            before.tx,
            after.tx,
            address,
        ) {
            Some(info) => info.nonce != 0 || info.code_hash != spec_empty_code_hash(),
            None => false,
        }),
        r == Err::<(), InstrStop>(InstrStop::OutOfFunds) <==> {
            &&& r != Err::<(), InstrStop>(InstrStop::CreateCollision)
            &&& value.value() != 0
            &&& ether(prior(before.tx, after.tx, caller)) < value.value()
        },
        r is Err ==> {
            &&& after.tx.journal == before.tx.journal
            &&& forall|a: Address| #[trigger]
                before.tx.accounts.contains_key(a) ==> after.tx.accounts[a] == before.tx.accounts[a]
        },
{
    FixedBytes::<32>::spec_zero().law_zero_value();
}

/// Creation fails only with the answer of the database to a read of the target or the caller, where
/// that was not loaded, and then no loaded account has changed.
pub proof fn law_creation_fails_on_failed_read(
    before: StateView,
    caller: Address,
    address: Address,
    value: Word,
    eip161: bool,
    r: DbResult<Result<(), InstrStop>>,
    after: StateView,
)
    requires
        before.creates(caller, address, value, eip161, r, after),
    ensures
        match r {
            Ok(_) => true,
            Err(error) => {
                ||| !before.tx.accounts.contains_key(address) && before.db.answers_account(
                    address,
                    Err(error),
                )
                ||| !before.tx.accounts.contains_key(caller) && before.db.answers_account(
                    caller,
                    Err(error),
                )
            },
        },
        before.tx.accounts.contains_key(address) && before.tx.accounts.contains_key(caller)
            ==> r is Ok,
        r is Err ==> {
            &&& after.tx.journal == before.tx.journal
            &&& forall|a: Address| #[trigger]
                before.tx.accounts.contains_key(a) ==> after.tx.accounts[a] == before.tx.accounts[a]
        },
{
}

// --- words ---

/// The balance of a loaded account is the ether it holds, and fits a word.
proof fn lemma_balance(account: Account)
    ensures
        account.contents().balance.value() == ether(account.present),
        account.contents().balance.value() < FixedBytes::<32>::modulus(),
{
    FixedBytes::<32>::spec_zero().law_zero_value();
    account.contents().balance.law_value_bounded();
}

/// A number below the number of words is that of a word.
proof fn lemma_spelt(n: nat)
    requires
        n < FixedBytes::<32>::modulus(),
    ensures
        word_of(n).value() == n,
{
    FixedBytes::<32>::law_value_surjective(n);
}

/// A number taken modulo the number of words is that of a word.
proof fn lemma_modulo(n: nat)
    ensures
        n % FixedBytes::<32>::modulus() < FixedBytes::<32>::modulus(),
        word_of(n % FixedBytes::<32>::modulus()).value() == n
            % FixedBytes::<32>::modulus(),
{
    FixedBytes::<32>::spec_zero().law_value_bounded();
    let m = FixedBytes::<32>::modulus() as int;
    assert(0 <= n as int % m < m) by (nonlinear_arith)
        requires
            m > 0,
    ;
    lemma_spelt(n % FixedBytes::<32>::modulus());
}

/// A number that is that of a word is itself modulo the number of words.
proof fn lemma_small(n: nat)
    requires
        n < FixedBytes::<32>::modulus(),
    ensures
        n % FixedBytes::<32>::modulus() == n,
{
    let m = FixedBytes::<32>::modulus() as int;
    assert(n as int % m == n) by (nonlinear_arith)
        requires
            0 <= n < m,
    ;
}

} // verus!
