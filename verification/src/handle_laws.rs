//! What the operations of account handles do to the account, and leave of everything else.
use vstd::prelude::*;

use crate::account::Account;
use crate::account_handle::AccountHandle;
use crate::db::{Database, DbError, DbResult, LoadError};
use crate::fixed::{Address, Word, B256};
use crate::info::{spec_empty_code_hash, AccountInfo, Bytecode};
use crate::journal::EntryView;
use crate::state::{State, StateView};
use crate::value_laws::{ether, keeps_account};

verus! {

/// The nonce of an account, zero where it does not exist.
pub open spec fn nonce_of(info: Option<AccountInfo>) -> u64 {
    match info {
        Some(info) => info.nonce,
        None => 0,
    }
}

/// The code hash of an account, that of no bytes where it does not exist.
pub open spec fn code_hash_of(info: Option<AccountInfo>) -> B256 {
    match info {
        Some(info) => info.code_hash,
        None => spec_empty_code_hash(),
    }
}

/// The code of an account as far as it is loaded, no code where the account does not exist.
pub open spec fn code_of(info: Option<AccountInfo>) -> Option<Bytecode> {
    match info {
        Some(info) => info.code,
        None => Some(Bytecode::Empty),
    }
}

/// Whether two states differ in nothing but one account, the self-destructs on record and the
/// journal.
pub open spec fn changes_one_account(before: StateView, after: StateView, address: Address) -> bool {
    &&& after.db == before.db
    &&& after.history == before.history
    &&& after.tx.storage == before.tx.storage
    &&& after.tx.transient == before.tx.transient
    &&& after.tx.prewarm == before.tx.prewarm
    &&& after.tx.logs == before.tx.logs
    &&& after.tx.accounts.contains_key(address)
    &&& forall|other: Address|
        other != address ==> #[trigger] keeps_account(before.tx, after.tx, other)
}

/// Whether the journal has one entry more, with which the account can be brought back, or where the
/// handle had journaled a change before is as it was.
pub open spec fn notes_account(
    before: StateView,
    after: StateView,
    address: Address,
    journaled: bool,
) -> bool {
    if journaled {
        after.tx.journal == before.tx.journal
    } else {
        let account = before.tx.accounts[address];
        &&& after.tx.journal.len() == before.tx.journal.len() + 1
        &&& after.tx.journal.drop_last() == before.tx.journal
        &&& match after.tx.journal.last() {
            EntryView::AccountChange {
                address: noted,
                previous,
                previous_is_warm,
                previous_is_touched,
                previous_is_destroyed,
                previous_just_created,
                previous_code_changed,
            } => {
                &&& noted == address
                &&& previous == account.present
                &&& previous_is_warm == account.is_warm
                &&& previous_is_touched == account.is_touched
                &&& previous_is_destroyed == account.is_destroyed
                &&& previous_just_created == account.just_created
                &&& previous_code_changed == account.code_changed
            },
            _ => false,
        }
    }
}

/// Whether an operation of a handle changed its account alone, keeping the self-destructs on record,
/// and journaled that.
pub open spec fn acts_on_account(
    before: StateView,
    after: StateView,
    address: Address,
    journaled: bool,
) -> bool {
    &&& changes_one_account(before, after, address)
    &&& notes_account(before, after, address, journaled)
    &&& after.tx.selfdestructs == before.tx.selfdestructs
}

// --- changing ---

/// Setting the balance changes the balance and nothing else of the account, which exists and is
/// touched from then on.
pub proof fn law_set_balance<'h, D: Database>(handle: &mut AccountHandle<'h, D>, balance: Word)
    requires
        call_ensures(AccountHandle::<'h, D>::set_balance, (handle, balance), ()),
    ensures
        final(handle).address == old(handle).address,
        final(handle).journaled,
        acts_on_account(old(handle)@, final(handle)@, old(handle).address, old(handle).journaled),
        ({
            let was = old(handle)@.tx.accounts[old(handle).address];
            let left = final(handle)@.tx.accounts[old(handle).address];
            &&& left.present is Some
            &&& left.present->0.balance == balance
            &&& left.present->0.nonce == nonce_of(was.present)
            &&& left.present->0.code_hash == code_hash_of(was.present)
            &&& left.present->0.code == code_of(was.present)
            &&& left.original == was.original
            &&& left.is_warm == was.is_warm
            &&& left.is_touched
            &&& left.is_destroyed == was.is_destroyed
            &&& left.just_created == was.just_created
            &&& left.code_changed == was.code_changed
        }),
{
    lemma_noted(old(handle)@, old(handle).address, old(handle).journaled, final(handle)@);
}

/// Setting the nonce changes the nonce and nothing else of the account, which exists and is touched
/// from then on.
pub proof fn law_set_nonce<'h, D: Database>(handle: &mut AccountHandle<'h, D>, nonce: u64)
    requires
        call_ensures(AccountHandle::<'h, D>::set_nonce, (handle, nonce), ()),
    ensures
        final(handle).address == old(handle).address,
        final(handle).journaled,
        acts_on_account(old(handle)@, final(handle)@, old(handle).address, old(handle).journaled),
        ({
            let was = old(handle)@.tx.accounts[old(handle).address];
            let left = final(handle)@.tx.accounts[old(handle).address];
            &&& left.present is Some
            &&& left.present->0.nonce == nonce
            &&& left.present->0.balance.value() == ether(was.present)
            &&& left.present->0.code_hash == code_hash_of(was.present)
            &&& left.present->0.code == code_of(was.present)
            &&& left.original == was.original
            &&& left.is_warm == was.is_warm
            &&& left.is_touched
            &&& left.is_destroyed == was.is_destroyed
            &&& left.just_created == was.just_created
            &&& left.code_changed == was.code_changed
        }),
{
    lemma_noted(old(handle)@, old(handle).address, old(handle).journaled, final(handle)@);
    lemma_no_ether();
}

/// Giving an account code changes code and code hash and nothing else of the account, which exists,
/// is touched and has new code from then on.
pub proof fn law_set_code<'h, D: Database>(
    handle: &mut AccountHandle<'h, D>,
    code_hash: B256,
    code: Bytecode,
)
    requires
        call_ensures(AccountHandle::<'h, D>::set_code, (handle, code_hash, code), ()),
    ensures
        final(handle).address == old(handle).address,
        final(handle).journaled,
        acts_on_account(old(handle)@, final(handle)@, old(handle).address, old(handle).journaled),
        ({
            let was = old(handle)@.tx.accounts[old(handle).address];
            let left = final(handle)@.tx.accounts[old(handle).address];
            &&& left.present is Some
            &&& left.present->0.code_hash == code_hash
            &&& left.present->0.code == Some(code)
            &&& left.present->0.nonce == nonce_of(was.present)
            &&& left.present->0.balance.value() == ether(was.present)
            &&& left.original == was.original
            &&& left.is_warm == was.is_warm
            &&& left.is_touched
            &&& left.is_destroyed == was.is_destroyed
            &&& left.just_created == was.just_created
            &&& left.code_changed
        }),
{
    lemma_noted(old(handle)@, old(handle).address, old(handle).journaled, final(handle)@);
    lemma_no_ether();
}

/// Replacing the contents of an account changes no mark of it.
pub proof fn law_set_info<'h, D: Database>(handle: &mut AccountHandle<'h, D>, info: AccountInfo)
    requires
        call_ensures(AccountHandle::<'h, D>::set_info, (handle, info), ()),
    ensures
        final(handle).address == old(handle).address,
        final(handle).journaled,
        acts_on_account(old(handle)@, final(handle)@, old(handle).address, old(handle).journaled),
        ({
            let was = old(handle)@.tx.accounts[old(handle).address];
            let left = final(handle)@.tx.accounts[old(handle).address];
            &&& left.present == Some(info)
            &&& left.original == was.original
            &&& left.is_warm == was.is_warm
            &&& left.is_touched == was.is_touched
            &&& left.is_destroyed == was.is_destroyed
            &&& left.just_created == was.just_created
            &&& left.code_changed == was.code_changed
        }),
{
    lemma_noted(old(handle)@, old(handle).address, old(handle).journaled, final(handle)@);
}

/// Touching an account sets its touch and nothing else; touching it again changes and journals
/// nothing.
pub proof fn law_touch<'h, D: Database>(handle: &mut AccountHandle<'h, D>)
    requires
        old(handle).wf(),
        call_ensures(AccountHandle::<'h, D>::touch, (handle,), ()),
    ensures
        final(handle).address == old(handle).address,
        final(handle).journaled == (old(handle).journaled
            || !old(handle)@.tx.accounts[old(handle).address].is_touched),
        ({
            let was = old(handle)@.tx.accounts[old(handle).address];
            let left = final(handle)@.tx.accounts[old(handle).address];
            &&& was.is_touched ==> final(handle)@ == old(handle)@
            &&& !was.is_touched ==> acts_on_account(
                old(handle)@,
                final(handle)@,
                old(handle).address,
                old(handle).journaled,
            )
            &&& left.is_touched
            &&& left.original == was.original
            &&& left.present == was.present
            &&& left.is_warm == was.is_warm
            &&& left.is_destroyed == was.is_destroyed
            &&& left.just_created == was.just_created
            &&& left.code_changed == was.code_changed
        }),
{
    lemma_noted(old(handle)@, old(handle).address, old(handle).journaled, final(handle)@);
}

/// Accessing an account says whether it was cold: neither pre-warmed nor accessed before. A cold
/// account is marked as accessed and nothing else changes; a warm one changes nothing.
pub proof fn law_warm<'h, D: Database>(handle: &mut AccountHandle<'h, D>, cold: bool)
    requires
        old(handle).wf(),
        call_ensures(AccountHandle::<'h, D>::warm, (handle,), cold),
    ensures
        final(handle).address == old(handle).address,
        final(handle).journaled == (old(handle).journaled || cold),
        ({
            let was = old(handle)@.tx.accounts[old(handle).address];
            let left = final(handle)@.tx.accounts[old(handle).address];
            &&& cold <==> !was.is_warm && !old(handle)@.tx.prewarm.addresses.contains(
                old(handle).address,
            )
            &&& !cold ==> final(handle)@ == old(handle)@
            &&& cold ==> {
                &&& acts_on_account(
                    old(handle)@,
                    final(handle)@,
                    old(handle).address,
                    old(handle).journaled,
                )
                &&& left.is_warm
                &&& left.original == was.original
                &&& left.present == was.present
                &&& left.is_touched == was.is_touched
                &&& left.is_destroyed == was.is_destroyed
                &&& left.just_created == was.just_created
                &&& left.code_changed == was.code_changed
            }
        }),
{
    lemma_noted(old(handle)@, old(handle).address, old(handle).journaled, final(handle)@);
}

/// Marking an account as created sets that mark and nothing else.
pub proof fn law_mark_created<'h, D: Database>(handle: &mut AccountHandle<'h, D>)
    requires
        call_ensures(AccountHandle::<'h, D>::mark_created, (handle,), ()),
    ensures
        final(handle).address == old(handle).address,
        final(handle).journaled,
        acts_on_account(old(handle)@, final(handle)@, old(handle).address, old(handle).journaled),
        ({
            let was = old(handle)@.tx.accounts[old(handle).address];
            let left = final(handle)@.tx.accounts[old(handle).address];
            &&& left.just_created
            &&& left.original == was.original
            &&& left.present == was.present
            &&& left.is_warm == was.is_warm
            &&& left.is_touched == was.is_touched
            &&& left.is_destroyed == was.is_destroyed
            &&& left.code_changed == was.code_changed
        }),
{
    lemma_noted(old(handle)@, old(handle).address, old(handle).journaled, final(handle)@);
}

/// Marking an account as self-destructed sets that mark and puts the account on record. Its contents
/// and other marks stay, and so does what is on record of others.
pub proof fn law_mark_destructed<'h, D: Database>(handle: &mut AccountHandle<'h, D>, other: Address)
    requires
        call_ensures(AccountHandle::<'h, D>::mark_destructed, (handle,), ()),
    ensures
        final(handle).address == old(handle).address,
        final(handle).journaled,
        changes_one_account(old(handle)@, final(handle)@, old(handle).address),
        notes_account(old(handle)@, final(handle)@, old(handle).address, old(handle).journaled),
        final(handle)@.tx.selfdestructs.contains(other) <==> other == old(handle).address
            || old(handle)@.tx.selfdestructs.contains(other),
        ({
            let was = old(handle)@.tx.accounts[old(handle).address];
            let left = final(handle)@.tx.accounts[old(handle).address];
            &&& left.is_destroyed
            &&& left.original == was.original
            &&& left.present == was.present
            &&& left.is_warm == was.is_warm
            &&& left.is_touched == was.is_touched
            &&& left.just_created == was.just_created
            &&& left.code_changed == was.code_changed
        }),
{
    lemma_noted(old(handle)@, old(handle).address, old(handle).journaled, final(handle)@);
}

/// Deleting an account at the end of a transaction leaves it with no contents and the marks it had.
pub proof fn law_delete_for_finalization<'h, D: Database>(handle: &mut AccountHandle<'h, D>)
    requires
        call_ensures(AccountHandle::<'h, D>::delete_for_finalization, (handle,), ()),
    ensures
        final(handle).address == old(handle).address,
        final(handle).journaled,
        acts_on_account(old(handle)@, final(handle)@, old(handle).address, old(handle).journaled),
        ({
            let was = old(handle)@.tx.accounts[old(handle).address];
            let left = final(handle)@.tx.accounts[old(handle).address];
            &&& left.present is None
            &&& left.original == was.original
            &&& left.is_warm == was.is_warm
            &&& left.is_touched == was.is_touched
            &&& left.is_destroyed == was.is_destroyed
            &&& left.just_created == was.just_created
            &&& left.code_changed == was.code_changed
        }),
{
    lemma_noted(old(handle)@, old(handle).address, old(handle).journaled, final(handle)@);
}

/// Resetting a self-destructed account leaves it with the ether it holds, without nonce and code,
/// and neither marked as self-destructed nor as having new code.
pub proof fn law_reset_selfdestructed<'h, D: Database>(handle: &mut AccountHandle<'h, D>)
    requires
        call_ensures(AccountHandle::<'h, D>::reset_selfdestructed_for_finalization, (handle,), ()),
    ensures
        final(handle).address == old(handle).address,
        final(handle).journaled,
        acts_on_account(old(handle)@, final(handle)@, old(handle).address, old(handle).journaled),
        ({
            let was = old(handle)@.tx.accounts[old(handle).address];
            let left = final(handle)@.tx.accounts[old(handle).address];
            &&& left.present is Some
            &&& left.present->0.balance.value() == ether(was.present)
            &&& left.present->0.nonce == 0
            &&& left.present->0.code_hash == spec_empty_code_hash()
            &&& left.present->0.code == Some(Bytecode::Empty)
            &&& left.original == was.original
            &&& left.is_warm == was.is_warm
            &&& left.is_touched == was.is_touched
            &&& !left.is_destroyed
            &&& left.just_created == was.just_created
            &&& !left.code_changed
        }),
{
    lemma_noted(old(handle)@, old(handle).address, old(handle).journaled, final(handle)@);
    lemma_no_ether();
}

// --- reading ---

/// The readings of a handle are those of its account: balance and nonce, zero where it does not
/// exist; whether it exists, was created, has self-destructed; whether it is warm; and whether it
/// exists with no nonce, no ether and no code.
pub proof fn law_handle_readings<'h, D: Database>(
    handle: &AccountHandle<'h, D>,
    balance: Word,
    nonce: u64,
    existing: bool,
    created: bool,
    destructed: bool,
    warm: bool,
    dead: bool,
)
    requires
        handle.wf(),
        call_ensures(AccountHandle::<'h, D>::balance, (handle,), balance),
        call_ensures(AccountHandle::<'h, D>::nonce, (handle,), nonce),
        call_ensures(AccountHandle::<'h, D>::is_existing, (handle,), existing),
        call_ensures(AccountHandle::<'h, D>::is_created, (handle,), created),
        call_ensures(AccountHandle::<'h, D>::is_destructed, (handle,), destructed),
        call_ensures(AccountHandle::<'h, D>::is_warm, (handle,), warm),
        call_ensures(AccountHandle::<'h, D>::is_existing_dead, (handle,), dead),
    ensures
        ({
            let account = handle@.tx.accounts[handle.address];
            &&& balance.value() == ether(account.present)
            &&& nonce == nonce_of(account.present)
            &&& existing <==> account.present is Some
            &&& created <==> account.just_created
            &&& destructed <==> account.is_destroyed
            &&& warm <==> account.is_warm || handle@.tx.prewarm.addresses.contains(handle.address)
            &&& dead <==> {
                &&& account.present is Some
                &&& account.present->0.nonce == 0
                &&& account.present->0.balance.value() == 0
                &&& account.present->0.code_hash == spec_empty_code_hash()
            }
        }),
{
    lemma_no_ether();
    if let Some(info) = handle@.tx.accounts[handle.address].present {
        info.balance.law_zero_value();
    }
}

/// What a handle hands out are the contents of its account.
pub proof fn law_handle_contents<'h, D: Database>(
    handle: &AccountHandle<'h, D>,
    r: Option<&AccountInfo>,
)
    requires
        call_ensures(AccountHandle::<'h, D>::get, (handle,), r),
    ensures
        match r {
            Some(info) => handle@.tx.accounts[handle.address].present == Some(*info),
            None => handle@.tx.accounts[handle.address].present is None,
        },
{
}

// --- loading ---

/// Whether an account is loaded in `after` as it was in `before`, or else as the database answered:
/// that is what it was and is, it is warm exactly if pre-warmed, and it has no other mark. Nothing
/// else differs.
pub open spec fn loads_as_found(before: StateView, after: StateView, address: Address) -> bool {
    &&& changes_one_account(before, after, address)
    &&& after.tx.selfdestructs == before.tx.selfdestructs
    &&& after.tx.journal == before.tx.journal
    &&& before.tx.accounts.contains_key(address) ==> after.tx == before.tx
    &&& !before.tx.accounts.contains_key(address) ==> {
        let account = after.tx.accounts[address];
        &&& before.db.answers_account(address, Ok(account.original))
        &&& account.present == account.original
        &&& account.is_warm == before.tx.prewarm.addresses.contains(address)
        &&& !account.is_touched
        &&& !account.is_destroyed
        &&& !account.just_created
        &&& !account.code_changed
    }
}

/// Loading an account gives a handle to it that has journaled nothing, with the account as it stands
/// or as the database has it. It fails only with the answer of the database, changing nothing.
pub proof fn law_account<'h, D: Database>(
    state: &'h mut State<D>,
    address: Address,
    r: DbResult<AccountHandle<'h, D>>,
)
    requires
        call_ensures(State::<D>::account, (state, &address), r),
    ensures
        match r {
            Ok(handle) => {
                &&& handle.address == address
                &&& !handle.journaled
                &&& loads_as_found(old(state)@, handle@, address)
            },
            Err(error) => {
                &&& !old(state)@.tx.accounts.contains_key(address)
                &&& old(state)@.db.answers_account(address, Err(error))
                &&& final(state)@ == old(state)@
            },
        },
{
}

/// Loading an account is skipped exactly if the caller asks to skip cold accesses and the account is
/// neither pre-warmed nor loaded and accessed before; then nothing changes.
pub proof fn law_account_with_skip<'h, D: Database>(
    state: &'h mut State<D>,
    address: Address,
    skip: bool,
    r: Result<AccountHandle<'h, D>, LoadError>,
)
    requires
        call_ensures(State::<D>::account_with_skip, (state, &address, skip), r),
    ensures
        ({
            let tx = old(state)@.tx;
            let warm = tx.prewarm.addresses.contains(address) || (tx.accounts.contains_key(address)
                && tx.accounts[address].is_warm);
            &&& r is Err && r->Err_0 is ColdLoadSkipped <==> skip && !warm
            &&& match r {
                Ok(handle) => {
                    &&& handle.address == address
                    &&& !handle.journaled
                    &&& loads_as_found(old(state)@, handle@, address)
                },
                Err(LoadError::ColdLoadSkipped) => final(state)@ == old(state)@,
                Err(LoadError::Database(error)) => {
                    &&& !tx.accounts.contains_key(address)
                    &&& old(state)@.db.answers_account(address, Err(error))
                    &&& final(state)@ == old(state)@
                },
            }
        }),
{
}

/// Reading the contents of an account without loading it gives what stands where the account is
/// loaded, else what the database has, and changes nothing.
pub proof fn law_account_info_untracked<D: Database>(
    state: &mut State<D>,
    address: Address,
    r: DbResult<Option<AccountInfo>>,
)
    requires
        call_ensures(State::<D>::account_info_untracked, (state, &address), r),
    ensures
        final(state)@ == old(state)@,
        old(state)@.tx.accounts.contains_key(address) ==> r == Ok::<Option<AccountInfo>, DbError>(
            old(state)@.tx.accounts[address].present,
        ),
        !old(state)@.tx.accounts.contains_key(address) ==> old(state)@.db.answers_account(
            address,
            r,
        ),
{
}

// --- proofs ---

/// The journal after one entry more.
proof fn lemma_noted(before: StateView, address: Address, journaled: bool, after: StateView)
    ensures
        forall|account: Account|
            after.tx.journal == (#[trigger] before.tx.change_account(
                address,
                journaled,
                account,
            )).journal ==> notes_account(before, after, address, journaled),
{
    let pushed = before.tx.journal.push(before.tx.account_entry(address));
    assert(pushed.drop_last() =~= before.tx.journal);
    assert(pushed.last() == before.tx.account_entry(address));
}

/// An account that does not exist holds no ether.
proof fn lemma_no_ether()
    ensures
        AccountInfo::spec_default().balance.value() == 0,
{
    AccountInfo::spec_default().balance.law_zero_value();
}

} // verus!
