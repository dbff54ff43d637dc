//! What the end of a transaction does to each account and its storage.
use vstd::prelude::*;

use crate::db::DbResult;
use crate::fixed::{Address, FixedBytes, Word};
use crate::info::{spec_empty_code_hash, AccountInfo, Bytecode};
use crate::journal::EntryView;
use crate::map::enumerates;
use crate::model::TxView;
use crate::state::StateView;
use crate::value_laws::{ether, keeps_account, prior};

verus! {

/// Whether the storage of an account is as it was.
pub open spec fn keeps_storage(before: TxView, after: TxView, address: Address) -> bool {
    &&& after.storage.contains_key(address) == before.storage.contains_key(address)
    &&& before.storage.contains_key(address) ==> after.storage[address] == before.storage[address]
}

/// Whether all storage of an account reads as zero in `after`. The slots that were loaded are still
/// loaded, with their warmth and with what the transaction found in them.
pub open spec fn loses_storage(before: TxView, after: TxView, address: Address) -> bool {
    &&& after.storage.contains_key(address)
    &&& after.storage[address].wiped
    &&& forall|key: Word|
        {
            let loaded = before.storage.contains_key(address)
                && before.storage[address].slots.contains_key(key);
            let was = before.storage[address].slots[key];
            let left = #[trigger] after.storage[address].slots[key];
            &&& after.storage[address].slots.contains_key(key) == loaded
            &&& loaded ==> {
                &&& left.value.current == FixedBytes::<32>::spec_zero()
                &&& left.value.original == was.value.original
                &&& left.is_warm == was.is_warm
            }
        }
}

/// Whether an account existed with no nonce, no ether and no code.
pub open spec fn was_dead(tx: TxView, address: Address) -> bool {
    match tx.accounts[address].present {
        Some(info) => {
            &&& info.nonce == 0
            &&& info.balance.value() == 0
            &&& info.code_hash == spec_empty_code_hash()
        },
        None => false,
    }
}

/// Under EIP-161 the end of a transaction leaves an account that did not self-destruct with the
/// contents and the storage it came with, unless it was touched and existed with no nonce, no ether
/// and no code: exactly then it is deleted and its storage is gone. What the transaction found of it
/// and all marks but the touch stay.
pub proof fn law_finalized_deletes_only_touched_dead(
    before: StateView,
    eip8246: bool,
    after: StateView,
    address: Address,
)
    requires
        before.finalizes(true, eip8246, Ok(()), after),
        before.tx.accounts.contains_key(address),
        !before.tx.selfdestructs.contains(address),
    ensures
        after.tx.accounts.contains_key(address),
        ({
            let was = before.tx.accounts[address];
            let left = after.tx.accounts[address];
            &&& left.original == was.original
            &&& left.is_warm == was.is_warm
            &&& left.is_destroyed == was.is_destroyed
            &&& left.just_created == was.just_created
            &&& left.code_changed == was.code_changed
            &&& !left.is_touched
            &&& if was.is_touched && was_dead(before.tx, address) {
                left.present is None && loses_storage(before.tx, after.tx, address)
            } else {
                left.present == was.present && keeps_storage(before.tx, after.tx, address)
            }
        }),
{
    let (order, found, dead) = lemma_ends(before, true, eip8246, after);
    let destroyed = before.destroy_all(order, found, eip8246);
    assert(order.contains(address) <==> before.tx.selfdestructs.contains(address));
    assert(dead.contains(address) <==> destroyed.dead_among(before.tx.touched()).contains(address));
    FixedBytes::<32>::spec_zero().law_zero_value();
    if let Some(info) = before.tx.accounts[address].present {
        info.balance.law_zero_value();
    }
}

/// Before EIP-161 the end of a transaction deletes no account that did not self-destruct, and
/// touches no storage of one. A touched account that neither existed before the transaction nor does
/// now is created without nonce, ether and code; every other account has the contents it came with.
pub proof fn law_finalized_creates_only_touched_absent(
    before: StateView,
    eip8246: bool,
    after: StateView,
    address: Address,
)
    requires
        before.finalizes(false, eip8246, Ok(()), after),
        before.tx.accounts.contains_key(address),
        !before.tx.selfdestructs.contains(address),
    ensures
        after.tx.accounts.contains_key(address),
        keeps_storage(before.tx, after.tx, address),
        ({
            let was = before.tx.accounts[address];
            let left = after.tx.accounts[address];
            &&& left.original == was.original
            &&& left.is_warm == was.is_warm
            &&& left.is_destroyed == was.is_destroyed
            &&& left.code_changed == was.code_changed
            &&& !left.is_touched
            &&& if was.is_touched && was.original is None && was.present is None {
                &&& left.just_created
                &&& match left.present {
                    Some(info) => {
                        &&& info.nonce == 0
                        &&& info.balance.value() == 0
                        &&& info.code_hash == spec_empty_code_hash()
                        &&& info.code == Some(Bytecode::Empty)
                    },
                    None => false,
                }
            } else {
                left.just_created == was.just_created && left.present == was.present
            }
        }),
{
    let (order, found, _dead) = lemma_ends(before, false, eip8246, after);
    assert(order.contains(address) <==> before.tx.selfdestructs.contains(address));
    FixedBytes::<32>::spec_zero().law_zero_value();
}

/// The end of a transaction deletes a self-destructed account, unless EIP-8246 holds and the account
/// has ether: then it is left with that ether, without nonce and code, and is not marked any more.
/// Its storage is gone either way. An account that was not loaded is loaded first.
pub proof fn law_finalized_strikes_out_selfdestructed(
    before: StateView,
    eip161: bool,
    eip8246: bool,
    after: StateView,
    address: Address,
)
    requires
        before.finalizes(eip161, eip8246, Ok(()), after),
        before.tx.selfdestructs.contains(address),
    ensures
        after.tx.accounts.contains_key(address),
        loses_storage(before.tx, after.tx, address),
        ({
            let held = ether(prior(before.tx, after.tx, address));
            let left = after.tx.accounts[address];
            let loaded = before.tx.accounts.contains_key(address);
            let was = before.tx.accounts[address];
            let kept = eip8246 && held != 0;
            &&& loaded ==> left.original == was.original
            &&& !loaded ==> before.db.answers_account(address, Ok(left.original))
            &&& left.is_warm == if loaded {
                was.is_warm
            } else {
                before.tx.prewarm.addresses.contains(address)
            }
            &&& left.just_created == (loaded && was.just_created)
            &&& !left.is_touched
            &&& left.is_destroyed == (!kept && loaded && was.is_destroyed)
            &&& left.code_changed == (!kept && loaded && was.code_changed)
            &&& match left.present {
                Some(info) => {
                    &&& kept
                    &&& info.balance.value() == held
                    &&& info.nonce == 0
                    &&& info.code_hash == spec_empty_code_hash()
                    &&& info.code == Some(Bytecode::Empty)
                },
                None => !kept,
            }
        }),
{
    let (order, found, dead) = lemma_ends(before, eip161, eip8246, after);
    let destroyed = before.destroy_all(order, found, eip8246);
    assert(order.contains(address));
    let i = choose|i: int| 0 <= i < order.len() && order[i] == address;
    assert(before.finds_account(order[i], found[order[i]]));
    FixedBytes::<32>::spec_zero().law_zero_value();
    if eip161 {
        assert(dead.contains(address) <==> destroyed.dead_among(before.tx.touched()).contains(
            address,
        ));
        assert(!dead.contains(address));
    }
}

/// The end of a transaction loads no account but self-destructed ones, leaves alone every account
/// that was neither touched nor self-destructed with its storage, and keeps logs, transient storage,
/// the pre-warmed set, the self-destructs on record and the journal entries that were there.
pub proof fn law_finalized_leaves_untouched(
    before: StateView,
    eip161: bool,
    eip8246: bool,
    after: StateView,
    address: Address,
)
    requires
        before.finalizes(eip161, eip8246, Ok(()), after),
    ensures
        after.db == before.db,
        after.history == before.history,
        after.tx.logs == before.tx.logs,
        after.tx.transient == before.tx.transient,
        after.tx.prewarm == before.tx.prewarm,
        after.tx.selfdestructs == before.tx.selfdestructs,
        before.tx.journal.len() <= after.tx.journal.len(),
        after.tx.journal.take(before.tx.journal.len() as int) == before.tx.journal,
        !before.tx.selfdestructs.contains(address) && (before.tx.accounts.contains_key(address)
            ==> !before.tx.accounts[address].is_touched) ==> {
            &&& keeps_account(before.tx, after.tx, address)
            &&& keeps_storage(before.tx, after.tx, address)
        },
{
    let (order, found, dead) = lemma_ends(before, eip161, eip8246, after);
    let destroyed = before.destroy_all(order, found, eip8246);
    assert(order.contains(address) <==> before.tx.selfdestructs.contains(address));
    if eip161 {
        assert(dead.contains(address) <==> destroyed.dead_among(before.tx.touched()).contains(
            address,
        ));
    }
    assert(after.tx.journal.take(before.tx.journal.len() as int) =~= before.tx.journal);
}

/// Whether a journal entry notes an account as it was when the end of the transaction came to it: the
/// contents and the marks it had, where it was not loaded those of an account just read.
pub open spec fn notes_end_of(
    before: TxView,
    after: TxView,
    address: Address,
    entry: EntryView,
) -> bool {
    let loaded = before.accounts.contains_key(address);
    let was = before.accounts[address];
    match entry {
        EntryView::AccountChange {
            address: noted,
            previous,
            previous_is_warm,
            previous_is_touched,
            previous_is_destroyed,
            previous_just_created,
            previous_code_changed,
        } => {
            &&& noted == address
            &&& previous == prior(before, after, address)
            &&& previous_is_warm == if loaded {
                was.is_warm
            } else {
                before.prewarm.addresses.contains(address)
            }
            &&& previous_is_touched == (loaded && was.is_touched)
            &&& previous_is_destroyed == (loaded && was.is_destroyed)
            &&& previous_just_created == (loaded && was.just_created)
            &&& previous_code_changed == (loaded && was.code_changed)
        },
        _ => false,
    }
}

/// Whether the end of a transaction takes an account from the state: it self-destructed, or under
/// EIP-161 it was touched and existed with no nonce, no ether and no code.
pub open spec fn is_struck(tx: TxView, eip161: bool, address: Address) -> bool {
    ||| tx.selfdestructs.contains(address)
    ||| eip161 && tx.accounts.contains_key(address) && tx.accounts[address].is_touched && was_dead(
        tx,
        address,
    )
}

/// The end of a transaction notes in the journal each account that it takes from the state, as that
/// was, and nothing else.
pub proof fn law_finalized_notes_struck_accounts(
    before: StateView,
    eip161: bool,
    eip8246: bool,
    after: StateView,
    i: int,
)
    requires
        before.finalizes(eip161, eip8246, Ok(()), after),
        before.tx.journal.len() <= i < after.tx.journal.len(),
    ensures
        exists|a: Address|
            is_struck(before.tx, eip161, a) && #[trigger] notes_end_of(
                before.tx,
                after.tx,
                a,
                after.tx.journal[i],
            ),
{
    let (order, found, dead) = lemma_ends(before, eip161, eip8246, after);
    let destroyed = before.destroy_all(order, found, eip8246);
    let base = before.tx.journal.len() as int;
    FixedBytes::<32>::spec_zero().law_zero_value();
    if i < base + order.len() {
        let a = order[i - base];
        assert(order.contains(a));
        if eip161 {
            assert(dead.contains(a) <==> destroyed.dead_among(before.tx.touched()).contains(a));
        }
        assert(notes_end_of(before.tx, after.tx, a, after.tx.journal[i]));
    } else {
        let a = dead[i - base - order.len()];
        assert(dead.contains(a));
        assert(destroyed.dead_among(before.tx.touched()).contains(a));
        assert(order.contains(a) <==> before.tx.selfdestructs.contains(a));
        assert(notes_end_of(before.tx, after.tx, a, after.tx.journal[i]));
    }
}

/// Every account that the end of a transaction takes from the state is noted in the journal.
pub proof fn law_finalized_notes_every_struck_account(
    before: StateView,
    eip161: bool,
    eip8246: bool,
    after: StateView,
    address: Address,
)
    requires
        before.finalizes(eip161, eip8246, Ok(()), after),
        is_struck(before.tx, eip161, address),
    ensures
        exists|i: int|
            before.tx.journal.len() <= i < after.tx.journal.len() && notes_end_of(
                before.tx,
                after.tx,
                address,
                #[trigger] after.tx.journal[i],
            ),
{
    let (order, found, dead) = lemma_ends(before, eip161, eip8246, after);
    let destroyed = before.destroy_all(order, found, eip8246);
    let base = before.tx.journal.len() as int;
    FixedBytes::<32>::spec_zero().law_zero_value();
    assert(order.contains(address) <==> before.tx.selfdestructs.contains(address));
    if eip161 {
        assert(dead.contains(address) <==> destroyed.dead_among(before.tx.touched()).contains(
            address,
        ));
    }
    if before.tx.selfdestructs.contains(address) {
        let k = choose|k: int| 0 <= k < order.len() && order[k] == address;
        assert(notes_end_of(before.tx, after.tx, address, after.tx.journal[base + k]));
    } else {
        let k = choose|k: int| 0 <= k < dead.len() && dead[k] == address;
        let i = base + order.len() + k;
        assert(notes_end_of(before.tx, after.tx, address, after.tx.journal[i]));
    }
}

/// Where the end of a transaction fails, it fails with the answer of the database to a read of a
/// self-destructed account that was not loaded, and the self-destructs are no longer on record. Every
/// account is as it was, its storage and its touch included, or self-destructed and dealt with.
pub proof fn law_finalizing_fails_on_failed_read(
    before: StateView,
    eip161: bool,
    eip8246: bool,
    r: DbResult<()>,
    after: StateView,
    address: Address,
)
    requires
        before.finalizes(eip161, eip8246, r, after),
    ensures
        match r {
            Ok(_) => true,
            Err(error) => {
                &&& after.tx.selfdestructs == Set::<Address>::empty()
                &&& exists|failed: Address|
                    {
                        &&& #[trigger] before.tx.selfdestructs.contains(failed)
                        &&& !before.tx.accounts.contains_key(failed)
                        &&& before.db.answers_account(failed, Err(error))
                    }
                &&& keeps_account(before.tx, after.tx, address) && keeps_storage(
                    before.tx,
                    after.tx,
                    address,
                ) || {
                    let held = ether(prior(before.tx, after.tx, address));
                    let left = after.tx.accounts[address];
                    &&& before.tx.selfdestructs.contains(address)
                    &&& after.tx.accounts.contains_key(address)
                    &&& loses_storage(before.tx, after.tx, address)
                    &&& if eip8246 && held != 0 {
                        &&& left.present is Some
                        &&& left.present->0.balance.value() == held
                        &&& left.present->0.nonce == 0
                        &&& left.present->0.code_hash == spec_empty_code_hash()
                    } else {
                        left.present is None
                    }
                }
            },
        },
{
    if let Err(error) = r {
        let (order, found) = choose|order: Seq<Address>, found: Map<Address, Option<AccountInfo>>|
            #![trigger before.finds_all(order, found)]
            {
                &&& before.finds_all(order, found)
                &&& order.no_duplicates()
                &&& forall|i: int|
                    0 <= i < order.len() ==> before.tx.selfdestructs.contains(#[trigger] order[i])
                &&& exists|failed: Address| #[trigger]
                    before.tx.selfdestructs.contains(failed) && !order.contains(failed)
                        && before.fails_account(failed, error)
                &&& after == before.with_tx(before.destroy_all(order, found, eip8246))
            };
        assert(order.contains(address) ==> before.tx.selfdestructs.contains(address));
        FixedBytes::<32>::spec_zero().law_zero_value();
    }
}

/// The order in which self-destructed accounts were dealt with, what was found of them, and under
/// EIP-161 the order in which dead accounts were.
proof fn lemma_ends(before: StateView, eip161: bool, eip8246: bool, after: StateView) -> (r: (
    Seq<Address>,
    Map<Address, Option<AccountInfo>>,
    Seq<Address>,
))
    requires
        before.finalizes(eip161, eip8246, Ok(()), after),
    ensures
        before.finds_all(r.0, r.1),
        enumerates(r.0, before.tx.selfdestructs),
        before.settles(before.destroy_all(r.0, r.1, eip8246), eip161, after),
        eip161 ==> {
            let destroyed = before.destroy_all(r.0, r.1, eip8246);
            &&& enumerates(r.2, destroyed.dead_among(before.tx.touched()))
            &&& after == before.with_tx(
                destroyed.strike_all(r.2, false).settled(
                    before.tx.touched(),
                    before.tx.selfdestructs,
                ),
            )
        },
{
    let (order, found) = choose|order: Seq<Address>, found: Map<Address, Option<AccountInfo>>|
        #![trigger before.finds_all(order, found)]
        {
            &&& before.finds_all(order, found)
            &&& enumerates(order, before.tx.selfdestructs)
            &&& before.settles(before.destroy_all(order, found, eip8246), eip161, after)
        };
    let destroyed = before.destroy_all(order, found, eip8246);
    let dead = choose|dead: Seq<Address>| #[trigger]
        enumerates(dead, destroyed.dead_among(before.tx.touched())) && after == before.with_tx(
            destroyed.strike_all(dead, false).settled(
                before.tx.touched(),
                before.tx.selfdestructs,
            ),
        );
    (order, found, dead)
}

} // verus!
