//! What holds of a state across its operations.
use alloy_primitives::Log;
use vstd::prelude::*;

use crate::account::Account;
use crate::bal::BalView;
use crate::commit::{committed_storage, commits, writes_account, writes_slot, writes_storage};
use crate::db::{CacheDbView, DbError, DbResult};
use crate::features::InstrStop;
use crate::fixed::{word_of, Address, FixedBytes, Word};
use crate::info::AccountInfo;
use crate::model::TxView;
use crate::reversal::{
    destructed, law_rollback_undoes_all_steps, law_unwinding_in_stages,
    law_unwinding_keeps_logs_and_prewarm, Step,
};
use crate::state::StateView;

verus! {

// --- reading back what was written ---

/// A transient slot reads as what was last stored in it, and storing in it moves no other slot.
pub proof fn law_transient_reads_back(
    tx: TxView,
    address: Address,
    key: Word,
    value: Word,
    other_address: Address,
    other_key: Word,
)
    ensures
        tx.store_transient(address, key, value).transient_value(address, key) == value,
        (other_address, other_key) != (address, key) ==> tx.store_transient(
            address,
            key,
            value,
        ).transient_value(other_address, other_key) == tx.transient_value(other_address, other_key),
{
}

/// A loaded slot reads as what was last written to it and keeps what the transaction found and its
/// warmth. Writing to it moves no other slot.
pub proof fn law_slot_reads_back(
    tx: TxView,
    address: Address,
    key: Word,
    value: Word,
    other_address: Address,
    other_key: Word,
)
    requires
        tx.has_slot(address, key),
    ensures
        ({
            let after = tx.write_slot(address, key, value);
            &&& after.has_slot(address, key)
            &&& after.slot(address, key).value.current == value
            &&& after.slot(address, key).value.original == tx.slot(address, key).value.original
            &&& after.slot(address, key).is_warm == tx.slot(address, key).is_warm
            &&& (other_address, other_key) != (address, key) ==> {
                &&& after.has_slot(other_address, other_key) == tx.has_slot(other_address, other_key)
                &&& after.slot(other_address, other_key) == tx.slot(other_address, other_key)
            }
        }),
{
}

/// What a transaction wrote is what reads find once it is accepted, unless an attached block access
/// list decides them, which answers as before: written slots hold their last value, other slots of wiped storage read as zero, written
/// accounts have the contents they were left with. Everything else reads as before.
pub proof fn law_accepted_writes_read_back(
    tx: TxView,
    before: CacheDbView,
    after: CacheDbView,
    address: Address,
    key: Word,
    slot: DbResult<Word>,
    account: DbResult<Option<AccountInfo>>,
)
    requires
        commits(before.cache, tx.accounts, tx.storage, Set::empty(), after.cache),
        after.source == before.source,
        after.bal == (BalView { builder: after.bal.builder, ..before.bal }),
    ensures
        after.answers_storage(address, key, slot) <==> if before.bal_decides_slot(address, key) {
            before.answers_storage(address, key, slot)
        } else if tx.storage.contains_key(address)
            && writes_slot(tx.storage[address], key) {
            slot == Ok::<Word, DbError>(tx.slot(address, key).value.current)
        } else if tx.storage.contains_key(address) && tx.storage[address].wiped {
            slot == Ok::<Word, DbError>(FixedBytes::<32>::spec_zero())
        } else {
            before.answers_storage(address, key, slot)
        },
        after.answers_account(address, account) <==> if before.bal_decides_account(address) {
            before.answers_account(address, account)
        } else if writes_account(
            tx.accounts,
            Set::empty(),
            address,
        ) {
            account == Ok::<Option<AccountInfo>, DbError>(tx.accounts[address].present)
        } else {
            before.answers_account(address, account)
        },
{
    let overlay = tx.storage[address];
    if tx.storage.contains_key(address) && writes_storage(overlay) {
        assert(after.cache.storage.contains_key(address));
        assert(after.cache.storage_of(address) == committed_storage(
            before.cache.storage_of(address),
            overlay,
        ));
    } else {
        assert(tx.storage.contains_key(address) ==> !writes_slot(overlay, key));
        assert(after.cache.storage_of(address) == before.cache.storage_of(address));
    }
}

/// Loading an account or a slot a second time reads nothing and changes nothing.
pub proof fn law_loading_again_changes_nothing(
    tx: TxView,
    address: Address,
    key: Word,
    info: Option<AccountInfo>,
    other_info: Option<AccountInfo>,
    value: Word,
    other_value: Word,
)
    ensures
        tx.load_account(address, info).load_account(address, other_info) == tx.load_account(
            address,
            info,
        ),
        tx.load_slot(address, key, value).load_slot(address, key, other_value) == tx.load_slot(
            address,
            key,
            value,
        ),
        !tx.load_slot(address, key, value).slot_needs_read(address, key),
{
}

/// All changes through one handle are one journaled change: the last one counts, and the entry
/// holds the account as it was before the first.
pub proof fn law_handle_journals_once(tx: TxView, address: Address, first: Account, second: Account)
    requires
        tx.accounts.contains_key(address),
    ensures
        tx.change_account(address, false, first).change_account(address, true, second)
            == tx.change_account(address, false, second),
        tx.change_account(address, false, first).destruct_account(address, true)
            == tx.step(
            Step::Destruct { address, account: Account { is_destroyed: true, ..first } },
            false,
        ),
{
    assert(tx.change_account(address, false, first).change_account(address, true, second)
        =~= tx.change_account(address, false, second));
    let destructed = Account { is_destroyed: true, ..first };
    assert(tx.change_account(address, false, first).destruct_account(address, true)
        =~= tx.step(Step::Destruct { address, account: destructed }, false));
}

// --- moving value ---

/// A transfer between two loaded accounts that succeeds moves exactly the value: what the sender
/// has less the recipient has more, so that their sum stays, as long as it fits a word.
pub proof fn law_transfer_conserves_balance(
    before: StateView,
    from: Address,
    to: Address,
    value: Word,
    after: StateView,
)
    requires
        before.transfers(from, to, value, Ok(true), after),
        before.tx.accounts.contains_key(from),
        before.tx.accounts.contains_key(to),
        from != to ==> before.tx.balance(to) + value.value() < FixedBytes::<32>::modulus(),
    ensures
        from != to ==> {
            &&& after.tx.balance(from) == before.tx.balance(from) - value.value()
            &&& after.tx.balance(to) == before.tx.balance(to) + value.value()
        },
        after.tx.balance(from) + after.tx.balance(to) == before.tx.balance(from)
            + before.tx.balance(to),
{
    if value.value() != 0 && from != to {
        lemma_word_fits(before.tx.accounts[from].contents().balance);
        lemma_word_exists((before.tx.balance(from) - value.value()) as nat);
        lemma_word_exists(before.tx.balance(to) + value.value());
    }
}

/// A transfer that succeeds loads both accounts and then moves exactly the value between them, up to
/// the largest word.
pub proof fn law_transfer_moves_the_value(
    before: StateView,
    from: Address,
    to: Address,
    value: Word,
    after: StateView,
)
    requires
        before.transfers(from, to, value, Ok(true), after),
        from != to,
        value.value() != 0,
    ensures
        exists|sender: StateView, both: StateView|
            {
                &&& #[trigger] before.loads_account(from, sender)
                &&& #[trigger] sender.loads_account(to, both)
                &&& after.tx.balance(from) == both.tx.balance(from) - value.value()
                &&& after.tx.balance(to) == if both.tx.balance(to) + value.value() < FixedBytes::<
                    32,
                >::modulus() {
                    both.tx.balance(to) + value.value()
                } else {
                    (FixedBytes::<32>::modulus() - 1) as nat
                }
            },
{
    let sender = choose|loaded: StateView| #[trigger]
        before.loads_account(from, loaded) && loaded.tx.balance(from) >= value.value() && (
        exists|paid: StateView| #[trigger]
            loaded.debit(from, value).loads_account(to, paid) && after == paid.credit(to, value));
    let paid = choose|paid: StateView| #[trigger]
        sender.debit(from, value).loads_account(to, paid) && after == paid.credit(to, value);
    let info = choose|info: Option<AccountInfo>| #[trigger]
        sender.debit(from, value).finds_account(to, info) && paid == sender.debit(
            from,
            value,
        ).with_tx(sender.debit(from, value).tx.load_account(to, info));
    let both = sender.with_tx(sender.tx.load_account(to, info));
    assert(sender.finds_account(to, info));
    assert(sender.loads_account(to, both));
    lemma_word_fits(sender.tx.accounts[from].contents().balance);
    lemma_word_exists((sender.tx.balance(from) - value.value()) as nat);
    let sum = both.tx.balance(to) + value.value();
    lemma_word_fits(both.tx.accounts[to].contents().balance);
    if sum < FixedBytes::<32>::modulus() {
        lemma_word_exists(sum);
    } else {
        lemma_word_exists((FixedBytes::<32>::modulus() - 1) as nat);
    }
    assert(paid.tx.balance(to) == both.tx.balance(to));
}

/// A word spells less than the modulus.
proof fn lemma_word_fits(w: Word)
    ensures
        w.value() < FixedBytes::<32>::modulus(),
{
    w.law_value_bounded();
}

/// Every number below the modulus is spelt by a word.
proof fn lemma_word_exists(n: nat)
    requires
        n < FixedBytes::<32>::modulus(),
    ensures
        word_of(n).value() == n,
{
    FixedBytes::<32>::law_value_surjective(n);
}

// --- going back ---

/// Rolling back in two stages is rolling back at once.
pub proof fn law_nested_rollbacks_compose(
    tx: TxView,
    inner_journal: nat,
    inner_logs: nat,
    outer_journal: nat,
    outer_logs: nat,
    eip161: bool,
)
    requires
        outer_journal <= inner_journal,
        outer_logs <= inner_logs,
    ensures
        tx.rolled_back(inner_journal, inner_logs, eip161).rolled_back(
            outer_journal,
            outer_logs,
            eip161,
        ) == tx.rolled_back(outer_journal, outer_logs, eip161),
{
    let inner = TxView {
        logs: if inner_logs < tx.logs.len() {
            tx.logs.take(inner_logs as int)
        } else {
            tx.logs
        },
        ..tx
    };
    let outer = TxView {
        logs: if outer_logs < tx.logs.len() {
            tx.logs.take(outer_logs as int)
        } else {
            tx.logs
        },
        ..tx
    };
    law_unwinding_keeps_logs_and_prewarm(inner, inner_journal, eip161);
    let middle = inner.unwound(inner_journal, eip161);
    let cut = if outer_logs < middle.logs.len() {
        middle.logs.take(outer_logs as int)
    } else {
        middle.logs
    };
    assert(cut =~= outer.logs);
    lemma_unwinding_ignores_logs(inner, inner_journal, cut, eip161);
    assert(TxView { logs: cut, ..inner } == outer);
    law_unwinding_in_stages(outer, inner_journal, outer_journal, eip161);
}

/// Unwinding does not look at the logs.
proof fn lemma_unwinding_ignores_logs(tx: TxView, len: nat, logs: Seq<Log>, eip161: bool)
    ensures
        (TxView { logs, ..tx.unwound(len, eip161) }) == (TxView { logs, ..tx }).unwound(len, eip161),
    decreases tx.journal.len(),
{
    if tx.journal.len() > len {
        let entry = tx.journal.last();
        let next = tx.pop_entry().undo(entry, eip161);
        lemma_unwinding_ignores_logs(next, len, logs, eip161);
        assert((TxView { logs, ..tx }).pop_entry().undo(entry, eip161) == (TxView { logs, ..next }));
    }
}

/// Rolling back where nothing happened since changes nothing.
pub proof fn law_immediate_rollback_changes_nothing(tx: TxView, eip161: bool)
    ensures
        tx.rolled_back(tx.journal.len(), tx.logs.len(), eip161) == tx,
{
}

/// A rollback leaves at most as many journal entries and logs as the checkpoint had.
pub proof fn law_rollback_cuts_journal_and_logs(
    tx: TxView,
    journal_len: nat,
    logs_len: nat,
    eip161: bool,
)
    ensures
        tx.rolled_back(journal_len, logs_len, eip161).journal == if tx.journal.len()
            <= journal_len {
            tx.journal
        } else {
            tx.journal.take(journal_len as int)
        },
        tx.rolled_back(journal_len, logs_len, eip161).logs == if tx.logs.len() <= logs_len {
            tx.logs
        } else {
            tx.logs.take(logs_len as int)
        },
{
    let cut = TxView {
        logs: if logs_len < tx.logs.len() {
            tx.logs.take(logs_len as int)
        } else {
            tx.logs
        },
        ..tx
    };
    law_unwinding_keeps_logs_and_prewarm(cut, journal_len, eip161);
}

/// A rollback leaves the pre-warmed set alone.
pub proof fn law_rollback_keeps_prewarm(tx: TxView, journal_len: nat, logs_len: nat, eip161: bool)
    ensures
        tx.rolled_back(journal_len, logs_len, eip161).prewarm == tx.prewarm,
{
    let cut = TxView {
        logs: if logs_len < tx.logs.len() {
            tx.logs.take(logs_len as int)
        } else {
            tx.logs
        },
        ..tx
    };
    law_unwinding_keeps_logs_and_prewarm(cut, journal_len, eip161);
}

/// Where nothing was added to or taken from the pre-warmed set since, a rollback brings the warmth of
/// every access back.
pub proof fn law_rollback_restores_warmth(
    start: TxView,
    steps: Seq<Step>,
    eip161: bool,
    address: Address,
    key: Word,
)
    requires
        start.transient_nonzero(),
        start.can_run(steps, eip161),
        start.grows_prewarm(steps, eip161),
        start.run(steps, eip161).prewarm == start.prewarm,
    ensures
        ({
            let rolled = start.run(steps, eip161).rolled_back(
                start.journal.len(),
                start.logs.len(),
                eip161,
            );
            &&& rolled.account_is_warm(address) == start.account_is_warm(address)
            &&& rolled.slot_is_warm(address, key) == start.slot_is_warm(address, key)
        }),
{
    let end = start.run(steps, eip161);
    law_rollback_undoes_all_steps(start, steps, eip161);
    law_rollback_keeps_prewarm(end, start.journal.len(), start.logs.len(), eip161);
    let rolled = end.rolled_back(start.journal.len(), start.logs.len(), eip161);
    assert(start.overlay_of(address).only_loads(rolled.overlay_of(address)));
}

/// A transfer is undone by rolling back to where it began, whatever its outcome.
pub proof fn law_rollback_undoes_transfer(
    before: StateView,
    from: Address,
    to: Address,
    value: Word,
    r: DbResult<bool>,
    after: StateView,
    eip161: bool,
)
    requires
        before.wf(),
        before.transfers(from, to, value, r, after),
    ensures
        ({
            let rolled = after.tx.rolled_back(
                before.tx.journal.len(),
                before.tx.logs.len(),
                eip161,
            );
            &&& before.tx.comes_back_as(rolled, Set::empty(), true, eip161)
            &&& rolled.selfdestructs == before.tx.selfdestructs
            &&& rolled.logs == before.tx.logs
        }),
{
    let steps = lemma_transfer_is_steps(before, from, to, value, r, after, eip161);
    lemma_plain_steps_come_back(before.tx, steps, eip161);
}

/// Creating a contract is undone by rolling back to where it began, whatever its outcome.
pub proof fn law_rollback_undoes_creation(
    before: StateView,
    caller: Address,
    address: Address,
    value: Word,
    r: DbResult<Result<(), InstrStop>>,
    after: StateView,
    eip161: bool,
)
    requires
        before.wf(),
        before.creates(caller, address, value, eip161, r, after),
    ensures
        ({
            let rolled = after.tx.rolled_back(
                before.tx.journal.len(),
                before.tx.logs.len(),
                eip161,
            );
            &&& before.tx.comes_back_as(rolled, Set::empty(), true, eip161)
            &&& rolled.selfdestructs == before.tx.selfdestructs
            &&& rolled.logs == before.tx.logs
        }),
{
    let steps = lemma_creation_is_steps(before, caller, address, value, r, after, eip161);
    lemma_plain_steps_come_back(before.tx, steps, eip161);
}

impl TxView {
    /// Whether the steps can happen in turn, mark no account as self-destructed and leave the
    /// pre-warmed set alone.
    spec fn runs_plainly(self, steps: Seq<Step>, eip161: bool) -> bool {
        &&& self.can_run(steps, eip161)
        &&& destructed(steps) == Set::<Address>::empty()
        &&& self.grows_prewarm(steps, eip161)
    }
}

/// Steps that mark no account as self-destructed are undone with nothing left but loads.
proof fn lemma_plain_steps_come_back(start: TxView, steps: Seq<Step>, eip161: bool)
    requires
        start.transient_nonzero(),
        start.runs_plainly(steps, eip161),
    ensures
        ({
            let rolled = start.run(steps, eip161).rolled_back(
                start.journal.len(),
                start.logs.len(),
                eip161,
            );
            &&& start.comes_back_as(rolled, Set::empty(), true, eip161)
            &&& rolled.selfdestructs == start.selfdestructs
            &&& rolled.logs == start.logs
        }),
{
    law_rollback_undoes_all_steps(start, steps, eip161);
    let rolled = start.run(steps, eip161).rolled_back(
        start.journal.len(),
        start.logs.len(),
        eip161,
    );
    assert(rolled.selfdestructs =~= start.selfdestructs);
}

/// One more step.
proof fn lemma_next_step(start: TxView, steps: Seq<Step>, step: Step, eip161: bool)
    requires
        start.runs_plainly(steps, eip161),
        start.run(steps, eip161).allows(start, step),
        !(step is Destruct) && !(step is Prewarm),
    ensures
        start.runs_plainly(steps.push(step), eip161),
        start.run(steps.push(step), eip161) == start.run(steps, eip161).step(step, eip161),
{
    assert(steps.push(step).drop_last() =~= steps);
    assert(destructed(steps.push(step)) =~= Set::<Address>::empty());
}

/// Loading an account is a step.
proof fn lemma_load_is_step(
    start: TxView,
    steps: Seq<Step>,
    before: StateView,
    address: Address,
    after: StateView,
    eip161: bool,
) -> (r: Seq<Step>)
    requires
        start.runs_plainly(steps, eip161),
        start.run(steps, eip161) == before.tx,
        before.loads_account(address, after),
    ensures
        start.runs_plainly(r, eip161),
        start.run(r, eip161) == after.tx,
        after.tx.accounts.contains_key(address),
{
    let info = choose|info: Option<AccountInfo>| #[trigger]
        before.finds_account(address, info) && after == before.with_tx(
            before.tx.load_account(address, info),
        );
    let step = Step::LoadAccount { address, info };
    lemma_next_step(start, steps, step, eip161);
    steps.push(step)
}

/// Changing a loaded account is a step.
proof fn lemma_change_is_step(
    start: TxView,
    steps: Seq<Step>,
    address: Address,
    account: Account,
    eip161: bool,
) -> (r: Seq<Step>)
    requires
        start.runs_plainly(steps, eip161),
        start.run(steps, eip161).accounts.contains_key(address),
        account.original == start.run(steps, eip161).accounts[address].original,
        account.is_destroyed == start.run(steps, eip161).accounts[address].is_destroyed,
    ensures
        start.runs_plainly(r, eip161),
        start.run(r, eip161) == start.run(steps, eip161).change_account(address, false, account),
{
    let step = Step::Account { address, account };
    lemma_next_step(start, steps, step, eip161);
    steps.push(step)
}

/// Touching a loaded account is a step or nothing.
proof fn lemma_touch_is_step(start: TxView, steps: Seq<Step>, address: Address, eip161: bool) -> (r:
    Seq<Step>)
    requires
        start.runs_plainly(steps, eip161),
        start.run(steps, eip161).accounts.contains_key(address),
    ensures
        start.runs_plainly(r, eip161),
        start.run(r, eip161) == start.run(steps, eip161).touch_account(address),
{
    let account = start.run(steps, eip161).accounts[address];
    if account.is_touched {
        steps
    } else {
        lemma_change_is_step(
            start,
            steps,
            address,
            Account { is_touched: true, ..account },
            eip161,
        )
    }
}

/// A transfer is made of steps.
proof fn lemma_transfer_is_steps(
    before: StateView,
    from: Address,
    to: Address,
    value: Word,
    r: DbResult<bool>,
    after: StateView,
    eip161: bool,
) -> (steps: Seq<Step>)
    requires
        before.transfers(from, to, value, r, after),
    ensures
        before.tx.runs_plainly(steps, eip161),
        before.tx.run(steps, eip161) == after.tx,
{
    let none = Seq::<Step>::empty();
    let start = before.tx;
    if value.value() == 0 {
        if r is Ok {
            let loaded = choose|loaded: StateView| #[trigger]
                before.loads_account(to, loaded) && after == loaded.touch_account(to);
            let steps = lemma_load_is_step(start, none, before, to, loaded, eip161);
            lemma_touch_is_step(start, steps, to, eip161)
        } else {
            none
        }
    } else {
        match r {
            Ok(false) => {
                let loaded = choose|loaded: StateView| #[trigger]
                    before.loads_account(from, loaded) && loaded.tx.balance(from) < value.value()
                        && after == loaded;
                lemma_load_is_step(start, none, before, from, loaded, eip161)
            },
            Ok(true) => {
                if from == to {
                    let loaded = choose|loaded: StateView| #[trigger]
                        before.loads_account(from, loaded) && after == loaded.touch_account(from);
                    let steps = lemma_load_is_step(start, none, before, from, loaded, eip161);
                    lemma_touch_is_step(start, steps, from, eip161)
                } else {
                    let loaded = choose|loaded: StateView| #[trigger]
                        before.loads_account(from, loaded) && (exists|paid: StateView| #[trigger]
                            loaded.debit(from, value).loads_account(to, paid) && after
                                == paid.credit(to, value));
                    let paid = choose|paid: StateView| #[trigger]
                        loaded.debit(from, value).loads_account(to, paid) && after == paid.credit(
                            to,
                            value,
                        );
                    let steps = lemma_load_is_step(start, none, before, from, loaded, eip161);
                    let steps = lemma_change_is_step(
                        start,
                        steps,
                        from,
                        loaded.debit(from, value).tx.accounts[from],
                        eip161,
                    );
                    let steps = lemma_load_is_step(
                        start,
                        steps,
                        loaded.debit(from, value),
                        to,
                        paid,
                        eip161,
                    );
                    lemma_change_is_step(start, steps, to, after.tx.accounts[to], eip161)
                }
            },
            Err(error) => {
                if before.fails_account(from, error) && after == before {
                    none
                } else {
                    let loaded = choose|loaded: StateView| #[trigger]
                        before.loads_account(from, loaded) && after == loaded.debit(from, value);
                    let steps = lemma_load_is_step(start, none, before, from, loaded, eip161);
                    lemma_change_is_step(start, steps, from, after.tx.accounts[from], eip161)
                }
            },
        }
    }
}

/// Creating a contract is made of steps.
proof fn lemma_creation_is_steps(
    before: StateView,
    caller: Address,
    address: Address,
    value: Word,
    r: DbResult<Result<(), InstrStop>>,
    after: StateView,
    eip161: bool,
) -> (steps: Seq<Step>)
    requires
        before.creates(caller, address, value, eip161, r, after),
    ensures
        before.tx.runs_plainly(steps, eip161),
        before.tx.run(steps, eip161) == after.tx,
{
    let none = Seq::<Step>::empty();
    let start = before.tx;
    match r {
        Ok(Ok(_)) => {
            if value.value() == 0 {
                let loaded = choose|loaded: StateView| #[trigger]
                    before.loads_account(address, loaded) && after == loaded.create_contract(
                        address,
                        value,
                        eip161,
                    );
                let steps = lemma_load_is_step(start, none, before, address, loaded, eip161);
                lemma_change_is_step(start, steps, address, after.tx.accounts[address], eip161)
            } else {
                let loaded = choose|loaded: StateView| #[trigger]
                    before.loads_account(address, loaded) && (exists|both: StateView| #[trigger]
                        loaded.loads_account(caller, both) && after == both.debit(
                            caller,
                            value,
                        ).create_contract(address, value, eip161));
                let both = choose|both: StateView| #[trigger]
                    loaded.loads_account(caller, both) && after == both.debit(
                        caller,
                        value,
                    ).create_contract(address, value, eip161);
                let steps = lemma_load_is_step(start, none, before, address, loaded, eip161);
                let steps = lemma_load_is_step(start, steps, loaded, caller, both, eip161);
                assert(both.tx.accounts.contains_key(address));
                let steps = lemma_change_is_step(
                    start,
                    steps,
                    caller,
                    both.debit(caller, value).tx.accounts[caller],
                    eip161,
                );
                lemma_change_is_step(start, steps, address, after.tx.accounts[address], eip161)
            }
        },
        Ok(Err(InstrStop::CreateCollision)) => lemma_load_is_step(
            start,
            none,
            before,
            address,
            after,
            eip161,
        ),
        Ok(Err(InstrStop::OutOfFunds)) => {
            let loaded = choose|loaded: StateView| #[trigger]
                before.loads_account(address, loaded) && loaded.loads_account(caller, after);
            let steps = lemma_load_is_step(start, none, before, address, loaded, eip161);
            lemma_load_is_step(start, steps, loaded, caller, after, eip161)
        },
        Err(error) => {
            if before.fails_account(address, error) && after == before {
                none
            } else {
                lemma_load_is_step(start, none, before, address, after, eip161)
            }
        },
    }
}

} // verus!
