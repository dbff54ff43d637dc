//! What a rollback undoes: everything that a transaction did since a checkpoint, but for what it
//! read along the way.
use alloy_primitives::Log;
use vstd::prelude::*;

use crate::account::Account;
use crate::db::{CacheDbView, DbResult};
use crate::fixed::{Address, FixedBytes, Word};
use crate::info::AccountInfo;
use crate::journal::EntryView;
use crate::model::{is_touch_keeper, TxView};
use crate::prewarm::PrewarmView;
use crate::state::StateView;
use crate::storage::{OverlayView, StorageSlot};

verus! {

// --- what reading leaves behind ---

/// Whether two versions of an account are the same, but for the touch that EIP-161 keeps.
pub open spec fn same_account(a: Account, b: Account, address: Address, eip161: bool) -> bool {
    b == Account {
        is_touched: if eip161 && is_touch_keeper(address) {
            b.is_touched
        } else {
            a.is_touched
        },
        ..a
    }
}

/// Whether an account is as loading left it, but for the touch that EIP-161 keeps.
pub open spec fn is_clean_account(account: Account, address: Address, eip161: bool) -> bool {
    same_account(
        Account::spec_loaded(account.original, account.is_warm),
        account,
        address,
        eip161,
    )
}

/// Whether a slot is as loading left it.
pub open spec fn is_clean_slot(slot: StorageSlot) -> bool {
    slot == StorageSlot::spec_loaded(slot.value.original)
}

impl OverlayView {
    /// Whether `later` is this overlay with nothing but slots loaded since.
    pub open spec fn only_loads(self, later: Self) -> bool {
        &&& later.wiped == self.wiped
        &&& forall|key: Word| #[trigger]
            self.slots.contains_key(key) ==> later.slots.contains_key(key) && later.slots[key]
                == self.slots[key]
        &&& forall|key: Word| #[trigger]
            later.slots.contains_key(key) && !self.slots.contains_key(key) ==> is_clean_slot(
                later.slots[key],
            )
    }
}

impl TxView {
    /// The loaded storage of an account, where nothing is loaded an empty overlay.
    pub open spec fn overlay_of(self, address: Address) -> OverlayView {
        if self.storage.contains_key(address) {
            self.storage[address]
        } else {
            OverlayView::empty()
        }
    }

    /// Whether `later` is this layer with nothing but accounts and slots loaded since. Logs, the
    /// pre-warmed set and the self-destructs on record are left aside.
    pub open spec fn only_loads(self, later: Self, eip161: bool) -> bool {
        &&& later.journal == self.journal
        &&& later.transient == self.transient
        &&& forall|address: Address| #[trigger]
            self.accounts.contains_key(address) ==> later.accounts.contains_key(address)
                && same_account(self.accounts[address], later.accounts[address], address, eip161)
        &&& forall|address: Address| #[trigger]
            later.accounts.contains_key(address) && !self.accounts.contains_key(address)
                ==> is_clean_account(later.accounts[address], address, eip161)
        &&& forall|address: Address| #[trigger]
            self.storage.contains_key(address) ==> later.storage.contains_key(address)
        &&& forall|address: Address| #[trigger]
            self.overlay_of(address).only_loads(later.overlay_of(address))
    }

    /// Whether an account is loaded and marked as self-destructed.
    pub open spec fn is_marked(self, address: Address) -> bool {
        self.accounts.contains_key(address) && self.accounts[address].is_destroyed
    }

    /// Whether an account is loaded and was created by the transaction.
    pub open spec fn is_created(self, address: Address) -> bool {
        self.accounts.contains_key(address) && self.accounts[address].just_created
    }

    /// Whether an account is loaded and was given code by the transaction.
    pub open spec fn has_new_code(self, address: Address) -> bool {
        self.accounts.contains_key(address) && self.accounts[address].code_changed
    }

    /// Whether `later` has everything pre-warmed that this layer has, and accounts loaded since are
    /// warm only where they are pre-warmed.
    pub open spec fn keeps_warmth(self, later: Self) -> bool {
        &&& self.prewarm.addresses.subset_of(later.prewarm.addresses)
        &&& self.prewarm.slots.subset_of(later.prewarm.slots)
        &&& forall|address: Address| #[trigger]
            later.accounts.contains_key(address) && !self.accounts.contains_key(address)
                && later.accounts[address].is_warm ==> later.prewarm.addresses.contains(address)
    }

    /// Whether `later` is this layer again, but for what was loaded since. Of the accounts in
    /// `destructed` those are on record as self-destructed that are marked; all others are on record
    /// as before. Where the pre-warmed set only grew, warmth is kept. Logs are left aside.
    pub open spec fn comes_back_as(
        self,
        later: Self,
        destructed: Set<Address>,
        prewarm_grew: bool,
        eip161: bool,
    ) -> bool {
        &&& self.only_loads(later, eip161)
        &&& forall|address: Address| #[trigger]
            later.selfdestructs.contains(address) == if destructed.contains(address) {
                self.is_marked(address)
            } else {
                self.selfdestructs.contains(address)
            }
        &&& prewarm_grew ==> self.keeps_warmth(later)
    }
}

// --- steps of a transaction ---

/// A step of a transaction.
pub enum Step {
    /// An account is loaded, with what the database holds.
    LoadAccount { address: Address, info: Option<AccountInfo> },
    /// An account gets an overlay.
    OpenOverlay { address: Address },
    /// A slot is loaded, with what the database holds.
    LoadSlot { address: Address, key: Word, value: Word },
    /// A loaded account is changed through a handle.
    Account { address: Address, account: Account },
    /// A loaded account is changed through a handle, and marked as self-destructed.
    Destruct { address: Address, account: Account },
    /// A loaded slot is given a value.
    WriteSlot { address: Address, key: Word, value: Word },
    /// A loaded slot is accessed.
    WarmSlot { address: Address, key: Word },
    /// The storage of an account is wiped with a journal entry.
    WipeStorage { address: Address },
    /// A transient slot is given a value.
    StoreTransient { address: Address, key: Word, value: Word },
    /// A log is recorded.
    Log { log: Log },
    /// The pre-warmed set is changed.
    Prewarm { prewarm: PrewarmView },
    /// The layer is rolled back to a later checkpoint.
    RollBack { journal_len: nat, logs_len: nat },
}

impl TxView {
    /// Whether a step can happen, in a transaction that started with `start`.
    pub open spec fn allows(self, start: TxView, step: Step) -> bool {
        match step {
            Step::LoadAccount { .. } => true,
            Step::OpenOverlay { .. } => true,
            Step::LoadSlot { .. } => true,
            Step::Account { address, account } => {
                &&& self.accounts.contains_key(address)
                &&& account.original == self.accounts[address].original
                &&& account.is_destroyed == self.accounts[address].is_destroyed
            },
            Step::Destruct { address, account } => {
                &&& self.accounts.contains_key(address)
                &&& account.original == self.accounts[address].original
                &&& account.is_destroyed
            },
            Step::WriteSlot { address, key, .. } => self.has_slot(address, key),
            Step::WarmSlot { address, key } => self.has_slot(address, key),
            Step::WipeStorage { address } => self.storage.contains_key(address),
            Step::StoreTransient { .. } => true,
            Step::Log { .. } => true,
            Step::Prewarm { .. } => true,
            Step::RollBack { journal_len, logs_len } => {
                &&& journal_len >= start.journal.len()
                &&& logs_len >= start.logs.len()
            },
        }
    }

    /// The layer after a step.
    pub open spec fn step(self, step: Step, eip161: bool) -> Self {
        match step {
            Step::LoadAccount { address, info } => self.load_account(address, info),
            Step::OpenOverlay { address } => self.open_overlay(address),
            Step::LoadSlot { address, key, value } => self.load_slot(address, key, value),
            Step::Account { address, account } => self.change_account(address, false, account),
            Step::Destruct { address, account } => {
                let changed = self.change_account(address, false, account);
                TxView { selfdestructs: changed.selfdestructs.insert(address), ..changed }
            },
            Step::WriteSlot { address, key, value } => self.write_slot(address, key, value),
            Step::WarmSlot { address, key } => self.warm_slot(address, key),
            Step::WipeStorage { address } => self.wipe_journaled(address),
            Step::StoreTransient { address, key, value } => self.store_transient(
                address,
                key,
                value,
            ),
            Step::Log { log } => TxView { logs: self.logs.push(log), ..self },
            Step::Prewarm { prewarm } => TxView { prewarm, ..self },
            Step::RollBack { journal_len, logs_len } => self.rolled_back(
                journal_len,
                logs_len,
                eip161,
            ),
        }
    }

    /// The layer after steps in turn.
    pub open spec fn run(self, steps: Seq<Step>, eip161: bool) -> Self
        decreases steps.len(),
    {
        if steps.len() == 0 {
            self
        } else {
            self.run(steps.drop_last(), eip161).step(steps.last(), eip161)
        }
    }

    /// Whether all steps can happen in turn.
    pub open spec fn can_run(self, steps: Seq<Step>, eip161: bool) -> bool
        decreases steps.len(),
    {
        steps.len() == 0 || {
            &&& self.can_run(steps.drop_last(), eip161)
            &&& self.run(steps.drop_last(), eip161).allows(self, steps.last())
        }
    }
}

impl Step {
    /// The account that the step marks as self-destructed, if it does.
    pub open spec fn destructs(self) -> Set<Address> {
        match self {
            Step::Destruct { address, .. } => set![address],
            _ => Set::empty(),
        }
    }

    /// Whether the step leaves everything pre-warmed that is.
    pub open spec fn grows_prewarm(self, prewarm: PrewarmView) -> bool {
        match self {
            Step::Prewarm { prewarm: next } => {
                &&& prewarm.addresses.subset_of(next.addresses)
                &&& prewarm.slots.subset_of(next.slots)
            },
            _ => true,
        }
    }
}

/// The accounts that the steps mark as self-destructed.
pub open spec fn destructed(steps: Seq<Step>) -> Set<Address>
    decreases steps.len(),
{
    if steps.len() == 0 {
        Set::empty()
    } else {
        destructed(steps.drop_last()).union(steps.last().destructs())
    }
}

impl TxView {
    /// Whether the pre-warmed set only grows through the steps.
    pub open spec fn grows_prewarm(self, steps: Seq<Step>, eip161: bool) -> bool
        decreases steps.len(),
    {
        steps.len() == 0 || {
            &&& self.grows_prewarm(steps.drop_last(), eip161)
            &&& steps.last().grows_prewarm(self.run(steps.drop_last(), eip161).prewarm)
        }
    }
}

// --- undoing one entry ---

impl TxView {
    /// Whether what an entry speaks of is loaded.
    spec fn has_subject(self, entry: EntryView) -> bool {
        match entry {
            EntryView::AccountChange { address, .. } => self.accounts.contains_key(address),
            EntryView::StorageChange { address, key, .. } => self.has_slot(address, key),
            EntryView::StorageWarmed { address, key } => self.has_slot(address, key),
            _ => true,
        }
    }

    /// Whether undoing the journal down to `len` entries finds everything loaded that it needs.
    spec fn can_unwind(self, len: nat, eip161: bool) -> bool
        decreases self.journal.len(),
    {
        self.journal.len() <= len || {
            &&& self.pop_entry().has_subject(self.journal.last())
            &&& self.pop_entry().undo(self.journal.last(), eip161).can_unwind(len, eip161)
        }
    }
}

/// Undoing an entry on a layer that came back as another leads to layers that do so too.
proof fn lemma_undo_comes_back(
    a: TxView,
    b: TxView,
    entry: EntryView,
    destructed: Set<Address>,
    prewarm_grew: bool,
    eip161: bool,
)
    requires
        a.comes_back_as(b, destructed, prewarm_grew, eip161),
        a.has_subject(entry),
    ensures
        a.undo(entry, eip161).comes_back_as(
            b.undo(entry, eip161),
            destructed,
            prewarm_grew,
            eip161,
        ),
        b.has_subject(entry),
{
    let (x, y) = (a.undo(entry, eip161), b.undo(entry, eip161));
    match entry {
        EntryView::AccountChange { address, .. } => {
            assert(a.accounts.contains_key(address));
            assert(b.accounts.contains_key(address));
        },
        EntryView::StorageChange { address, key, .. } => {
            assert(a.overlay_of(address).only_loads(b.overlay_of(address)));
        },
        EntryView::StorageWarmed { address, key } => {
            assert(a.overlay_of(address).only_loads(b.overlay_of(address)));
        },
        EntryView::StorageWipe { .. } => {},
        EntryView::TransientStorageChange { .. } => {},
    }
    assert forall|o: Address| #[trigger] x.overlay_of(o).only_loads(y.overlay_of(o)) by {
        assert(a.overlay_of(o).only_loads(b.overlay_of(o)));
    }
    assert forall|o: Address| #[trigger]
        y.selfdestructs.contains(o) == if destructed.contains(o) {
            x.is_marked(o)
        } else {
            x.selfdestructs.contains(o)
        } by {
        assert(b.selfdestructs.contains(o) == if destructed.contains(o) {
            a.is_marked(o)
        } else {
            a.selfdestructs.contains(o)
        });
    }
}

/// Coming back twice is coming back.
proof fn lemma_comes_back_trans(
    a: TxView,
    b: TxView,
    c: TxView,
    first: Set<Address>,
    second: Set<Address>,
    first_grew: bool,
    second_grew: bool,
    eip161: bool,
)
    requires
        a.comes_back_as(b, first, first_grew, eip161),
        b.comes_back_as(c, second, second_grew, eip161),
    ensures
        a.comes_back_as(c, first.union(second), first_grew && second_grew, eip161),
{
    assert forall|address: Address| #[trigger]
        a.overlay_of(address).only_loads(c.overlay_of(address)) by {
        assert(a.overlay_of(address).only_loads(b.overlay_of(address)));
        assert(b.overlay_of(address).only_loads(c.overlay_of(address)));
    }
    assert forall|address: Address| #[trigger]
        c.accounts.contains_key(address) && !a.accounts.contains_key(
            address,
        ) implies is_clean_account(c.accounts[address], address, eip161) by {
        if b.accounts.contains_key(address) {
            assert(same_account(b.accounts[address], c.accounts[address], address, eip161));
        }
    }
    assert forall|address: Address| #[trigger]
        c.selfdestructs.contains(address) == if first.union(second).contains(address) {
            a.is_marked(address)
        } else {
            a.selfdestructs.contains(address)
        } by {
        assert(b.selfdestructs.contains(address) == if first.contains(address) {
            a.is_marked(address)
        } else {
            a.selfdestructs.contains(address)
        });
        assert(b.is_marked(address) == a.is_marked(address)) by {
            assert(a.accounts.contains_key(address) ==> b.accounts.contains_key(address));
        }
    }
    if first_grew && second_grew {
        assert forall|address: Address| #[trigger]
            c.accounts.contains_key(address) && !a.accounts.contains_key(address)
                && c.accounts[address].is_warm implies c.prewarm.addresses.contains(address) by {
            if b.accounts.contains_key(address) {
                assert(same_account(b.accounts[address], c.accounts[address], address, eip161));
            }
        }
    }
}

/// Layers of which one came back as the other do so without their last journal entries too.
proof fn lemma_pop_comes_back(
    a: TxView,
    b: TxView,
    destructed: Set<Address>,
    prewarm_grew: bool,
    eip161: bool,
)
    requires
        a.comes_back_as(b, destructed, prewarm_grew, eip161),
    ensures
        a.pop_entry().comes_back_as(b.pop_entry(), destructed, prewarm_grew, eip161),
{
    let (x, y) = (a.pop_entry(), b.pop_entry());
    assert forall|o: Address| #[trigger] x.overlay_of(o).only_loads(y.overlay_of(o)) by {
        assert(a.overlay_of(o).only_loads(b.overlay_of(o)));
    }
    assert forall|o: Address| #[trigger]
        y.selfdestructs.contains(o) == if destructed.contains(o) {
            x.is_marked(o)
        } else {
            x.selfdestructs.contains(o)
        } by {
        assert(b.selfdestructs.contains(o) == if destructed.contains(o) {
            a.is_marked(o)
        } else {
            a.selfdestructs.contains(o)
        });
    }
}

/// Unwinding a layer that came back as another leads to layers that do so too.
proof fn lemma_unwind_comes_back(
    a: TxView,
    b: TxView,
    len: nat,
    destructed: Set<Address>,
    prewarm_grew: bool,
    eip161: bool,
)
    requires
        a.comes_back_as(b, destructed, prewarm_grew, eip161),
        a.can_unwind(len, eip161),
    ensures
        b.can_unwind(len, eip161),
        a.unwound(len, eip161).comes_back_as(
            b.unwound(len, eip161),
            destructed,
            prewarm_grew,
            eip161,
        ),
    decreases a.journal.len(),
{
    if a.journal.len() > len {
        let entry = a.journal.last();
        let (x, y) = (a.pop_entry(), b.pop_entry());
        lemma_pop_comes_back(a, b, destructed, prewarm_grew, eip161);
        lemma_undo_comes_back(x, y, entry, destructed, prewarm_grew, eip161);
        lemma_unwind_comes_back(
            x.undo(entry, eip161),
            y.undo(entry, eip161),
            len,
            destructed,
            prewarm_grew,
            eip161,
        );
    }
}

/// What unwinding leaves alone.
pub proof fn law_unwinding_keeps_logs_and_prewarm(tx: TxView, len: nat, eip161: bool)
    ensures
        tx.unwound(len, eip161).logs == tx.logs,
        tx.unwound(len, eip161).prewarm == tx.prewarm,
        tx.unwound(len, eip161).journal == if tx.journal.len() <= len {
            tx.journal
        } else {
            tx.journal.take(len as int)
        },
        tx.transient_nonzero() ==> tx.unwound(len, eip161).transient_nonzero(),
    decreases tx.journal.len(),
{
    if tx.journal.len() > len {
        let next = tx.pop_entry().undo(tx.journal.last(), eip161);
        law_unwinding_keeps_logs_and_prewarm(next, len, eip161);
        if next.journal.len() <= len {
            assert(next.journal =~= tx.journal.take(len as int));
        } else {
            assert(next.journal.take(len as int) =~= tx.journal.take(len as int));
        }
    }
}

/// Unwinding in two stages is unwinding at once.
pub proof fn law_unwinding_in_stages(tx: TxView, middle: nat, len: nat, eip161: bool)
    requires
        len <= middle,
    ensures
        tx.unwound(middle, eip161).unwound(len, eip161) == tx.unwound(len, eip161),
    decreases tx.journal.len(),
{
    if tx.journal.len() > middle {
        let next = tx.pop_entry().undo(tx.journal.last(), eip161);
        law_unwinding_in_stages(next, middle, len, eip161);
    }
}

/// What can be unwound can be unwound in two stages.
proof fn lemma_can_unwind_in_stages(tx: TxView, middle: nat, len: nat, eip161: bool)
    requires
        len <= middle,
        tx.can_unwind(len, eip161),
    ensures
        tx.unwound(middle, eip161).can_unwind(len, eip161),
    decreases tx.journal.len(),
{
    if tx.journal.len() > middle {
        let next = tx.pop_entry().undo(tx.journal.last(), eip161);
        lemma_can_unwind_in_stages(next, middle, len, eip161);
    }
}

// --- steps can be undone ---

impl TxView {
    /// Whether unwinding `later` leads back to this layer.
    spec fn leads_back(
        self,
        later: Self,
        destructed: Set<Address>,
        prewarm_grew: bool,
        eip161: bool,
    ) -> bool {
        &&& later.transient_nonzero()
        &&& self.journal.len() <= later.journal.len()
        &&& self.logs.len() <= later.logs.len()
        &&& later.logs.take(self.logs.len() as int) == self.logs
        &&& later.can_unwind(self.journal.len(), eip161)
        &&& self.comes_back_as(
            later.unwound(self.journal.len(), eip161),
            destructed,
            prewarm_grew,
            eip161,
        )
    }

    /// The layer with the last journal entry undone, where it has more than `len` of them.
    spec fn unwound_once(self, len: nat, eip161: bool) -> Self {
        if self.journal.len() <= len {
            self
        } else {
            self.pop_entry().undo(self.journal.last(), eip161)
        }
    }

    /// Whether a step from this layer to `after` added at most one journal entry, and undoing that
    /// comes back.
    spec fn is_undone(
        self,
        after: Self,
        destructed: Set<Address>,
        prewarm_grew: bool,
        eip161: bool,
    ) -> bool {
        &&& after.transient_nonzero()
        &&& after.journal == self.journal || (after.journal.len() > 0
            && after.journal.drop_last() == self.journal && after.pop_entry().has_subject(
            after.journal.last(),
        ))
        &&& self.comes_back_as(
            after.unwound_once(self.journal.len(), eip161),
            destructed,
            prewarm_grew,
            eip161,
        )
    }
}

/// After a step that undoing comes back from, unwinding still leads back.
proof fn lemma_undone_leads_back(
    start: TxView,
    before: TxView,
    after: TxView,
    first: Set<Address>,
    second: Set<Address>,
    first_grew: bool,
    second_grew: bool,
    eip161: bool,
)
    requires
        start.leads_back(before, first, first_grew, eip161),
        before.is_undone(after, second, second_grew, eip161),
        start.logs.len() <= after.logs.len(),
        after.logs.take(start.logs.len() as int) == start.logs,
    ensures
        start.leads_back(after, first.union(second), first_grew && second_grew, eip161),
{
    let len = start.journal.len();
    let undone = after.unwound_once(before.journal.len(), eip161);
    lemma_unwind_comes_back(before, undone, len, second, second_grew, eip161);
    lemma_comes_back_trans(
        start,
        before.unwound(len, eip161),
        undone.unwound(len, eip161),
        first,
        second,
        first_grew,
        second_grew,
        eip161,
    );
    assert(after.unwound(len, eip161) == undone.unwound(len, eip161));
}

/// A change of an account is undone.
proof fn lemma_account_undone(
    before: TxView,
    address: Address,
    account: Account,
    destructs: bool,
    eip161: bool,
)
    requires
        before.transient_nonzero(),
        before.accounts.contains_key(address),
        account.original == before.accounts[address].original,
        destructs ==> account.is_destroyed,
        !destructs ==> account.is_destroyed == before.accounts[address].is_destroyed,
    ensures
        ({
            let changed = before.change_account(address, false, account);
            let after = TxView {
                selfdestructs: if destructs {
                    changed.selfdestructs.insert(address)
                } else {
                    changed.selfdestructs
                },
                ..changed
            };
            let marked = if destructs {
                set![address]
            } else {
                Set::empty()
            };
            before.is_undone(after, marked, true, eip161)
        }),
{
    let changed = before.change_account(address, false, account);
    let after = TxView {
        selfdestructs: if destructs {
            changed.selfdestructs.insert(address)
        } else {
            changed.selfdestructs
        },
        ..changed
    };
    let undone = after.unwound_once(before.journal.len(), eip161);
    assert(after.journal.drop_last() =~= before.journal);
    assert forall|o: Address| #[trigger] before.overlay_of(o).only_loads(undone.overlay_of(o)) by {}
}

/// Every step but a rollback is undone.
proof fn lemma_step_undone(start: TxView, before: TxView, step: Step, eip161: bool)
    requires
        before.transient_nonzero(),
        before.allows(start, step),
        !(step is RollBack),
    ensures
        before.is_undone(
            before.step(step, eip161),
            step.destructs(),
            step.grows_prewarm(before.prewarm),
            eip161,
        ),
{
    let after = before.step(step, eip161);
    let undone = after.unwound_once(before.journal.len(), eip161);
    match step {
        Step::Account { address, account } => {
            lemma_account_undone(before, address, account, false, eip161);
        },
        Step::Destruct { address, account } => {
            lemma_account_undone(before, address, account, true, eip161);
        },
        Step::WriteSlot { address, key, value } => {
            if after.journal != before.journal {
                assert(after.journal.drop_last() =~= before.journal);
                assert(undone.storage[address].slots =~= before.storage[address].slots);
                assert(undone.storage =~= before.storage);
            }
        },
        Step::WarmSlot { address, key } => {
            if after.journal != before.journal {
                assert(after.journal.drop_last() =~= before.journal);
                assert(undone.storage[address].slots =~= before.storage[address].slots);
                assert(undone.storage =~= before.storage);
            }
        },
        Step::WipeStorage { address } => {
            assert(after.journal.drop_last() =~= before.journal);
            assert(undone.storage =~= before.storage);
        },
        Step::StoreTransient { address, key, value } => {
            if before.transient_value(address, key) != value {
                assert(after.journal.drop_last() =~= before.journal);
                assert(undone.transient =~= before.transient);
            }
        },
        _ => {},
    }
    assert forall|o: Address| #[trigger] before.overlay_of(o).only_loads(undone.overlay_of(o)) by {}
}

/// A layer with other logs is undone by nothing.
proof fn lemma_logs_undone(before: TxView, logs: Seq<Log>, eip161: bool)
    requires
        before.transient_nonzero(),
    ensures
        before.is_undone(TxView { logs, ..before }, Set::empty(), true, eip161),
{
    let after = TxView { logs, ..before };
    assert forall|o: Address| #[trigger] before.overlay_of(o).only_loads(after.overlay_of(o)) by {}
}

/// After any step that can happen, unwinding still leads back.
proof fn lemma_step_leads_back(
    start: TxView,
    before: TxView,
    step: Step,
    destructed: Set<Address>,
    prewarm_grew: bool,
    eip161: bool,
)
    requires
        start.leads_back(before, destructed, prewarm_grew, eip161),
        before.allows(start, step),
    ensures
        start.leads_back(
            before.step(step, eip161),
            destructed.union(step.destructs()),
            prewarm_grew && step.grows_prewarm(before.prewarm),
            eip161,
        ),
{
    let len = start.logs.len() as int;
    match step {
        Step::RollBack { journal_len, logs_len } => {
            let cut = TxView {
                logs: if logs_len < before.logs.len() {
                    before.logs.take(logs_len as int)
                } else {
                    before.logs
                },
                ..before
            };
            assert(cut.logs.take(len) =~= before.logs.take(len));
            lemma_logs_undone(before, cut.logs, eip161);
            lemma_undone_leads_back(
                start,
                before,
                cut,
                destructed,
                Set::empty(),
                prewarm_grew,
                true,
                eip161,
            );
            law_unwinding_keeps_logs_and_prewarm(cut, journal_len, eip161);
            law_unwinding_in_stages(cut, journal_len, start.journal.len(), eip161);
            lemma_can_unwind_in_stages(cut, journal_len, start.journal.len(), eip161);
        },
        _ => {
            let after = before.step(step, eip161);
            lemma_step_undone(start, before, step, eip161);
            assert(after.logs.take(len) =~= before.logs.take(len));
            lemma_undone_leads_back(
                start,
                before,
                after,
                destructed,
                step.destructs(),
                prewarm_grew,
                step.grows_prewarm(before.prewarm),
                eip161,
            );
        },
    }
}

/// A layer leads back to itself.
proof fn lemma_leads_back_refl(start: TxView, eip161: bool)
    requires
        start.transient_nonzero(),
    ensures
        start.leads_back(start, Set::empty(), true, eip161),
{
    assert(start.logs.take(start.logs.len() as int) =~= start.logs);
}

/// After more steps of a transaction that started later, unwinding still leads back.
proof fn lemma_run_leads_back(
    start: TxView,
    middle: TxView,
    steps: Seq<Step>,
    before: Set<Address>,
    prewarm_grew: bool,
    eip161: bool,
)
    requires
        start.leads_back(middle, before, prewarm_grew, eip161),
        middle.can_run(steps, eip161),
    ensures
        start.leads_back(
            middle.run(steps, eip161),
            before.union(destructed(steps)),
            prewarm_grew && middle.grows_prewarm(steps, eip161),
            eip161,
        ),
    decreases steps.len(),
{
    if steps.len() == 0 {
        assert(before.union(destructed(steps)) =~= before);
    } else {
        let rest = steps.drop_last();
        lemma_run_leads_back(start, middle, rest, before, prewarm_grew, eip161);
        lemma_step_leads_back(
            start,
            middle.run(rest, eip161),
            steps.last(),
            before.union(destructed(rest)),
            prewarm_grew && middle.grows_prewarm(rest, eip161),
            eip161,
        );
        assert(before.union(destructed(rest)).union(steps.last().destructs()) =~= before.union(
            destructed(steps),
        ));
    }
}

/// Rolling back to the start where unwinding leads back to it.
proof fn lemma_roll_back_to_start(
    start: TxView,
    end: TxView,
    destructed: Set<Address>,
    prewarm_grew: bool,
    eip161: bool,
)
    requires
        start.leads_back(end, destructed, prewarm_grew, eip161),
    ensures
        ({
            let rolled = end.rolled_back(start.journal.len(), start.logs.len(), eip161);
            &&& start.comes_back_as(rolled, destructed, prewarm_grew, eip161)
            &&& rolled.logs == start.logs
        }),
{
    let back = Step::RollBack { journal_len: start.journal.len(), logs_len: start.logs.len() };
    lemma_step_leads_back(start, end, back, destructed, prewarm_grew, eip161);
    assert(destructed.union(back.destructs()) =~= destructed);
    let rolled = end.step(back, eip161);
    let cut = TxView {
        logs: if start.logs.len() < end.logs.len() {
            end.logs.take(start.logs.len() as int)
        } else {
            end.logs
        },
        ..end
    };
    law_unwinding_keeps_logs_and_prewarm(cut, start.journal.len(), eip161);
    assert(rolled.logs =~= start.logs);
    assert(rolled.unwound(start.journal.len(), eip161) == rolled);
}

/// A rollback undoes every step since the checkpoint: the logs, the journal, transient storage and
/// every account and slot loaded before are as they were. What was loaded since stays loaded and
/// unchanged; the pre-warmed set stays as it is, and where it only grew, what was loaded since is
/// cold unless it is pre-warmed. Under EIP-161 one precompiled contract keeps its touch.
///
/// The self-destructs on record are as they were too, where they were those of the marked accounts.
/// Where they were not, an account that a step since marked is on record if and only if it was
/// marked at the checkpoint, and every other account is on record as it was.
pub proof fn law_rollback_undoes_all_steps(start: TxView, steps: Seq<Step>, eip161: bool)
    requires
        start.transient_nonzero(),
        start.can_run(steps, eip161),
    ensures
        ({
            let end = start.run(steps, eip161);
            let rolled = end.rolled_back(start.journal.len(), start.logs.len(), eip161);
            &&& start.comes_back_as(
                rolled,
                destructed(steps),
                start.grows_prewarm(steps, eip161),
                eip161,
            )
            &&& rolled.logs == start.logs
            &&& rolled.prewarm == end.prewarm
            &&& start.selfdestructs_match() ==> rolled.selfdestructs == start.selfdestructs
        }),
{
    let end = start.run(steps, eip161);
    let none = Set::<Address>::empty();
    lemma_leads_back_refl(start, eip161);
    lemma_run_leads_back(start, start, steps, none, true, eip161);
    assert(none.union(destructed(steps)) =~= destructed(steps));
    let grew = start.grows_prewarm(steps, eip161);
    lemma_roll_back_to_start(start, end, destructed(steps), grew, eip161);
    let cut = TxView {
        logs: if start.logs.len() < end.logs.len() {
            end.logs.take(start.logs.len() as int)
        } else {
            end.logs
        },
        ..end
    };
    law_unwinding_keeps_logs_and_prewarm(cut, start.journal.len(), eip161);
    let rolled = end.rolled_back(start.journal.len(), start.logs.len(), eip161);
    if start.selfdestructs_match() {
        law_matching_selfdestructs_come_back(start, rolled, destructed(steps), grew, eip161);
    }
}

/// Self-destructs on record that were those of the marked accounts come back as they were, whatever
/// was marked since.
pub proof fn law_matching_selfdestructs_come_back(
    start: TxView,
    rolled: TxView,
    destructed: Set<Address>,
    prewarm_grew: bool,
    eip161: bool,
)
    requires
        start.comes_back_as(rolled, destructed, prewarm_grew, eip161),
        start.selfdestructs_match(),
    ensures
        rolled.selfdestructs == start.selfdestructs,
{
    assert forall|address: Address|
        rolled.selfdestructs.contains(address) == start.selfdestructs.contains(address) by {
        assert(start.selfdestructs.contains(address) <==> start.is_marked(address));
    }
    assert(rolled.selfdestructs =~= start.selfdestructs);
}

/// A rollback also goes back through a point at which the logs were replaced, as long as those from
/// before the checkpoint were kept.
pub proof fn law_rollback_goes_through_replaced_logs(
    start: TxView,
    first: Seq<Step>,
    logs: Seq<Log>,
    second: Seq<Step>,
    eip161: bool,
)
    requires
        start.transient_nonzero(),
        start.can_run(first, eip161),
        start.logs.len() <= logs.len(),
        logs.take(start.logs.len() as int) == start.logs,
        (TxView { logs, ..start.run(first, eip161) }).can_run(second, eip161),
    ensures
        ({
            let middle = TxView { logs, ..start.run(first, eip161) };
            let rolled = middle.run(second, eip161).rolled_back(
                start.journal.len(),
                start.logs.len(),
                eip161,
            );
            &&& start.comes_back_as(
                rolled,
                destructed(first).union(destructed(second)),
                start.grows_prewarm(first, eip161) && middle.grows_prewarm(second, eip161),
                eip161,
            )
            &&& rolled.logs == start.logs
        }),
{
    let captured = start.run(first, eip161);
    let middle = TxView { logs, ..captured };
    let none = Set::<Address>::empty();
    let grew = start.grows_prewarm(first, eip161);
    lemma_leads_back_refl(start, eip161);
    lemma_run_leads_back(start, start, first, none, true, eip161);
    assert(none.union(destructed(first)) =~= destructed(first));
    lemma_logs_undone(captured, logs, eip161);
    lemma_undone_leads_back(
        start,
        captured,
        middle,
        destructed(first),
        none,
        grew,
        true,
        eip161,
    );
    assert(destructed(first).union(none) =~= destructed(first));
    lemma_run_leads_back(start, middle, second, destructed(first), grew, eip161);
    lemma_roll_back_to_start(
        start,
        middle.run(second, eip161),
        destructed(first).union(destructed(second)),
        grew && middle.grows_prewarm(second, eip161),
        eip161,
    );
}

// --- self-destructs ---

impl TxView {
    /// Whether the self-destructs on record are those of the accounts that are marked.
    pub open spec fn selfdestructs_match(self) -> bool {
        forall|address: Address| #[trigger]
            self.selfdestructs.contains(address) <==> self.is_marked(address)
    }

    /// Whether, among `accounts`, the self-destructs on record are those of the accounts that are
    /// marked.
    pub open spec fn selfdestructs_match_among(self, accounts: Set<Address>) -> bool {
        forall|address: Address| #[trigger]
            accounts.contains(address) ==> self.selfdestructs.contains(address) == self.is_marked(
                address,
            )
    }
}

/// Unwinding keeps the self-destructs on record those of the marked accounts.
proof fn lemma_unwinding_matches(tx: TxView, len: nat, eip161: bool)
    requires
        tx.selfdestructs_match(),
        tx.can_unwind(len, eip161),
    ensures
        tx.unwound(len, eip161).selfdestructs_match(),
    decreases tx.journal.len(),
{
    if tx.journal.len() > len {
        let before = tx.pop_entry();
        let after = before.undo(tx.journal.last(), eip161);
        assert forall|address: Address| #[trigger]
            after.selfdestructs.contains(address) <==> after.is_marked(address) by {
            assert(tx.selfdestructs.contains(address) <==> tx.is_marked(address));
        }
        lemma_unwinding_matches(after, len, eip161);
    }
}

/// While a transaction runs, rollbacks included, the self-destructs on record are those of the
/// accounts that are marked.
pub proof fn law_selfdestructs_match_marks(start: TxView, steps: Seq<Step>, eip161: bool)
    requires
        start.transient_nonzero(),
        start.selfdestructs_match(),
        start.can_run(steps, eip161),
    ensures
        start.run(steps, eip161).selfdestructs_match(),
    decreases steps.len(),
{
    if steps.len() > 0 {
        let before = start.run(steps.drop_last(), eip161);
        let after = before.step(steps.last(), eip161);
        law_selfdestructs_match_marks(start, steps.drop_last(), eip161);
        match steps.last() {
            Step::RollBack { journal_len, logs_len } => {
                let none = Set::<Address>::empty();
                lemma_leads_back_refl(start, eip161);
                lemma_run_leads_back(start, start, steps.drop_last(), none, true, eip161);
                let cut = TxView {
                    logs: if logs_len < before.logs.len() {
                        before.logs.take(logs_len as int)
                    } else {
                        before.logs
                    },
                    ..before
                };
                lemma_logs_undone(before, cut.logs, eip161);
                lemma_unwind_comes_back(before, cut, start.journal.len(), none, true, eip161);
                lemma_can_unwind_less(cut, journal_len, start.journal.len(), eip161);
                lemma_unwinding_matches(cut, journal_len, eip161);
            },
            _ => {
                assert forall|address: Address| #[trigger]
                    after.selfdestructs.contains(address) <==> after.is_marked(address) by {
                    assert(before.selfdestructs.contains(address) <==> before.is_marked(address));
                }
            },
        }
    }
}

/// What can be unwound can be unwound less far.
proof fn lemma_can_unwind_less(tx: TxView, middle: nat, len: nat, eip161: bool)
    requires
        len <= middle,
        tx.can_unwind(len, eip161),
    ensures
        tx.can_unwind(middle, eip161),
    decreases tx.journal.len(),
{
    if tx.journal.len() > middle {
        lemma_can_unwind_less(
            tx.pop_entry().undo(tx.journal.last(), eip161),
            middle,
            len,
            eip161,
        );
    }
}

// --- reads ---

impl TxView {
    /// Whether everything loaded since is what the database answers: accounts and slots that `later`
    /// has and this layer has not. A slot of storage that is wiped here is zero.
    pub open spec fn loads_from(self, later: Self, db: CacheDbView) -> bool {
        &&& forall|address: Address| #[trigger]
            later.accounts.contains_key(address) && !self.accounts.contains_key(address)
                ==> db.answers_account(address, Ok(later.accounts[address].original))
        &&& forall|address: Address, key: Word| #[trigger]
            later.has_slot(address, key) && !self.has_slot(address, key)
                ==> if self.overlay_of(address).wiped {
                later.slot(address, key).value.original == FixedBytes::<32>::spec_zero()
            } else {
                db.answers_storage(address, key, Ok(later.slot(address, key).value.original))
            }
    }

    /// Whether the steps load what the database answers.
    pub open spec fn runs_on(self, steps: Seq<Step>, db: CacheDbView, eip161: bool) -> bool
        decreases steps.len(),
    {
        steps.len() == 0 || {
            &&& self.runs_on(steps.drop_last(), db, eip161)
            &&& steps.last().is_answered(self.run(steps.drop_last(), eip161), db)
        }
    }
}

impl Step {
    /// Whether the step loads what the database answers, where it has to ask.
    pub open spec fn is_answered(self, tx: TxView, db: CacheDbView) -> bool {
        match self {
            Step::LoadAccount { address, info } => tx.accounts.contains_key(address)
                || db.answers_account(address, Ok(info)),
            Step::LoadSlot { address, key, value } => !tx.slot_needs_read(address, key)
                || db.answers_storage(address, key, Ok(value)),
            _ => true,
        }
    }
}

/// Undoing an entry leaves alone what was loaded since.
proof fn lemma_undo_keeps_answers(
    a: TxView,
    b: TxView,
    entry: EntryView,
    db: CacheDbView,
    eip161: bool,
)
    requires
        a.only_loads(b, eip161),
        a.has_subject(entry),
        a.loads_from(b, db),
    ensures
        a.undo(entry, eip161).loads_from(b.undo(entry, eip161), db),
{
    let (x, y) = (a.undo(entry, eip161), b.undo(entry, eip161));
    assert forall|address: Address| #[trigger]
        y.accounts.contains_key(address) && !x.accounts.contains_key(
            address,
        ) implies db.answers_account(address, Ok(y.accounts[address].original)) by {
        assert(b.accounts.contains_key(address) && !a.accounts.contains_key(address));
    }
    assert forall|address: Address, key: Word| #[trigger]
        y.has_slot(address, key) && !x.has_slot(address, key) implies if x.overlay_of(
        address,
    ).wiped {
        y.slot(address, key).value.original == FixedBytes::<32>::spec_zero()
    } else {
        db.answers_storage(address, key, Ok(y.slot(address, key).value.original))
    } by {
        assert(b.has_slot(address, key) && !a.has_slot(address, key));
    }
}

/// What was loaded in two stretches from the database was loaded from it.
proof fn lemma_answers_trans(a: TxView, b: TxView, c: TxView, db: CacheDbView, eip161: bool)
    requires
        a.only_loads(b, eip161),
        b.only_loads(c, eip161),
        a.loads_from(b, db),
        b.loads_from(c, db),
    ensures
        a.loads_from(c, db),
{
    assert forall|address: Address| #[trigger]
        c.accounts.contains_key(address) && !a.accounts.contains_key(
            address,
        ) implies db.answers_account(address, Ok(c.accounts[address].original)) by {
        if b.accounts.contains_key(address) {
            assert(same_account(b.accounts[address], c.accounts[address], address, eip161));
        }
    }
    assert forall|address: Address, key: Word| #[trigger]
        c.has_slot(address, key) && !a.has_slot(address, key) implies if a.overlay_of(
        address,
    ).wiped {
        c.slot(address, key).value.original == FixedBytes::<32>::spec_zero()
    } else {
        db.answers_storage(address, key, Ok(c.slot(address, key).value.original))
    } by {
        assert(a.overlay_of(address).only_loads(b.overlay_of(address)));
        assert(b.overlay_of(address).only_loads(c.overlay_of(address)));
        if b.has_slot(address, key) {
            assert(b.overlay_of(address).slots.contains_key(key));
        }
    }
}

/// Unwinding leaves alone what was loaded since.
proof fn lemma_unwind_keeps_answers(
    a: TxView,
    b: TxView,
    len: nat,
    destructed: Set<Address>,
    prewarm_grew: bool,
    db: CacheDbView,
    eip161: bool,
)
    requires
        a.comes_back_as(b, destructed, prewarm_grew, eip161),
        a.can_unwind(len, eip161),
        a.loads_from(b, db),
    ensures
        a.unwound(len, eip161).loads_from(b.unwound(len, eip161), db),
    decreases a.journal.len(),
{
    if a.journal.len() > len {
        let entry = a.journal.last();
        let (x, y) = (a.pop_entry(), b.pop_entry());
        lemma_pop_comes_back(a, b, destructed, prewarm_grew, eip161);
        assert(x.loads_from(y, db)) by {
            assert forall|address: Address, key: Word| #[trigger]
                y.has_slot(address, key) && !x.has_slot(address, key) implies b.has_slot(
                address,
                key,
            ) && !a.has_slot(address, key) && x.overlay_of(address) == a.overlay_of(address) by {}
        }
        lemma_undo_comes_back(x, y, entry, destructed, prewarm_grew, eip161);
        lemma_undo_keeps_answers(x, y, entry, db, eip161);
        lemma_unwind_keeps_answers(
            x.undo(entry, eip161),
            y.undo(entry, eip161),
            len,
            destructed,
            prewarm_grew,
            db,
            eip161,
        );
    }
}

/// A step that loads what the database answers leaves nothing else behind once it is undone.
proof fn lemma_step_answered(start: TxView, before: TxView, step: Step, db: CacheDbView, eip161: bool)
    requires
        before.transient_nonzero(),
        before.allows(start, step),
        !(step is RollBack),
        step.is_answered(before, db),
    ensures
        before.loads_from(
            before.step(step, eip161).unwound_once(before.journal.len(), eip161),
            db,
        ),
{
}

/// After steps that load what the database answers, unwinding leads to a layer in which everything
/// loaded since is from there.
proof fn lemma_run_keeps_answers(start: TxView, steps: Seq<Step>, db: CacheDbView, eip161: bool)
    requires
        start.transient_nonzero(),
        start.can_run(steps, eip161),
        start.runs_on(steps, db, eip161),
    ensures
        start.loads_from(start.run(steps, eip161).unwound(start.journal.len(), eip161), db),
    decreases steps.len(),
{
    if steps.len() > 0 {
        let rest = steps.drop_last();
        let step = steps.last();
        let before = start.run(rest, eip161);
        let after = before.step(step, eip161);
        let len = start.journal.len();
        let none = Set::<Address>::empty();
        lemma_run_keeps_answers(start, rest, db, eip161);
        lemma_leads_back_refl(start, eip161);
        lemma_run_leads_back(start, start, rest, none, true, eip161);
        match step {
            Step::RollBack { journal_len, logs_len } => {
                let cut = TxView {
                    logs: if logs_len < before.logs.len() {
                        before.logs.take(logs_len as int)
                    } else {
                        before.logs
                    },
                    ..before
                };
                lemma_logs_undone(before, cut.logs, eip161);
                lemma_unwind_comes_back(before, cut, len, none, true, eip161);
                lemma_unwind_keeps_answers(before, cut, len, none, true, db, eip161);
                lemma_answers_trans(
                    start,
                    before.unwound(len, eip161),
                    cut.unwound(len, eip161),
                    db,
                    eip161,
                );
                law_unwinding_in_stages(cut, journal_len, len, eip161);
            },
            _ => {
                let undone = after.unwound_once(before.journal.len(), eip161);
                let (marked, grew) = (step.destructs(), step.grows_prewarm(before.prewarm));
                lemma_step_undone(start, before, step, eip161);
                lemma_step_answered(start, before, step, db, eip161);
                lemma_unwind_comes_back(before, undone, len, marked, grew, eip161);
                lemma_unwind_keeps_answers(before, undone, len, marked, grew, db, eip161);
                lemma_answers_trans(
                    start,
                    before.unwound(len, eip161),
                    undone.unwound(len, eip161),
                    db,
                    eip161,
                );
                assert(after.unwound(len, eip161) == undone.unwound(len, eip161));
            },
        }
    }
}

/// After a rollback a state is to its users what it was at the checkpoint, where the steps since
/// loaded what the database answers.
///
/// Every account and slot reads as it could have read, and exactly so where the database has one
/// answer only. Transient slots, the journal and the logs are as they were. So are the marks of
/// accounts: created, self-destructed, of new code and, but for the one that keeps its touch under
/// EIP-161, touched. So is the warmth of accesses, where the pre-warmed set only grew and is as it
/// was. So are the self-destructs on record, unless the steps marked an account on record without a
/// mark, or one with a mark that was not on record.
pub proof fn law_rollback_brings_back_everything(
    start: StateView,
    steps: Seq<Step>,
    eip161: bool,
    address: Address,
    key: Word,
    account: DbResult<Option<AccountInfo>>,
    slot: DbResult<Word>,
)
    requires
        start.tx.transient_nonzero(),
        start.tx.can_run(steps, eip161),
        start.tx.runs_on(steps, start.db, eip161),
    ensures
        ({
            let rolled = start.with_tx(
                start.tx.run(steps, eip161).rolled_back(
                    start.tx.journal.len(),
                    start.tx.logs.len(),
                    eip161,
                ),
            );
            &&& rolled.reads_account(address, account) ==> start.reads_account(address, account)
            &&& rolled.reads_slot(address, key, slot) ==> start.reads_slot(address, key, slot)
            &&& start.db.answers_account_once(address) ==> rolled.reads_account(address, account)
                == start.reads_account(address, account)
            &&& start.db.answers_storage_once(address, key) ==> rolled.reads_slot(
                address,
                key,
                slot,
            ) == start.reads_slot(address, key, slot)
            &&& rolled.tx.transient_value(address, key) == start.tx.transient_value(address, key)
            &&& rolled.tx.journal == start.tx.journal
            &&& rolled.tx.logs == start.tx.logs
            &&& rolled.tx.is_marked(address) == start.tx.is_marked(address)
            &&& rolled.tx.is_created(address) == start.tx.is_created(address)
            &&& rolled.tx.has_new_code(address) == start.tx.has_new_code(address)
            &&& !(eip161 && is_touch_keeper(address)) ==> rolled.tx.touched().contains(address)
                == start.tx.touched().contains(address)
            &&& start.tx.grows_prewarm(steps, eip161) && start.tx.run(steps, eip161).prewarm
                == start.tx.prewarm ==> {
                &&& rolled.tx.account_is_warm(address) == start.tx.account_is_warm(address)
                &&& rolled.tx.slot_is_warm(address, key) == start.tx.slot_is_warm(address, key)
            }
            &&& rolled.tx.selfdestructs == start.tx.selfdestructs
                <==> start.tx.selfdestructs_match_among(destructed(steps))
        }),
{
    let tx = start.tx;
    let (journal_len, logs_len) = (tx.journal.len(), tx.logs.len());
    let end = tx.run(steps, eip161);
    let none = Set::<Address>::empty();
    lemma_run_keeps_answers(tx, steps, start.db, eip161);
    lemma_leads_back_refl(tx, eip161);
    lemma_run_leads_back(tx, tx, steps, none, true, eip161);
    let cut = TxView {
        logs: if logs_len < end.logs.len() {
            end.logs.take(logs_len as int)
        } else {
            end.logs
        },
        ..end
    };
    lemma_logs_undone(end, cut.logs, eip161);
    lemma_unwind_comes_back(end, cut, journal_len, none, true, eip161);
    lemma_unwind_keeps_answers(end, cut, journal_len, none, true, start.db, eip161);
    lemma_answers_trans(
        tx,
        end.unwound(journal_len, eip161),
        cut.unwound(journal_len, eip161),
        start.db,
        eip161,
    );
    law_rollback_undoes_all_steps(tx, steps, eip161);
    let rolled = end.rolled_back(journal_len, logs_len, eip161);
    assert(rolled == cut.unwound(journal_len, eip161));
    assert(tx.only_loads(rolled, eip161) && tx.loads_from(rolled, start.db));
    assert(tx.overlay_of(address).only_loads(rolled.overlay_of(address)));
    if tx.has_slot(address, key) {
        assert(tx.overlay_of(address).slots.contains_key(key));
    } else if rolled.has_slot(address, key) {
        assert(rolled.overlay_of(address).slots.contains_key(key));
        assert(is_clean_slot(rolled.slot(address, key)));
    }
    let marked = destructed(steps);
    if tx.selfdestructs_match_among(marked) {
        assert forall|a: Address|
            rolled.selfdestructs.contains(a) == tx.selfdestructs.contains(a) by {
            assert(marked.contains(a) ==> tx.selfdestructs.contains(a) == tx.is_marked(a));
        }
        assert(rolled.selfdestructs =~= tx.selfdestructs);
    }
    if rolled.selfdestructs == tx.selfdestructs {
        assert forall|a: Address| #[trigger] marked.contains(a) implies tx.selfdestructs.contains(a)
            == tx.is_marked(a) by {
            assert(rolled.selfdestructs.contains(a) == tx.is_marked(a));
        }
    }
}

} // verus!
