//! The rules on the lifetime of accounts that apply at the end of a transaction.
use vstd::prelude::*;

use crate::account::Account;
use crate::db::{Database, DbResult};
use crate::features::{EvmFeature, Version};
use crate::fixed::Address;
use crate::info::AccountInfo;
use crate::map::{enumerates, AddressSet};
use crate::model::TxView;
use crate::state::{State, StateView};

verus! {

impl Account {
    /// Whether the account exists and is dead in the sense of EIP-161.
    pub open spec fn is_existing_dead(self) -> bool {
        self.present is Some && self.contents().spec_is_dead()
    }

    /// The account struck out at the end of a transaction: deleted, unless it keeps a balance.
    pub open spec fn struck(self, keeps_balance: bool) -> Self {
        if keeps_balance && self.contents().balance.value() != 0 {
            self.reduced_to_balance()
        } else {
            self.deleted()
        }
    }

    /// The account created as empty, where it neither exists nor did before the transaction.
    pub open spec fn materialized(self) -> Self {
        if self.original is None && self.present is None {
            Account { present: Some(AccountInfo::spec_default()), just_created: true, ..self }
        } else {
            self
        }
    }
}

impl TxView {
    /// The layer once the accounts in `order` are loaded; `found` is what the database holds.
    pub open spec fn load_all(self, order: Seq<Address>, found: Map<Address, Option<AccountInfo>>) -> Self {
        TxView {
            accounts: Map::new(
                |a: Address| self.accounts.contains_key(a) || order.contains(a),
                |a: Address|
                    if self.accounts.contains_key(a) {
                        self.accounts[a]
                    } else {
                        Account::spec_loaded(found[a], self.prewarm.addresses.contains(a))
                    },
            ),
            ..self
        }
    }

    /// The layer once the loaded accounts in `order` were struck out and their storage wiped.
    pub open spec fn strike_all(self, order: Seq<Address>, keeps_balance: bool) -> Self {
        TxView {
            accounts: Map::new(
                |a: Address| self.accounts.contains_key(a),
                |a: Address|
                    if order.contains(a) {
                        self.accounts[a].struck(keeps_balance)
                    } else {
                        self.accounts[a]
                    },
            ),
            storage: Map::new(
                |a: Address| self.storage.contains_key(a) || order.contains(a),
                |a: Address|
                    if order.contains(a) {
                        self.open_overlay(a).storage[a].wipe()
                    } else {
                        self.storage[a]
                    },
            ),
            journal: self.journal + order.map_values(|a: Address| self.account_entry(a)),
            ..self
        }
    }

    /// The accounts that the transaction touched.
    pub open spec fn touched(self) -> Set<Address> {
        Set::new(|a: Address| self.accounts.contains_key(a) && self.accounts[a].is_touched)
    }

    /// Those of `touched` that exist and are dead.
    pub open spec fn dead_among(self, touched: Set<Address>) -> Set<Address> {
        Set::new(|a: Address| touched.contains(a) && self.accounts[a].is_existing_dead())
    }

    /// The layer with the accounts in `created` created as empty where they do not exist.
    pub open spec fn materialize_all(self, created: Set<Address>) -> Self {
        TxView {
            accounts: Map::new(
                |a: Address| self.accounts.contains_key(a),
                |a: Address|
                    if created.contains(a) {
                        self.accounts[a].materialized()
                    } else {
                        self.accounts[a]
                    },
            ),
            ..self
        }
    }

    /// The layer with the touch of the accounts in `touched` cleared.
    pub open spec fn untouch_all(self, touched: Set<Address>) -> Self {
        TxView {
            accounts: Map::new(
                |a: Address| self.accounts.contains_key(a),
                |a: Address|
                    if touched.contains(a) {
                        Account { is_touched: false, ..self.accounts[a] }
                    } else {
                        self.accounts[a]
                    },
            ),
            ..self
        }
    }

    /// The layer at the end of a transaction, with the touches cleared and the self-destructed
    /// accounts on record.
    pub open spec fn settled(self, touched: Set<Address>, selfdestructs: Set<Address>) -> Self {
        TxView { selfdestructs, ..self.untouch_all(touched) }
    }
}

impl StateView {
    /// Whether `found` may be what loading the accounts in `order` finds.
    pub open spec fn finds_all(
        self,
        order: Seq<Address>,
        found: Map<Address, Option<AccountInfo>>,
    ) -> bool {
        forall|i: int|
            0 <= i < order.len() ==> self.finds_account(#[trigger] order[i], found[order[i]])
    }

    /// The transaction layer once the self-destructed accounts in `order` are dealt with: each is
    /// deleted, under EIP-8246 reduced to its balance where it has one, and its storage is wiped.
    pub open spec fn destroy_all(
        self,
        order: Seq<Address>,
        found: Map<Address, Option<AccountInfo>>,
        eip8246: bool,
    ) -> TxView {
        TxView { selfdestructs: Set::empty(), ..self.tx }.load_all(order, found).strike_all(
            order,
            eip8246,
        )
    }

    /// Whether `after` may be the state at the end of a transaction whose layer is `destroyed` once
    /// its self-destructed accounts are dealt with.
    pub open spec fn settles(self, destroyed: TxView, eip161: bool, after: Self) -> bool {
        if eip161 {
            exists|dead: Seq<Address>| #[trigger]
                enumerates(dead, destroyed.dead_among(self.tx.touched())) && after == self.with_tx(
                    destroyed.strike_all(dead, false).settled(
                        self.tx.touched(),
                        self.tx.selfdestructs,
                    ),
                )
        } else {
            after == self.with_tx(
                destroyed.materialize_all(
                    self.tx.touched().difference(self.tx.selfdestructs),
                ).settled(self.tx.touched(), self.tx.selfdestructs),
            )
        }
    }

    /// Whether `r` and `after` may be the outcome of ending a transaction.
    ///
    /// Self-destructed accounts come first. Then under EIP-161 touched dead accounts are deleted
    /// and their storage is wiped; before EIP-161 touched accounts that never existed are created as
    /// empty. Last, the touches are cleared. The order within each step is free. A failed read of a
    /// self-destructed account stops after those dealt with before it, and loses the set.
    pub open spec fn finalizes(
        self,
        eip161: bool,
        eip8246: bool,
        r: DbResult<()>,
        after: Self,
    ) -> bool {
        exists|order: Seq<Address>, found: Map<Address, Option<AccountInfo>>|
            #![trigger self.finds_all(order, found)]
            {
                &&& self.finds_all(order, found)
                &&& match r {
                    Ok(_) => {
                        &&& enumerates(order, self.tx.selfdestructs)
                        &&& self.settles(self.destroy_all(order, found, eip8246), eip161, after)
                    },
                    Err(error) => {
                        &&& order.no_duplicates()
                        &&& forall|i: int|
                            0 <= i < order.len() ==> self.tx.selfdestructs.contains(
                                #[trigger] order[i],
                            )
                        &&& exists|failed: Address| #[trigger]
                            self.tx.selfdestructs.contains(failed) && !order.contains(failed)
                                && self.fails_account(failed, error)
                        &&& after == self.with_tx(self.destroy_all(order, found, eip8246))
                    },
                }
            }
    }
}

impl TxView {
    /// The layer once one loaded account was struck out and its storage wiped.
    spec fn strike(self, address: Address, keeps_balance: bool) -> Self {
        self.change_account(
            address,
            false,
            self.accounts[address].struck(keeps_balance),
        ).open_overlay(address).wipe(address)
    }
}

/// Loading and striking out one more account.
proof fn lemma_strike_next(
    tx: TxView,
    order: Seq<Address>,
    found: Map<Address, Option<AccountInfo>>,
    address: Address,
    info: Option<AccountInfo>,
    keeps_balance: bool,
)
    requires
        !order.contains(address),
    ensures
        tx.load_all(order, found).strike_all(order, keeps_balance).load_account(
            address,
            info,
        ).strike(address, keeps_balance) == tx.load_all(
            order.push(address),
            found.insert(address, info),
        ).strike_all(order.push(address), keeps_balance),
{
    let longer = order.push(address);
    lemma_push_contains(order, address);
    let base = tx.load_all(order, found);
    let next = tx.load_all(longer, found.insert(address, info));
    let left = base.strike_all(order, keeps_balance).load_account(address, info).strike(
        address,
        keeps_balance,
    );
    let right = next.strike_all(longer, keeps_balance);
    assert(left.accounts =~= right.accounts);
    assert(left.storage =~= right.storage);
    assert forall|i: int| 0 <= i < order.len() implies base.account_entry(order[i])
        == #[trigger] next.account_entry(order[i]) by {
        assert(order.contains(order[i]));
    }
    assert(left.journal =~= right.journal);
}

/// What a sequence with one more element contains.
proof fn lemma_push_contains(order: Seq<Address>, address: Address)
    ensures
        forall|a: Address| #[trigger]
            order.push(address).contains(a) <==> order.contains(a) || a == address,
{
    assert forall|a: Address| #[trigger]
        order.push(address).contains(a) <==> order.contains(a) || a == address by {
        if order.contains(a) {
            let i = choose|i: int| 0 <= i < order.len() && order[i] == a;
            assert(order.push(address)[i] == a);
        }
        if a == address {
            assert(order.push(address)[order.len() as int] == a);
        }
    }
}

/// A new element keeps a sequence free of duplicates.
proof fn lemma_push_distinct(order: Seq<Address>, address: Address)
    requires
        order.no_duplicates(),
        !order.contains(address),
    ensures
        order.push(address).no_duplicates(),
{
    assert forall|i: int, j: int|
        0 <= i < order.push(address).len() && 0 <= j < order.push(address).len() && i
            != j implies order.push(address)[i] != order.push(address)[j] by {
        if i < order.len() {
            assert(order.contains(order[i]));
        }
        if j < order.len() {
            assert(order.contains(order[j]));
        }
    }
}

impl<D: Database> State<D> {
    /// The accounts that the transaction touched.
    fn touched_accounts(&self) -> (r: Vec<Address>)
        ensures
            enumerates(r@, self@.tx.touched()),
    {
        let keys = self.accounts.keys();
        let mut r: Vec<Address> = Vec::new();
        let mut i: usize = 0;
        while i < keys.len()
            invariant
                i <= keys.len(),
                enumerates(keys@, self@.tx.accounts.dom()),
                r@.no_duplicates(),
                forall|a: Address| #[trigger]
                    r@.contains(a) <==> keys@.take(i as int).contains(a)
                        && self@.tx.accounts[a].is_touched,
            decreases keys.len() - i,
        {
            let address = keys[i];
            assert(keys@.contains(address));
            let ghost before = r@;
            proof {
                assert(keys@.take(i + 1) =~= keys@.take(i as int).push(address));
                lemma_push_contains(keys@.take(i as int), address);
                lemma_push_contains(before, address);
                assert(!keys@.take(i as int).contains(address));
                assert(!before.contains(address));
                lemma_push_distinct(before, address);
            }
            match self.accounts.get(&address) {
                Some(account) => {
                    if account.is_touched {
                        r.push(address);
                    }
                },
                None => {},
            }
            i += 1;
        }
        assert(keys@.take(keys.len() as int) =~= keys@);
        r
    }

    /// Strikes out an account and wipes its storage.
    fn strike(&mut self, address: &Address, keeps_balance: bool) -> (r: DbResult<()>)
        requires
            old(self).wf(),
        ensures
            match r {
                Ok(_) => exists|info: Option<AccountInfo>| #[trigger]
                    old(self)@.finds_account(*address, info) && final(self)@ == old(self)@.with_tx(
                        old(self)@.tx.load_account(*address, info).strike(*address, keeps_balance),
                    ),
                Err(error) => old(self)@.fails_account(*address, error) && final(self)@
                    == old(self)@,
            },
            old(self)@.tx.accounts.contains_key(*address) ==> final(self).inner.database
                == old(self).inner.database,
            final(self).wf(),
    {
        let mut account = match self.account(address) {
            Ok(account) => account,
            Err(error) => {
                return Err(error);
            },
        };
        if keeps_balance && !account.balance().is_zero() {
            account.reset_selfdestructed_for_finalization();
        } else {
            account.delete_for_finalization();
        }
        let mut storage = self.storage(address);
        storage.wipe();
        Ok(())
    }

    /// Creates a touched account as empty, where it neither exists nor did before the transaction.
    /// A rollback does not undo this.
    pub(crate) fn materialize_empty_account_for_finalization(&mut self, address: &Address) -> (r:
        DbResult<()>)
        requires
            old(self).wf(),
        ensures
            match r {
                Ok(_) => exists|loaded: StateView| #[trigger]
                    old(self)@.loads_account(*address, loaded) && final(self)@ == loaded.with_tx(
                        loaded.tx.with_account(
                            *address,
                            loaded.tx.accounts[*address].materialized(),
                        ),
                    ),
                Err(error) => old(self)@.fails_account(*address, error) && final(self)@
                    == old(self)@,
            },
            old(self)@.tx.accounts.contains_key(*address) ==> final(self).inner.database
                == old(self).inner.database,
            final(self).wf(),
    {
        match self.account_raw(address) {
            Ok(()) => {},
            Err(error) => {
                return Err(error);
            },
        }
        let ghost loaded = self@;
        assert(old(self)@.loads_account(*address, loaded));
        match self.accounts.get_mut(address) {
            Some(account) => {
                if account.original.is_none() && account.present.is_none() {
                    account.present = Some(AccountInfo::default());
                    account.just_created = true;
                }
            },
            None => {},
        }
        assert(self@.tx =~= loaded.tx.with_account(
            *address,
            loaded.tx.accounts[*address].materialized(),
        ));
        Ok(())
    }

    /// Applies the rules on the lifetime of accounts at the end of a transaction.
    pub fn finalize_transaction(&mut self, version: &Version) -> (r: DbResult<()>)
        requires
            old(self).wf(),
        ensures
            old(self)@.finalizes(
                version.features.eip161,
                version.features.eip8246,
                r,
                final(self)@,
            ),
            old(self)@.tx.selfdestructs.subset_of(old(self)@.tx.accounts.dom())
                ==> final(self).inner.database == old(self).inner.database,
            final(self).wf(),
    {
        let touched = self.touched_accounts();
        let mut selfdestructs = AddressSet::new();
        std::mem::swap(&mut selfdestructs, &mut self.inner.selfdestructs);
        let eip8246 = version.feature(EvmFeature::EIP8246);
        let order = selfdestructs.members();
        let ghost mut found: Map<Address, Option<AccountInfo>> = Map::empty();
        let mut i: usize = 0;
        proof {
            let none = order@.take(0);
            assert(old(self)@.destroy_all(none, found, eip8246) =~= self@.tx);
        }
        while i < order.len()
            invariant
                old(self).wf(),
                old(self)@.tx.selfdestructs.subset_of(old(self)@.tx.accounts.dom())
                    ==> self.inner.database == old(self).inner.database,
                self.wf(),
                i <= order.len(),
                eip8246 == version.features.eip8246,
                enumerates(order@, old(self)@.tx.selfdestructs),
                old(self)@.finds_all(order@.take(i as int), found),
                self@ == old(self)@.with_tx(
                    old(self)@.destroy_all(order@.take(i as int), found, eip8246),
                ),
            decreases order.len() - i,
        {
            let address = order[i];
            let ghost done = order@.take(i as int);
            let ghost before = self@;
            proof {
                assert(order@.contains(address));
                assert(!done.contains(address));
                assert(before.tx.accounts.contains_key(address)
                    == old(self)@.tx.accounts.contains_key(address));
            }
            match self.strike(&address, eip8246) {
                Ok(()) => {
                    proof {
                        let info = choose|info: Option<AccountInfo>| #[trigger]
                            before.finds_account(address, info) && self@ == before.with_tx(
                                before.tx.load_account(address, info).strike(address, eip8246),
                            );
                        assert(order@.take(i + 1) =~= done.push(address));
                        lemma_strike_next(
                            TxView { selfdestructs: Set::empty(), ..old(self)@.tx },
                            done,
                            found,
                            address,
                            info,
                            eip8246,
                        );
                        let next = found.insert(address, info);
                        assert(old(self)@.finds_all(order@.take(i + 1), next)) by {
                            assert forall|j: int|
                                0 <= j < i + 1 implies old(self)@.finds_account(
                                #[trigger] order@.take(i + 1)[j],
                                next[order@.take(i + 1)[j]],
                            ) by {
                                if j < i {
                                    assert(old(self)@.finds_account(done[j], found[done[j]]));
                                } else {
                                    assert(old(self)@.finds_account(address, info));
                                }
                            }
                        }
                        found = next;
                    }
                },
                Err(error) => {
                    assert(old(self)@.finds_all(done, found));
                    assert(old(self)@.fails_account(address, error));
                    assert(old(self)@.tx.selfdestructs.contains(address));
                    assert forall|j: int|
                        0 <= j < done.len() implies old(self)@.tx.selfdestructs.contains(
                        #[trigger] done[j],
                    ) by {
                        assert(order@.contains(order@[j]));
                    }
                    assert(done.no_duplicates());
                    return Err(error);
                },
            }
            i += 1;
        }
        assert(order@.take(order.len() as int) =~= order@);
        assert(old(self)@.finds_all(order@, found));
        let ghost destroyed = self@.tx;
        assert(destroyed == old(self)@.destroy_all(order@, found, eip8246));
        assert(touched@.to_set() =~= old(self)@.tx.touched());
        if version.feature(EvmFeature::EIP161) {
            self.strike_dead(&touched);
        } else {
            self.materialize_touched(&touched, &selfdestructs);
        }
        self.inner.selfdestructs = selfdestructs;
        self.clear_touches(&touched);
        assert(old(self)@.settles(destroyed, version.features.eip161, self@));
        Ok(())
    }

    /// Strikes out those of the touched accounts that exist and are dead.
    fn strike_dead(&mut self, touched: &Vec<Address>)
        requires
            old(self).wf(),
            touched@.no_duplicates(),
            forall|a: Address| #[trigger]
                touched@.contains(a) ==> old(self)@.tx.accounts.contains_key(a),
        ensures
            exists|dead: Seq<Address>| #[trigger]
                enumerates(dead, old(self)@.tx.dead_among(touched@.to_set())) && final(self)@
                    == old(self)@.with_tx(old(self)@.tx.strike_all(dead, false)),
            final(self).inner.database == old(self).inner.database,
            final(self).wf(),
    {
        let ghost start = self@;
        let ghost mut dead: Seq<Address> = Seq::empty();
        let mut i: usize = 0;
        assert(start.tx.strike_all(dead, false) =~= start.tx);
        while i < touched.len()
            invariant
                self.inner.database == old(self).inner.database,
                self.wf(),
                i <= touched.len(),
                touched@.no_duplicates(),
                forall|a: Address| #[trigger]
                    touched@.contains(a) ==> start.tx.accounts.contains_key(a),
                dead.no_duplicates(),
                forall|a: Address| #[trigger]
                    dead.contains(a) <==> touched@.take(i as int).contains(a)
                        && start.tx.accounts[a].is_existing_dead(),
                self@ == start.with_tx(start.tx.strike_all(dead, false)),
            decreases touched.len() - i,
        {
            let address = touched[i];
            let ghost before = self@;
            proof {
                assert(touched@.contains(address));
                assert(touched@.take(i + 1) =~= touched@.take(i as int).push(address));
                lemma_push_contains(touched@.take(i as int), address);
                assert(!touched@.take(i as int).contains(address));
                assert(!dead.contains(address));
                assert(before.tx.accounts[address] == start.tx.accounts[address]);
            }
            let is_dead = match self.account(&address) {
                Ok(account) => account.is_existing_dead(),
                Err(_) => false,
            };
            assert(self@ == before);
            if is_dead {
                match self.strike(&address, false) {
                    Ok(()) => {
                        proof {
                            let none: Map<Address, Option<AccountInfo>> = Map::empty();
                            lemma_push_contains(dead, address);
                            lemma_push_distinct(dead, address);
                            lemma_strike_next(start.tx, dead, none, address, None, false);
                            assert(start.tx.load_all(dead, none) =~= start.tx) by {
                                assert forall|a: Address| dead.contains(a) implies #[trigger]
                                    start.tx.accounts.contains_key(a) by {
                                    let j = choose|j: int|
                                        0 <= j < touched@.take(i as int).len() && touched@.take(
                                            i as int,
                                        )[j] == a;
                                    assert(touched@.contains(touched@[j]));
                                }
                            }
                            assert(start.tx.load_all(
                                dead.push(address),
                                none.insert(address, None),
                            ) =~= start.tx) by {
                                assert forall|a: Address|
                                    dead.push(address).contains(a) implies #[trigger]
                                    start.tx.accounts.contains_key(a) by {
                                    if a != address {
                                        let j = choose|j: int|
                                            0 <= j < touched@.take(i as int).len()
                                                && touched@.take(i as int)[j] == a;
                                        assert(touched@.contains(touched@[j]));
                                    }
                                }
                            }
                            dead = dead.push(address);
                        }
                    },
                    Err(_) => {},
                }
            }
            i += 1;
        }
        proof {
            assert(touched@.take(touched.len() as int) =~= touched@);
            assert(enumerates(dead, start.tx.dead_among(touched@.to_set())));
        }
    }

    /// Creates those of the touched accounts as empty that have not self-destructed and do not
    /// exist.
    fn materialize_touched(&mut self, touched: &Vec<Address>, selfdestructs: &AddressSet)
        requires
            old(self).wf(),
            touched@.no_duplicates(),
            forall|a: Address| #[trigger]
                touched@.contains(a) ==> old(self)@.tx.accounts.contains_key(a),
        ensures
            final(self)@ == old(self)@.with_tx(
                old(self)@.tx.materialize_all(touched@.to_set().difference(selfdestructs@)),
            ),
            final(self).inner.database == old(self).inner.database,
            final(self).wf(),
    {
        let ghost start = self@;
        let mut i: usize = 0;
        assert(start.tx.materialize_all(
            touched@.take(0).to_set().difference(selfdestructs@),
        ) =~= start.tx);
        while i < touched.len()
            invariant
                self.inner.database == old(self).inner.database,
                self.wf(),
                i <= touched.len(),
                touched@.no_duplicates(),
                forall|a: Address| #[trigger]
                    touched@.contains(a) ==> start.tx.accounts.contains_key(a),
                self@ == start.with_tx(
                    start.tx.materialize_all(
                        touched@.take(i as int).to_set().difference(selfdestructs@),
                    ),
                ),
            decreases touched.len() - i,
        {
            let address = touched[i];
            let ghost before = self@;
            proof {
                assert(touched@.contains(address));
                assert(touched@.take(i + 1) =~= touched@.take(i as int).push(address));
                lemma_push_contains(touched@.take(i as int), address);
                assert(!touched@.take(i as int).contains(address));
            }
            if !selfdestructs.contains(&address) {
                let is_existing = match self.account(&address) {
                    Ok(account) => account.is_existing(),
                    Err(_) => false,
                };
                assert(self@ == before);
                if !is_existing {
                    match self.materialize_empty_account_for_finalization(&address) {
                        Ok(()) => {},
                        Err(_) => {},
                    }
                }
            }
            assert(self@.tx.accounts =~= start.tx.materialize_all(
                touched@.take(i + 1).to_set().difference(selfdestructs@),
            ).accounts);
            i += 1;
        }
        assert(touched@.take(touched.len() as int) =~= touched@);
    }

    /// Clears the touch of accounts.
    fn clear_touches(&mut self, touched: &Vec<Address>)
        requires
            old(self).wf(),
        ensures
            final(self)@ == old(self)@.with_tx(old(self)@.tx.untouch_all(touched@.to_set())),
            final(self).inner.database == old(self).inner.database,
            final(self).wf(),
    {
        let ghost start = self@;
        let mut i: usize = 0;
        assert(start.tx.untouch_all(touched@.take(0).to_set()) =~= start.tx);
        while i < touched.len()
            invariant
                self.inner.database == old(self).inner.database,
                start.wf(),
                i <= touched.len(),
                self@ == start.with_tx(start.tx.untouch_all(touched@.take(i as int).to_set())),
            decreases touched.len() - i,
        {
            let address = touched[i];
            proof {
                assert(touched@.take(i + 1) =~= touched@.take(i as int).push(address));
                lemma_push_contains(touched@.take(i as int), address);
            }
            match self.accounts.get_mut(&address) {
                Some(account) => {
                    account.is_touched = false;
                },
                None => {},
            }
            assert(self@.tx =~= start.tx.untouch_all(touched@.take(i + 1).to_set()));
            i += 1;
        }
        assert(touched@.take(touched.len() as int) =~= touched@);
    }
}

} // verus!
