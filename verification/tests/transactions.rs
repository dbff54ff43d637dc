//! Loading, moving value, creating contracts, ending and accepting transactions.
use evm2_state::bal::Bal;
use evm2_state::db::{CacheDB, Database, DbError, DbModel, DbResult, EmptyDB, LoadError};
use evm2_state::features::{EvmFeatures, InstrStop, SpecId, Version};
use evm2_state::fixed::{Address, Word, B256};
use evm2_state::info::{AccountInfo, Bytecode};
use evm2_state::state::State;

use std::sync::Arc;

/// A database that counts its reads and fails on one address.
struct Probe {
    reads: usize,
    failing: Address,
}

impl Database for Probe {
    fn model(&self) -> DbModel {
        unreachable!("only contracts speak of this")
    }

    fn reads_into(&self, _: Self) -> bool {
        unreachable!("only contracts speak of this")
    }

    fn get_account(&mut self, address: &Address) -> DbResult<Option<AccountInfo>> {
        self.reads += 1;
        if *address == self.failing {
            return Err(DbError::Backend(String::from("unreachable")));
        }
        Ok(Some(AccountInfo::default().with_balance(word(100))))
    }

    fn get_storage(&mut self, address: &Address, key: &Word) -> DbResult<Word> {
        self.reads += 1;
        if *address == self.failing {
            return Err(DbError::Backend(String::from("unreachable")));
        }
        Ok(*key)
    }

    fn get_block_hash(&mut self, number: &Word) -> DbResult<B256> {
        self.reads += 1;
        Ok(*number)
    }
}

fn word(n: u64) -> Word {
    Word::from(n)
}

fn at(n: u8) -> Address {
    Address::with_last_byte(n)
}

fn probe() -> State<Probe> {
    State::new(Probe { reads: 0, failing: at(66) })
}

fn backend() -> DbError {
    DbError::Backend(String::from("unreachable"))
}

#[test]
fn an_account_is_read_once() {
    let mut state = probe();
    assert_eq!(state.account(&at(1)).unwrap().balance(), word(100));
    assert_eq!(state.account(&at(1)).unwrap().balance(), word(100));
    assert_eq!(state.initial().reads, 1);
    assert_eq!(state.storage_slot(&at(1), word(9)).unwrap().current(), word(9));
    assert_eq!(state.storage_slot(&at(1), word(9)).unwrap().current(), word(9));
    assert_eq!(state.initial().reads, 2);
    // A peek reads without loading.
    assert!(state.account_info_untracked(&at(2)).unwrap().is_some());
    assert!(state.account_info_untracked(&at(2)).unwrap().is_some());
    assert_eq!(state.storage_slot_untracked(&at(1), &word(8)).unwrap(), word(8));
    assert_eq!(state.get_storage(&at(1), &word(8)), None);
    assert_eq!(state.initial().reads, 5);
    assert_eq!(state.block_hash(&word(12)).unwrap(), word(12));
    assert!(state.journal().is_empty());
}

#[test]
fn failed_reads_are_reported_and_change_nothing() {
    let mut state = probe();
    assert_eq!(state.account(&at(66)).err(), Some(backend()));
    assert_eq!(
        state.account_with_skip(&at(66), false).err(),
        Some(LoadError::Database(backend()))
    );
    assert_eq!(state.account_info_untracked(&at(66)).err(), Some(backend()));
    assert!(state.accounts.keys().is_empty());
    assert_eq!(state.storage_slot(&at(66), Word::zero()).err(), Some(backend()));
    assert_eq!(
        state.storage_slot_with_skip(&at(66), Word::zero(), false).err(),
        Some(LoadError::Database(backend()))
    );
    assert!(!state.storage(&at(66)).is_loaded(&Word::zero()));
    assert_eq!(state.storage_slot_untracked(&at(66), &Word::zero()).err(), Some(backend()));
    assert_eq!(state.read_committed_storage(&at(66), &Word::zero()).err(), Some(backend()));
    // Wiped storage needs no read.
    state.storage(&at(66)).wipe();
    assert_eq!(state.storage_slot(&at(66), word(1)).unwrap().current(), Word::zero());
    assert_eq!(state.storage_slot_untracked(&at(66), &word(2)).unwrap(), Word::zero());
}

#[test]
fn cold_accesses_can_be_skipped() {
    let mut state = probe();
    assert_eq!(state.account_with_skip(&at(1), true).err(), Some(LoadError::ColdLoadSkipped));
    assert_eq!(state.initial().reads, 0);
    state.account(&at(1)).unwrap();
    assert_eq!(state.account_with_skip(&at(1), true).err(), Some(LoadError::ColdLoadSkipped));
    assert!(state.account(&at(1)).unwrap().warm());
    assert!(!state.account(&at(1)).unwrap().warm());
    assert!(state.account_with_skip(&at(1), true).is_ok());
    state.prewarm(&at(2));
    assert!(state.account_with_skip(&at(2), true).is_ok());
    assert!(state.account(&at(2)).unwrap().is_warm());

    let key = word(3);
    assert_eq!(
        state.storage_slot_with_skip(&at(1), key, true).err(),
        Some(LoadError::ColdLoadSkipped)
    );
    assert!(!state.storage(&at(1)).is_loaded(&key));
    assert!(state.storage_slot(&at(1), key).unwrap().warm());
    assert!(!state.storage_slot(&at(1), key).unwrap().warm());
    assert!(state.storage_slot_with_skip(&at(1), key, true).is_ok());
    state.prewarm_storage_slot(&at(2), key);
    assert!(state.storage_slot_with_skip(&at(2), key, true).is_ok());
    assert!(!state.storage_slot(&at(2), key).unwrap().warm());
}

#[test]
fn a_transfer_moves_exactly_the_value() {
    let mut state = probe();
    assert_eq!(state.transfer(&at(1), &at(2), &word(30)), Ok(true));
    assert_eq!(state.account(&at(1)).unwrap().balance(), word(70));
    assert_eq!(state.account(&at(2)).unwrap().balance(), word(130));
    assert!(state.accounts.get(&at(1)).unwrap().is_touched);
    assert!(state.accounts.get(&at(2)).unwrap().is_touched);
}

#[test]
fn a_transfer_needs_funds() {
    let mut state = probe();
    assert_eq!(state.transfer(&at(1), &at(2), &word(101)), Ok(false));
    assert_eq!(state.account(&at(1)).unwrap().balance(), word(100));
    assert!(!state.accounts.get(&at(1)).unwrap().is_touched);
    assert!(!state.accounts.contains_key(&at(2)));
    assert_eq!(state.transfer(&at(1), &at(1), &word(101)), Ok(false));
    assert_eq!(state.transfer(&at(1), &at(1), &word(100)), Ok(true));
    assert_eq!(state.account(&at(1)).unwrap().balance(), word(100));
    assert!(state.accounts.get(&at(1)).unwrap().is_touched);
}

#[test]
fn a_transfer_of_nothing_touches_the_recipient() {
    let mut state = probe();
    assert_eq!(state.transfer(&at(66), &at(2), &Word::zero()), Ok(true));
    assert!(state.accounts.get(&at(2)).unwrap().is_touched);
    assert!(!state.accounts.contains_key(&at(66)));
    assert_eq!(state.journal().len(), 1);
    // Touching again journals nothing.
    assert_eq!(state.transfer(&at(66), &at(2), &Word::zero()), Ok(true));
    assert_eq!(state.journal().len(), 1);
}

#[test]
fn a_transfer_to_an_unreadable_account_fails_after_the_debit() {
    let mut state = probe();
    let checkpoint = state.checkpoint();
    assert_eq!(state.transfer(&at(66), &at(1), &word(1)), Err(backend()));
    assert_eq!(state.transfer(&at(1), &at(66), &word(1)), Err(backend()));
    assert_eq!(state.account(&at(1)).unwrap().balance(), word(99));
    state.rollback(checkpoint, EvmFeatures::empty());
    assert_eq!(state.account(&at(1)).unwrap().balance(), word(100));
}

#[test]
fn a_credited_balance_stops_at_the_largest_word() {
    let mut state = probe();
    let largest = Word::new([0xff; 32]);
    state.account(&at(2)).unwrap().set_balance(largest);
    assert_eq!(state.transfer(&at(1), &at(2), &word(5)), Ok(true));
    assert_eq!(state.account(&at(2)).unwrap().balance(), largest);
    assert_eq!(state.account(&at(1)).unwrap().balance(), word(95));
}

#[test]
fn a_contract_is_created_over_what_the_address_held() {
    let features = Version::base(SpecId::CANCUN).features;
    let mut state = probe();
    let checkpoint = state.checkpoint();
    assert_eq!(state.create_account(&at(1), &at(2), &word(40), features), Ok(Ok(())));
    let account = state.accounts.get(&at(2)).unwrap();
    let info = account.present.as_ref().unwrap();
    assert_eq!(info.nonce, 1);
    assert_eq!(info.balance, word(140));
    assert_eq!(info.code, Some(Bytecode::Empty));
    assert!(account.is_created());
    assert!(account.is_touched);
    assert_eq!(state.account(&at(1)).unwrap().balance(), word(60));
    state.rollback(checkpoint, features);
    assert_eq!(state.account(&at(1)).unwrap().balance(), word(100));
    assert_eq!(state.account(&at(2)).unwrap().nonce(), 0);
    assert!(!state.account(&at(2)).unwrap().is_created());
}

#[test]
fn before_eip161_a_contract_starts_at_nonce_zero() {
    let mut state = probe();
    let features = Version::base(SpecId::HOMESTEAD).features;
    assert_eq!(state.create_account(&at(66), &at(2), &Word::zero(), features), Ok(Ok(())));
    assert_eq!(state.account(&at(2)).unwrap().nonce(), 0);
    assert_eq!(state.account(&at(2)).unwrap().balance(), word(100));
}

#[test]
fn a_contract_is_not_created_over_another_or_without_funds() {
    let features = Version::base(SpecId::CANCUN).features;
    let mut state = probe();
    state.account(&at(2)).unwrap().set_nonce(1);
    let entries = state.journal().len();
    assert_eq!(
        state.create_account(&at(1), &at(2), &word(1), features),
        Ok(Err(InstrStop::CreateCollision))
    );
    state.account(&at(3)).unwrap().set_code(B256::with_last_byte(9), Bytecode::new(vec![1]));
    assert_eq!(
        state.create_account(&at(1), &at(3), &word(1), features),
        Ok(Err(InstrStop::CreateCollision))
    );
    assert_eq!(
        state.create_account(&at(1), &at(4), &word(101), features),
        Ok(Err(InstrStop::OutOfFunds))
    );
    assert_eq!(state.account(&at(1)).unwrap().balance(), word(100));
    assert_eq!(state.create_account(&at(1), &at(66), &word(1), features), Err(backend()));
    assert_eq!(state.create_account(&at(66), &at(5), &word(1), features), Err(backend()));
    assert_eq!(state.journal().len(), entries + 1);
}

#[test]
fn eip161_deletes_touched_dead_accounts() {
    let mut db = CacheDB::default();
    db.insert_account_info(&at(1), AccountInfo::default());
    db.insert_account_info(&at(2), AccountInfo::default());
    db.insert_account_storage(&at(1), &word(1), &word(5));
    let mut state = State::new(db);
    state.account(&at(1)).unwrap().touch();
    state.account(&at(2)).unwrap();
    state.account(&at(3)).unwrap().set_balance(word(1));
    state.account(&at(4)).unwrap().touch();
    state.finalize_transaction(&Version::base(SpecId::SPURIOUS_DRAGON)).unwrap();
    assert!(!state.account(&at(1)).unwrap().is_existing());
    assert!(state.storage(&at(1)).is_wiped());
    assert_eq!(state.storage_slot(&at(1), word(1)).unwrap().current(), Word::zero());
    assert!(state.account(&at(2)).unwrap().is_existing());
    assert!(state.account(&at(3)).unwrap().is_existing());
    assert!(!state.account(&at(4)).unwrap().is_existing());
    for address in state.accounts.keys() {
        assert!(!state.accounts.get(&address).unwrap().is_touched);
    }
}

#[test]
fn before_eip161_touched_absent_accounts_are_created() {
    let mut state = State::new(EmptyDB::default());
    state.account(&at(1)).unwrap().touch();
    state.account(&at(2)).unwrap();
    {
        let mut account = state.account(&at(3)).unwrap();
        account.touch();
        account.mark_destructed();
    }
    state.finalize_transaction(&Version::base(SpecId::FRONTIER)).unwrap();
    assert_eq!(state.accounts.get(&at(1)).unwrap().present, Some(AccountInfo::default()));
    assert!(state.accounts.get(&at(1)).unwrap().is_created());
    assert!(!state.account(&at(2)).unwrap().is_existing());
    assert!(!state.account(&at(3)).unwrap().is_existing());
}

#[test]
fn selfdestructed_accounts_are_deleted_or_keep_their_balance() {
    for (spec, kept) in [(SpecId::CANCUN, false), (SpecId::AMSTERDAM, true)] {
        let mut state = probe();
        state.storage_slot(&at(1), word(7)).unwrap();
        {
            let mut account = state.account(&at(1)).unwrap();
            account.set_nonce(3);
            account.set_code(B256::with_last_byte(9), Bytecode::new(vec![1]));
            account.mark_destructed();
        }
        {
            let mut account = state.account(&at(2)).unwrap();
            account.set_balance(Word::zero());
            account.mark_destructed();
        }
        state.finalize_transaction(&Version::base(spec)).unwrap();
        let expected = if kept {
            Some(AccountInfo::default().with_balance(word(100)))
        } else {
            None
        };
        assert_eq!(state.accounts.get(&at(1)).unwrap().present, expected);
        assert_eq!(state.accounts.get(&at(1)).unwrap().is_destroyed, !kept);
        assert_eq!(state.accounts.get(&at(2)).unwrap().present, None);
        assert!(state.inner.selfdestructs.contains(&at(1)));
        assert!(state.storage(&at(1)).is_wiped());
        assert_eq!(state.storage_slot(&at(1), word(7)).unwrap().current(), Word::zero());
    }
}

#[test]
fn finalizing_fails_on_an_unreadable_selfdestructed_account() {
    let mut state = probe();
    state.inner.selfdestructs.insert(at(66));
    assert_eq!(state.finalize_transaction(&Version::base(SpecId::CANCUN)), Err(backend()));
    assert!(state.inner.selfdestructs.members().is_empty());
}

#[test]
fn accepted_writes_are_read_back() {
    let mut state = probe();
    state.account(&at(1)).unwrap().set_balance(word(7));
    state.account(&at(2)).unwrap();
    state.storage_slot(&at(1), word(1)).unwrap().write(word(11));
    state.storage_slot(&at(1), word(2)).unwrap();
    state.log(alloy_primitives::Log::default());
    state.commit_transaction();
    assert!(state.accounts.keys().is_empty());
    assert!(state.storage.keys().is_empty());
    assert_eq!(state.logs().len(), 1);
    assert_eq!(state.account(&at(1)).unwrap().balance(), word(7));
    assert_eq!(state.account(&at(2)).unwrap().balance(), word(100));
    assert_eq!(state.read_committed_storage(&at(1), &word(1)).unwrap(), word(11));
    assert_eq!(state.read_committed_storage(&at(1), &word(2)).unwrap(), word(2));
    // What was accepted outlives the transaction, and the database goes with its replacement.
    state.clear_transaction_state();
    assert_eq!(state.account(&at(1)).unwrap().balance(), word(7));
    state.set_initial(Probe { reads: 0, failing: at(66) });
    assert_eq!(state.account(&at(1)).unwrap().balance(), word(100));
    state.initial_mut().failing = at(1);
    assert_eq!(state.account_info_untracked(&at(1)), Ok(Some(AccountInfo::default().with_balance(word(100)))));
    state.clear_transaction_state();
    assert_eq!(state.account_info_untracked(&at(1)), Err(backend()));
}

#[test]
fn a_detached_transition_can_be_attached_and_accepted_elsewhere() {
    let mut state = probe();
    state.account(&at(1)).unwrap().set_balance(word(7));
    state.storage_slot(&at(1), word(1)).unwrap().write(word(11));
    let entries = state.journal().len();
    let pending = state.take_pending_state();
    assert!(state.accounts.keys().is_empty());
    assert_eq!(state.journal().len(), entries);
    let mut other = State::new(EmptyDB::default());
    other.commit_source(&pending);
    assert_eq!(other.account(&at(1)).unwrap().balance(), word(7));
    assert_eq!(other.read_committed_storage(&at(1), &word(1)).unwrap(), word(11));
    state.set_pending_state(pending);
    assert_eq!(state.get_storage(&at(1), &word(1)), Some(word(11)));
    assert_eq!(state.account(&at(1)).unwrap().balance(), word(7));
}

#[test]
fn block_access_lists_serve_reads() {
    let mut state = probe();
    state.enable_bal_builder();
    state.bump_bal_index();
    assert_eq!(state.bal_index(), 1);
    state.account(&at(1)).unwrap().set_balance(word(7));
    state.storage_slot(&at(1), word(1)).unwrap().write(word(11));
    state.storage(&at(3)).wipe();
    state.commit_transaction();
    assert_eq!(state.bal_builder().unwrap().entries().len(), 3);
    assert!(state.bal_builder().unwrap().entries().iter().all(|entry| entry.index == 1));
    let bal: Bal = state.take_bal_builder().unwrap();
    assert!(state.bal_builder().is_none());
    assert_eq!(state.bal_index(), 0);

    let mut reader = State::new(EmptyDB::default());
    reader.set_bal(Arc::new(bal));
    assert!(reader.bal().is_some());
    reader.set_bal_index(2);
    assert_eq!(reader.account_info_untracked(&at(1)).unwrap().unwrap().balance, word(7));
    assert_eq!(reader.storage_slot_untracked(&at(1), &word(1)).unwrap(), word(11));
    assert_eq!(reader.storage_slot_untracked(&at(3), &word(9)).unwrap(), Word::zero());
    // Not covered: refused unless the database may answer.
    assert_eq!(reader.account_info_untracked(&at(2)), Err(DbError::NotInBal));
    assert_eq!(reader.storage_slot_untracked(&at(1), &word(2)), Err(DbError::NotInBal));
    reader.set_allow_bal_db_fallback(true);
    assert_eq!(reader.account_info_untracked(&at(2)), Ok(None));
    assert_eq!(reader.storage_slot_untracked(&at(1), &word(2)), Ok(Word::zero()));
    // Before the write the list has nothing to say.
    reader.reset_bal_index();
    assert_eq!(reader.account_info_untracked(&at(1)), Ok(None));
    reader.set_bal_index(2);
    reader.clear_bal();
    assert!(reader.bal().is_none());
    assert_eq!(reader.account_info_untracked(&at(1)), Ok(None));
}

#[test]
fn an_attached_list_answers_as_before_once_a_transaction_is_accepted() {
    let mut builder = probe();
    builder.enable_bal_builder();
    builder.account(&at(1)).unwrap().set_balance(word(7));
    builder.commit_transaction();
    let bal = builder.take_bal_builder().unwrap();
    let mut state = probe();
    state.set_bal(Arc::new(bal));
    state.set_bal_index(1);
    state.set_allow_bal_db_fallback(true);
    state.account(&at(1)).unwrap().set_balance(word(8));
    state.account(&at(2)).unwrap().set_balance(word(9));
    state.commit_transaction();
    assert_eq!(state.account(&at(1)).unwrap().balance(), word(7));
    assert_eq!(state.account(&at(2)).unwrap().balance(), word(9));
    assert_eq!(state.bal_index(), 1);
}

#[test]
fn what_is_loaded_or_decided_costs_no_read() {
    let mut state = probe();
    // A skipped access reads nothing.
    assert!(state.account_with_skip(&at(1), true).is_err());
    assert!(state.storage_slot_with_skip(&at(1), word(1), true).is_err());
    assert_eq!(state.initial().reads, 0);
    state.account(&at(1)).unwrap();
    state.account(&at(2)).unwrap();
    state.storage_slot(&at(1), word(1)).unwrap();
    assert_eq!(state.initial().reads, 3);
    // Loaded accounts and slots, wiped storage, moved value and the end of a transaction.
    state.account_info_untracked(&at(1)).unwrap();
    state.storage_slot_untracked(&at(1), &word(1)).unwrap();
    state.storage(&at(2)).wipe();
    state.storage_slot(&at(2), word(4)).unwrap();
    state.storage_slot_untracked(&at(2), &word(5)).unwrap();
    assert_eq!(state.transfer(&at(1), &at(2), &word(1)), Ok(true));
    assert_eq!(state.transfer(&at(1), &at(3), &word(1000)), Ok(false));
    let features = Version::base(SpecId::CANCUN).features;
    assert_eq!(state.create_account(&at(1), &at(2), &word(1), features), Ok(Ok(())));
    state.account(&at(2)).unwrap().mark_destructed();
    state.finalize_transaction(&Version::base(SpecId::CANCUN)).unwrap();
    let pending = state.take_pending_state();
    state.set_pending_state(pending);
    state.commit_transaction();
    // Accepted accounts and slots are not read below either.
    assert_eq!(state.account(&at(1)).unwrap().balance(), word(98));
    assert_eq!(state.read_committed_storage(&at(2), &word(9)).unwrap(), Word::zero());
    assert_eq!(state.initial().reads, 3);
}
