//! What a rollback undoes and what it leaves.
use alloy_primitives::Log;
use evm2_state::db::{CacheDB, EmptyDB};
use evm2_state::features::{EvmFeatures, SpecId, Version};
use evm2_state::fixed::{Address, Word, B256};
use evm2_state::info::{AccountInfo, Bytecode};
use evm2_state::live::SnapshotLogs;
use evm2_state::prewarm::PrewarmSet;
use evm2_state::state::{identity_from, State};

fn word(n: u64) -> Word {
    Word::from(n)
}

fn at(n: u8) -> Address {
    Address::with_last_byte(n)
}

fn funded() -> State<CacheDB<EmptyDB>> {
    let mut db = CacheDB::default();
    db.insert_account_info(&at(1), AccountInfo::default().with_balance(word(100)));
    db.insert_account_storage(&at(1), &word(1), &word(5));
    State::new(db)
}

#[test]
fn all_changes_through_one_handle_are_undone_together() {
    let mut state = funded();
    let checkpoint = state.checkpoint();
    {
        let mut account = state.account(&at(1)).unwrap();
        account.set_balance(word(1));
        account.set_nonce(2);
        account.set_code(B256::with_last_byte(3), Bytecode::new(vec![4]));
        account.mark_created();
        account.mark_destructed();
        account.warm();
    }
    assert_eq!(state.journal().len(), 1);
    assert!(state.inner.selfdestructs.contains(&at(1)));
    state.rollback(checkpoint, EvmFeatures::empty());
    let account = state.accounts.get(&at(1)).unwrap();
    assert_eq!(account.present, Some(AccountInfo::default().with_balance(word(100))));
    assert!(!account.is_warm && !account.is_touched && !account.is_destroyed);
    assert!(!account.just_created && !account.code_changed);
    assert!(!state.inner.selfdestructs.contains(&at(1)));
    assert!(state.journal().is_empty());
}

#[test]
fn every_kind_of_change_is_undone() {
    let mut state = funded();
    state.tstore(&at(1), &word(1), &word(3));
    state.log(Log::default());
    let checkpoint = state.checkpoint();
    state.tstore(&at(1), &word(1), &word(4));
    state.tstore(&at(1), &word(2), &word(5));
    state.tstore(&at(1), &word(1), &Word::zero());
    assert_eq!(state.tload(&at(1), &word(1)), Word::zero());
    state.storage_slot(&at(1), word(1)).unwrap().write(word(6));
    state.storage_slot(&at(1), word(1)).unwrap().warm();
    state.storage(&at(1)).wipe_journaled();
    state.storage_slot(&at(1), word(1)).unwrap().write(word(7));
    assert_eq!(state.transfer(&at(1), &at(2), &word(10)), Ok(true));
    state.log(Log::default());
    state.prewarm(&at(9));
    state.rollback(checkpoint, EvmFeatures::empty());
    assert_eq!(state.tload(&at(1), &word(1)), word(3));
    assert_eq!(state.tload(&at(1), &word(2)), Word::zero());
    assert_eq!(state.logs().len(), 1);
    let slot = state.storage_slot(&at(1), word(1)).unwrap();
    assert_eq!((slot.original(), slot.current()), (word(5), word(5)));
    assert!(!slot.is_warm());
    assert!(!state.storage(&at(1)).is_wiped());
    assert_eq!(state.account(&at(1)).unwrap().balance(), word(100));
    // Loaded since, and left loaded and clean.
    let account = state.accounts.get(&at(2)).unwrap();
    assert_eq!((&account.original, &account.present), (&None, &None));
    assert!(!account.is_touched);
    // Pre-warmed since, and left pre-warmed.
    assert!(state.prewarm_set().is_warm(&at(9)));
}

#[test]
fn writing_what_is_there_journals_nothing() {
    let mut state = funded();
    state.storage_slot(&at(1), word(1)).unwrap().write(word(5));
    state.tstore(&at(1), &word(1), &Word::zero());
    assert!(state.journal().is_empty());
    state.tstore(&at(1), &word(1), &word(2));
    state.tstore(&at(1), &word(1), &word(2));
    assert_eq!(state.journal().len(), 1);
}

#[test]
fn eip161_keeps_the_touch_of_one_precompile() {
    for (spec, kept) in [(SpecId::FRONTIER, false), (SpecId::CANCUN, true)] {
        let mut state = State::new(EmptyDB::default());
        let checkpoint = state.checkpoint();
        state.account(&at(3)).unwrap().touch();
        state.account(&at(4)).unwrap().touch();
        state.rollback(checkpoint, Version::base(spec).features);
        assert_eq!(state.accounts.get(&at(3)).unwrap().is_touched, kept);
        assert!(!state.accounts.get(&at(4)).unwrap().is_touched);
    }
}

#[test]
fn rollbacks_nest() {
    let mut once = funded();
    let mut twice = funded();
    for state in [&mut once, &mut twice] {
        state.tstore(&at(1), &word(1), &word(1));
    }
    let outer = once.checkpoint();
    for state in [&mut once, &mut twice] {
        state.tstore(&at(1), &word(1), &word(2));
        state.log(Log::default());
    }
    let inner = twice.checkpoint();
    for state in [&mut once, &mut twice] {
        state.tstore(&at(1), &word(1), &word(3));
        state.log(Log::default());
    }
    once.rollback(outer, EvmFeatures::empty());
    twice.rollback(inner, EvmFeatures::empty());
    assert_eq!(twice.tload(&at(1), &word(1)), word(2));
    twice.rollback(outer, EvmFeatures::empty());
    assert_eq!(once.tload(&at(1), &word(1)), word(1));
    assert_eq!(twice.tload(&at(1), &word(1)), word(1));
    assert_eq!(once.journal(), twice.journal());
    assert_eq!(once.logs().len(), twice.logs().len());
    let here = once.checkpoint();
    once.rollback(here, EvmFeatures::empty());
    assert_eq!(once.checkpoint(), here);
    assert_eq!(once.tload(&at(1), &word(1)), word(1));
}

#[test]
fn transient_storage_can_be_taken_by_account() {
    let mut state = funded();
    state.tstore(&at(1), &word(1), &word(10));
    state.tstore(&at(1), &word(2), &word(20));
    state.tstore(&at(2), &word(1), &word(30));
    let mut taken = state.take_transient_storage(&at(1));
    taken.sort_by_key(|slot| slot.0.bytes);
    assert_eq!(taken, vec![(word(1), word(10)), (word(2), word(20))]);
    assert!(state.take_transient_storage(&at(1)).is_empty());
    assert_eq!(state.tload(&at(1), &word(1)), Word::zero());
    assert_eq!(state.tload(&at(2), &word(1)), word(30));
    assert_eq!(state.journal().len(), 3);
}

#[test]
fn the_prewarmed_set_goes_with_the_transaction() {
    let mut state = funded();
    let mut set = PrewarmSet::new();
    set.warm(&at(7));
    state.set_prewarm_set(set);
    state.prewarm_set_mut().warm(&at(8));
    assert!(state.prewarm_set().is_warm(&at(7)));
    assert!(state.prewarm_set().is_warm(&at(8)));
    assert!(state.account(&at(7)).unwrap().is_warm());
    state.clear_transaction_state();
    assert!(!state.prewarm_set().is_warm(&at(7)));
    assert!(!state.account(&at(7)).unwrap().is_warm());
}

#[test]
fn logs_can_be_taken_and_changed() {
    let mut state = funded();
    state.log(Log::default());
    state.logs_mut().push(Log::default());
    assert_eq!(state.logs().len(), 2);
    assert_eq!(state.take_logs().len(), 2);
    assert!(state.logs().is_empty());
}

#[test]
fn frames_return_with_those_entered_after_them() {
    let mut state = funded();
    let outer = state.enter_frame();
    let middle = state.enter_frame();
    state.tstore(&at(1), &word(1), &word(1));
    let inner = state.enter_frame();
    assert_eq!(state.active_frames(), 3);
    state.exit_frame(inner);
    assert!(!state.is_active_frame(inner));
    assert_eq!(state.active_frames(), 2);
    let again = state.enter_frame();
    assert_ne!(again, inner);
    state.rollback_frame(middle, EvmFeatures::empty());
    assert_eq!(state.tload(&at(1), &word(1)), Word::zero());
    assert!(!state.is_active_frame(again));
    assert!(state.is_active_frame(outer));
    state.exit_frame(outer);
    assert_eq!(state.active_frames(), 0);
}

#[test]
fn a_restored_snapshot_brings_back_the_whole_layer() {
    let mut state = funded();
    state.prewarm(&at(5));
    state.account(&at(1)).unwrap().set_balance(word(50));
    state.account(&at(2)).unwrap().mark_destructed();
    state.tstore(&at(1), &word(1), &word(9));
    state.log(Log::default());
    let entries = state.journal().len();
    let snapshot = state.transaction_snapshot();
    for logs in [SnapshotLogs::Retain, SnapshotLogs::Restore] {
        state.prewarm(&at(6));
        state.account(&at(1)).unwrap().set_balance(word(1));
        state.account(&at(3)).unwrap().mark_destructed();
        state.tstore(&at(1), &word(1), &word(2));
        state.log(Log::default());
        let length = state.logs().len();
        assert_eq!(state.restore_transaction_snapshot(&snapshot, logs), Ok(()));
        assert_eq!(state.journal().len(), entries);
        assert_eq!(state.account(&at(1)).unwrap().balance(), word(50));
        assert!(state.inner.selfdestructs.contains(&at(2)));
        assert!(!state.inner.selfdestructs.contains(&at(3)));
        assert!(!state.accounts.contains_key(&at(3)));
        assert_eq!(state.tload(&at(1), &word(1)), word(9));
        assert!(state.prewarm_set().is_warm(&at(5)));
        assert!(!state.prewarm_set().is_warm(&at(6)));
        match logs {
            SnapshotLogs::Retain => assert_eq!(state.logs().len(), length),
            SnapshotLogs::Restore => assert_eq!(state.logs().len(), 1),
        }
    }
}

#[test]
fn restoring_leaves_the_accepted_state_alone() {
    let mut state = funded();
    let snapshot = state.transaction_snapshot();
    state.account(&at(1)).unwrap().set_balance(word(1));
    state.commit_transaction();
    assert_eq!(state.restore_transaction_snapshot(&snapshot, SnapshotLogs::Restore), Ok(()));
    assert_eq!(state.account(&at(1)).unwrap().balance(), word(1));
}

#[test]
fn two_states_have_different_identities() {
    assert_ne!(funded().history.identity, funded().history.identity);
    let state = funded();
    assert_ne!(state.clone().history.identity, state.history.identity);
}

#[test]
fn an_idle_isolated_transaction_changes_nothing() {
    let mut state = funded();
    state.account(&at(1)).unwrap().set_balance(word(50));
    state.account(&at(1)).unwrap().warm();
    state.account(&at(2)).unwrap().mark_destructed();
    state.storage_slot(&at(1), word(1)).unwrap().write(word(6));
    state.storage_slot(&at(1), word(1)).unwrap().warm();
    state.storage(&at(4)).wipe();
    let before = state.clone();
    let pending = state.prepare_isolated_state();
    state.merge_isolated_state(pending);
    assert_eq!(state.accounts, before.accounts);
    assert_eq!(state.storage, before.storage);
    assert_eq!(state.inner.selfdestructs, before.inner.selfdestructs);
    assert_eq!(state.journal(), before.journal());
}

#[test]
fn selfdestructs_on_record_match_the_marks() {
    let mut state = funded();
    state.account(&at(1)).unwrap().mark_destructed();
    let checkpoint = state.checkpoint();
    state.account(&at(1)).unwrap().set_balance(word(2));
    state.account(&at(2)).unwrap().mark_destructed();
    state.account(&at(1)).unwrap().mark_destructed();
    state.rollback(checkpoint, EvmFeatures::empty());
    for address in state.accounts.keys() {
        assert_eq!(
            state.inner.selfdestructs.contains(&address),
            state.accounts.get(&address).unwrap().is_destroyed
        );
    }
    assert!(state.inner.selfdestructs.contains(&at(1)));
    assert!(!state.inner.selfdestructs.contains(&at(2)));
}

#[test]
fn the_accepted_state_can_be_changed_directly() {
    let mut state = funded();
    state.overlay_db_mut().insert_account_info(&at(8), AccountInfo::default().with_balance(word(8)));
    assert_eq!(state.account(&at(8)).unwrap().balance(), word(8));
}

#[test]
fn an_account_on_record_without_a_mark_leaves_the_record_with_its_next_mark() {
    let mut state = funded();
    state.account(&at(1)).unwrap().mark_destructed();
    state.account(&at(2)).unwrap().mark_destructed();
    state.finalize_transaction(&Version::base(SpecId::AMSTERDAM)).unwrap();
    // The account with a balance is on record, and no longer marked.
    assert!(state.inner.selfdestructs.contains(&at(1)));
    assert!(!state.account(&at(1)).unwrap().is_destructed());
    let checkpoint = state.checkpoint();
    state.account(&at(1)).unwrap().set_balance(word(3));
    state.rollback(checkpoint, EvmFeatures::empty());
    assert!(state.inner.selfdestructs.contains(&at(1)));
    state.account(&at(1)).unwrap().mark_destructed();
    state.rollback(checkpoint, EvmFeatures::empty());
    assert!(!state.account(&at(1)).unwrap().is_destructed());
    assert!(!state.inner.selfdestructs.contains(&at(1)));
    assert!(state.inner.selfdestructs.contains(&at(2)));
}

#[test]
fn a_rollback_undoes_changes_across_a_replaced_prewarmed_set() {
    let mut state = funded();
    state.prewarm(&at(1));
    let checkpoint = state.checkpoint();
    state.account(&at(1)).unwrap().set_balance(word(3));
    state.set_prewarm_set(PrewarmSet::new());
    state.storage_slot(&at(1), word(1)).unwrap().write(word(6));
    state.rollback(checkpoint, EvmFeatures::empty());
    assert_eq!(state.account(&at(1)).unwrap().balance(), word(100));
    assert_eq!(state.storage_slot(&at(1), word(1)).unwrap().current(), word(5));
    assert!(!state.prewarm_set().is_warm(&at(1)));
}

#[test]
fn checkpoints_are_equal_where_nothing_was_journaled_or_logged() {
    let mut state = funded();
    let checkpoint = state.checkpoint();
    state.account(&at(1)).unwrap();
    state.prewarm(&at(2));
    assert_eq!(state.checkpoint(), checkpoint);
    state.log(Log::default());
    assert_ne!(state.checkpoint(), checkpoint);
    let _ = state.take_logs();
    assert_eq!(state.checkpoint(), checkpoint);
    state.tstore(&at(1), &word(1), &word(1));
    assert_ne!(state.checkpoint(), checkpoint);
}

#[test]
fn a_state_without_a_drawn_identity_gets_zero() {
    let drawn = B256::with_last_byte(9);
    assert_eq!(identity_from(Some(drawn)), drawn);
    assert_eq!(identity_from(None), B256::zero());
    assert_eq!(State::with_identity(EmptyDB, drawn).history.identity, drawn);
    assert_eq!(funded().snapshot().into_state_as(EmptyDB, drawn).history.identity, drawn);
}

#[test]
fn snapshots_can_be_cloned_and_printed() {
    let mut state = funded();
    state.tstore(&at(1), &word(1), &word(2));
    state.log(Log::default());
    let snapshot = state.snapshot();
    let copy = snapshot.clone();
    assert!(format!("{:?}", copy).contains("StateSnapshot"));
    assert!(format!("{:?}", state).contains("StateInner"));
    let first = snapshot.into_state(EmptyDB);
    let second = copy.into_state(EmptyDB);
    assert_eq!(first.tload(&at(1), &word(1)), word(2));
    assert_eq!(second.tload(&at(1), &word(1)), word(2));
    assert_eq!(first.journal(), second.journal());
    assert_eq!(first.logs(), second.logs());
}

#[test]
fn untracked_reads_come_back_with_a_rollback() {
    let mut state = funded();
    let accounts = [at(1), at(2)];
    let before: Vec<_> =
        accounts.iter().map(|a| state.account_info_untracked(a).unwrap()).collect();
    let slot = state.storage_slot_untracked(&at(1), &word(1)).unwrap();
    let checkpoint = state.checkpoint();
    assert_eq!(state.transfer(&at(1), &at(2), &word(10)), Ok(true));
    state.storage_slot(&at(1), word(1)).unwrap().write(word(8));
    state.storage(&at(1)).wipe_journaled();
    state.storage_slot(&at(1), word(2)).unwrap();
    state.rollback(checkpoint, EvmFeatures::empty());
    let after: Vec<_> =
        accounts.iter().map(|a| state.account_info_untracked(a).unwrap()).collect();
    assert_eq!(after, before);
    assert_eq!(state.storage_slot_untracked(&at(1), &word(1)).unwrap(), slot);
    assert_eq!(state.storage_slot_untracked(&at(1), &word(2)).unwrap(), Word::zero());
}
