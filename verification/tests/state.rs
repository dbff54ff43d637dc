//! State across snapshots, rollbacks, isolated transactions and merges.
use alloy_primitives::Log;
use evm2_state::db::{CacheDB, EmptyDB};
use evm2_state::features::{EvmFeatures, SpecId, Version};
use evm2_state::fixed::{Address, Word};
use evm2_state::info::AccountInfo;
use evm2_state::snapshot::StateSnapshot;
use evm2_state::state::State;

fn word(n: u64) -> Word {
    Word::from(n)
}

fn log_at(last_byte: u8) -> Log {
    Log { address: alloy_primitives::Address::with_last_byte(last_byte), ..Default::default() }
}

#[test]
fn clone_preserves_state_and_detaches_database() {
    let address = Address::with_last_byte(42);
    let key = word(1);
    let mut db = CacheDB::default();
    db.insert_account_info(&address, AccountInfo::default());
    db.insert_account_storage(&address, &key, &word(10));
    let mut state = State::new(db);
    state.storage_slot(&address, key).unwrap().write(word(20));
    state.account(&address).unwrap().set_balance(word(5));
    let mut cloned = state.clone();

    let _: &EmptyDB = cloned.initial();
    let _: &CacheDB<EmptyDB> = state.initial();
    assert_eq!(cloned.overlay_db().cache, state.overlay_db().cache);
    assert_eq!(cloned.journal(), state.journal());
    assert_eq!(cloned.account(&address).unwrap().balance(), word(5));
    assert_eq!(cloned.storage_slot(&address, key).unwrap().current(), word(20));

    cloned.storage_slot(&address, key).unwrap().write(word(30));
    cloned.account(&address).unwrap().set_balance(word(6));
    assert_eq!(state.storage_slot(&address, key).unwrap().current(), word(20));
    assert_eq!(state.account(&address).unwrap().balance(), word(5));
}

#[test]
fn clone_with_uses_database_and_preserves_state() {
    let address = Address::with_last_byte(42);
    let mut state = State::new(EmptyDB::default());
    state.tstore(&address, &Word::zero(), &word(1));
    let mut db = CacheDB::default();
    db.insert_account_info(&address, AccountInfo::default());

    let mut cloned = state.clone_with(db);

    assert_eq!(cloned.tload(&address, &Word::zero()), word(1));
    assert!(cloned.account_info_untracked(&address).unwrap().is_some());
}

fn assert_send_sync<T: Send + Sync>() {}

#[test]
fn detached_snapshot_is_send_sync_and_uses_new_database() {
    assert_send_sync::<StateSnapshot>();

    let uncached = Address::with_last_byte(43);
    let state = State::new(EmptyDB::default());
    let snapshot = state.snapshot();

    let mut db = CacheDB::default();
    db.insert_account_info(&uncached, AccountInfo::default().with_balance(word(9)));
    let mut restored = snapshot.into_state(db);
    assert_eq!(restored.account(&uncached).unwrap().balance(), word(9));
}

#[test]
fn set_storage_warm_preserves_loaded_values() {
    let address = Address::with_last_byte(42);
    let key = word(1);
    for prewarmed in [false, true] {
        let mut state = State::new(EmptyDB::default());
        state.set_storage_warm(&address, key, true);
        assert!(!state.storage(&address).is_loaded(&key));
        if prewarmed {
            state.prewarm_storage(&address, &[key, word(2)]);
        }
        let mut slot = state.storage_slot(&address, key).unwrap();
        slot.set(word(7));
        slot.warm();
        let checkpoint = state.checkpoint();
        state.set_storage_warm(&address, key, false);
        assert_eq!(state.storage(&address).is_warm(&key), prewarmed);
        assert_eq!(state.storage(&address).is_warm(&word(2)), prewarmed);
        state.rollback(checkpoint, EvmFeatures::empty());
        let mut slot = state.storage_slot(&address, key).unwrap();
        assert_eq!((slot.original(), slot.current()), (Word::zero(), word(7)));
        assert_eq!(slot.warm(), !prewarmed);
        state.set_storage_warm(&address, key, false);
        state.set_storage_warm(&address, key, true);
        assert!(!state.storage_slot(&address, key).unwrap().warm());
    }
}

#[test]
fn rollback_after_snapshot_restore() {
    // Restoring a snapshot does not rebase active checkpoints. Only entries beyond each saved
    // cursor are reverted, even after the journal and logs regrow.
    for (writes, new_logs, expected, expected_logs) in
        [(0u64, 0u64, 7u64, 1usize), (1, 2, 10, 2), (2, 1, 11, 2), (3, 0, 11, 1)]
    {
        let mut state = State::new(EmptyDB::default());
        let parent = state.checkpoint();
        state.tstore(&Address::zero(), &Word::zero(), &word(7));
        let kept_log: Log = log_at(1);
        state.log(kept_log.clone());
        let snapshot = state.snapshot();
        for slot in 1..=2 {
            state.tstore(&Address::zero(), &word(slot), &word(8));
        }
        state.log(Log::default());
        let child = state.checkpoint();
        state = snapshot.into_state(EmptyDB::default());
        for n in 0..writes {
            state.tstore(&Address::zero(), &Word::zero(), &word(10 + n));
        }
        for n in 0..new_logs {
            state.log(log_at(10 + n as u8));
        }
        assert!(state.accepts(&child));
        state.rollback(child, EvmFeatures::empty());
        assert_eq!(state.tload(&Address::zero(), &Word::zero()), word(expected));
        assert_eq!(state.logs().len(), expected_logs);
        assert_eq!(state.logs()[0], kept_log);
        if expected_logs == 2 {
            assert_eq!(
                state.logs()[1].address,
                alloy_primitives::Address::with_last_byte(10)
            );
        }
        assert!(state.accepts(&parent));
        state.rollback(parent, EvmFeatures::empty());
        assert_eq!(state.tload(&Address::zero(), &Word::zero()), Word::zero());
        assert!(state.logs().is_empty());
    }
}

#[test]
fn journaled_storage_wipe_rolls_back_and_commits() {
    let address = Address::with_last_byte(42);
    let key = word(1);
    let other = word(2);
    let mut db = CacheDB::default();
    db.insert_account_info(&address, AccountInfo::default());
    db.insert_account_storage(&address, &key, &word(7));
    db.insert_account_storage(&address, &other, &word(8));
    let mut state = State::new(db);
    let parent = state.checkpoint();
    state.storage_slot(&address, key).unwrap().write(word(9));
    state.storage_slot(&address, key).unwrap().warm();
    let child = state.checkpoint();

    state.storage(&address).wipe_journaled();
    assert!(state.storage(&address).is_wiped());
    assert_eq!(state.storage_slot(&address, key).unwrap().current(), Word::zero());
    assert_eq!(state.storage_slot(&address, other).unwrap().current(), Word::zero());
    assert!(state.storage(&address).is_warm(&key));
    state.storage_slot(&address, key).unwrap().write(word(11));

    state.rollback(child, EvmFeatures::empty());
    assert!(!state.storage(&address).is_wiped());
    assert_eq!(state.storage_slot(&address, key).unwrap().current(), word(9));
    assert_eq!(state.storage_slot(&address, other).unwrap().current(), word(8));
    assert!(state.storage(&address).is_warm(&key));

    state.rollback(parent, EvmFeatures::empty());
    assert_eq!(state.storage_slot(&address, key).unwrap().current(), word(7));
    assert!(!state.storage(&address).is_warm(&key));

    state.storage(&address).wipe_journaled();
    state.storage_slot(&address, other).unwrap().write(word(12));
    state.commit_transaction();
    assert_eq!(state.storage_slot(&address, key).unwrap().current(), Word::zero());
    assert_eq!(state.storage_slot(&address, other).unwrap().current(), word(12));
}

#[test]
fn isolated_state_resets_originals_and_preserves_parent_metadata() {
    let address = Address::with_last_byte(42);
    let prewarmed = Address::with_last_byte(43);
    let created = Address::with_last_byte(44);
    let destroyed = Address::with_last_byte(45);
    let wiped = Address::with_last_byte(46);
    let child_only = Address::with_last_byte(47);
    let mut parent = State::new(EmptyDB::default());
    parent.account(&address).unwrap().warm();
    parent.prewarm(&prewarmed);
    assert!(parent.account(&prewarmed).unwrap().is_warm());
    {
        let mut created_account = parent.account(&created).unwrap();
        created_account.set_balance(word(1));
        created_account.mark_created();
    }
    parent.account(&destroyed).unwrap().mark_destructed();
    parent.storage(&wiped).wipe();
    let mut slot = parent.storage_slot(&address, Word::zero()).unwrap();
    slot.set(word(7));
    slot.warm();
    parent.tstore(&address, &Word::zero(), &word(9));
    let checkpoint = parent.checkpoint();
    let mut child = State::new(EmptyDB::default());
    child.set_pending_state(parent.prepare_isolated_state());
    assert!(!child.account(&address).unwrap().is_warm());
    assert!(child.account(&prewarmed).unwrap().is_warm());
    assert!(child.account(&created).unwrap().is_created());
    assert!(child.account(&destroyed).unwrap().is_destructed());
    assert!(child.storage(&wiped).is_wiped());
    assert_eq!(child.tload(&address, &Word::zero()), Word::zero());
    let mut slot = child.storage_slot(&address, Word::zero()).unwrap();
    assert_eq!((slot.original(), slot.current()), (word(7), word(7)));
    assert!(!slot.is_warm());
    slot.set(word(8));
    child.storage_slot(&address, word(1)).unwrap().set(word(10));
    child.account(&child_only).unwrap().set_balance(word(1));
    child.storage_slot(&child_only, Word::zero()).unwrap().set(word(1));
    parent.merge_isolated_state(child.take_pending_state());
    assert_eq!(parent.checkpoint(), checkpoint);
    let slot = parent.storage_slot(&address, Word::zero()).unwrap();
    assert_eq!((slot.original(), slot.current()), (Word::zero(), word(8)));
    assert!(slot.is_warm());
    assert_eq!(parent.get_storage(&address, &word(1)), Some(word(10)));
    assert_eq!(parent.tload(&address, &Word::zero()), word(9));
    assert!(parent.accounts.get(&created).unwrap().is_created());
    assert!(parent.inner.selfdestructs.contains(&destroyed));
    assert!(parent.storage.get(&wiped).unwrap().wiped);
    assert_eq!(
        parent.accounts.get(&child_only).unwrap().present.as_ref().unwrap().balance,
        word(1)
    );
    assert_eq!(parent.get_storage(&child_only, &Word::zero()), Some(word(1)));
}

#[test]
fn isolated_state_rebases_account_original_and_preserves_parent_warmth() {
    let address = Address::with_last_byte(42);
    let cold_address = Address::with_last_byte(43);
    let mut parent = State::new(EmptyDB::default());
    parent.account(&address).unwrap().set_balance(word(7));
    parent.account(&cold_address).unwrap().set_balance(word(1));
    assert!(!parent.account(&address).unwrap().is_warm());
    assert!(!parent.account(&cold_address).unwrap().is_warm());
    parent.prewarm(&address);

    let mut child = State::new(EmptyDB::default());
    child.set_pending_state(parent.prepare_isolated_state());
    assert_eq!(
        child.accounts.get(&address).unwrap().original,
        child.accounts.get(&address).unwrap().present
    );
    assert!(child.account(&address).unwrap().is_warm());
    assert!(!child.account(&cold_address).unwrap().is_warm());
    child.account(&cold_address).unwrap().warm();
    child.account(&address).unwrap().set_balance(word(8));
    parent.merge_isolated_state(child.take_pending_state());

    assert!(parent.accounts.get(&address).unwrap().original.is_none());
    assert_eq!(parent.account(&address).unwrap().balance(), word(8));
    assert!(parent.account(&address).unwrap().is_warm());
    assert!(!parent.account(&cold_address).unwrap().is_warm());
}

#[test]
fn isolated_state_reinserts_restored_slot_after_wipe() {
    let address = Address::with_last_byte(42);
    let key = word(1);
    let mut db = CacheDB::default();
    db.insert_account_info(&address, AccountInfo::default().with_balance(word(1)));
    db.insert_account_storage(&address, &key, &word(5));
    let mut parent = State::new(db);
    parent.account(&address).unwrap();
    parent.storage_slot(&address, key).unwrap();
    parent.storage(&address).wipe();

    let mut child = State::new(EmptyDB::default());
    child.set_pending_state(parent.prepare_isolated_state());
    child.storage_slot(&address, key).unwrap().set(word(5));
    parent.merge_isolated_state(child.take_pending_state());
    assert_eq!(parent.get_storage(&address, &key), Some(word(5)));
    parent.commit_transaction();

    assert_eq!(parent.storage_slot_untracked(&address, &key).unwrap(), word(5));
}

#[test]
fn isolated_state_does_not_replay_finalized_eip8246_selfdestruct() {
    let address = Address::with_last_byte(42);
    let key = word(1);
    let mut child = State::new(EmptyDB::default());
    {
        let mut account = child.account(&address).unwrap();
        account.set_balance(word(5));
        account.mark_destructed();
    }
    child.finalize_transaction(&Version::base(SpecId::AMSTERDAM)).unwrap();
    assert!(!child.accounts.get(&address).unwrap().is_destroyed);
    assert!(child.inner.selfdestructs.contains(&address));

    let mut parent = State::new(EmptyDB::default());
    parent.merge_isolated_state(child.take_pending_state());
    assert!(!parent.inner.selfdestructs.contains(&address));
    parent.account(&address).unwrap().set_nonce(1);
    parent.storage_slot(&address, key).unwrap().set(word(9));
    parent.finalize_transaction(&Version::base(SpecId::AMSTERDAM)).unwrap();

    assert_eq!(parent.account(&address).unwrap().nonce(), 1);
    assert_eq!(parent.storage_slot_untracked(&address, &key).unwrap(), word(9));
}

#[test]
fn merge_transaction_account_retains_target_only_slots_and_source_metadata() {
    let address = Address::with_last_byte(42);
    let mut source_db = CacheDB::default();
    source_db.insert_account_storage(&address, &Word::zero(), &word(5));
    let mut target_db = CacheDB::default();
    target_db.insert_account_storage(&address, &Word::zero(), &word(6));
    let mut source = State::new(source_db);
    let mut target = State::new(target_db);
    source.account(&address).unwrap().set_balance(word(17));
    source.account(&address).unwrap().mark_destructed();
    source.account(&address).unwrap().mark_created();
    source.storage_slot(&address, Word::zero()).unwrap().set(word(11));
    source.storage_slot(&address, Word::zero()).unwrap().warm();
    target.account(&address).unwrap().set_balance(word(9));
    target.storage_slot(&address, Word::zero()).unwrap().set(word(99));
    target.storage_slot(&address, word(1)).unwrap().set(word(22));
    target.tstore(&address, &Word::zero(), &word(33));
    let checkpoint = target.checkpoint();
    target.merge_transaction_account_from(&address, &source);
    assert_eq!(target.accounts.get(&address), source.accounts.get(&address));
    assert_eq!(
        target.storage.get(&address).unwrap().slots.get(&Word::zero()).unwrap(),
        source.storage.get(&address).unwrap().slots.get(&Word::zero()).unwrap()
    );
    assert_eq!(target.get_storage(&address, &word(1)), Some(word(22)));
    assert!(target.inner.selfdestructs.contains(&address));
    assert_eq!(target.tload(&address, &Word::zero()), word(33));
    assert_eq!(target.checkpoint(), checkpoint);
    target.storage_slot(&address, Word::zero()).unwrap().set(word(44));
    target.rollback(checkpoint, EvmFeatures::empty());
    assert_eq!(target.get_storage(&address, &Word::zero()), Some(word(11)));
    target.merge_transaction_account_from(&address, &State::new(EmptyDB::default()));
    assert_eq!(target.get_storage(&address, &word(1)), Some(word(22)));
    assert!(target.inner.selfdestructs.contains(&address));
    let mut live = State::new(EmptyDB::default());
    live.account(&address).unwrap().set_balance(word(1));
    target.merge_transaction_account_from(&address, &live);
    assert!(!target.inner.selfdestructs.contains(&address));
}

#[test]
fn merge_transaction_account_reinserts_retained_slots_after_wipe() {
    let address = Address::with_last_byte(42);
    let key = word(1);
    let mut target_db = CacheDB::default();
    target_db.insert_account_storage(&address, &key, &word(22));
    let mut source = State::new(EmptyDB::default());
    let mut target = State::new(target_db);
    source.account(&address).unwrap();
    source.storage(&address).wipe();
    target.storage_slot(&address, key).unwrap();

    target.merge_transaction_account_from(&address, &source);
    assert_eq!(target.get_storage(&address, &key), Some(word(22)));
    target.commit_transaction();

    assert_eq!(target.storage_slot_untracked(&address, &key).unwrap(), word(22));
}

#[test]
fn clears_account_touch_and_storage_warmth() {
    let address = Address::with_last_byte(42);
    let storage_only = Address::with_last_byte(43);
    let mut state = State::new(EmptyDB::default());

    {
        let mut slot = state.storage_slot(&storage_only, Word::zero()).unwrap();
        slot.set(word(1));
        slot.warm();
    }
    state.clear_account_touch_and_storage_warmth(&storage_only);
    assert!(state.accounts.keys().is_empty());
    {
        let mut slot = state.storage_slot(&storage_only, Word::zero()).unwrap();
        assert_eq!(slot.current(), word(1));
        assert!(slot.warm(), "first access after cooling must be cold");
        assert!(!slot.warm(), "the following access must be warm");
    }

    {
        let mut account = state.account(&address).unwrap();
        account.set_balance(word(10));
        account.touch();
        account.warm();
    }
    for key in [Word::zero(), word(1)] {
        let mut slot = state.storage_slot(&address, key).unwrap();
        slot.set(word(7));
        slot.warm();
    }
    state.prewarm_storage_slot(&address, word(1));
    let checkpoint = state.checkpoint();
    state.clear_account_touch_and_storage_warmth(&address);
    assert_eq!(state.checkpoint(), checkpoint);
    assert!(!state.accounts.get(&address).unwrap().is_touched);
    assert!(state.accounts.get(&address).unwrap().is_warm);
    for key in [Word::zero(), word(1)] {
        let slot = state.storage_slot(&address, key).unwrap();
        assert_eq!(slot.is_warm(), key == word(1));
        assert_eq!((slot.original(), slot.current()), (Word::zero(), word(7)));
    }
}
