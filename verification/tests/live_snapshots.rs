//! Restoring transaction snapshots while engine frames are active.
use alloy_primitives::Log;
use evm2_state::db::{CacheDB, EmptyDB};
use evm2_state::features::{SpecId, Version};
use evm2_state::fixed::{Address, Word};
use evm2_state::info::AccountInfo;
use evm2_state::live::{SnapshotEpochMismatch, SnapshotLogs};
use evm2_state::state::State;

fn account() -> Address {
    Address::with_last_byte(0x40)
}

fn state() -> State<CacheDB<EmptyDB>> {
    let mut db = CacheDB::default();
    db.insert_account_info(&account(), AccountInfo::default());
    db.insert_account_storage(&account(), &Word::zero(), &Word::from(5u64));
    State::new(db)
}

fn write(state: &mut State<CacheDB<EmptyDB>>, value: u64) {
    state.storage_slot(&account(), Word::zero()).unwrap().write(Word::from(value));
}

fn value(state: &mut State<CacheDB<EmptyDB>>) -> Word {
    state.storage_slot(&account(), Word::zero()).unwrap().current()
}

fn word(n: u64) -> Word {
    Word::from(n)
}

#[test]
fn newer_frame_revert_retains_restoration_and_ancestor_undo() {
    let mut state = state();
    let features = Version::base(SpecId::CANCUN).features;
    let parent = state.enter_frame();
    write(&mut state, 11);
    let snapshot = state.transaction_snapshot();
    write(&mut state, 22);
    let child = state.enter_frame();
    write(&mut state, 33);
    state.restore_transaction_snapshot(&snapshot, SnapshotLogs::Retain).unwrap();
    // The obsolete child cursor is longer than the restored journal. Its new
    // boundary follows identity, not the accidental numeric length of history.
    state.rollback_frame(child, features);
    assert_eq!(value(&mut state), word(11));
    state.rollback_frame(parent, features);
    assert_eq!(value(&mut state), word(5));
}

#[test]
fn in_bounds_obsolete_cursor_does_not_revert_into_unrelated_history() {
    let mut state = state();
    let features = Version::base(SpecId::CANCUN).features;
    let parent = state.enter_frame();
    write(&mut state, 11);
    let snapshot = state.transaction_snapshot();
    write(&mut state, 22);
    let child = state.enter_frame();
    state.restore_transaction_snapshot(&snapshot, SnapshotLogs::Retain).unwrap();
    // Grow past the old cursor so mere bounds validation would incorrectly pass.
    for value in 30..40 {
        write(&mut state, value);
    }
    state.rollback_frame(child, features);
    assert_eq!(value(&mut state), word(11));
    state.rollback_frame(parent, features);
    assert_eq!(value(&mut state), word(5));
}

#[test]
fn snapshot_from_reverted_child_retains_only_still_active_ancestor_boundaries() {
    let mut state = state();
    let features = Version::base(SpecId::CANCUN).features;
    let parent = state.enter_frame();
    write(&mut state, 11);
    let child = state.enter_frame();
    write(&mut state, 22);
    let snapshot = state.transaction_snapshot();
    state.rollback_frame(child, features);
    assert_eq!(value(&mut state), word(11));
    state.restore_transaction_snapshot(&snapshot, SnapshotLogs::Retain).unwrap();
    assert_eq!(value(&mut state), word(22));
    let new_child = state.enter_frame();
    write(&mut state, 33);
    state.restore_transaction_snapshot(&snapshot, SnapshotLogs::Retain).unwrap();
    write(&mut state, 44);
    state.rollback_frame(new_child, features);
    assert_eq!(value(&mut state), word(22));
    assert_eq!(state.active_frames(), 1);
    state.rollback_frame(parent, features);
    assert_eq!(value(&mut state), word(5));
}

#[test]
fn retained_logs_obey_actual_frame_entry_boundaries() {
    let mut state = state();
    let features = Version::base(SpecId::CANCUN).features;
    let parent = state.enter_frame();
    state.log(Log::default());
    let snapshot = state.transaction_snapshot();
    state.log(Log::default());
    let child = state.enter_frame();
    state.log(Log::default());
    state.restore_transaction_snapshot(&snapshot, SnapshotLogs::Retain).unwrap();
    assert_eq!(state.logs().len(), 3);
    state.log(Log::default());
    state.rollback_frame(child, features);
    assert_eq!(state.logs().len(), 2);
    state.rollback_frame(parent, features);
    assert!(state.logs().is_empty());
}

#[test]
fn restoring_logs_rebases_newer_frame_log_boundary() {
    let mut state = state();
    let features = Version::base(SpecId::CANCUN).features;
    let parent = state.enter_frame();
    state.log(Log::default());
    let snapshot = state.transaction_snapshot();
    state.log(Log::default());
    let child = state.enter_frame();
    state.restore_transaction_snapshot(&snapshot, SnapshotLogs::Restore).unwrap();
    state.log(Log::default());
    state.rollback_frame(child, features);
    assert_eq!(state.logs().len(), 1);
    state.rollback_frame(parent, features);
    assert!(state.logs().is_empty());
}

#[test]
fn snapshots_reject_other_state_or_cleared_transaction_without_partial_mutation() {
    let mut source = state();
    write(&mut source, 11);
    let snapshot = source.transaction_snapshot();
    let mut other = state();
    write(&mut other, 22);
    assert_eq!(
        other.restore_transaction_snapshot(&snapshot, SnapshotLogs::Retain),
        Err(SnapshotEpochMismatch)
    );
    assert_eq!(value(&mut other), word(22));
    source.clear_transaction_state();
    write(&mut source, 33);
    assert_eq!(
        source.restore_transaction_snapshot(&snapshot, SnapshotLogs::Retain),
        Err(SnapshotEpochMismatch)
    );
    assert_eq!(value(&mut source), word(33));
}

#[test]
fn raw_checkpoint_rejected_after_restore_even_when_cursor_is_in_bounds() {
    let mut state = state();
    let raw = state.checkpoint();
    assert!(state.accepts(&raw));
    let snapshot = state.transaction_snapshot();
    state.restore_transaction_snapshot(&snapshot, SnapshotLogs::Retain).unwrap();
    assert!(!state.accepts(&raw));
    assert!(state.accepts(&state.checkpoint()));
}

#[test]
fn raw_checkpoint_rejected_after_transaction_clear() {
    let mut state = state();
    let raw = state.checkpoint();
    state.clear_transaction_state();
    assert!(!state.accepts(&raw));
}
