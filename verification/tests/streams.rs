//! The order and contents of streamed changes.
use evm2_state::db::EmptyDB;
use evm2_state::fixed::{Address, Word, B256};
use evm2_state::info::{AccountInfo, Bytecode};
use evm2_state::state::State;
use evm2_state::stream::{
    AccountChangeRef, NoopChangeSink, StateChange, StateChangeSink, StateChangeSource,
    StorageChange,
};

/// A sink that keeps what it takes and fails once it is full.
struct Recorder {
    taken: Vec<StateChange>,
    room: usize,
}

impl Recorder {
    fn keep(&mut self, change: StateChange) -> Result<(), usize> {
        if self.taken.len() == self.room {
            return Err(self.room);
        }
        self.taken.push(change);
        Ok(())
    }
}

impl StateChangeSink for Recorder {
    type Error = usize;

    fn takes(&self, _: StateChange, _: Option<usize>, _: Self) -> bool {
        unreachable!("only contracts speak of this")
    }

    fn bytecode(&mut self, code_hash: B256, code: &Bytecode) -> Result<(), usize> {
        self.keep(StateChange::Bytecode { code_hash, code: code.clone() })
    }

    fn storage_wipe(&mut self, address: Address) -> Result<(), usize> {
        self.keep(StateChange::StorageWipe { address })
    }

    fn storage(&mut self, change: StorageChange) -> Result<(), usize> {
        self.keep(StateChange::Storage(change))
    }

    fn storage_read(&mut self, address: Address, key: Word, value: Word) -> Result<(), usize> {
        self.keep(StateChange::StorageRead { address, key, value })
    }

    fn account(&mut self, change: AccountChangeRef<'_>) -> Result<(), usize> {
        self.keep(StateChange::Account {
            address: change.address,
            original: change.original.cloned(),
            current: change.current.cloned(),
            created: change.created,
            selfdestructed: change.selfdestructed,
        })
    }

    fn account_read(&mut self, address: Address, current: Option<&AccountInfo>) -> Result<(), usize> {
        self.keep(StateChange::AccountRead { address, current: current.cloned() })
    }
}

fn word(n: u64) -> Word {
    Word::from(n)
}

fn at(n: u8) -> Address {
    Address::with_last_byte(n)
}

fn sample() -> State<EmptyDB> {
    let mut state = State::new(EmptyDB::default());
    state.account(&at(1)).unwrap().set_code(B256::with_last_byte(9), Bytecode::new(vec![1]));
    state.storage(&at(1)).wipe();
    state.storage_slot(&at(1), word(1)).unwrap().write(word(2));
    state
}

#[test]
fn changes_come_as_code_then_storage_then_accounts() {
    let state = sample();
    let mut sink = Recorder { taken: Vec::new(), room: 100 };
    assert_eq!(state.visit_transaction_changes(&mut sink), Ok(()));
    let info = AccountInfo {
        nonce: 0,
        balance: Word::zero(),
        code_hash: B256::with_last_byte(9),
        code: Some(Bytecode::new(vec![1])),
    };
    assert_eq!(
        sink.taken,
        vec![
            StateChange::Bytecode {
                code_hash: B256::with_last_byte(9),
                code: Bytecode::new(vec![1]),
            },
            StateChange::StorageWipe { address: at(1) },
            StateChange::Storage(StorageChange {
                address: at(1),
                key: word(1),
                original: Word::zero(),
                current: word(2),
            }),
            StateChange::Account {
                address: at(1),
                original: None,
                current: Some(info),
                created: false,
                selfdestructed: false,
            },
        ]
    );
}

#[test]
fn what_was_only_read_is_streamed_as_read() {
    let mut state = State::new(EmptyDB::default());
    state.account(&at(1)).unwrap();
    state.storage_slot(&at(1), word(1)).unwrap();
    let mut sink = Recorder { taken: Vec::new(), room: 100 };
    assert_eq!(state.visit_transaction_changes(&mut sink), Ok(()));
    assert_eq!(
        sink.taken,
        vec![
            StateChange::StorageRead { address: at(1), key: word(1), value: Word::zero() },
            StateChange::AccountRead { address: at(1), current: None },
        ]
    );
}

#[test]
fn created_and_selfdestructed_accounts_are_written_though_unchanged() {
    let mut state = State::new(EmptyDB::default());
    state.account(&at(1)).unwrap().mark_destructed();
    let mut sink = Recorder { taken: Vec::new(), room: 100 };
    assert_eq!(state.visit_transaction_changes(&mut sink), Ok(()));
    assert_eq!(
        sink.taken,
        vec![StateChange::Account {
            address: at(1),
            original: None,
            current: None,
            created: false,
            selfdestructed: true,
        }]
    );
    let mut state = State::new(EmptyDB::default());
    state.account(&at(1)).unwrap().mark_created();
    let mut sink = Recorder { taken: Vec::new(), room: 100 };
    assert_eq!(state.visit_transaction_changes(&mut sink), Ok(()));
    assert!(matches!(sink.taken[0], StateChange::Account { created: true, .. }));
}

#[test]
fn a_full_sink_stops_the_stream() {
    let mut state = sample();
    let mut sink = Recorder { taken: Vec::new(), room: 2 };
    assert_eq!(state.visit_transaction_changes(&mut sink), Err(2));
    assert_eq!(sink.taken.len(), 2);
    let pending = state.take_pending_state();
    let mut sink = Recorder { taken: Vec::new(), room: 3 };
    assert_eq!(pending.visit(&mut sink), Err(3));
    assert_eq!(pending.visit(&mut NoopChangeSink), Ok(()));
}
