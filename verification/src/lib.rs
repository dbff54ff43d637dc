//! Mutable state of an Ethereum virtual machine, verified with Verus.
//!
//! A [`state::State`] has three layers: a database, the state accepted over it, and the layer of the
//! transaction in flight with its revert journal. [`model::TxView`] says what the transaction layer
//! holds and what each step does to it; the contracts of the operations speak of it.
//!
//! The laws say what the operations do in terms of accounts, slots and marks. [`handle_laws`],
//! [`storage_laws`], [`state_laws`] and [`reading_laws`] go operation by operation; [`value_laws`],
//! [`lifetime_laws`], [`acceptance_laws`], [`isolation_laws`] and [`rollback_laws`] follow value,
//! the end of a transaction, its acceptance, isolated transactions and rollbacks; [`stream_laws`]
//! and [`word_laws`] are on what is handed to a database and on words. What holds across any number
//! of operations is proved in [`reversal`], [`laws`], [`live_laws`], [`transition_laws`] and
//! [`bal_laws`].
pub mod acceptance_laws;
pub mod account;
pub mod account_handle;
pub mod bal;
pub mod bal_laws;
pub mod commit;
pub mod db;
pub mod features;
pub mod finalize;
pub mod fixed;
pub mod handle_laws;
pub mod info;
pub mod isolate;
pub mod isolation_laws;
pub mod journal;
pub mod laws;
pub mod lifetime_laws;
pub mod live;
pub mod live_laws;
pub mod log;
pub mod map;
pub mod model;
pub mod pending;
pub mod prewarm;
pub mod reading_laws;
pub mod reversal;
pub mod rollback;
pub mod rollback_laws;
pub mod snapshot;
pub mod state;
pub mod state_laws;
pub mod storage;
pub mod storage_handle;
pub mod storage_laws;
pub mod stream;
pub mod stream_laws;
pub mod transient;
pub mod transition_laws;
pub mod value;
pub mod value_laws;
pub mod word_laws;
