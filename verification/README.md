# evm2_state

Mutable state of an Ethereum virtual machine: a database, the state accepted over it, and the layer
of the transaction in flight with its revert journal. Everything under `src/` is verified with Verus.

## Layout

- `fixed`, `map`, `info`, `features`, `log`: words and addresses, maps and sets keyed by them,
  account contents, protocol revisions, logs.
- `account`, `storage`, `journal`, `prewarm`: the parts of the transaction layer.
- `model`: what the transaction layer holds, and what each step does to it. The contracts speak of
  `TxView` and its functions.
- `stream`, `bal`, `db`, `commit`: streams of state changes, block access lists, databases, and
  folding a transaction into the accepted state.
- `state`, `account_handle`, `storage_handle`, `transient`, `value`, `rollback`, `finalize`,
  `pending`, `isolate`, `snapshot`, `live`: `State` and its operations.
- `reversal`, `laws`, `live_laws`, `transition_laws`, `bal_laws`: what holds across operations, as
  public proof functions named `law_...`.

## What is taken on trust

The hash tables, the log type, the random identity of a state and the empty code hash come from
`alloy_primitives`, sharing from `std::sync::Arc`. The functions marked `external_body` say what is
relied on; they are in `map`, `log`, `info` and `state`. Types outside this crate that implement
`Database` or `StateChangeSink` are relied on to meet the contracts of those traits.

A new state draws an identity from the system's random number generator. Where that generator fails,
the identity is zero, and the state is not told from others for which it failed too.
`State::with_identity` and `StateSnapshot::into_state_as` take an identity instead.

## Checkpoints, frames and snapshots

`State::checkpoint` and `State::rollback` work within one history. Restoring a transaction snapshot
and clearing the transaction replace the history, and `State::accepts` says whether a checkpoint
still belongs to it. Engine frames registered with `State::enter_frame` stay valid through a
restored snapshot: their boundaries follow the frame, not the length of the journal.
