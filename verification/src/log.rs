//! Event logs, carried through as `alloy_primitives` defines them.
use alloy_primitives::Log;
use vstd::prelude::*;

verus! {

/// The log type of `alloy_primitives`. Nothing here looks inside one.
#[verifier::external_type_specification]
#[verifier::external_body]
#[verifier::reject_recursive_types(T)]
pub struct ExLog<T>(alloy_primitives::Log<T>);

/// The topics and data of a log of `alloy_primitives`, carried through as they are.
#[verifier::external_type_specification]
#[verifier::external_body]
pub struct ExLogData(alloy_primitives::LogData);

/// Calls `Log::clone`: a log with the same address, topics and data.
#[verifier::external_body]
fn copy_log(log: &Log) -> (r: Log)
    ensures
        r == *log,
{
    log.clone()
}

/// A copy of a list of logs.
pub(crate) fn copy_logs(logs: &Vec<Log>) -> (r: Vec<Log>)
    ensures
        r@ == logs@,
{
    let mut r: Vec<Log> = Vec::new();
    let mut i: usize = 0;
    while i < logs.len()
        invariant
            i <= logs.len(),
            r@ == logs@.take(i as int),
        decreases logs.len() - i,
    {
        r.push(copy_log(&logs[i]));
        assert(r@ =~= logs@.take(i + 1));
        i += 1;
    }
    assert(r@ =~= logs@);
    r
}

} // verus!
