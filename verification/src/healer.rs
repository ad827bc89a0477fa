//! Decisions of the replica-healing schedule: when the loop stops, and which
//! argument combinations the daemon refuses before starting.

use vstd::prelude::*;

verus! {

/// The healing loop stops exactly when a configured iteration limit is
/// passed; with no limit it never stops on its own.
pub fn healing_should_stop(count: u64, iter_limit: Option<u64>) -> (r: bool)
    ensures
        r == (iter_limit matches Some(l) && count > l),
{
    match iter_limit {
        Some(l) => count > l,
        None => false,
    }
}

/// Draining the queue without healing is refused unless a key restriction
/// narrows what is drained.
pub fn validate_healer_args(drain_only: bool, has_blobstore_key: bool) -> (r: Result<
    (),
    &'static str,
>)
    ensures
        r is Err <==> drain_only && !has_blobstore_key,
        r matches Err(m) ==> m@ == "Missing --blobstore-key-like restriction for --drain-only"@,
{
    if drain_only && !has_blobstore_key {
        Err("Missing --blobstore-key-like restriction for --drain-only")
    } else {
        Ok(())
    }
}

} // verus!
