//! The error taxonomy of the store.

use vstd::prelude::*;

verus! {

/// What can go wrong in the store. A per-key miss is not an error: it is a
/// normal terminal outcome delivered through the result channel.
#[derive(Clone, Copy, Debug, PartialEq, Eq, Structural)]
pub enum StoreError {
    /// The remote client's batch call itself failed (connection, auth).
    /// Tagged distinctly so upstream retry logic can tell a retryable
    /// network fault from corrupt data.
    Network,
    /// A tier failed to flush its buffered writes.
    FlushFailed,
    /// A helper that expects exactly one terminal outcome saw zero or more
    /// than one.
    NotSingle,
    /// A write needed a local history tier but none is configured.
    NoLocalHistoryStore,
    /// A delta with a non-trivial base was handed to a store that only
    /// accepts whole objects.
    DeltaBaseUnsupported,
    /// A required key was absent from every eligible tier.
    KeyNotFound,
    /// A value was asked for its content piece but holds none.
    NoContent,
}

impl StoreError {
    /// A short description of the error.
    pub fn describe(&self) -> (r: &'static str)
        ensures
            r@.len() > 0,
    {
        let r: &'static str = match self {
            StoreError::Network => "network failure in the remote client batch call",
            StoreError::FlushFailed => "a tier failed to flush",
            StoreError::NotSingle => "expected exactly one terminal outcome",
            StoreError::NoLocalHistoryStore => "no local history store configured",
            StoreError::DeltaBaseUnsupported => "deltas with a non-trivial base are not supported",
            StoreError::KeyNotFound => "key not found in any eligible tier",
            StoreError::NoContent => "no content available",
        };
        proof {
            reveal_strlit("network failure in the remote client batch call");
            reveal_strlit("a tier failed to flush");
            reveal_strlit("expected exactly one terminal outcome");
            reveal_strlit("no local history store configured");
            reveal_strlit("deltas with a non-trivial base are not supported");
            reveal_strlit("key not found in any eligible tier");
            reveal_strlit("no content available");
        }
        r
    }
}

} // verus!
