//! The error taxonomy of the queue engine.

use vstd::prelude::*;

verus! {

/// Everything a queue operation can fail with.
///
/// Validation failures (`QueueNotFound`, `QueueAlreadyExists`,
/// `InvalidParameter`, `PayloadTooLarge`, `MessageNotFound`) are detected
/// before any mutation: an operation that returns one of them leaves the
/// namespace exactly as it was. `StoreUnavailable` and `ProtocolViolation`
/// are never produced by the verified engine itself; they are reserved for
/// a binding that talks to a real store, for connection failures and for
/// malformed records found in shared state.
#[derive(Clone, Copy, Debug, PartialEq, Eq, Structural)]
pub enum RsmqError {
    QueueNotFound,
    QueueAlreadyExists,
    InvalidParameter,
    PayloadTooLarge,
    MessageNotFound,
    StoreUnavailable,
    ProtocolViolation,
}

} // verus!
