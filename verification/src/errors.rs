//! The error taxonomy of the distribution engine.
//!
//! Every validating operation aborts with one of these kinds before any
//! state mutation, so a failed invocation has no observable effect.

use vstd::prelude::*;

verus! {

/// Why an operation was refused.
#[derive(Clone, Copy, Debug, PartialEq, Eq, Structural)]
pub enum ErrorKind {
    /// The token address is already registered.
    DuplicateToken,
    /// The remote metadata query failed, timed out, or returned
    /// undecodable data.
    MetadataFetchFailed,
    /// The token address is not registered.
    UnregisteredToken,
    /// An amount computation would wrap.
    Overflow,
    /// The attached native-currency deposit does not cover storage.
    InsufficientDeposit,
    /// No task matches the given reference, or the task is not yet open.
    UnknownTask,
    /// The account already holds a claim on the referenced campaign.
    AlreadyClaimed,
    /// The task has reached its claim cap.
    TaskExhausted,
    /// An outbound transfer was reported failed.
    TransferFailed,
    /// An inbound message is not well-formed.
    MalformedMessage,
    /// The structured-message hook is disabled in this scope.
    FeatureDisabled,
}

} // verus!
