use vstd::prelude::*;

verus! {

/// Why an operation was refused. Every business-rule violation is reported
/// with one of these; none of them ends the process.
#[derive(Clone, Copy, Debug, PartialEq, Eq, Structural)]
pub enum Error {
    /// An entity id is unknown.
    NotFound,
    /// An entity with this id exists already.
    AlreadyExists,
    /// The context was joined already.
    AlreadyJoined,
    /// The signer has signed this document already.
    AlreadySigned,
    /// A permission or role check failed.
    Unauthorized,
    /// A malformed id, an out-of-range value or an empty required field.
    InvalidInput,
    /// A funding amount of zero.
    InvalidAmount,
    /// The signer has not consented to this document.
    ConsentRequired,
    /// The milestone is not in a state that accepts this operation.
    NotReady,
    /// The milestone is not approved for execution.
    NotApproved,
    /// The escrow holds less than the milestone pays.
    InsufficientBalance,
    /// An amount would not fit in 128 bits.
    Overflow,
    /// The operation is not available in this kind of context.
    WrongContextKind,
    /// A collaborator call failed; the operation may be retried.
    TemporarilyUnavailable,
}

} // verus!
