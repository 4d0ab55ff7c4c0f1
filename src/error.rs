//! Why a call into the library failed.
use vstd::prelude::*;

verus! {

/// The ways in which a call can fail. A failed call changes no state.
#[derive(Clone, Copy, Debug, PartialEq, Eq, Structural)]
pub enum Error {
    /// Not authorized to store the given data.
    NotAuthorized,
    /// The item to renew is not found.
    RenewedNotFound,
    /// Attempted to store an empty blob.
    EmptyTransaction,
    /// No proof is expected in this block.
    UnexpectedProof,
    /// The proof failed verification.
    InvalidProof,
    /// The proof cannot be checked because the index of the target block is missing.
    MissingStateData,
    /// A proof was already checked in this block.
    DoubleCheck,
    /// The blob is larger than the configured maximum.
    TransactionTooLarge,
    /// The block already holds the maximum number of items.
    TooManyTransactions,
    /// Attempted to store outside of block execution.
    BadContext,
    /// The expiry block already holds the maximum number of authorizations.
    TooManyAuthorizations,
    /// The caller's origin is not allowed to make this call.
    BadOrigin,
    /// An expiry block number overflowed.
    Overflow,
}

} // verus!
