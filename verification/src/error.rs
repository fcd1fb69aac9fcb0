//! The tagged errors that repository operations surface.

use vstd::prelude::*;

verus! {

/// One error kind per way a repository operation can fail.
///
/// `DecodeFailure` is part of the error model for callers that decode
/// records fetched from an external store; the in-memory store holds
/// typed records, so the operations here never produce it themselves.
#[derive(Clone, Copy, Debug, PartialEq, Eq, Structural)]
pub enum RepoError {
    /// The given identifier string is not a well-formed identifier.
    InvalidIdentifier,
    /// No record matched the given identifier.
    NotFound,
    /// A fetched record did not match the expected shape.
    DecodeFailure,
    /// The underlying store could not complete the operation.
    PersistenceFailure,
    /// The acting user lacks the role the operation demands.
    AccessDenied,
    /// The input was rejected (malformed email, duplicate user).
    ValidationFailure,
}

} // verus!
