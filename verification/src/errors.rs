//! Errors of the storage layer.

use vstd::prelude::*;

verus! {

/// A statement that the store refused as a whole.
#[derive(Clone, Copy, Debug, PartialEq, Eq, Structural)]
pub enum DatabaseError {
    /// A primary-key or unique column would hold the same value twice.
    ConstraintViolation,
    /// The change log has used the largest sequence number there is.
    SequenceExhausted,
}

/// Errors of the repository.
#[derive(Clone, Copy, Debug, PartialEq, Eq, Structural)]
pub enum RepositoryError {
    Database(DatabaseError),
    EntryNotFound,
    VersionConflict,
}

impl From<DatabaseError> for RepositoryError {
    /// The repository error for a refused statement.
    fn from(error: DatabaseError) -> (r: RepositoryError) {
        RepositoryError::Database(error)
    }
}

impl vstd::std_specs::convert::FromSpecImpl<DatabaseError> for RepositoryError {
    open spec fn obeys_from_spec() -> bool {
        true
    }

    open spec fn from_spec(error: DatabaseError) -> RepositoryError {
        RepositoryError::Database(error)
    }
}

} // verus!
