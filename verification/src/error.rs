//! Errors of the synchronisation engine.

use vstd::prelude::*;

verus! {

/// Why a push or pull was not carried out.
#[derive(Debug)]
pub enum SyncError {
    InvalidDeviceId,
    DuplicateOperation,
    ConflictDetected,
    RepositoryError,
    ValidationError(String),
}

/// `SyncError` with its message as a sequence of characters.
pub enum SyncErrorView {
    InvalidDeviceId,
    DuplicateOperation,
    ConflictDetected,
    RepositoryError,
    ValidationError(Seq<char>),
}

impl View for SyncError {
    type V = SyncErrorView;

    open spec fn view(&self) -> SyncErrorView {
        match self {
            SyncError::InvalidDeviceId => SyncErrorView::InvalidDeviceId,
            SyncError::DuplicateOperation => SyncErrorView::DuplicateOperation,
            SyncError::ConflictDetected => SyncErrorView::ConflictDetected,
            SyncError::RepositoryError => SyncErrorView::RepositoryError,
            SyncError::ValidationError(m) => SyncErrorView::ValidationError(m@),
        }
    }
}

/// A result of the engine, its error taken by its view.
pub open spec fn result_view<T>(r: Result<T, SyncError>) -> Result<T, SyncErrorView> {
    match r {
        Ok(t) => Ok(t),
        Err(e) => Err(e@),
    }
}

} // verus!
