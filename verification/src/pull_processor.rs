//! Answering a device that asks for the events it has not seen.

use vstd::prelude::*;
use crate::api::{PullRequest, PullResponse};
use crate::error::SyncError;
use crate::repository::Repository;
use crate::repository_spec::{changes_after, entries_for_changes};
use crate::sync_spec::pull_latest;

verus! {

/// Answers pull requests from a repository.
pub struct PullProcessor;

impl PullProcessor {
    /// A pull processor.
    pub fn new() -> (p: PullProcessor) {
        PullProcessor
    }

    /// The events after the request's last seen sequence number, in order,
    /// the stored entries they touch, and the sequence number of the last of
    /// them (the request's own when there is none).
    pub fn process_pull(&self, repo: &Repository, request: &PullRequest) -> (r: Result<
        PullResponse,
        SyncError,
    >)
        ensures
            r matches Ok(p) && p.changes@ == changes_after(
                repo@.changes,
                request.last_seen_sequence,
            ) && p.entries@ == entries_for_changes(repo@.entries, p.changes@) && p.latest_sequence
                == pull_latest(repo@.changes, request.last_seen_sequence),
    {
        let changes = match repo.get_changes_after(request.last_seen_sequence) {
            Ok(c) => c,
            Err(_) => {
                return Err(SyncError::RepositoryError);
            },
        };
        let entries = match repo.get_entries_for_changes(&changes) {
            Ok(e) => e,
            Err(_) => {
                return Err(SyncError::RepositoryError);
            },
        };
        let latest_sequence = if changes.len() == 0 {
            request.last_seen_sequence
        } else {
            changes[changes.len() - 1].sequence
        };
        Ok(PullResponse { entries, changes, latest_sequence })
    }
}

} // verus!
