//! The engine: one repository, with the push and pull processing on it.

use vstd::prelude::*;
use crate::api::{PullRequest, PullResponse, PushRequest, PushResponse};
use crate::error::{result_view, SyncError, SyncErrorView};
use crate::processor::Processor;
use crate::pull_processor::PullProcessor;
use crate::repository::Repository;
use crate::repository_spec::{changes_after, entries_for_changes, RepositoryView};
use crate::sync_spec::{pull_latest, push_all};
use crate::validator::Validator;

verus! {

/// The answer to a push whose events led to `pushed`.
pub open spec fn push_answer(pushed: Result<(), SyncErrorView>) -> Result<PushResponse, SyncErrorView> {
    match pushed {
        Ok(_) => Ok(PushResponse { success: true, latest_sequence: 0 }),
        Err(e) => Err(e),
    }
}

/// The synchronisation engine of a server.
pub struct SyncEngine {
    repository: Repository,
    processor: Processor,
    pull_processor: PullProcessor,
}

impl SyncEngine {
    /// The tables of the engine's repository.
    pub closed spec fn store(&self) -> RepositoryView {
        self.repository@
    }

    /// An engine over `repository`.
    pub fn new(repository: Repository) -> (e: SyncEngine)
        ensures
            e.store() == repository@,
    {
        let processor = Processor::new();
        let pull_processor = PullProcessor::new();
        SyncEngine { repository, processor, pull_processor }
    }

    /// The engine's repository.
    pub fn repository(&self) -> (r: &Repository)
        ensures
            r@ == self.store(),
    {
        &self.repository
    }

    // =====================================================
    // APPLY PUSH
    // =====================================================

    /// Refuses a push from the nil device (nothing is applied); else applies
    /// its events in order and answers success, or the error of the first
    /// event that failed (the events before it stay applied).
    pub fn apply_push(&mut self, request: PushRequest) -> (r: Result<PushResponse, SyncError>)
        ensures
            request.device_id == 0 ==> final(self).store() == old(self).store() && result_view(r)
                == Err::<PushResponse, SyncErrorView>(SyncErrorView::InvalidDeviceId),
            request.device_id != 0 ==> {
                let (after, pushed) = push_all(
                    old(self).store(),
                    request.entries@,
                    request.changes@,
                );
                final(self).store() == after && result_view(r) == push_answer(pushed)
            },
    {
        match Validator::validate_push(&request) {
            Err(e) => {
                return Err(e);
            },
            Ok(()) => {},
        }
        match self.processor.process_push(&mut self.repository, &request) {
            Err(e) => Err(e),
            Ok(()) => Ok(PushResponse { success: true, latest_sequence: 0 }),
        }
    }

    // =====================================================
    // PROCESS PULL
    // =====================================================

    /// The events after the request's last seen sequence number, the stored
    /// entries they touch, and the sequence number to ask from next.
    pub fn process_pull(&self, request: PullRequest) -> (r: Result<PullResponse, SyncError>)
        ensures
            r matches Ok(p) && p.changes@ == changes_after(
                self.store().changes,
                request.last_seen_sequence,
            ) && p.entries@ == entries_for_changes(self.store().entries, p.changes@)
                && p.latest_sequence == pull_latest(self.store().changes, request.last_seen_sequence),
    {
        self.pull_processor.process_pull(&self.repository, &request)
    }
}

} // verus!
