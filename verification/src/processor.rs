//! Applying the events that a device pushes.

use vstd::prelude::*;
use crate::api::PushRequest;
use crate::changelog::{ChangeLog, OperationType};
use crate::error::{result_view, SyncError, SyncErrorView};
use crate::errors::RepositoryError;
use crate::ids::uuid_to_string;
use crate::models::Entry;
use crate::repository::Repository;
use crate::repository_spec::first_with_id;
use crate::sync_spec::{
    lemma_push_all_stops, missing_message, not_found_message, push_all, push_change, push_create,
    push_delete, push_update,
};

verus! {

/// Applies pushed events to a repository.
pub struct Processor;

/// The position of the first entry of `entries` with id `id`.
fn first_entry_index(entries: &Vec<Entry>, id: u128) -> (r: Option<usize>)
    ensures
        match r {
            Some(i) => i < entries@.len() && first_with_id(entries@, id) == Some(entries@[i as int]),
            None => first_with_id(entries@, id) is None,
        },
{
    let ghost s = entries@;
    let mut i: usize = 0;
    assert(s.skip(0) =~= s);
    while i < entries.len()
        invariant
            s == entries@,
            i <= s.len(),
            first_with_id(s, id) == first_with_id(s.skip(i as int), id),
        decreases s.len() - i,
    {
        assert(s.skip(i as int)[0] == s[i as int]);
        if entries[i].id == id {
            return Some(i);
        }
        assert(s.skip(i as int).drop_first() =~= s.skip(i + 1));
        i = i + 1;
    }
    assert(s.skip(i as int).len() == 0);
    None
}

/// "Entry <id> not found".
fn not_found(id: u128) -> (m: String)
    ensures
        m@ == not_found_message(id),
{
    let mut m = String::from_str("Entry ");
    let text = uuid_to_string(id);
    m.append(text.as_str());
    m.append(" not found");
    m
}

/// "Entry <id> does not exist".
fn missing(id: u128) -> (m: String)
    ensures
        m@ == missing_message(id),
{
    let mut m = String::from_str("Entry ");
    let text = uuid_to_string(id);
    m.append(text.as_str());
    m.append(" does not exist");
    m
}

impl Processor {
    /// A processor.
    pub fn new() -> (p: Processor) {
        Processor
    }

    /// Applies the events of `request` in order, with its entries; stops at
    /// the first event that fails and returns its error (the events before
    /// it stay applied).
    pub fn process_push(&self, repo: &mut Repository, request: &PushRequest) -> (r: Result<
        (),
        SyncError,
    >)
        ensures
            (final(repo)@, result_view(r)) == push_all(
                old(repo)@,
                request.entries@,
                request.changes@,
            ),
    {
        let ghost cs = request.changes@;
        let mut i: usize = 0;
        while i < request.changes.len()
            invariant
                cs == request.changes@,
                i <= cs.len(),
                (repo@, Ok::<(), SyncErrorView>(())) == push_all(
                    old(repo)@,
                    request.entries@,
                    cs.take(i as int),
                ),
            decreases cs.len() - i,
        {
            assert(cs.take(i + 1).drop_last() =~= cs.take(i as int));
            let r = self.process_change(repo, request, &request.changes[i]);
            match r {
                Err(e) => {
                    proof {
                        lemma_push_all_stops(old(repo)@, request.entries@, cs, i + 1);
                    }
                    return Err(e);
                },
                Ok(()) => {},
            }
            i = i + 1;
        }
        assert(cs.take(cs.len() as int) =~= cs);
        Ok(())
    }

    /// Applies one event: skipped when its operation id is already logged,
    /// else dispatched on its kind.
    fn process_change(&self, repo: &mut Repository, request: &PushRequest, change: &ChangeLog) -> (r:
        Result<(), SyncError>)
        ensures
            (final(repo)@, result_view(r)) == push_change(old(repo)@, request.entries@, *change),
    {
        match repo.operation_exists(change.operation_id) {
            Err(_) => {
                return Err(SyncError::RepositoryError);
            },
            Ok(true) => {
                return Ok(());
            },
            Ok(false) => {},
        }
        match change.operation {
            OperationType::Create => self.process_create(repo, request, change),
            OperationType::Update => self.process_update(repo, request, change),
            OperationType::Delete => self.process_delete(repo, request, change),
        }
    }

    /// A create: stores the request's entry for the event, with the event.
    fn process_create(&self, repo: &mut Repository, request: &PushRequest, change: &ChangeLog) -> (r:
        Result<(), SyncError>)
        ensures
            (final(repo)@, result_view(r)) == push_create(old(repo)@, request.entries@, *change),
    {
        let i = match first_entry_index(&request.entries, change.entity_id) {
            Some(i) => i,
            None => {
                return Err(SyncError::ValidationError(not_found(change.entity_id)));
            },
        };
        match repo.apply_remote_create(&request.entries[i], change) {
            Ok(_) => Ok(()),
            Err(_) => Err(SyncError::RepositoryError),
        }
    }

    /// An update: overwrites the stored entry with the request's entry for
    /// the event, unless the stored one is newer.
    fn process_update(&self, repo: &mut Repository, request: &PushRequest, change: &ChangeLog) -> (r:
        Result<(), SyncError>)
        ensures
            (final(repo)@, result_view(r)) == push_update(old(repo)@, request.entries@, *change),
    {
        let i = match first_entry_index(&request.entries, change.entity_id) {
            Some(i) => i,
            None => {
                return Err(SyncError::ValidationError(not_found(change.entity_id)));
            },
        };
        match repo.apply_remote_update(&request.entries[i], change) {
            Ok(_) => Ok(()),
            Err(RepositoryError::VersionConflict) => Err(SyncError::ConflictDetected),
            Err(RepositoryError::EntryNotFound) => Err(
                SyncError::ValidationError(missing(change.entity_id)),
            ),
            Err(_) => Err(SyncError::RepositoryError),
        }
    }

    /// A delete: removes the stored entry; one already gone counts as done.
    fn process_delete(&self, repo: &mut Repository, _request: &PushRequest, change: &ChangeLog) -> (r:
        Result<(), SyncError>)
        ensures
            (final(repo)@, result_view(r)) == push_delete(old(repo)@, *change),
    {
        match repo.apply_remote_delete(change) {
            Ok(_) => Ok(()),
            Err(RepositoryError::EntryNotFound) => Ok(()),
            Err(_) => Err(SyncError::RepositoryError),
        }
    }
}

} // verus!
