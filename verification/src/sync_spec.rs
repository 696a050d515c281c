//! What pushing and pulling do to a repository, event by event.

use vstd::prelude::*;
use crate::changelog::{ChangeLog, OperationType};
use crate::error::SyncErrorView;
use crate::errors::RepositoryError;
use crate::ids::uuid_text;
use crate::models::Entry;
use crate::repository_spec::{changes_after, first_with_id, RepositoryView};

verus! {

/// The message for an event whose entry the request does not carry.
pub open spec fn not_found_message(id: u128) -> Seq<char> {
    "Entry "@ + uuid_text(id) + " not found"@
}

/// The message for an update of an entry that is not stored.
pub open spec fn missing_message(id: u128) -> Seq<char> {
    "Entry "@ + uuid_text(id) + " does not exist"@
}

/// The tables after a push step, and what it answered.
pub type PushOutcome = (RepositoryView, Result<(), SyncErrorView>);

/// A pushed create, whatever the log holds: the first entry of the request
/// with the event's entity id is stored together with the event, in one
/// transaction; an event without its entry is a validation error, and a
/// refused transaction a repository error.
pub open spec fn push_create(v: RepositoryView, entries: Seq<Entry>, c: ChangeLog) -> PushOutcome {
    match first_with_id(entries, c.entity_id) {
        None => (v, Err(SyncErrorView::ValidationError(not_found_message(c.entity_id)))),
        Some(e) => {
            let (after, r) = v.remote_create(e, c);
            (
                after,
                if r is Ok {
                    Ok(())
                } else {
                    Err(SyncErrorView::RepositoryError)
                },
            )
        },
    }
}

/// A pushed update, whatever the log holds: the first entry of the request
/// with the event's entity id overwrites the stored one, with the event, in
/// one transaction; a stale version is a conflict, a missing request entry
/// or stored entry a validation error, any other refusal a repository error.
pub open spec fn push_update(v: RepositoryView, entries: Seq<Entry>, c: ChangeLog) -> PushOutcome {
    match first_with_id(entries, c.entity_id) {
        None => (v, Err(SyncErrorView::ValidationError(not_found_message(c.entity_id)))),
        Some(e) => {
            let (after, r) = v.remote_update(e, c);
            (
                after,
                match r {
                    Ok(_) => Ok(()),
                    Err(RepositoryError::VersionConflict) => Err(SyncErrorView::ConflictDetected),
                    Err(RepositoryError::EntryNotFound) => Err(
                        SyncErrorView::ValidationError(missing_message(c.entity_id)),
                    ),
                    Err(_) => Err(SyncErrorView::RepositoryError),
                },
            )
        },
    }
}

/// A pushed delete, whatever the log holds: the stored entry and the event,
/// in one transaction; an entry that is already gone counts as done (and
/// nothing is written).
pub open spec fn push_delete(v: RepositoryView, c: ChangeLog) -> PushOutcome {
    let (after, r) = v.remote_delete(c);
    (
        after,
        match r {
            Ok(_) => Ok(()),
            Err(RepositoryError::EntryNotFound) => Ok(()),
            Err(_) => Err(SyncErrorView::RepositoryError),
        },
    )
}

/// One pushed event, with the request's entries: an event already in the
/// log is skipped; otherwise it is dispatched on its kind.
pub open spec fn push_change(v: RepositoryView, entries: Seq<Entry>, c: ChangeLog) -> PushOutcome {
    if v.has_operation(c.operation_id) {
        (v, Ok(()))
    } else {
        match c.operation {
            OperationType::Create => push_create(v, entries, c),
            OperationType::Update => push_update(v, entries, c),
            OperationType::Delete => push_delete(v, c),
        }
    }
}

/// The pushed events in order, stopping at the first that fails (the
/// events before it stay applied).
pub open spec fn push_all(v: RepositoryView, entries: Seq<Entry>, changes: Seq<ChangeLog>) -> PushOutcome
    decreases changes.len(),
{
    if changes.len() == 0 {
        (v, Ok(()))
    } else {
        let (before, r) = push_all(v, entries, changes.drop_last());
        if r is Ok {
            push_change(before, entries, changes.last())
        } else {
            (before, r)
        }
    }
}

/// The sequence number a device should ask from after pulling past
/// `sequence`: that of the last event it received, or `sequence` when it
/// received none.
pub open spec fn pull_latest(changes: Seq<ChangeLog>, sequence: i64) -> i64 {
    let after = changes_after(changes, sequence);
    if after.len() == 0 {
        sequence
    } else {
        after.last().sequence
    }
}

/// Once a push has failed, the later events do not change its outcome.
pub proof fn lemma_push_all_stops(v: RepositoryView, entries: Seq<Entry>, changes: Seq<ChangeLog>, k: int)
    requires
        0 <= k <= changes.len(),
        push_all(v, entries, changes.take(k)).1 is Err,
    ensures
        push_all(v, entries, changes) == push_all(v, entries, changes.take(k)),
    decreases changes.len(),
{
    if k == changes.len() {
        assert(changes.take(k) =~= changes);
    } else {
        let init = changes.drop_last();
        assert(init.take(k) =~= changes.take(k));
        lemma_push_all_stops(v, entries, init, k);
    }
}

} // verus!
