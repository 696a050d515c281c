//! What the repository's statements do, stated over plain rows and fields.

use vstd::prelude::*;
use crate::changelog::{ChangeLog, OperationType};
use crate::errors::{DatabaseError, RepositoryError};
use crate::models::Entry;
use crate::repository_spec::{
    entries_for_changes, first_with_id, lemma_first_with_id, lemma_first_with_id_unique,
    lemma_without_id, lists_id, RepositoryView,
};
use crate::sync_spec::push_change;

verus! {

/// The ids of `entries` are pairwise distinct.
pub open spec fn ids_unique(entries: Seq<Entry>) -> bool {
    forall|i: int, j: int|
        0 <= i < j < entries.len() ==> (#[trigger] entries[i]).id != (#[trigger] entries[j]).id
}

/// No event of `changes` carries `operation_id`.
pub open spec fn unlogged(changes: Seq<ChangeLog>, operation_id: u128) -> bool {
    forall|i: int| 0 <= i < changes.len() ==> (#[trigger] changes[i]).operation_id != operation_id
}

// ---------------------------------------------------------------------
// Entries returned with pulled events
// ---------------------------------------------------------------------

/// The entries sent with a pull: every stored entry that one of the events
/// touches is in them, each entry at most once, and nothing else (each is a
/// stored entry that some event touches).
pub proof fn law_pulled_entries_are_the_touched_entries(entries: Seq<Entry>, changes: Seq<ChangeLog>)
    requires
        ids_unique(entries),
    ensures
        forall|j: int, k: int|
            0 <= j < entries.len() && 0 <= k < changes.len() && (#[trigger] changes[k]).entity_id
                == (#[trigger] entries[j]).id ==> entries_for_changes(entries, changes).contains(
                entries[j],
            ),
        forall|a: int, b: int|
            0 <= a < b < entries_for_changes(entries, changes).len() ==> (
            #[trigger] entries_for_changes(entries, changes)[a]).id != (
            #[trigger] entries_for_changes(entries, changes)[b]).id,
        forall|m: int|
            0 <= m < entries_for_changes(entries, changes).len() ==> entries.contains(
                #[trigger] entries_for_changes(entries, changes)[m],
            ) && exists|k: int|
                0 <= k < changes.len() && (#[trigger] changes[k]).entity_id
                    == entries_for_changes(entries, changes)[m].id,
    decreases changes.len(),
{
    let res = entries_for_changes(entries, changes);
    if changes.len() > 0 {
        let init = changes.drop_last();
        let last = changes.last();
        let id = last.entity_id;
        let rest = entries_for_changes(entries, init);
        law_pulled_entries_are_the_touched_entries(entries, init);
        lemma_first_with_id(entries, id);
        // elements of `rest` stay in `res`, at the same positions
        assert(res.len() >= rest.len());
        assert forall|m: int| 0 <= m < rest.len() implies res[m] == rest[m] by {}
        // completeness
        assert forall|j: int, k: int|
            0 <= j < entries.len() && 0 <= k < changes.len() && (#[trigger] changes[k]).entity_id
                == (#[trigger] entries[j]).id implies res.contains(entries[j]) by {
            if k < init.len() {
                assert(init[k] == changes[k]);
                assert(init[k].entity_id == entries[j].id);
                assert(rest.contains(entries[j]));
                let m = choose|m: int| 0 <= m < rest.len() && rest[m] == entries[j];
                assert(res[m] == entries[j]);
            } else {
                assert(changes[k] == last);
                lemma_first_with_id_unique(entries, id, j);
                if lists_id(rest, id) {
                    let m = choose|m: int| 0 <= m < rest.len() && (#[trigger] rest[m]).id == id;
                    assert(entries.contains(rest[m]));
                    let j2 = choose|j2: int| 0 <= j2 < entries.len() && entries[j2] == rest[m];
                    if j2 != j {
                        if j2 < j {
                            assert(entries[j2].id != entries[j].id);
                        } else {
                            assert(entries[j].id != entries[j2].id);
                        }
                    }
                    assert(res[m] == entries[j]);
                } else {
                    assert(res[rest.len() as int] == entries[j]);
                }
            }
        }
        // each entry once
        assert forall|a: int, b: int| 0 <= a < b < res.len() implies (#[trigger] res[a]).id != (
        #[trigger] res[b]).id by {
            if b < rest.len() {
                assert(res[a] == rest[a] && res[b] == rest[b]);
            } else {
                assert(res[a] == rest[a]);
                assert(!lists_id(rest, id));
                assert(res[b].id == id);
                if rest[a].id == id {
                    assert(lists_id(rest, id));
                }
            }
        }
        // nothing else
        assert forall|m: int| 0 <= m < res.len() implies entries.contains(#[trigger] res[m])
            && exists|k: int| 0 <= k < changes.len() && (#[trigger] changes[k]).entity_id
            == res[m].id by {
            if m < rest.len() {
                assert(res[m] == rest[m]);
                let k = choose|k: int| 0 <= k < init.len() && (#[trigger] init[k]).entity_id
                    == rest[m].id;
                assert(changes[k] == init[k]);
            } else {
                let e = first_with_id(entries, id).unwrap();
                assert(res[m] == e);
                assert(changes[changes.len() - 1].entity_id == res[m].id);
            }
        }
    }
}

// ---------------------------------------------------------------------
// Updates
// ---------------------------------------------------------------------

/// An update statement writes the incoming version, title, content and
/// update time into every row with the incoming id, keeps each such row's
/// id, device and creation time, and leaves every other row as it was.
pub proof fn law_update_writes_the_incoming_fields(v: RepositoryView, e: Entry)
    ensures
        v.update_rows(e).entries.len() == v.entries.len(),
        v.update_rows(e).changes == v.changes,
        v.update_rows(e).sync_states == v.sync_states,
        v.update_rows(e).last_sequence == v.last_sequence,
        forall|i: int|
            0 <= i < v.entries.len() && (#[trigger] v.entries[i]).id == e.id ==> {
                let r = v.update_rows(e).entries[i];
                &&& r.id == v.entries[i].id
                &&& r.version == e.version
                &&& r.title == e.title
                &&& r.content == e.content
                &&& r.updated_at == e.updated_at
                &&& r.device_id == v.entries[i].device_id
                &&& r.created_at == v.entries[i].created_at
            },
        forall|i: int|
            0 <= i < v.entries.len() && (#[trigger] v.entries[i]).id != e.id ==> v.update_rows(
                e,
            ).entries[i] == v.entries[i],
{
}

/// An update from another device of a stored entry, whose version is not
/// below the stored one, with an operation id not yet logged and sequence
/// numbers left, succeeds: the stored row takes the incoming version, title,
/// content and update time, every other row stays, and the event is logged
/// under the next sequence number. A lower incoming version is refused as a
/// conflict, and a missing entry as not found; both change nothing.
pub proof fn law_remote_update_applies_any_version_not_below(
    v: RepositoryView,
    e: Entry,
    c: ChangeLog,
    j: int,
)
    requires
        v.wf(),
        0 <= j < v.entries.len(),
        v.entries[j].id == e.id,
    ensures
        e.version < v.entries[j].version ==> v.remote_update(e, c) == (
            v,
            Err::<(), RepositoryError>(RepositoryError::VersionConflict),
        ),
        (e.version >= v.entries[j].version && unlogged(v.changes, c.operation_id)
            && v.last_sequence < i64::MAX) ==> {
            let (after, r) = v.remote_update(e, c);
            &&& r is Ok
            &&& after.entries.len() == v.entries.len()
            &&& after.entries[j].id == e.id
            &&& after.entries[j].version == e.version
            &&& after.entries[j].title == e.title
            &&& after.entries[j].content == e.content
            &&& after.entries[j].updated_at == e.updated_at
            &&& after.entries[j].device_id == v.entries[j].device_id
            &&& after.entries[j].created_at == v.entries[j].created_at
            &&& forall|i: int| 0 <= i < v.entries.len() && i != j ==> #[trigger] after.entries[i]
                == v.entries[i]
            &&& after.changes.len() == v.changes.len() + 1
            &&& after.changes[v.changes.len() as int].operation_id == c.operation_id
            &&& after.changes[v.changes.len() as int].sequence == v.last_sequence + 1
        },
{
    lemma_first_with_id_unique(v.entries, e.id, j);
    law_update_writes_the_incoming_fields(v, e);
    if e.version >= v.entries[j].version && unlogged(v.changes, c.operation_id) && v.last_sequence
        < i64::MAX {
        let mid = v.update_rows(e);
        assert(!mid.has_operation(c.operation_id));
        assert forall|i: int| 0 <= i < v.entries.len() && i != j implies #[trigger] mid.entries[i]
            == v.entries[i] by {
            if v.entries[i].id == e.id {
                if i < j {
                    assert(v.entries[i].id != v.entries[j].id);
                } else {
                    assert(v.entries[j].id != v.entries[i].id);
                }
            }
        }
    }
}

/// An update from another device of an entry that is not stored is refused
/// as not found and changes nothing.
pub proof fn law_remote_update_of_a_missing_entry(v: RepositoryView, e: Entry, c: ChangeLog)
    requires
        forall|i: int| 0 <= i < v.entries.len() ==> (#[trigger] v.entries[i]).id != e.id,
    ensures
        v.remote_update(e, c) == (v, Err::<(), RepositoryError>(RepositoryError::EntryNotFound)),
{
    lemma_first_with_id(v.entries, e.id);
}

// ---------------------------------------------------------------------
// Deletes
// ---------------------------------------------------------------------

/// A delete from another device of a stored entry, with an operation id not
/// yet logged and sequence numbers left, succeeds whichever device sends it:
/// no row with that id is left, every other row stays, and the event is
/// logged. A delete of an entry that is not stored is refused as not found
/// and changes nothing.
pub proof fn law_remote_delete_removes_a_stored_entry(v: RepositoryView, c: ChangeLog)
    ensures
        (forall|i: int| 0 <= i < v.entries.len() ==> (#[trigger] v.entries[i]).id != c.entity_id)
            ==> v.remote_delete(c) == (
            v,
            Err::<(), RepositoryError>(RepositoryError::EntryNotFound),
        ),
        ((exists|i: int| 0 <= i < v.entries.len() && (#[trigger] v.entries[i]).id == c.entity_id)
            && unlogged(v.changes, c.operation_id) && v.last_sequence < i64::MAX) ==> {
            let (after, r) = v.remote_delete(c);
            &&& r is Ok
            &&& forall|i: int|
                0 <= i < after.entries.len() ==> (#[trigger] after.entries[i]).id != c.entity_id
            &&& forall|i: int|
                0 <= i < v.entries.len() && (#[trigger] v.entries[i]).id != c.entity_id
                    ==> after.entries.contains(v.entries[i])
            &&& after.changes.len() == v.changes.len() + 1
            &&& after.changes[v.changes.len() as int].operation_id == c.operation_id
            &&& after.changes[v.changes.len() as int].entity_id == c.entity_id
        },
{
    lemma_first_with_id(v.entries, c.entity_id);
    lemma_without_id(v.entries, c.entity_id);
    let mid = v.delete_rows(c.entity_id);
    assert(mid.changes == v.changes);
    if unlogged(v.changes, c.operation_id) {
        assert(!mid.has_operation(c.operation_id));
    }
    if exists|i: int| 0 <= i < v.entries.len() && (#[trigger] v.entries[i]).id == c.entity_id {
        let i = choose|i: int| 0 <= i < v.entries.len() && (#[trigger] v.entries[i]).id == c.entity_id;
        assert(first_with_id(v.entries, c.entity_id) is Some);
    }
}

// ---------------------------------------------------------------------
// Inserts
// ---------------------------------------------------------------------

/// Inserting an entry succeeds exactly when no stored row has its id (no
/// other column is a key): the row is appended and nothing else changes;
/// otherwise the statement is refused and nothing changes.
pub proof fn law_insert_refuses_only_a_stored_id(v: RepositoryView, e: Entry)
    ensures
        (forall|i: int| 0 <= i < v.entries.len() ==> (#[trigger] v.entries[i]).id != e.id) ==> {
            let (after, r) = v.insert_entry(e);
            &&& r is Ok
            &&& after.entries == v.entries.push(e)
            &&& after.changes == v.changes
            &&& after.sync_states == v.sync_states
            &&& after.last_sequence == v.last_sequence
        },
        (exists|i: int| 0 <= i < v.entries.len() && (#[trigger] v.entries[i]).id == e.id)
            ==> v.insert_entry(e) == (
            v,
            Err::<(), RepositoryError>(RepositoryError::Database(DatabaseError::ConstraintViolation)),
        ),
{
    lemma_first_with_id(v.entries, e.id);
    if exists|i: int| 0 <= i < v.entries.len() && (#[trigger] v.entries[i]).id == e.id {
        let i = choose|i: int| 0 <= i < v.entries.len() && (#[trigger] v.entries[i]).id == e.id;
        assert(v.entries[i].id == e.id);
    }
}

/// A create from another device of an entry whose id is not stored, with an
/// operation id not yet logged and sequence numbers left, succeeds: the
/// entry is appended and the event logged.
pub proof fn law_remote_create_of_a_new_id_succeeds(v: RepositoryView, e: Entry, c: ChangeLog)
    requires
        forall|i: int| 0 <= i < v.entries.len() ==> (#[trigger] v.entries[i]).id != e.id,
        unlogged(v.changes, c.operation_id),
        v.last_sequence < i64::MAX,
    ensures
        ({
            let (after, r) = v.remote_create(e, c);
            &&& r is Ok
            &&& after.entries == v.entries.push(e)
            &&& after.changes.len() == v.changes.len() + 1
            &&& after.changes[v.changes.len() as int].operation_id == c.operation_id
            &&& after.changes[v.changes.len() as int].sequence == v.last_sequence + 1
        }),
{
    law_insert_refuses_only_a_stored_id(v, e);
    let mid = v.insert_entry(e).0;
    assert(mid.changes == v.changes);
    assert(!mid.has_operation(c.operation_id));
}

// ---------------------------------------------------------------------
// Pushed events
// ---------------------------------------------------------------------

/// `k` is the first position of `entries` holding id `id`.
pub open spec fn first_position(entries: Seq<Entry>, id: u128, k: int) -> bool {
    &&& 0 <= k < entries.len()
    &&& entries[k].id == id
    &&& forall|i: int| 0 <= i < k ==> (#[trigger] entries[i]).id != id
}

proof fn lemma_first_position(entries: Seq<Entry>, id: u128, k: int)
    requires
        first_position(entries, id, k),
    ensures
        first_with_id(entries, id) == Some(entries[k]),
{
    lemma_first_with_id(entries, id);
    match first_with_id(entries, id) {
        Some(x) => {
            let m = choose|m: int|
                0 <= m < entries.len() && entries[m] == x && x.id == id && (forall|i: int|
                    0 <= i < m ==> (#[trigger] entries[i]).id != id);
            if m < k {
                assert(entries[m].id != id);
            } else if m > k {
                assert(entries[k].id != id);
            }
        },
        None => {
            assert(entries[k].id != id);
        },
    }
}

/// A pushed event that is not logged yet, with sequence numbers left, is
/// applied whichever device sent it:
/// - a create of an id that is not stored stores the first entry of the
///   request with that id, and answers success;
/// - an update of a stored entry whose incoming version (the first entry of
///   the request with that id) is not below the stored one writes the
///   incoming version, title and content into it, and answers success;
/// - a delete of a stored entry removes every row with its id, and answers
///   success.
pub proof fn law_pushed_events_are_applied(
    v: RepositoryView,
    entries: Seq<Entry>,
    c: ChangeLog,
    k: int,
    j: int,
)
    requires
        v.wf(),
        unlogged(v.changes, c.operation_id),
        v.last_sequence < i64::MAX,
    ensures
        (c.operation == OperationType::Create && first_position(entries, c.entity_id, k) && (
        forall|i: int| 0 <= i < v.entries.len() ==> (#[trigger] v.entries[i]).id != c.entity_id))
            ==> push_change(v, entries, c).1 is Ok && push_change(v, entries, c).0.entries
            == v.entries.push(entries[k]),
        (c.operation == OperationType::Update && first_position(entries, c.entity_id, k) && 0 <= j
            < v.entries.len() && v.entries[j].id == c.entity_id && entries[k].version
            >= v.entries[j].version) ==> {
            let (after, r) = push_change(v, entries, c);
            &&& r is Ok
            &&& after.entries[j].version == entries[k].version
            &&& after.entries[j].title == entries[k].title
            &&& after.entries[j].content == entries[k].content
        },
        (c.operation == OperationType::Delete && 0 <= j < v.entries.len() && v.entries[j].id
            == c.entity_id) ==> {
            let (after, r) = push_change(v, entries, c);
            &&& r is Ok
            &&& forall|i: int|
                0 <= i < after.entries.len() ==> (#[trigger] after.entries[i]).id != c.entity_id
        },
{
    assert(!v.has_operation(c.operation_id));
    if c.operation == OperationType::Create && first_position(entries, c.entity_id, k) && (forall|
        i: int,
    | 0 <= i < v.entries.len() ==> (#[trigger] v.entries[i]).id != c.entity_id) {
        lemma_first_position(entries, c.entity_id, k);
        law_remote_create_of_a_new_id_succeeds(v, entries[k], c);
    }
    if c.operation == OperationType::Update && first_position(entries, c.entity_id, k) && 0 <= j
        < v.entries.len() && v.entries[j].id == c.entity_id && entries[k].version
        >= v.entries[j].version {
        lemma_first_position(entries, c.entity_id, k);
        law_remote_update_applies_any_version_not_below(v, entries[k], c, j);
    }
    if c.operation == OperationType::Delete && 0 <= j < v.entries.len() && v.entries[j].id
        == c.entity_id {
        law_remote_delete_removes_a_stored_entry(v, c);
        assert(exists|i: int|
            0 <= i < v.entries.len() && (#[trigger] v.entries[i]).id == c.entity_id);
    }
}

} // verus!
