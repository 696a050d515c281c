//! The abstract state of the repository and what each of its statements does
//! to it. The three tables are sequences of rows in the order they were
//! written; `last_sequence` is the largest sequence number ever handed out.

use vstd::prelude::*;
use crate::changelog::ChangeLog;
use crate::errors::{DatabaseError, RepositoryError};
use crate::ids::uuid_text;
use crate::models::{Entry, SyncState};

verus! {

/// The tables of the repository.
pub struct RepositoryView {
    pub entries: Seq<Entry>,
    pub changes: Seq<ChangeLog>,
    pub sync_states: Seq<SyncState>,
    pub last_sequence: i64,
}

/// The first row of `entries` whose id is `id`.
pub open spec fn first_with_id(entries: Seq<Entry>, id: u128) -> Option<Entry>
    decreases entries.len(),
{
    if entries.len() == 0 {
        None
    } else if entries[0].id == id {
        Some(entries[0])
    } else {
        first_with_id(entries.drop_first(), id)
    }
}

/// The first row of `entries` whose id reads as `text`.
pub open spec fn entry_for_text(entries: Seq<Entry>, text: Seq<char>) -> Option<Entry>
    decreases entries.len(),
{
    if entries.len() == 0 {
        None
    } else if uuid_text(entries[0].id) == text {
        Some(entries[0])
    } else {
        entry_for_text(entries.drop_first(), text)
    }
}

/// The first checkpoint of `states` that belongs to `device_id`.
pub open spec fn first_state_for(states: Seq<SyncState>, device_id: u128) -> Option<SyncState>
    decreases states.len(),
{
    if states.len() == 0 {
        None
    } else if states[0].device_id == device_id {
        Some(states[0])
    } else {
        first_state_for(states.drop_first(), device_id)
    }
}

/// The rows of `entries` whose id is not `id`, in order.
pub open spec fn without_id(entries: Seq<Entry>, id: u128) -> Seq<Entry>
    decreases entries.len(),
{
    if entries.len() == 0 {
        entries
    } else {
        let rest = without_id(entries.drop_last(), id);
        if entries.last().id != id {
            rest.push(entries.last())
        } else {
            rest
        }
    }
}

/// The checkpoints of `states` that do not belong to `device_id`, in order.
pub open spec fn without_device(states: Seq<SyncState>, device_id: u128) -> Seq<SyncState>
    decreases states.len(),
{
    if states.len() == 0 {
        states
    } else {
        let rest = without_device(states.drop_last(), device_id);
        if states.last().device_id != device_id {
            rest.push(states.last())
        } else {
            rest
        }
    }
}

/// The events of `changes` whose sequence number is greater than `sequence`,
/// in order.
pub open spec fn changes_after(changes: Seq<ChangeLog>, sequence: i64) -> Seq<ChangeLog>
    decreases changes.len(),
{
    if changes.len() == 0 {
        changes
    } else {
        let rest = changes_after(changes.drop_last(), sequence);
        if changes.last().sequence > sequence {
            rest.push(changes.last())
        } else {
            rest
        }
    }
}

/// Some row of `entries` has id `id`.
pub open spec fn lists_id(entries: Seq<Entry>, id: u128) -> bool {
    exists|k: int| 0 <= k < entries.len() && (#[trigger] entries[k]).id == id
}

/// The stored entries that the events `changes` touch: for each event in
/// order, the stored row of its entity, unless that entity is gone or was
/// already listed.
pub open spec fn entries_for_changes(entries: Seq<Entry>, changes: Seq<ChangeLog>) -> Seq<Entry>
    decreases changes.len(),
{
    if changes.len() == 0 {
        Seq::empty()
    } else {
        let rest = entries_for_changes(entries, changes.drop_last());
        match first_with_id(entries, changes.last().entity_id) {
            Some(e) => if lists_id(rest, e.id) {
                rest
            } else {
                rest.push(e)
            },
            None => rest,
        }
    }
}

/// `stored` after an update statement that writes the version, title,
/// content and update time of `incoming`.
pub open spec fn overwrite(stored: Entry, incoming: Entry) -> Entry {
    Entry {
        id: stored.id,
        version: incoming.version,
        device_id: stored.device_id,
        title: incoming.title,
        content: incoming.content,
        created_at: stored.created_at,
        updated_at: incoming.updated_at,
    }
}

/// The entries in newest-first order of their update time.
pub open spec fn newest_first(entries: Seq<Entry>) -> bool {
    forall|i: int, j: int|
        0 <= i < j < entries.len() ==> (#[trigger] entries[i]).updated_at.not_before(
            (#[trigger] entries[j]).updated_at,
        )
}

/// A statement's outcome: the tables after it, and what it returned.
pub type Outcome = (RepositoryView, Result<(), RepositoryError>);

impl RepositoryView {
    /// The repository of a fresh database.
    pub open spec fn empty() -> RepositoryView {
        RepositoryView {
            entries: Seq::empty(),
            changes: Seq::empty(),
            sync_states: Seq::empty(),
            last_sequence: 0,
        }
    }

    /// The keys and orderings that the tables keep: entry ids, operation ids
    /// and device ids are each unique, and sequence numbers increase along
    /// the log, each between 1 and the largest one handed out.
    pub open spec fn wf(self) -> bool {
        &&& 0 <= self.last_sequence
        &&& forall|i: int, j: int|
            0 <= i < j < self.entries.len() ==> (#[trigger] self.entries[i]).id
                != (#[trigger] self.entries[j]).id
        &&& forall|i: int, j: int|
            0 <= i < j < self.changes.len() ==> (#[trigger] self.changes[i]).sequence
                < (#[trigger] self.changes[j]).sequence
        &&& forall|i: int, j: int|
            0 <= i < j < self.changes.len() ==> (#[trigger] self.changes[i]).operation_id
                != (#[trigger] self.changes[j]).operation_id
        &&& forall|i: int|
            0 <= i < self.changes.len() ==> 1 <= (#[trigger] self.changes[i]).sequence
                <= self.last_sequence
        &&& forall|i: int, j: int|
            0 <= i < j < self.sync_states.len() ==> (#[trigger] self.sync_states[i]).device_id
                != (#[trigger] self.sync_states[j]).device_id
    }

    /// An entry with id `id` is stored.
    pub open spec fn has_entry(self, id: u128) -> bool {
        first_with_id(self.entries, id) is Some
    }

    /// An event with operation id `operation_id` is in the log.
    pub open spec fn has_operation(self, operation_id: u128) -> bool {
        exists|i: int|
            0 <= i < self.changes.len() && (#[trigger] self.changes[i]).operation_id
                == operation_id
    }

    /// Insert a row into the entries table; the id is its primary key.
    pub open spec fn insert_entry(self, entry: Entry) -> Outcome {
        if self.has_entry(entry.id) {
            (self, Err(RepositoryError::Database(DatabaseError::ConstraintViolation)))
        } else {
            (RepositoryView { entries: self.entries.push(entry), ..self }, Ok(()))
        }
    }

    /// Insert an event into the log: it is given the next sequence number;
    /// the operation id is unique.
    pub open spec fn append_change(self, change: ChangeLog) -> Outcome {
        if self.last_sequence == i64::MAX {
            (self, Err(RepositoryError::Database(DatabaseError::SequenceExhausted)))
        } else if self.has_operation(change.operation_id) {
            (self, Err(RepositoryError::Database(DatabaseError::ConstraintViolation)))
        } else {
            let sequence = (self.last_sequence + 1) as i64;
            (
                RepositoryView {
                    changes: self.changes.push(ChangeLog { sequence, ..change }),
                    last_sequence: sequence,
                    ..self
                },
                Ok(()),
            )
        }
    }

    /// Write the version, title, content and update time of `entry` into
    /// every row with its id.
    pub open spec fn update_rows(self, entry: Entry) -> RepositoryView {
        RepositoryView {
            entries: self.entries.map_values(
                |e: Entry|
                    if e.id == entry.id {
                        overwrite(e, entry)
                    } else {
                        e
                    },
            ),
            ..self
        }
    }

    /// Delete every row with id `id`.
    pub open spec fn delete_rows(self, id: u128) -> RepositoryView {
        RepositoryView { entries: without_id(self.entries, id), ..self }
    }

    /// Run `steps` as one transaction: if it fails, the tables stay as they were.
    pub open spec fn atomically(self, steps: Outcome) -> Outcome {
        if steps.1 is Ok {
            steps
        } else {
            (self, steps.1)
        }
    }

    /// Store an entry and then the event of its creation.
    pub open spec fn create_with_log(self, entry: Entry, change: ChangeLog) -> Outcome {
        let (after_insert, inserted) = self.insert_entry(entry);
        if inserted is Ok {
            after_insert.append_change(change)
        } else {
            (after_insert, inserted)
        }
    }

    /// A create that came from another device: the entry and its event, in
    /// one transaction.
    pub open spec fn remote_create(self, entry: Entry, change: ChangeLog) -> Outcome {
        self.atomically(self.create_with_log(entry, change))
    }

    /// An update that came from another device, in one transaction: the
    /// stored entry must exist and must not be newer than the incoming
    /// version (an incoming version below the stored one is stale).
    pub open spec fn remote_update(self, entry: Entry, change: ChangeLog) -> Outcome {
        match first_with_id(self.entries, entry.id) {
            None => (self, Err(RepositoryError::EntryNotFound)),
            Some(stored) => if entry.version < stored.version {
                (self, Err(RepositoryError::VersionConflict))
            } else {
                self.atomically(self.update_rows(entry).append_change(change))
            },
        }
    }

    /// A delete that came from another device, in one transaction: the
    /// entry must exist.
    pub open spec fn remote_delete(self, change: ChangeLog) -> Outcome {
        if !self.has_entry(change.entity_id) {
            (self, Err(RepositoryError::EntryNotFound))
        } else {
            self.atomically(self.delete_rows(change.entity_id).append_change(change))
        }
    }

    /// Replace the checkpoint of the device of `state` by `state`.
    pub open spec fn save_state(self, state: SyncState) -> RepositoryView {
        RepositoryView {
            sync_states: without_device(self.sync_states, state.device_id).push(state),
            ..self
        }
    }

    /// The checkpoint of `device_id`, if it has one.
    pub open spec fn sync_state_of(self, device_id: u128) -> Option<SyncState> {
        first_state_for(self.sync_states, device_id)
    }
}

/// What `first_with_id` finds: a row with that id that no earlier row has.
pub proof fn lemma_first_with_id(entries: Seq<Entry>, id: u128)
    ensures
        match first_with_id(entries, id) {
            Some(e) => exists|k: int|
                0 <= k < entries.len() && entries[k] == e && e.id == id && (forall|j: int|
                    0 <= j < k ==> (#[trigger] entries[j]).id != id),
            None => forall|k: int| 0 <= k < entries.len() ==> (#[trigger] entries[k]).id != id,
        },
    decreases entries.len(),
{
    if entries.len() > 0 && entries[0].id != id {
        let rest = entries.drop_first();
        lemma_first_with_id(rest, id);
        match first_with_id(rest, id) {
            Some(e) => {
                let k = choose|k: int|
                    0 <= k < rest.len() && rest[k] == e && e.id == id && (forall|j: int|
                        0 <= j < k ==> (#[trigger] rest[j]).id != id);
                assert(entries[k + 1] == e);
                assert forall|j: int| 0 <= j < k + 1 implies (#[trigger] entries[j]).id != id by {
                    if j > 0 {
                        assert(entries[j] == rest[j - 1]);
                    }
                }
            },
            None => {
                assert forall|k: int| 0 <= k < entries.len() implies (#[trigger] entries[k]).id
                    != id by {
                    if k > 0 {
                        assert(entries[k] == rest[k - 1]);
                    }
                }
            },
        }
    }
}

/// Where ids are unique, the row with id `id` at position `k` is the one
/// `first_with_id` finds.
pub proof fn lemma_first_with_id_unique(entries: Seq<Entry>, id: u128, k: int)
    requires
        0 <= k < entries.len(),
        entries[k].id == id,
        forall|i: int, j: int|
            0 <= i < j < entries.len() ==> (#[trigger] entries[i]).id != (#[trigger] entries[j]).id,
    ensures
        first_with_id(entries, id) == Some(entries[k]),
{
    lemma_first_with_id(entries, id);
    match first_with_id(entries, id) {
        Some(e) => {
            let m = choose|m: int|
                0 <= m < entries.len() && entries[m] == e && e.id == id && (forall|j: int|
                    0 <= j < m ==> (#[trigger] entries[j]).id != id);
            if m < k {
                assert(entries[m].id != entries[k].id);
            } else if m > k {
                assert(entries[k].id != id);
            }
        },
        None => {
            assert(entries[k].id != id);
        },
    }
}

/// What `first_state_for` finds: a checkpoint of that device that no
/// earlier one belongs to.
pub proof fn lemma_first_state_for(states: Seq<SyncState>, device_id: u128)
    ensures
        match first_state_for(states, device_id) {
            Some(s) => exists|k: int|
                0 <= k < states.len() && states[k] == s && s.device_id == device_id && (forall|
                    j: int,
                | 0 <= j < k ==> (#[trigger] states[j]).device_id != device_id),
            None => forall|k: int|
                0 <= k < states.len() ==> (#[trigger] states[k]).device_id != device_id,
        },
    decreases states.len(),
{
    if states.len() > 0 && states[0].device_id != device_id {
        let rest = states.drop_first();
        lemma_first_state_for(rest, device_id);
        match first_state_for(rest, device_id) {
            Some(s) => {
                let k = choose|k: int|
                    0 <= k < rest.len() && rest[k] == s && s.device_id == device_id && (forall|
                        j: int,
                    | 0 <= j < k ==> (#[trigger] rest[j]).device_id != device_id);
                assert(states[k + 1] == s);
                assert forall|j: int| 0 <= j < k + 1 implies (#[trigger] states[j]).device_id
                    != device_id by {
                    if j > 0 {
                        assert(states[j] == rest[j - 1]);
                    }
                }
            },
            None => {
                assert forall|k: int| 0 <= k < states.len() implies (#[trigger] states[k]).device_id
                    != device_id by {
                    if k > 0 {
                        assert(states[k] == rest[k - 1]);
                    }
                }
            },
        }
    }
}

/// `without_id` keeps exactly the rows of other ids, in order, so it keeps
/// ids unique.
pub proof fn lemma_without_id(entries: Seq<Entry>, id: u128)
    ensures
        forall|k: int|
            0 <= k < without_id(entries, id).len() ==> (#[trigger] without_id(entries, id)[k]).id
                != id && entries.contains(without_id(entries, id)[k]),
        forall|k: int|
            0 <= k < entries.len() && (#[trigger] entries[k]).id != id ==> without_id(
                entries,
                id,
            ).contains(entries[k]),
        (forall|i: int, j: int|
            0 <= i < j < entries.len() ==> (#[trigger] entries[i]).id != (#[trigger] entries[j]).id)
            ==> (forall|i: int, j: int|
            0 <= i < j < without_id(entries, id).len() ==> (#[trigger] without_id(entries, id)[i]).id
                != (#[trigger] without_id(entries, id)[j]).id),
    decreases entries.len(),
{
    if entries.len() > 0 {
        let init = entries.drop_last();
        lemma_without_id(init, id);
        let rest = without_id(init, id);
        let res = without_id(entries, id);
        assert forall|k: int| 0 <= k < res.len() implies (#[trigger] res[k]).id != id
            && entries.contains(res[k]) by {
            if k < rest.len() {
                assert(res[k] == rest[k]);
                let m = choose|m: int| 0 <= m < init.len() && init[m] == rest[k];
                assert(entries[m] == rest[k]);
            } else {
                assert(res[k] == entries.last());
                assert(entries[entries.len() - 1] == res[k]);
            }
        }
        assert forall|k: int| 0 <= k < entries.len() && (#[trigger] entries[k]).id != id implies res.contains(
            entries[k],
        ) by {
            if k < init.len() {
                assert(init[k] == entries[k]);
                assert(rest.contains(init[k]));
                let m = choose|m: int| 0 <= m < rest.len() && rest[m] == init[k];
                assert(res[m] == rest[m]);
            } else {
                assert(res[res.len() - 1] == entries[k]);
            }
        }
        if forall|i: int, j: int|
            0 <= i < j < entries.len() ==> (#[trigger] entries[i]).id != (#[trigger] entries[j]).id {
            assert(forall|i: int, j: int|
                0 <= i < j < init.len() ==> (#[trigger] init[i]).id != (#[trigger] init[j]).id) by {
                assert forall|i: int, j: int| 0 <= i < j < init.len() implies (#[trigger] init[i]).id
                    != (#[trigger] init[j]).id by {
                    assert(init[i] == entries[i]);
                    assert(init[j] == entries[j]);
                }
            }
            assert forall|i: int, j: int| 0 <= i < j < res.len() implies (#[trigger] res[i]).id != (
            #[trigger] res[j]).id by {
                if j < rest.len() {
                    assert(res[i] == rest[i]);
                    assert(res[j] == rest[j]);
                } else {
                    assert(res[j] == entries.last());
                    assert(res[i] == rest[i]);
                    let m = choose|m: int| 0 <= m < init.len() && init[m] == rest[i];
                    assert(entries[m] == init[m]);
                    assert(entries[m].id != entries[entries.len() - 1].id);
                }
            }
        }
    }
}

/// `without_device` keeps exactly the checkpoints of other devices, in
/// order, so it keeps devices unique.
pub proof fn lemma_without_device(states: Seq<SyncState>, device_id: u128)
    ensures
        forall|k: int|
            0 <= k < without_device(states, device_id).len() ==> (#[trigger] without_device(
                states,
                device_id,
            )[k]).device_id != device_id && states.contains(without_device(states, device_id)[k]),
        forall|k: int|
            0 <= k < states.len() && (#[trigger] states[k]).device_id != device_id
                ==> without_device(states, device_id).contains(states[k]),
        (forall|i: int, j: int|
            0 <= i < j < states.len() ==> (#[trigger] states[i]).device_id != (
            #[trigger] states[j]).device_id) ==> (forall|i: int, j: int|
            0 <= i < j < without_device(states, device_id).len() ==> (#[trigger] without_device(
                states,
                device_id,
            )[i]).device_id != (#[trigger] without_device(states, device_id)[j]).device_id),
    decreases states.len(),
{
    if states.len() > 0 {
        let init = states.drop_last();
        lemma_without_device(init, device_id);
        let rest = without_device(init, device_id);
        let res = without_device(states, device_id);
        assert forall|k: int| 0 <= k < res.len() implies (#[trigger] res[k]).device_id != device_id
            && states.contains(res[k]) by {
            if k < rest.len() {
                assert(res[k] == rest[k]);
                let m = choose|m: int| 0 <= m < init.len() && init[m] == rest[k];
                assert(states[m] == rest[k]);
            } else {
                assert(res[k] == states.last());
                assert(states[states.len() - 1] == res[k]);
            }
        }
        assert forall|k: int|
            0 <= k < states.len() && (#[trigger] states[k]).device_id != device_id implies res.contains(
            states[k],
        ) by {
            if k < init.len() {
                assert(init[k] == states[k]);
                assert(rest.contains(init[k]));
                let m = choose|m: int| 0 <= m < rest.len() && rest[m] == init[k];
                assert(res[m] == rest[m]);
            } else {
                assert(res[res.len() - 1] == states[k]);
            }
        }
        if forall|i: int, j: int|
            0 <= i < j < states.len() ==> (#[trigger] states[i]).device_id != (
            #[trigger] states[j]).device_id {
            assert(forall|i: int, j: int|
                0 <= i < j < init.len() ==> (#[trigger] init[i]).device_id != (
                #[trigger] init[j]).device_id) by {
                assert forall|i: int, j: int| 0 <= i < j < init.len() implies (
                #[trigger] init[i]).device_id != (#[trigger] init[j]).device_id by {
                    assert(init[i] == states[i]);
                    assert(init[j] == states[j]);
                }
            }
            assert forall|i: int, j: int| 0 <= i < j < res.len() implies (
            #[trigger] res[i]).device_id != (#[trigger] res[j]).device_id by {
                if j < rest.len() {
                    assert(res[i] == rest[i]);
                    assert(res[j] == rest[j]);
                } else {
                    assert(res[j] == states.last());
                    assert(res[i] == rest[i]);
                    let m = choose|m: int| 0 <= m < init.len() && init[m] == rest[i];
                    assert(states[m] == init[m]);
                    assert(states[m].device_id != states[states.len() - 1].device_id);
                }
            }
        }
    }
}

/// `changes_after` keeps exactly the events past `sequence`, in order.
pub proof fn lemma_changes_after(changes: Seq<ChangeLog>, sequence: i64)
    ensures
        forall|k: int|
            0 <= k < changes_after(changes, sequence).len() ==> (#[trigger] changes_after(
                changes,
                sequence,
            )[k]).sequence > sequence && changes.contains(changes_after(changes, sequence)[k]),
        forall|k: int|
            0 <= k < changes.len() && (#[trigger] changes[k]).sequence > sequence
                ==> changes_after(changes, sequence).contains(changes[k]),
        changes_after(changes, sequence).len() <= changes.len(),
    decreases changes.len(),
{
    if changes.len() > 0 {
        let init = changes.drop_last();
        lemma_changes_after(init, sequence);
        let rest = changes_after(init, sequence);
        let res = changes_after(changes, sequence);
        assert forall|k: int| 0 <= k < res.len() implies (#[trigger] res[k]).sequence > sequence
            && changes.contains(res[k]) by {
            if k < rest.len() {
                assert(res[k] == rest[k]);
                let m = choose|m: int| 0 <= m < init.len() && init[m] == rest[k];
                assert(changes[m] == rest[k]);
            } else {
                assert(res[k] == changes.last());
                assert(changes[changes.len() - 1] == res[k]);
            }
        }
        assert forall|k: int|
            0 <= k < changes.len() && (#[trigger] changes[k]).sequence > sequence implies res.contains(
            changes[k],
        ) by {
            if k < init.len() {
                assert(init[k] == changes[k]);
                assert(rest.contains(init[k]));
                let m = choose|m: int| 0 <= m < rest.len() && rest[m] == init[k];
                assert(res[m] == rest[m]);
            } else {
                assert(res[res.len() - 1] == changes[k]);
            }
        }
    }
}

} // verus!
