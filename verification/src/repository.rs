//! The repository: the entries table, the change log with its sequence
//! numbers, and the device checkpoints, with the statements the engine runs
//! on them.

use vstd::prelude::*;
use crate::changelog::{create_event, event, ChangeLog, OperationType};
use crate::clock::{now, Timestamp};
use crate::errors::{DatabaseError, RepositoryError};
use crate::ids::{is_v4, uuid_to_string};
use crate::models::{Entry, SyncState};
use crate::repository_spec::{
    changes_after, entries_for_changes, entry_for_text, first_state_for, first_with_id,
    lemma_first_with_id, lemma_without_device, lemma_without_id, newest_first, overwrite,
    without_device, without_id, RepositoryView,
};

verus! {

broadcast use vstd::seq_lib::group_to_multiset_ensures;

/// The store of one server or device.
pub struct Repository {
    entries: Vec<Entry>,
    changes: Vec<ChangeLog>,
    sync_states: Vec<SyncState>,
    last_sequence: i64,
}

impl View for Repository {
    type V = RepositoryView;

    closed spec fn view(&self) -> RepositoryView {
        RepositoryView {
            entries: self.entries@,
            changes: self.changes@,
            sync_states: self.sync_states@,
            last_sequence: self.last_sequence,
        }
    }
}

impl Repository {
    /// The keys and orderings of the tables hold, always.
    #[verifier::type_invariant]
    pub open spec fn wf(&self) -> bool {
        self@.wf()
    }

    /// An empty store, as a fresh database holds it.
    pub fn new() -> (r: Repository)
        ensures
            r@ == RepositoryView::empty(),
    {
        Repository {
            entries: Vec::new(),
            changes: Vec::new(),
            sync_states: Vec::new(),
            last_sequence: 0,
        }
    }

    /// The position of the first entry with id `id`.
    fn find_entry(&self, id: u128) -> (r: Option<usize>)
        ensures
            match r {
                Some(i) => i < self@.entries.len() && first_with_id(self@.entries, id) == Some(
                    self@.entries[i as int],
                ),
                None => first_with_id(self@.entries, id) is None,
            },
    {
        let ghost s = self@.entries;
        let mut i: usize = 0;
        assert(s.skip(0) =~= s);
        while i < self.entries.len()
            invariant
                s == self@.entries,
                i <= s.len(),
                first_with_id(s, id) == first_with_id(s.skip(i as int), id),
            decreases s.len() - i,
        {
            assert(s.skip(i as int)[0] == s[i as int]);
            if self.entries[i].id == id {
                return Some(i);
            }
            assert(s.skip(i as int).drop_first() =~= s.skip(i + 1));
            i = i + 1;
        }
        assert(s.skip(i as int).len() == 0);
        None
    }

    /// Whether the log holds an event with operation id `operation_id`.
    fn logged(&self, operation_id: u128) -> (r: bool)
        ensures
            r == self@.has_operation(operation_id),
    {
        let mut i: usize = 0;
        while i < self.changes.len()
            invariant
                i <= self@.changes.len(),
                forall|k: int| 0 <= k < i ==> (#[trigger] self@.changes[k]).operation_id != operation_id,
            decreases self@.changes.len() - i,
        {
            if self.changes[i].operation_id == operation_id {
                return true;
            }
            i = i + 1;
        }
        false
    }

    /// Appends an event to the log under the next sequence number, where it
    /// may stand there.
    fn append(&mut self, change: &ChangeLog) -> (r: Result<(), RepositoryError>)
        ensures
            (final(self)@, r) == old(self)@.append_change(*change),
    {
        proof {
            use_type_invariant(&*self);
        }
        if self.last_sequence == i64::MAX {
            return Err(RepositoryError::Database(DatabaseError::SequenceExhausted));
        }
        if self.logged(change.operation_id) {
            return Err(RepositoryError::Database(DatabaseError::ConstraintViolation));
        }
        let sequence = self.last_sequence + 1;
        let stored = ChangeLog { sequence, ..*change };
        let mut changes: Vec<ChangeLog> = Vec::new();
        assert(self@.entries == self.entries@ && self@.sync_states == self.sync_states@);
        assert(forall|i: int, j: int|
            0 <= i < j < self.entries@.len() ==> (#[trigger] self.entries@[i]).id != (
            #[trigger] self.entries@[j]).id);
        assert(forall|i: int, j: int|
            0 <= i < j < self.sync_states@.len() ==> (#[trigger] self.sync_states@[i]).device_id
                != (#[trigger] self.sync_states@[j]).device_id);
        std::mem::swap(&mut changes, &mut self.changes);
        changes.push(stored);
        self.last_sequence = sequence;
        self.changes = changes;
        proof {
            let v = self@;
            let o = old(self)@;
            assert(v.entries == o.entries);
            assert(v.sync_states == o.sync_states);
            assert forall|i: int| 0 <= i < v.changes.len() implies 1 <= (
            #[trigger] v.changes[i]).sequence <= v.last_sequence by {
                if i < o.changes.len() {
                    assert(o.changes[i] == v.changes[i]);
                }
            }
            assert forall|i: int, j: int|
                0 <= i < j < v.changes.len() implies (#[trigger] v.changes[i]).sequence < (
            #[trigger] v.changes[j]).sequence by {
                assert(o.changes[i] == v.changes[i]);
                if j < o.changes.len() {
                    assert(o.changes[j] == v.changes[j]);
                }
            }
            assert forall|i: int, j: int|
                0 <= i < j < v.changes.len() implies (#[trigger] v.changes[i]).operation_id
                != (#[trigger] v.changes[j]).operation_id by {
                assert(o.changes[i] == v.changes[i]);
                if j < o.changes.len() {
                    assert(o.changes[j] == v.changes[j]);
                }
            }
        }
        Ok(())
    }

    // =====================================================
    // ENTRIES
    // =====================================================

    /// Inserts `entry` into the entries table; its id must not be stored yet.
    pub fn create_entry(&mut self, entry: &Entry) -> (r: Result<(), RepositoryError>)
        ensures
            (final(self)@, r) == old(self)@.insert_entry(*entry),
    {
        proof {
            use_type_invariant(&*self);
        }
        match self.find_entry(entry.id) {
            Some(_) => Err(RepositoryError::Database(DatabaseError::ConstraintViolation)),
            None => {
                proof {
                    lemma_first_with_id(self@.entries, entry.id);
                }
                let mut entries: Vec<Entry> = Vec::new();
                std::mem::swap(&mut entries, &mut self.entries);
                entries.push(entry.duplicate());
                self.entries = entries;
                Ok(())
            },
        }
    }

    /// Stores `entry` and then the event of its creation by `device_id`
    /// (a fresh operation id, the current time). The two are not one
    /// transaction: if the event cannot be stored, the entry stays.
    pub fn create_entry_with_log(&mut self, entry: &Entry, device_id: u128) -> (r: Result<
        (),
        RepositoryError,
    >)
        ensures
            exists|operation_id: u128, timestamp: Timestamp|
                is_v4(operation_id) && timestamp.seconds >= 0 && timestamp.nanos < 1_000_000_000
                    && (final(self)@, r) == old(self)@.create_with_log(
                    *entry,
                    #[trigger] event(device_id, entry.id, OperationType::Create, operation_id, timestamp),
                ),
    {
        proof {
            use_type_invariant(&*self);
        }
        let created = self.create_entry(entry);
        if created.is_err() {
            let ghost witness: u128 = 0x0000_0000_0000_4000_8000_0000_0000_0000u128;
            assert(witness & 0x0000_0000_0000_f000_c000_0000_0000_0000u128
                == 0x0000_0000_0000_4000_8000_0000_0000_0000u128) by (bit_vector)
                requires
                    witness == 0x0000_0000_0000_4000_8000_0000_0000_0000u128,
            ;
            assert(is_v4(witness));
            assert((self@, created) == old(self)@.create_with_log(
                *entry,
                event(device_id, entry.id, OperationType::Create, witness, Timestamp { seconds: 0, nanos: 0 }),
            ));
            return created;
        }
        let change = create_event(device_id, entry.id, OperationType::Create);
        let r = self.save_change(&change);
        assert((self@, r) == old(self)@.create_with_log(
            *entry,
            event(device_id, entry.id, OperationType::Create, change.operation_id, change.timestamp),
        ));
        r
    }

    /// The first entry whose id reads as `id`.
    pub fn get_entry(&self, id: &str) -> (r: Result<Entry, RepositoryError>)
        ensures
            match r {
                Ok(e) => entry_for_text(self@.entries, id@) == Some(e),
                Err(e) => e == RepositoryError::EntryNotFound && entry_for_text(self@.entries, id@)
                    is None,
            },
    {
        let ghost s = self@.entries;
        let wanted = String::from_str(id);
        let mut i: usize = 0;
        assert(s.skip(0) =~= s);
        while i < self.entries.len()
            invariant
                s == self@.entries,
                i <= s.len(),
                wanted@ == id@,
                entry_for_text(s, id@) == entry_for_text(s.skip(i as int), id@),
            decreases s.len() - i,
        {
            assert(s.skip(i as int)[0] == s[i as int]);
            let text = uuid_to_string(self.entries[i].id);
            if text == wanted {
                return Ok(self.entries[i].duplicate());
            }
            assert(s.skip(i as int).drop_first() =~= s.skip(i + 1));
            i = i + 1;
        }
        assert(s.skip(i as int).len() == 0);
        Err(RepositoryError::EntryNotFound)
    }


    /// Writes the version, title, content and update time of `entry` into
    /// the rows with its id.
    fn write_rows(&mut self, entry: &Entry)
        ensures
            final(self)@ == old(self)@.update_rows(*entry),
    {
        proof {
            use_type_invariant(&*self);
        }
        let ghost s = self@.entries;
        let mut out: Vec<Entry> = Vec::new();
        let mut i: usize = 0;
        while i < self.entries.len()
            invariant
                s == self@.entries,
                i <= s.len(),
                out@.len() == i,
                forall|k: int|
                    0 <= k < i ==> (#[trigger] out@[k]) == (if s[k].id == entry.id {
                        overwrite(s[k], *entry)
                    } else {
                        s[k]
                    }),
            decreases s.len() - i,
        {
            let e = &self.entries[i];
            if e.id == entry.id {
                out.push(
                    Entry {
                        id: e.id,
                        version: entry.version,
                        device_id: e.device_id,
                        title: entry.title.clone(),
                        content: entry.content.clone(),
                        created_at: e.created_at,
                        updated_at: entry.updated_at,
                    },
                );
            } else {
                out.push(e.duplicate());
            }
            i = i + 1;
        }
        self.entries = out;
        proof {
            let goal = old(self)@.update_rows(*entry);
            assert(self@.entries =~= goal.entries);
            assert forall|a: int, b: int|
                0 <= a < b < self@.entries.len() implies (#[trigger] self@.entries[a]).id != (
            #[trigger] self@.entries[b]).id by {
                assert(self@.entries[a].id == s[a].id);
                assert(self@.entries[b].id == s[b].id);
            }
        }
    }

    /// Deletes the rows with id `id`.
    fn delete_rows(&mut self, id: u128)
        ensures
            final(self)@ == old(self)@.delete_rows(id),
    {
        proof {
            use_type_invariant(&*self);
        }
        let ghost s = self@.entries;
        let mut out: Vec<Entry> = Vec::new();
        let mut i: usize = 0;
        while i < self.entries.len()
            invariant
                s == self@.entries,
                i <= s.len(),
                out@ == without_id(s.take(i as int), id),
            decreases s.len() - i,
        {
            assert(s.take(i + 1).drop_last() =~= s.take(i as int));
            if self.entries[i].id != id {
                out.push(self.entries[i].duplicate());
            }
            i = i + 1;
        }
        assert(s.take(s.len() as int) =~= s);
        proof {
            lemma_without_id(s, id);
        }
        self.entries = out;
        assert(self@ =~= old(self)@.delete_rows(id));
    }

    /// Stamps `entry` with the next version and the current time, writes its
    /// version, title, content and update time into the stored row with its
    /// id (if there is none, nothing is written), and stores the event of the
    /// update by `device_id`.
    pub fn update_entry(&mut self, entry: &mut Entry, device_id: u128) -> (r: Result<
        (),
        RepositoryError,
    >)
        requires
            old(entry).version < i64::MAX,
        ensures
            final(entry).id == old(entry).id,
            final(entry).version == old(entry).version + 1,
            final(entry).device_id == old(entry).device_id,
            final(entry).title == old(entry).title,
            final(entry).content == old(entry).content,
            final(entry).created_at == old(entry).created_at,
            final(entry).updated_at.seconds >= 0,
            final(entry).updated_at.nanos < 1_000_000_000,
            exists|operation_id: u128, timestamp: Timestamp|
                is_v4(operation_id) && timestamp.seconds >= 0 && timestamp.nanos < 1_000_000_000
                    && (final(self)@, r) == old(self)@.update_rows(*final(entry)).append_change(
                    #[trigger] event(device_id, old(entry).id, OperationType::Update, operation_id, timestamp),
                ),
    {
        proof {
            use_type_invariant(&*self);
        }
        entry.version = entry.version + 1;
        entry.updated_at = now();
        self.write_rows(entry);
        let change = create_event(device_id, entry.id, OperationType::Update);
        let r = self.append(&change);
        assert((self@, r) == old(self)@.update_rows(*entry).append_change(
            event(device_id, entry.id, OperationType::Update, change.operation_id, change.timestamp),
        ));
        r
    }

    /// Deletes the rows with id `entry_id` (there may be none) and stores the
    /// event of the deletion by `device_id`.
    pub fn delete_entry(&mut self, entry_id: u128, device_id: u128) -> (r: Result<
        (),
        RepositoryError,
    >)
        ensures
            exists|operation_id: u128, timestamp: Timestamp|
                is_v4(operation_id) && timestamp.seconds >= 0 && timestamp.nanos < 1_000_000_000
                    && (final(self)@, r) == old(self)@.delete_rows(entry_id).append_change(
                    #[trigger] event(device_id, entry_id, OperationType::Delete, operation_id, timestamp),
                ),
    {
        proof {
            use_type_invariant(&*self);
        }
        self.delete_rows(entry_id);
        let change = create_event(device_id, entry_id, OperationType::Delete);
        let r = self.append(&change);
        assert((self@, r) == old(self)@.delete_rows(entry_id).append_change(
            event(device_id, entry_id, OperationType::Delete, change.operation_id, change.timestamp),
        ));
        r
    }

    /// Whether an event with `operation_id` could be logged now: the error
    /// that storing it would give, if any.
    fn check_append(&self, operation_id: u128) -> (r: Option<RepositoryError>)
        ensures
            match r {
                Some(e) => (self@.last_sequence == i64::MAX && e == RepositoryError::Database(
                    DatabaseError::SequenceExhausted,
                )) || (self@.last_sequence < i64::MAX && self@.has_operation(operation_id) && e
                    == RepositoryError::Database(DatabaseError::ConstraintViolation)),
                None => self@.last_sequence < i64::MAX && !self@.has_operation(operation_id),
            },
    {
        if self.last_sequence == i64::MAX {
            return Some(RepositoryError::Database(DatabaseError::SequenceExhausted));
        }
        if self.logged(operation_id) {
            return Some(RepositoryError::Database(DatabaseError::ConstraintViolation));
        }
        None
    }

    /// Applies a create from another device in one transaction: inserts
    /// `entry` and stores `change`; if either fails, nothing is written.
    pub fn apply_remote_create(&mut self, entry: &Entry, change: &ChangeLog) -> (r: Result<
        (),
        RepositoryError,
    >)
        ensures
            (final(self)@, r) == old(self)@.remote_create(*entry, *change),
    {
        proof {
            use_type_invariant(&*self);
        }
        if self.find_entry(entry.id).is_some() {
            return Err(RepositoryError::Database(DatabaseError::ConstraintViolation));
        }
        if let Some(e) = self.check_append(change.operation_id) {
            return Err(e);
        }
        let _inserted = self.create_entry(entry);
        self.append(change)
    }

    /// Applies an update from another device in one transaction: the stored
    /// entry with the id of `entry` must exist and its version must not be
    /// above that of `entry`; its version, title, content and update time are
    /// overwritten and `change` is stored. On any failure nothing is written.
    pub fn apply_remote_update(&mut self, entry: &Entry, change: &ChangeLog) -> (r: Result<
        (),
        RepositoryError,
    >)
        ensures
            (final(self)@, r) == old(self)@.remote_update(*entry, *change),
    {
        proof {
            use_type_invariant(&*self);
        }
        match self.find_entry(entry.id) {
            None => Err(RepositoryError::EntryNotFound),
            Some(i) => {
                if entry.version < self.entries[i].version {
                    return Err(RepositoryError::VersionConflict);
                }
                if let Some(e) = self.check_append(change.operation_id) {
                    return Err(e);
                }
                self.write_rows(entry);
                self.append(change)
            },
        }
    }

    /// Applies a delete from another device in one transaction: the entry
    /// with the event's entity id must exist; it is deleted and `change` is
    /// stored. On any failure nothing is written.
    pub fn apply_remote_delete(&mut self, change: &ChangeLog) -> (r: Result<(), RepositoryError>)
        ensures
            (final(self)@, r) == old(self)@.remote_delete(*change),
    {
        proof {
            use_type_invariant(&*self);
        }
        if self.find_entry(change.entity_id).is_none() {
            return Err(RepositoryError::EntryNotFound);
        }
        if let Some(e) = self.check_append(change.operation_id) {
            return Err(e);
        }
        self.delete_rows(change.entity_id);
        self.append(change)
    }


    /// Every stored entry, newest update first (entries updated at the same
    /// instant come in no fixed order).
    pub fn get_all_entries(&self) -> (r: Result<Vec<Entry>, RepositoryError>)
        ensures
            r matches Ok(v) && v@.to_multiset() == self@.entries.to_multiset() && newest_first(v@),
    {
        let ghost all = self@.entries;
        let mut remaining: Vec<Entry> = Vec::new();
        let mut i: usize = 0;
        while i < self.entries.len()
            invariant
                all == self@.entries,
                i <= all.len(),
                remaining@ =~= all.take(i as int),
            decreases all.len() - i,
        {
            remaining.push(self.entries[i].duplicate());
            i = i + 1;
        }
        assert(all.take(all.len() as int) =~= all);
        let mut out: Vec<Entry> = Vec::new();
        while remaining.len() > 0
            invariant
                out@.to_multiset().add(remaining@.to_multiset()) =~= all.to_multiset(),
                newest_first(out@),
                forall|a: int, b: int|
                    0 <= a < out@.len() && 0 <= b < remaining@.len() ==> (
                    #[trigger] out@[a]).updated_at.not_before((#[trigger] remaining@[b]).updated_at),
            decreases remaining@.len(),
        {
            let mut best: usize = 0;
            let mut k: usize = 1;
            while k < remaining.len()
                invariant
                    best < remaining@.len(),
                    1 <= k <= remaining@.len(),
                    forall|j: int|
                        0 <= j < k ==> remaining@[best as int].updated_at.not_before(
                            (#[trigger] remaining@[j]).updated_at,
                        ),
                decreases remaining@.len() - k,
            {
                if !remaining[best].updated_at.is_not_before(&remaining[k].updated_at) {
                    best = k;
                }
                k = k + 1;
            }
            let ghost before = remaining@;
            let ghost out_before = out@;
            let e = remaining.remove(best);
            proof {
                assert(remaining@ == before.remove(best as int));
                assert(before[best as int] == e);
                assert(before.contains(e));
                assert(before.to_multiset().count(e) > 0);
                assert(remaining@.to_multiset() =~= before.to_multiset().remove(e));
                assert(out_before.push(e).to_multiset() =~= out_before.to_multiset().insert(e));
            }
            out.push(e);
            proof {
                assert forall|a: int, b: int|
                    0 <= a < out@.len() && 0 <= b < remaining@.len() implies (
                    #[trigger] out@[a]).updated_at.not_before((#[trigger] remaining@[b]).updated_at) by {
                    let ob = if b < best { b } else { b + 1 };
                    assert(remaining@[b] == before[ob]);
                    if a < out_before.len() {
                        assert(out@[a] == out_before[a]);
                    }
                }
                assert forall|a: int, b: int| 0 <= a < b < out@.len() implies (
                #[trigger] out@[a]).updated_at.not_before((#[trigger] out@[b]).updated_at) by {
                    assert(out@[a] == out_before[a]);
                    if b < out_before.len() {
                        assert(out@[b] == out_before[b]);
                    } else {
                        assert(out_before[a].updated_at.not_before(before[best as int].updated_at));
                    }
                }
            }
        }
        Ok(out)
    }

    // =====================================================
    // SYNC STATE
    // =====================================================

    /// The checkpoint of `device_id`, if it has one.
    pub fn get_sync_state(&self, device_id: u128) -> (r: Result<Option<SyncState>, RepositoryError>)
        ensures
            r == Ok::<Option<SyncState>, RepositoryError>(self@.sync_state_of(device_id)),
    {
        let ghost s = self@.sync_states;
        let mut i: usize = 0;
        assert(s.skip(0) =~= s);
        while i < self.sync_states.len()
            invariant
                s == self@.sync_states,
                i <= s.len(),
                first_state_for(s, device_id) == first_state_for(s.skip(i as int), device_id),
            decreases s.len() - i,
        {
            assert(s.skip(i as int)[0] == s[i as int]);
            if self.sync_states[i].device_id == device_id {
                return Ok(Some(self.sync_states[i]));
            }
            assert(s.skip(i as int).drop_first() =~= s.skip(i + 1));
            i = i + 1;
        }
        assert(s.skip(i as int).len() == 0);
        Ok(None)
    }

    /// Replaces the checkpoint of the device of `state` by `state`.
    pub fn save_sync_state(&mut self, state: &SyncState) -> (r: Result<(), RepositoryError>)
        ensures
            final(self)@ == old(self)@.save_state(*state),
            r is Ok,
    {
        proof {
            use_type_invariant(&*self);
        }
        let ghost s = self@.sync_states;
        let mut out: Vec<SyncState> = Vec::new();
        let mut i: usize = 0;
        while i < self.sync_states.len()
            invariant
                s == self@.sync_states,
                i <= s.len(),
                out@ == without_device(s.take(i as int), state.device_id),
            decreases s.len() - i,
        {
            assert(s.take(i + 1).drop_last() =~= s.take(i as int));
            if self.sync_states[i].device_id != state.device_id {
                out.push(self.sync_states[i]);
            }
            i = i + 1;
        }
        assert(s.take(s.len() as int) =~= s);
        out.push(*state);
        proof {
            lemma_without_device(s, state.device_id);
            let rest = without_device(s, state.device_id);
            assert(out@ == rest.push(*state));
            assert forall|a: int, b: int| 0 <= a < b < out@.len() implies (
            #[trigger] out@[a]).device_id != (#[trigger] out@[b]).device_id by {
                assert(out@[a] == rest[a]);
                if b < rest.len() {
                    assert(out@[b] == rest[b]);
                }
            }
            assert(self@.entries == self.entries@);
            assert(forall|i: int, j: int|
                0 <= i < j < self.entries@.len() ==> (#[trigger] self.entries@[i]).id != (
                #[trigger] self.entries@[j]).id);
        }
        self.sync_states = out;
        assert(self@ =~= old(self)@.save_state(*state));
        Ok(())
    }

    // =====================================================
    // ENTRIES OF CHANGES
    // =====================================================

    /// The stored entries that `changes` touch: for each event in order, the
    /// stored entry of its entity, unless it is gone or already listed.
    pub fn get_entries_for_changes(&self, changes: &Vec<ChangeLog>) -> (r: Result<
        Vec<Entry>,
        RepositoryError,
    >)
        ensures
            r matches Ok(v) && v@ == entries_for_changes(self@.entries, changes@),
    {
        let ghost cs = changes@;
        let mut out: Vec<Entry> = Vec::new();
        let mut i: usize = 0;
        while i < changes.len()
            invariant
                cs == changes@,
                i <= cs.len(),
                out@ == entries_for_changes(self@.entries, cs.take(i as int)),
            decreases cs.len() - i,
        {
            assert(cs.take(i + 1).drop_last() =~= cs.take(i as int));
            assert(cs.take(i + 1).last() == cs[i as int]);
            let id = changes[i].entity_id;
            match self.find_entry(id) {
                Some(j) => {
                    proof {
                        lemma_first_with_id(self@.entries, id);
                    }
                    let mut listed = false;
                    let mut k: usize = 0;
                    while k < out.len()
                        invariant
                            k <= out@.len(),
                            listed == (exists|m: int| 0 <= m < k && (#[trigger] out@[m]).id == id),
                        decreases out@.len() - k,
                    {
                        if out[k].id == id {
                            listed = true;
                        }
                        k = k + 1;
                    }
                    if !listed {
                        out.push(self.entries[j].duplicate());
                    }
                },
                None => {},
            }
            i = i + 1;
        }
        assert(cs.take(cs.len() as int) =~= cs);
        Ok(out)
    }


    // =====================================================
    // ROWS
    // =====================================================

    /// The store that holds exactly the given rows, with `last_sequence` as
    /// the largest sequence number handed out; `None` when the rows break a
    /// key or the ordering of the log.
    #[verifier::loop_isolation(false)]
    pub fn from_rows(
        entries: Vec<Entry>,
        changes: Vec<ChangeLog>,
        sync_states: Vec<SyncState>,
        last_sequence: i64,
    ) -> (r: Option<Repository>)
        ensures
            ({
                let v = RepositoryView {
                    entries: entries@,
                    changes: changes@,
                    sync_states: sync_states@,
                    last_sequence,
                };
                match r {
                    Some(repo) => repo@ == v,
                    None => !v.wf(),
                }
            }),
    {
        let ghost v = RepositoryView {
            entries: entries@,
            changes: changes@,
            sync_states: sync_states@,
            last_sequence,
        };
        if last_sequence < 0 {
            return None;
        }
        let mut i: usize = 0;
        while i < entries.len()
            invariant
                i <= entries@.len(),
                forall|a: int, b: int|
                    0 <= a < b < entries@.len() && a < i ==> (#[trigger] entries@[a]).id != (
                    #[trigger] entries@[b]).id,
            decreases entries@.len() - i,
        {
            let mut j: usize = i + 1;
            while j < entries.len()
                invariant
                    i < entries@.len(),
                    i + 1 <= j <= entries@.len(),
                    forall|a: int, b: int|
                        0 <= a < b < entries@.len() && a < i ==> (#[trigger] entries@[a]).id != (
                        #[trigger] entries@[b]).id,
                    forall|b: int| i < b < j ==> entries@[i as int].id != (#[trigger] entries@[b]).id,
                decreases entries@.len() - j,
            {
                if entries[i].id == entries[j].id {
                    assert(v.entries[i as int].id == v.entries[j as int].id);
                    return None;
                }
                j = j + 1;
            }
            i = i + 1;
        }
        let mut i: usize = 0;
        while i < changes.len()
            invariant
                i <= changes@.len(),
                0 <= last_sequence,
                forall|a: int| 0 <= a < i ==> 1 <= (#[trigger] changes@[a]).sequence <= last_sequence,
                forall|a: int, b: int|
                    0 <= a < b < changes@.len() && a < i ==> (#[trigger] changes@[a]).sequence < (
                    #[trigger] changes@[b]).sequence && changes@[a].operation_id
                        != changes@[b].operation_id,
            decreases changes@.len() - i,
        {
            if changes[i].sequence < 1 || changes[i].sequence > last_sequence {
                assert(!(1 <= v.changes[i as int].sequence <= last_sequence));
                return None;
            }
            let mut j: usize = i + 1;
            while j < changes.len()
                invariant
                    i < changes@.len(),
                    i + 1 <= j <= changes@.len(),
                    forall|a: int, b: int|
                        0 <= a < b < changes@.len() && a < i ==> (#[trigger] changes@[a]).sequence
                            < (#[trigger] changes@[b]).sequence && changes@[a].operation_id
                            != changes@[b].operation_id,
                    forall|b: int|
                        i < b < j ==> changes@[i as int].sequence < (#[trigger] changes@[b]).sequence
                            && changes@[i as int].operation_id != changes@[b].operation_id,
                decreases changes@.len() - j,
            {
                if changes[i].sequence >= changes[j].sequence
                    || changes[i].operation_id == changes[j].operation_id {
                    assert(!(v.changes[i as int].sequence < v.changes[j as int].sequence
                        && v.changes[i as int].operation_id != v.changes[j as int].operation_id));
                    return None;
                }
                j = j + 1;
            }
            i = i + 1;
        }
        let mut i: usize = 0;
        while i < sync_states.len()
            invariant
                i <= sync_states@.len(),
                forall|a: int, b: int|
                    0 <= a < b < sync_states@.len() && a < i ==> (#[trigger] sync_states@[a]).device_id
                        != (#[trigger] sync_states@[b]).device_id,
            decreases sync_states@.len() - i,
        {
            let mut j: usize = i + 1;
            while j < sync_states.len()
                invariant
                    i < sync_states@.len(),
                    i + 1 <= j <= sync_states@.len(),
                    forall|a: int, b: int|
                        0 <= a < b < sync_states@.len() && a < i ==> (
                        #[trigger] sync_states@[a]).device_id != (
                        #[trigger] sync_states@[b]).device_id,
                    forall|b: int|
                        i < b < j ==> sync_states@[i as int].device_id != (
                        #[trigger] sync_states@[b]).device_id,
                decreases sync_states@.len() - j,
            {
                if sync_states[i].device_id == sync_states[j].device_id {
                    assert(v.sync_states[i as int].device_id == v.sync_states[j as int].device_id);
                    return None;
                }
                j = j + 1;
            }
            i = i + 1;
        }
        Some(Repository { entries, changes, sync_states, last_sequence })
    }

    /// The rows of the entries table, in the order they were written.
    pub fn entry_rows(&self) -> (r: Vec<Entry>)
        ensures
            r@ == self@.entries,
    {
        let mut out: Vec<Entry> = Vec::new();
        let mut i: usize = 0;
        while i < self.entries.len()
            invariant
                i <= self@.entries.len(),
                out@ =~= self@.entries.take(i as int),
            decreases self@.entries.len() - i,
        {
            out.push(self.entries[i].duplicate());
            i = i + 1;
        }
        assert(self@.entries.take(i as int) =~= self@.entries);
        out
    }

    /// The rows of the checkpoints table, in the order they were written.
    pub fn sync_state_rows(&self) -> (r: Vec<SyncState>)
        ensures
            r@ == self@.sync_states,
    {
        self.sync_states.clone()
    }

    /// The largest sequence number handed out so far (0 for none).
    pub fn last_sequence(&self) -> (r: i64)
        ensures
            r == self@.last_sequence,
    {
        self.last_sequence
    }

    // =====================================================
    // CHANGE LOG
    // =====================================================

    /// Stores `change` in the log under the next sequence number (the
    /// sequence number it carries is not used).
    pub fn save_change(&mut self, change: &ChangeLog) -> (r: Result<(), RepositoryError>)
        ensures
            (final(self)@, r) == old(self)@.append_change(*change),
    {
        proof {
            use_type_invariant(&*self);
        }
        self.append(change)
    }

    /// Stores `change` in the log, as part of the transaction `tx`.
    pub fn save_remote_change(tx: &mut Repository, change: &ChangeLog) -> (r: Result<
        (),
        RepositoryError,
    >)
        ensures
            (final(tx)@, r) == old(tx)@.append_change(*change),
    {
        tx.append(change)
    }

    /// Every event of the log, in increasing order of sequence number.
    pub fn get_changes(&self) -> (r: Result<Vec<ChangeLog>, RepositoryError>)
        ensures
            r matches Ok(v) && v@ == self@.changes,
    {
        Ok(self.changes.clone())
    }

    /// The events whose sequence number is greater than `sequence`, in
    /// increasing order of sequence number.
    pub fn get_changes_after(&self, sequence: i64) -> (r: Result<Vec<ChangeLog>, RepositoryError>)
        ensures
            r matches Ok(v) && v@ == changes_after(self@.changes, sequence),
    {
        let ghost s = self@.changes;
        let mut out: Vec<ChangeLog> = Vec::new();
        let mut i: usize = 0;
        while i < self.changes.len()
            invariant
                s == self@.changes,
                i <= s.len(),
                out@ == changes_after(s.take(i as int), sequence),
            decreases s.len() - i,
        {
            assert(s.take(i + 1).drop_last() =~= s.take(i as int));
            if self.changes[i].sequence > sequence {
                out.push(self.changes[i]);
            }
            i = i + 1;
        }
        assert(s.take(s.len() as int) =~= s);
        Ok(out)
    }

    /// Whether the log holds an event with operation id `operation_id`.
    pub fn operation_exists(&self, operation_id: u128) -> (r: Result<bool, RepositoryError>)
        ensures
            r == Ok::<bool, RepositoryError>(self@.has_operation(operation_id)),
    {
        Ok(self.logged(operation_id))
    }
}

} // verus!
