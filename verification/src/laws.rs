//! Properties of the engine that span several statements or calls.

use vstd::prelude::*;
use crate::changelog::{ChangeLog, OperationType};
use crate::error::SyncErrorView;
use crate::ids::{hex_digit, simple_position, uuid_nibble, uuid_text};
use crate::models::{Entry, SyncState};
use crate::repository_spec::{
    changes_after, entry_for_text, first_state_for, first_with_id, lemma_changes_after,
    lemma_first_state_for, lemma_first_with_id, lemma_first_with_id_unique,
    lemma_without_device, lemma_without_id, overwrite, without_device, without_id, RepositoryView,
};
use crate::sync_spec::{pull_latest, push_all, push_change};

verus! {

// ---------------------------------------------------------------------
// Identifiers
// ---------------------------------------------------------------------

/// The nibble that a lowercase hexadecimal digit stands for.
spec fn hex_value(c: char) -> u128 {
    if c == '0' {
        0
    } else if c == '1' {
        1
    } else if c == '2' {
        2
    } else if c == '3' {
        3
    } else if c == '4' {
        4
    } else if c == '5' {
        5
    } else if c == '6' {
        6
    } else if c == '7' {
        7
    } else if c == '8' {
        8
    } else if c == '9' {
        9
    } else if c == 'a' {
        10
    } else if c == 'b' {
        11
    } else if c == 'c' {
        12
    } else if c == 'd' {
        13
    } else if c == 'e' {
        14
    } else {
        15
    }
}

proof fn lemma_hex_digit_value(n: u128)
    requires
        n < 16,
    ensures
        hex_value(hex_digit(n)) == n,
{
    let digits = seq![
        '0',
        '1',
        '2',
        '3',
        '4',
        '5',
        '6',
        '7',
        '8',
        '9',
        'a',
        'b',
        'c',
        'd',
        'e',
        'f',
    ];
    assert(hex_digit(n) == digits[n as int]);
    if n < 8 {
        assert(n == 0 || n == 1 || n == 2 || n == 3 || n == 4 || n == 5 || n == 6 || n == 7);
    } else {
        assert(n == 8 || n == 9 || n == 10 || n == 11 || n == 12 || n == 13 || n == 14 || n == 15);
    }
}

/// The hyphenated position of the `k`-th hexadecimal digit.
spec fn text_position(k: int) -> int {
    if k < 8 {
        k
    } else if k < 12 {
        k + 1
    } else if k < 16 {
        k + 2
    } else if k < 20 {
        k + 3
    } else {
        k + 4
    }
}

proof fn lemma_nibbles_determine(a: u128, b: u128)
    requires
        forall|k: int| 0 <= k < 32 ==> #[trigger] uuid_nibble(a, k) == uuid_nibble(b, k),
    ensures
        a == b,
{
    assert(uuid_nibble(a, 0) == uuid_nibble(b, 0));
    assert(uuid_nibble(a, 1) == uuid_nibble(b, 1));
    assert(uuid_nibble(a, 2) == uuid_nibble(b, 2));
    assert(uuid_nibble(a, 3) == uuid_nibble(b, 3));
    assert(uuid_nibble(a, 4) == uuid_nibble(b, 4));
    assert(uuid_nibble(a, 5) == uuid_nibble(b, 5));
    assert(uuid_nibble(a, 6) == uuid_nibble(b, 6));
    assert(uuid_nibble(a, 7) == uuid_nibble(b, 7));
    assert(uuid_nibble(a, 8) == uuid_nibble(b, 8));
    assert(uuid_nibble(a, 9) == uuid_nibble(b, 9));
    assert(uuid_nibble(a, 10) == uuid_nibble(b, 10));
    assert(uuid_nibble(a, 11) == uuid_nibble(b, 11));
    assert(uuid_nibble(a, 12) == uuid_nibble(b, 12));
    assert(uuid_nibble(a, 13) == uuid_nibble(b, 13));
    assert(uuid_nibble(a, 14) == uuid_nibble(b, 14));
    assert(uuid_nibble(a, 15) == uuid_nibble(b, 15));
    assert(uuid_nibble(a, 16) == uuid_nibble(b, 16));
    assert(uuid_nibble(a, 17) == uuid_nibble(b, 17));
    assert(uuid_nibble(a, 18) == uuid_nibble(b, 18));
    assert(uuid_nibble(a, 19) == uuid_nibble(b, 19));
    assert(uuid_nibble(a, 20) == uuid_nibble(b, 20));
    assert(uuid_nibble(a, 21) == uuid_nibble(b, 21));
    assert(uuid_nibble(a, 22) == uuid_nibble(b, 22));
    assert(uuid_nibble(a, 23) == uuid_nibble(b, 23));
    assert(uuid_nibble(a, 24) == uuid_nibble(b, 24));
    assert(uuid_nibble(a, 25) == uuid_nibble(b, 25));
    assert(uuid_nibble(a, 26) == uuid_nibble(b, 26));
    assert(uuid_nibble(a, 27) == uuid_nibble(b, 27));
    assert(uuid_nibble(a, 28) == uuid_nibble(b, 28));
    assert(uuid_nibble(a, 29) == uuid_nibble(b, 29));
    assert(uuid_nibble(a, 30) == uuid_nibble(b, 30));
    assert(uuid_nibble(a, 31) == uuid_nibble(b, 31));
    assert(((a >> 124u128) & 15u128 == (b >> 124u128) & 15u128 && (a >> 120u128) & 15u128 == (b
        >> 120u128) & 15u128 && (a >> 116u128) & 15u128 == (b >> 116u128) & 15u128 && (a
        >> 112u128) & 15u128 == (b >> 112u128) & 15u128 && (a >> 108u128) & 15u128 == (b
        >> 108u128) & 15u128 && (a >> 104u128) & 15u128 == (b >> 104u128) & 15u128 && (a
        >> 100u128) & 15u128 == (b >> 100u128) & 15u128 && (a >> 96u128) & 15u128 == (b
        >> 96u128) & 15u128 && (a >> 92u128) & 15u128 == (b >> 92u128) & 15u128 && (a >> 88u128)
        & 15u128 == (b >> 88u128) & 15u128 && (a >> 84u128) & 15u128 == (b >> 84u128) & 15u128
        && (a >> 80u128) & 15u128 == (b >> 80u128) & 15u128 && (a >> 76u128) & 15u128 == (b
        >> 76u128) & 15u128 && (a >> 72u128) & 15u128 == (b >> 72u128) & 15u128 && (a >> 68u128)
        & 15u128 == (b >> 68u128) & 15u128 && (a >> 64u128) & 15u128 == (b >> 64u128) & 15u128
        && (a >> 60u128) & 15u128 == (b >> 60u128) & 15u128 && (a >> 56u128) & 15u128 == (b
        >> 56u128) & 15u128 && (a >> 52u128) & 15u128 == (b >> 52u128) & 15u128 && (a >> 48u128)
        & 15u128 == (b >> 48u128) & 15u128 && (a >> 44u128) & 15u128 == (b >> 44u128) & 15u128
        && (a >> 40u128) & 15u128 == (b >> 40u128) & 15u128 && (a >> 36u128) & 15u128 == (b
        >> 36u128) & 15u128 && (a >> 32u128) & 15u128 == (b >> 32u128) & 15u128 && (a >> 28u128)
        & 15u128 == (b >> 28u128) & 15u128 && (a >> 24u128) & 15u128 == (b >> 24u128) & 15u128
        && (a >> 20u128) & 15u128 == (b >> 20u128) & 15u128 && (a >> 16u128) & 15u128 == (b
        >> 16u128) & 15u128 && (a >> 12u128) & 15u128 == (b >> 12u128) & 15u128 && (a >> 8u128)
        & 15u128 == (b >> 8u128) & 15u128 && (a >> 4u128) & 15u128 == (b >> 4u128) & 15u128 && (a
        >> 0u128) & 15u128 == (b >> 0u128) & 15u128) ==> a == b) by (bit_vector);
}

/// Two identifiers with the same text are the same identifier.
pub proof fn law_uuid_text_is_injective(a: u128, b: u128)
    requires
        uuid_text(a) == uuid_text(b),
    ensures
        a == b,
{
    assert forall|k: int| 0 <= k < 32 implies #[trigger] uuid_nibble(a, k) == uuid_nibble(b, k) by {
        let p = text_position(k);
        assert(simple_position(p) == k);
        assert(uuid_text(a)[p] == uuid_text(b)[p]);
        let shift: u128 = (124 - 4 * k) as u128;
        let na = uuid_nibble(a, k);
        let nb = uuid_nibble(b, k);
        assert(na == (a >> shift) & 15u128);
        assert(nb == (b >> shift) & 15u128);
        assert((a >> shift) & 15u128 < 16u128) by (bit_vector);
        assert((b >> shift) & 15u128 < 16u128) by (bit_vector);
        lemma_hex_digit_value(na);
        lemma_hex_digit_value(nb);
        assert(uuid_text(a)[p] == hex_digit(na));
        assert(uuid_text(b)[p] == hex_digit(nb));
    }
    lemma_nibbles_determine(a, b);
}

/// Looking an entry up by the text of its id finds the entry with that id.
pub proof fn lemma_text_lookup_is_id_lookup(entries: Seq<Entry>, id: u128)
    ensures
        entry_for_text(entries, uuid_text(id)) == first_with_id(entries, id),
    decreases entries.len(),
{
    if entries.len() > 0 {
        if entries[0].id != id {
            if uuid_text(entries[0].id) == uuid_text(id) {
                law_uuid_text_is_injective(entries[0].id, id);
            }
            lemma_text_lookup_is_id_lookup(entries.drop_first(), id);
        }
    }
}

proof fn lemma_first_with_id_push(entries: Seq<Entry>, e: Entry)
    requires
        first_with_id(entries, e.id) is None,
    ensures
        first_with_id(entries.push(e), e.id) == Some(e),
{
    let s = entries.push(e);
    lemma_first_with_id(entries, e.id);
    lemma_first_with_id(s, e.id);
    match first_with_id(s, e.id) {
        Some(x) => {
            let k = choose|k: int|
                0 <= k < s.len() && s[k] == x && x.id == e.id && (forall|j: int|
                    0 <= j < k ==> (#[trigger] s[j]).id != e.id);
            if k < entries.len() {
                assert(entries[k] == s[k]);
            }
        },
        None => {
            assert(s[entries.len() as int] == e);
        },
    }
}

// ---------------------------------------------------------------------
// Reads give back writes
// ---------------------------------------------------------------------

/// An entry that was inserted is what a read by the text of its id gives.
pub proof fn law_created_entry_is_read_back(v: RepositoryView, e: Entry)
    requires
        v.insert_entry(e).1 is Ok,
    ensures
        entry_for_text(v.insert_entry(e).0.entries, uuid_text(e.id)) == Some(e),
{
    lemma_first_with_id_push(v.entries, e);
    lemma_text_lookup_is_id_lookup(v.insert_entry(e).0.entries, e.id);
}

/// An entry created by another device is what a read by the text of its id
/// gives, once the create is applied.
pub proof fn law_remote_create_is_read_back(v: RepositoryView, e: Entry, c: ChangeLog)
    requires
        v.remote_create(e, c).1 is Ok,
    ensures
        entry_for_text(v.remote_create(e, c).0.entries, uuid_text(e.id)) == Some(e),
{
    law_created_entry_is_read_back(v, e);
}

/// After an update from another device is applied, a read by the text of
/// the id gives the stored entry with the incoming version, title, content
/// and update time.
pub proof fn law_update_is_read_back(v: RepositoryView, e: Entry, c: ChangeLog)
    requires
        v.wf(),
        v.remote_update(e, c).1 is Ok,
    ensures
        entry_for_text(v.remote_update(e, c).0.entries, uuid_text(e.id)) == Some(
            overwrite(first_with_id(v.entries, e.id).unwrap(), e),
        ),
{
    let after = v.remote_update(e, c).0;
    let stored = first_with_id(v.entries, e.id).unwrap();
    lemma_first_with_id(v.entries, e.id);
    let k = choose|k: int|
        0 <= k < v.entries.len() && v.entries[k] == stored && stored.id == e.id && (forall|j: int|
            0 <= j < k ==> (#[trigger] v.entries[j]).id != e.id);
    let m = after.entries;
    assert(m == v.update_rows(e).entries);
    assert(m.len() == v.entries.len());
    assert forall|i: int| 0 <= i < m.len() implies (#[trigger] m[i]).id == v.entries[i].id by {}
    assert forall|i: int, j: int| 0 <= i < j < m.len() implies (#[trigger] m[i]).id != (
    #[trigger] m[j]).id by {
        assert(m[i].id == v.entries[i].id);
        assert(m[j].id == v.entries[j].id);
    }
    assert(m[k] == overwrite(stored, e));
    lemma_first_with_id_unique(m, e.id, k);
    lemma_text_lookup_is_id_lookup(m, e.id);
}

/// After a delete from another device is applied, no read by the text of
/// the id finds the entry.
pub proof fn law_deleted_entry_is_gone(v: RepositoryView, c: ChangeLog)
    requires
        v.remote_delete(c).1 is Ok,
    ensures
        !v.remote_delete(c).0.has_entry(c.entity_id),
        entry_for_text(v.remote_delete(c).0.entries, uuid_text(c.entity_id)) is None,
{
    let m = v.remote_delete(c).0.entries;
    assert(m == without_id(v.entries, c.entity_id));
    lemma_without_id(v.entries, c.entity_id);
    lemma_first_with_id(m, c.entity_id);
    lemma_text_lookup_is_id_lookup(m, c.entity_id);
}

/// A device's checkpoint is what a read of that device gives after it is
/// saved, and the checkpoints of other devices stay as they were.
pub proof fn law_checkpoint_is_read_back(v: RepositoryView, st: SyncState, other: u128)
    requires
        v.wf(),
        other != st.device_id,
    ensures
        v.save_state(st).sync_state_of(st.device_id) == Some(st),
        v.save_state(st).sync_state_of(other) == v.sync_state_of(other),
{
    let rest = without_device(v.sync_states, st.device_id);
    let s = rest.push(st);
    lemma_without_device(v.sync_states, st.device_id);
    lemma_first_state_for(s, st.device_id);
    match first_state_for(s, st.device_id) {
        Some(x) => {
            let k = choose|k: int|
                0 <= k < s.len() && s[k] == x && x.device_id == st.device_id && (forall|j: int|
                    0 <= j < k ==> (#[trigger] s[j]).device_id != st.device_id);
            if k < rest.len() {
                assert(rest[k] == s[k]);
            }
        },
        None => {
            assert(s[rest.len() as int] == st);
        },
    }
    lemma_first_state_for(s, other);
    lemma_first_state_for(v.sync_states, other);
    match first_state_for(v.sync_states, other) {
        Some(x) => {
            let k = choose|k: int|
                0 <= k < v.sync_states.len() && v.sync_states[k] == x && x.device_id == other && (
                forall|j: int| 0 <= j < k ==> (#[trigger] v.sync_states[j]).device_id != other);
            assert(rest.contains(v.sync_states[k]));
            let t = choose|t: int| 0 <= t < rest.len() && rest[t] == v.sync_states[k];
            assert(s[t] == x);
            match first_state_for(s, other) {
                Some(y) => {
                    let u = choose|u: int|
                        0 <= u < s.len() && s[u] == y && y.device_id == other && (forall|j: int|
                            0 <= j < u ==> (#[trigger] s[j]).device_id != other);
                    if u != t {
                        assert(u < rest.len());
                        assert(s[u] == rest[u]);
                        assert(v.sync_states.contains(rest[u]));
                        let w = choose|w: int| 0 <= w < v.sync_states.len() && v.sync_states[w] == rest[u];
                        if w != k {
                            if w < k {
                                assert(v.sync_states[w].device_id != v.sync_states[k].device_id);
                            } else {
                                assert(v.sync_states[k].device_id != v.sync_states[w].device_id);
                            }
                        }
                    }
                },
                None => {
                    assert(s[t].device_id != other);
                },
            }
        },
        None => {
            match first_state_for(s, other) {
                Some(y) => {
                    let u = choose|u: int|
                        0 <= u < s.len() && s[u] == y && y.device_id == other && (forall|j: int|
                            0 <= j < u ==> (#[trigger] s[j]).device_id != other);
                    if u < rest.len() {
                        assert(s[u] == rest[u]);
                        assert(v.sync_states.contains(rest[u]));
                        let w = choose|w: int| 0 <= w < v.sync_states.len() && v.sync_states[w] == rest[u];
                        assert(v.sync_states[w].device_id != other);
                    } else {
                        assert(s[u] == st);
                    }
                },
                None => {},
            }
        },
    }
}

// ---------------------------------------------------------------------
// Refused updates
// ---------------------------------------------------------------------

/// An update whose version is lower than the stored one is answered
/// with a conflict and changes nothing.
pub proof fn law_stale_update_is_refused(v: RepositoryView, entries: Seq<Entry>, c: ChangeLog)
    requires
        !v.has_operation(c.operation_id),
        c.operation == OperationType::Update,
        first_with_id(entries, c.entity_id) is Some,
        first_with_id(v.entries, c.entity_id) is Some,
        first_with_id(entries, c.entity_id).unwrap().version < first_with_id(
            v.entries,
            c.entity_id,
        ).unwrap().version,
    ensures
        push_change(v, entries, c) == (v, Err::<(), SyncErrorView>(SyncErrorView::ConflictDetected)),
{
    lemma_first_with_id(entries, c.entity_id);
}

// ---------------------------------------------------------------------
// Replayed events
// ---------------------------------------------------------------------

proof fn lemma_append_logs(v: RepositoryView, c: ChangeLog)
    requires
        v.append_change(c).1 is Ok,
    ensures
        v.append_change(c).0.has_operation(c.operation_id),
{
    let after = v.append_change(c).0;
    assert(after.changes[v.changes.len() as int].operation_id == c.operation_id);
}

/// Applying one pushed event twice has the same effect, and the same
/// answer, as applying it once.
pub proof fn law_push_change_is_idempotent(v: RepositoryView, entries: Seq<Entry>, c: ChangeLog)
    ensures
        push_change(push_change(v, entries, c).0, entries, c) == push_change(v, entries, c),
{
    if !v.has_operation(c.operation_id) {
        match c.operation {
            OperationType::Create => {
                match first_with_id(entries, c.entity_id) {
                    Some(e) => {
                        let (after_insert, inserted) = v.insert_entry(e);
                        if inserted is Ok {
                            if after_insert.append_change(c).1 is Ok {
                                lemma_append_logs(after_insert, c);
                            }
                        }
                    },
                    None => {},
                }
            },
            OperationType::Update => {
                match first_with_id(entries, c.entity_id) {
                    Some(e) => {
                        if v.update_rows(e).append_change(c).1 is Ok {
                            lemma_append_logs(v.update_rows(e), c);
                        }
                    },
                    None => {},
                }
            },
            OperationType::Delete => {
                if v.delete_rows(c.entity_id).append_change(c).1 is Ok {
                    lemma_append_logs(v.delete_rows(c.entity_id), c);
                }
            },
        }
    }
}

/// A push whose events are all in the log already changes nothing and
/// succeeds.
pub proof fn law_replay_of_logged_events_changes_nothing(
    v: RepositoryView,
    entries: Seq<Entry>,
    changes: Seq<ChangeLog>,
)
    requires
        forall|k: int| 0 <= k < changes.len() ==> v.has_operation((#[trigger] changes[k]).operation_id),
    ensures
        push_all(v, entries, changes) == (v, Ok::<(), SyncErrorView>(())),
    decreases changes.len(),
{
    if changes.len() > 0 {
        let init = changes.drop_last();
        assert forall|k: int| 0 <= k < init.len() implies v.has_operation(
            (#[trigger] init[k]).operation_id,
        ) by {
            assert(init[k] == changes[k]);
        }
        law_replay_of_logged_events_changes_nothing(v, entries, init);
        assert(v.has_operation(changes[changes.len() - 1].operation_id));
    }
}

// ---------------------------------------------------------------------
// The log only grows
// ---------------------------------------------------------------------

proof fn lemma_push_change_appends(v: RepositoryView, entries: Seq<Entry>, c: ChangeLog)
    ensures
        ({
            let after = push_change(v, entries, c).0;
            &&& v.changes.is_prefix_of(after.changes)
            &&& v.last_sequence <= after.last_sequence
            &&& forall|k: int|
                v.changes.len() <= k < after.changes.len() ==> v.last_sequence < (
                #[trigger] after.changes[k]).sequence <= after.last_sequence
        }),
{
    let after = push_change(v, entries, c).0;
    assert(after.changes == v.changes || (after.changes == v.changes.push(
        ChangeLog { sequence: (v.last_sequence + 1) as i64, ..c },
    ) && after.last_sequence == v.last_sequence + 1 && v.last_sequence < i64::MAX));
    assert(after.changes == v.changes ==> after.last_sequence == v.last_sequence);
    assert(v.changes.is_prefix_of(v.changes));
}

/// A push only appends to the log: the events that were there stay, in
/// order, and every new one carries a sequence number greater than any
/// handed out before.
pub proof fn law_push_appends_to_log(v: RepositoryView, entries: Seq<Entry>, changes: Seq<ChangeLog>)
    ensures
        ({
            let after = push_all(v, entries, changes).0;
            &&& v.changes.is_prefix_of(after.changes)
            &&& v.last_sequence <= after.last_sequence
            &&& forall|k: int|
                v.changes.len() <= k < after.changes.len() ==> v.last_sequence < (
                #[trigger] after.changes[k]).sequence <= after.last_sequence
        }),
    decreases changes.len(),
{
    if changes.len() > 0 {
        let init = changes.drop_last();
        law_push_appends_to_log(v, entries, init);
        let (mid, r) = push_all(v, entries, init);
        if r is Ok {
            lemma_push_change_appends(mid, entries, changes.last());
            let after = push_all(v, entries, changes).0;
            assert forall|k: int|
                v.changes.len() <= k < after.changes.len() implies v.last_sequence < (
            #[trigger] after.changes[k]).sequence <= after.last_sequence by {
                if k < mid.changes.len() {
                    assert(after.changes[k] == mid.changes[k]);
                }
            }
            assert(v.changes.is_prefix_of(after.changes)) by {
                assert forall|i: int| 0 <= i < v.changes.len() implies v.changes[i]
                    == after.changes[i] by {
                    assert(v.changes[i] == mid.changes[i]);
                    assert(mid.changes[i] == after.changes[i]);
                }
                assert(v.changes =~= after.changes.subrange(0, v.changes.len() as int));
            }
        }
    }
}

// ---------------------------------------------------------------------
// Pulls
// ---------------------------------------------------------------------

proof fn lemma_last_after_is_largest(changes: Seq<ChangeLog>, sequence: i64)
    requires
        forall|i: int, j: int|
            0 <= i < j < changes.len() ==> (#[trigger] changes[i]).sequence < (
            #[trigger] changes[j]).sequence,
        changes_after(changes, sequence).len() > 0,
    ensures
        forall|k: int|
            0 <= k < changes.len() && (#[trigger] changes[k]).sequence > sequence
                ==> changes[k].sequence <= changes_after(changes, sequence).last().sequence,
    decreases changes.len(),
{
    let init = changes.drop_last();
    if changes.last().sequence > sequence {
        assert forall|k: int|
            0 <= k < changes.len() && (#[trigger] changes[k]).sequence > sequence implies changes[k].sequence
            <= changes_after(changes, sequence).last().sequence by {
            if k < changes.len() - 1 {
                assert(changes[k].sequence < changes[changes.len() - 1].sequence);
            }
        }
    } else {
        assert forall|i: int, j: int| 0 <= i < j < init.len() implies (
        #[trigger] init[i]).sequence < (#[trigger] init[j]).sequence by {
            assert(init[i] == changes[i]);
            assert(init[j] == changes[j]);
        }
        lemma_last_after_is_largest(init, sequence);
        assert forall|k: int|
            0 <= k < changes.len() && (#[trigger] changes[k]).sequence > sequence implies changes[k].sequence
            <= changes_after(changes, sequence).last().sequence by {
            assert(k < changes.len() - 1);
            assert(init[k] == changes[k]);
        }
    }
}

/// Pulling again from the sequence number a pull answered gives no events,
/// as long as nothing new was logged.
pub proof fn law_pull_from_latest_is_empty(v: RepositoryView, sequence: i64)
    requires
        v.wf(),
    ensures
        changes_after(v.changes, pull_latest(v.changes, sequence)).len() == 0,
{
    let latest = pull_latest(v.changes, sequence);
    let again = changes_after(v.changes, latest);
    lemma_changes_after(v.changes, latest);
    lemma_changes_after(v.changes, sequence);
    if again.len() > 0 {
        let x = again[0];
        let m = choose|m: int| 0 <= m < v.changes.len() && v.changes[m] == x;
        if changes_after(v.changes, sequence).len() == 0 {
            assert(changes_after(v.changes, sequence).contains(v.changes[m]));
        } else {
            lemma_last_after_is_largest(v.changes, sequence);
            let last = changes_after(v.changes, sequence).last();
            assert(changes_after(v.changes, sequence)[changes_after(v.changes, sequence).len()
                - 1].sequence > sequence);
            assert(v.changes[m].sequence > latest);
            assert(latest == last.sequence);
        }
    }
}

/// The log after one pushed event: unchanged, or grown by that event when it
/// was not logged; a successful create or update always grows it.
proof fn lemma_push_change_log(v: RepositoryView, entries: Seq<Entry>, c: ChangeLog)
    ensures
        ({
            let (after, r) = push_change(v, entries, c);
            let logged = ChangeLog { sequence: (v.last_sequence + 1) as i64, ..c };
            &&& after.changes == v.changes || (!v.has_operation(c.operation_id) && after.changes
                == v.changes.push(logged))
            &&& (r is Ok && c.operation != OperationType::Delete && !v.has_operation(
                c.operation_id,
            )) ==> after.changes == v.changes.push(logged)
        }),
{
    if !v.has_operation(c.operation_id) {
        match c.operation {
            OperationType::Create => {
                match first_with_id(entries, c.entity_id) {
                    Some(e) => {
                        let (mid, inserted) = v.insert_entry(e);
                        assert(mid.changes == v.changes);
                        assert(mid.last_sequence == v.last_sequence);
                        assert(!mid.has_operation(c.operation_id));
                    },
                    None => {},
                }
            },
            OperationType::Update => {
                match first_with_id(entries, c.entity_id) {
                    Some(e) => {
                        let mid = v.update_rows(e);
                        assert(mid.changes == v.changes);
                        assert(!mid.has_operation(c.operation_id));
                    },
                    None => {},
                }
            },
            OperationType::Delete => {
                let mid = v.delete_rows(c.entity_id);
                assert(mid.changes == v.changes);
                assert(!mid.has_operation(c.operation_id));
            },
        }
    }
}

/// The operation ids in the log stay unique after any pushed event, and an
/// event that was pushed as a create or an update and answered success is in
/// the log (so, ids being unique, exactly once).
pub proof fn law_push_change_keeps_operation_ids_unique(
    v: RepositoryView,
    entries: Seq<Entry>,
    c: ChangeLog,
)
    requires
        v.wf(),
    ensures
        ({
            let (after, r) = push_change(v, entries, c);
            &&& forall|i: int, j: int|
                0 <= i < j < after.changes.len() ==> (#[trigger] after.changes[i]).operation_id
                    != (#[trigger] after.changes[j]).operation_id
            &&& (r is Ok && c.operation != OperationType::Delete) ==> exists|k: int|
                0 <= k < after.changes.len() && (#[trigger] after.changes[k]).operation_id
                    == c.operation_id
        }),
{
    lemma_push_change_log(v, entries, c);
    let outcome = push_change(v, entries, c);
    lemma_log_outcome(
        v.changes,
        outcome.0.changes,
        outcome.1 is Ok && c.operation != OperationType::Delete,
        ChangeLog { sequence: (v.last_sequence + 1) as i64, ..c },
        v.has_operation(c.operation_id),
    );
}

/// A log that is either unchanged or grown by one event whose operation id
/// it did not hold keeps its operation ids unique; when it had to grow, that
/// operation id is in it.
proof fn lemma_log_outcome(
    before: Seq<ChangeLog>,
    changes: Seq<ChangeLog>,
    must_log: bool,
    logged: ChangeLog,
    was_logged: bool,
)
    requires
        forall|i: int, j: int|
            0 <= i < j < before.len() ==> (#[trigger] before[i]).operation_id != (
            #[trigger] before[j]).operation_id,
        was_logged == exists|i: int|
            0 <= i < before.len() && (#[trigger] before[i]).operation_id == logged.operation_id,
        changes == before || (!was_logged && changes == before.push(logged)),
        (must_log && !was_logged) ==> changes == before.push(logged),
    ensures
        forall|i: int, j: int|
            0 <= i < j < changes.len() ==> (#[trigger] changes[i]).operation_id != (
            #[trigger] changes[j]).operation_id,
        must_log ==> exists|k: int|
            0 <= k < changes.len() && (#[trigger] changes[k]).operation_id == logged.operation_id,
{
    if !was_logged && changes == before.push(logged) {
        lemma_grown_log(before, logged);
        if must_log {
            let k = before.len() as int;
            assert(changes[k] == logged);
        }
    }
}

/// A log grown by one event whose operation id it did not hold keeps its
/// operation ids unique.
proof fn lemma_grown_log(before: Seq<ChangeLog>, logged: ChangeLog)
    requires
        forall|i: int, j: int|
            0 <= i < j < before.len() ==> (#[trigger] before[i]).operation_id != (
            #[trigger] before[j]).operation_id,
        forall|i: int| 0 <= i < before.len() ==> (#[trigger] before[i]).operation_id != logged.operation_id,
    ensures
        forall|i: int, j: int|
            0 <= i < j < before.push(logged).len() ==> (#[trigger] before.push(logged)[i]).operation_id
                != (#[trigger] before.push(logged)[j]).operation_id,
{
    let changes = before.push(logged);
    assert forall|i: int, j: int| 0 <= i < j < changes.len() implies (
    #[trigger] changes[i]).operation_id != (#[trigger] changes[j]).operation_id by {
        assert(changes[i] == before[i]);
        if j < before.len() {
            assert(changes[j] == before[j]);
        }
    }
}

/// A pull never sends a device back: the sequence number it answers is at
/// least the one the device had seen.
pub proof fn law_pull_latest_never_goes_back(changes: Seq<ChangeLog>, sequence: i64)
    ensures
        pull_latest(changes, sequence) >= sequence,
{
    lemma_changes_after(changes, sequence);
    let after = changes_after(changes, sequence);
    if after.len() > 0 {
        assert(after[after.len() - 1].sequence > sequence);
    }
}

/// Each event of `changes` is in the log of `v`, or is a delete whose entry
/// `v` does not hold.
pub open spec fn settled_in(v: RepositoryView, changes: Seq<ChangeLog>) -> bool {
    forall|k: int|
        0 <= k < changes.len() ==> v.has_operation((#[trigger] changes[k]).operation_id) || (
        changes[k].operation == OperationType::Delete && !v.has_entry(changes[k].entity_id))
}

proof fn lemma_replay_of_settled_push(v: RepositoryView, entries: Seq<Entry>, changes: Seq<ChangeLog>)
    requires
        settled_in(v, changes),
    ensures
        push_all(v, entries, changes) == (v, Ok::<(), SyncErrorView>(())),
    decreases changes.len(),
{
    if changes.len() > 0 {
        let init = changes.drop_last();
        assert forall|k: int| 0 <= k < init.len() implies v.has_operation(
            (#[trigger] init[k]).operation_id,
        ) || (init[k].operation == OperationType::Delete && !v.has_entry(init[k].entity_id)) by {
            assert(init[k] == changes[k]);
        }
        lemma_replay_of_settled_push(v, entries, init);
        let last = changes[changes.len() - 1];
        assert(changes.last() == last);
        if !v.has_operation(last.operation_id) {
            assert(last.operation == OperationType::Delete && !v.has_entry(last.entity_id));
        }
    }
}

/// A log that grew by at most one event keeps every operation id it held.
proof fn lemma_grown_log_keeps(before: Seq<ChangeLog>, after: Seq<ChangeLog>, x: ChangeLog, id: u128)
    requires
        after == before || after == before.push(x),
        exists|i: int| 0 <= i < before.len() && (#[trigger] before[i]).operation_id == id,
    ensures
        exists|i: int| 0 <= i < after.len() && (#[trigger] after[i]).operation_id == id,
{
    let i = choose|i: int| 0 <= i < before.len() && (#[trigger] before[i]).operation_id == id;
    assert(after[i] == before[i]);
}

/// After a push that succeeded, every create and update it carried is in
/// the log.
proof fn lemma_successful_push_logs(v: RepositoryView, entries: Seq<Entry>, changes: Seq<ChangeLog>)
    requires
        push_all(v, entries, changes).1 is Ok,
    ensures
        forall|k: int|
            0 <= k < changes.len() && (#[trigger] changes[k]).operation != OperationType::Delete
                ==> push_all(v, entries, changes).0.has_operation(changes[k].operation_id),
    decreases changes.len(),
{
    if changes.len() > 0 {
        let init = changes.drop_last();
        let mid = push_all(v, entries, init).0;
        let last = changes.last();
        lemma_successful_push_logs(v, entries, init);
        lemma_push_change_log(mid, entries, last);
        let after = push_all(v, entries, changes).0;
        let logged = ChangeLog { sequence: (mid.last_sequence + 1) as i64, ..last };
        assert(after == push_change(mid, entries, last).0);
        assert forall|k: int|
            0 <= k < changes.len() && (#[trigger] changes[k]).operation != OperationType::Delete implies after.has_operation(
            changes[k].operation_id,
        ) by {
            if k < init.len() {
                assert(init[k] == changes[k]);
                assert(mid.has_operation(init[k].operation_id));
                lemma_grown_log_keeps(mid.changes, after.changes, logged, changes[k].operation_id);
            } else {
                assert(changes[k] == last);
                if mid.has_operation(last.operation_id) {
                    lemma_grown_log_keeps(mid.changes, after.changes, logged, last.operation_id);
                } else {
                    assert(after.changes == mid.changes.push(logged));
                    assert(after.changes[mid.changes.len() as int].operation_id == last.operation_id);
                }
            }
        }
    }
}

/// Replaying a push that succeeded changes nothing and succeeds again,
/// except where one of its deletes found its entry gone (so was not logged)
/// and the entry is stored after the push: the replayed delete removes it.
pub proof fn law_replaying_a_push_changes_nothing(
    v: RepositoryView,
    entries: Seq<Entry>,
    changes: Seq<ChangeLog>,
)
    requires
        push_all(v, entries, changes).1 is Ok,
        forall|k: int|
            0 <= k < changes.len() && (#[trigger] changes[k]).operation == OperationType::Delete
                && !push_all(v, entries, changes).0.has_operation(changes[k].operation_id)
                ==> !push_all(v, entries, changes).0.has_entry(changes[k].entity_id),
    ensures
        push_all(push_all(v, entries, changes).0, entries, changes) == (
            push_all(v, entries, changes).0,
            Ok::<(), SyncErrorView>(()),
        ),
{
    let after = push_all(v, entries, changes).0;
    lemma_successful_push_logs(v, entries, changes);
    assert forall|k: int| 0 <= k < changes.len() implies after.has_operation(
        (#[trigger] changes[k]).operation_id,
    ) || (changes[k].operation == OperationType::Delete && !after.has_entry(changes[k].entity_id)) by {}
    lemma_replay_of_settled_push(after, entries, changes);
}

} // verus!
