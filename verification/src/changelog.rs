//! The change log: one immutable event per modification.

use vstd::prelude::*;
use crate::clock::{now, Timestamp};
use crate::ids::{is_v4, uuid_new_v4};

verus! {

/// The kind of modification an event records.
#[derive(Clone, Copy, Debug, PartialEq, Eq, Structural)]
pub enum OperationType {
    Create,
    Update,
    Delete,
}

/// One synchronisation event. `sequence` orders events; the repository gives
/// each stored event its own, and ignores the one it is handed.
#[derive(Clone, Copy, Debug, PartialEq, Eq, Structural)]
pub struct ChangeLog {
    pub sequence: i64,
    pub operation_id: u128,
    pub device_id: u128,
    pub entity_id: u128,
    pub operation: OperationType,
    pub timestamp: Timestamp,
}

/// The event that `create_event` builds once it holds a fresh operation id
/// and the current time.
pub open spec fn event(
    device_id: u128,
    entity_id: u128,
    operation: OperationType,
    operation_id: u128,
    timestamp: Timestamp,
) -> ChangeLog {
    ChangeLog { sequence: 0, operation_id, device_id, entity_id, operation, timestamp }
}

/// A new event for `operation` on `entity_id` by `device_id`, with a fresh
/// random version-4 operation id (never nil), the current time, and sequence
/// 0 (not yet stored).
pub fn create_event(device_id: u128, entity_id: u128, operation: OperationType) -> (c: ChangeLog)
    ensures
        c == event(device_id, entity_id, operation, c.operation_id, c.timestamp),
        is_v4(c.operation_id),
        c.operation_id != 0,
        c.timestamp.seconds >= 0,
        c.timestamp.nanos < 1_000_000_000,
{
    let operation_id = uuid_new_v4();
    assert(operation_id & 0x0000_0000_0000_f000_c000_0000_0000_0000u128
        == 0x0000_0000_0000_4000_8000_0000_0000_0000u128 ==> operation_id != 0) by (bit_vector);
    let timestamp = now();
    ChangeLog { sequence: 0, operation_id, device_id, entity_id, operation, timestamp }
}

} // verus!
