//! The records that the engine stores: entries and device checkpoints.

use vstd::prelude::*;
use crate::clock::Timestamp;

verus! {

/// A user document.
#[derive(Debug)]
pub struct Entry {
    pub id: u128,
    pub version: i64,
    pub device_id: u128,
    pub title: String,
    pub content: String,
    pub created_at: Timestamp,
    pub updated_at: Timestamp,
}

impl Entry {
    /// A field-by-field copy of the entry.
    pub fn duplicate(&self) -> (r: Entry)
        ensures
            r == *self,
    {
        Entry {
            id: self.id,
            version: self.version,
            device_id: self.device_id,
            title: self.title.clone(),
            content: self.content.clone(),
            created_at: self.created_at,
            updated_at: self.updated_at,
        }
    }
}

/// The synchronisation checkpoint of one device: the last operation and
/// sequence number that it has seen (a device that never synchronised has
/// no last operation).
#[derive(Clone, Copy, Debug, PartialEq, Eq, Structural)]
pub struct SyncState {
    pub device_id: u128,
    pub last_seen_operation: Option<u128>,
    pub last_seen_sequence: i64,
}

} // verus!
