//! The messages that devices exchange with the server.

use vstd::prelude::*;
use crate::changelog::ChangeLog;
use crate::models::Entry;

verus! {

/// A device sends its events, with the entries they refer to.
#[derive(Debug)]
pub struct PushRequest {
    pub device_id: u128,
    pub entries: Vec<Entry>,
    pub changes: Vec<ChangeLog>,
}

/// The answer to a push.
#[derive(Clone, Copy, Debug, PartialEq, Eq, Structural)]
pub struct PushResponse {
    pub success: bool,
    pub latest_sequence: i64,
}

/// A device asks for every event after the last sequence number it has seen.
#[derive(Clone, Copy, Debug, PartialEq, Eq, Structural)]
pub struct PullRequest {
    pub device_id: u128,
    pub last_seen_sequence: i64,
}

/// The events a device has not seen, the entries they touch, and the
/// sequence number to ask from next time.
#[derive(Debug)]
pub struct PullResponse {
    pub entries: Vec<Entry>,
    pub changes: Vec<ChangeLog>,
    pub latest_sequence: i64,
}

} // verus!
