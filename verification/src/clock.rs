//! Points in time, as chrono's `DateTime<Utc>` gives them.

use vstd::prelude::*;

verus! {

/// A point in time: whole seconds since the Unix epoch and the nanoseconds
/// within that second.
#[derive(Clone, Copy, Debug, PartialEq, Eq, Structural)]
pub struct Timestamp {
    pub seconds: i64,
    pub nanos: u32,
}

impl Timestamp {
    /// `self` is not earlier than `other`.
    pub open spec fn not_before(self, other: Timestamp) -> bool {
        self.seconds > other.seconds || (self.seconds == other.seconds && self.nanos >= other.nanos)
    }

    /// Executable form of `not_before`.
    pub fn is_not_before(&self, other: &Timestamp) -> (r: bool)
        ensures
            r == self.not_before(*other),
    {
        self.seconds > other.seconds || (self.seconds == other.seconds && self.nanos >= other.nanos)
    }
}

/// `chrono::Utc::now`, read as seconds and nanoseconds. The crate builds it
/// from the `Duration` since the Unix epoch of `SystemTime::now()` (it panics
/// on a clock before the epoch), so the seconds are not negative and the
/// nanoseconds stay below one second; what the clock shows is not stated.
#[verifier::external_body]
pub(crate) fn now() -> (t: Timestamp)
    ensures
        t.seconds >= 0,
        t.nanos < 1_000_000_000,
{
    let now = chrono::Utc::now();
    Timestamp { seconds: now.timestamp(), nanos: now.timestamp_subsec_nanos() }
}

} // verus!
