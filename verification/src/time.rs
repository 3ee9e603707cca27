//! Points in time, as the store keeps them.

use vstd::prelude::*;

verus! {

/// A point in time on the UTC clock: whole seconds since the start of 1970 and
/// the nanoseconds into that second.
#[derive(Clone, Copy, Debug, PartialEq, Eq, Structural)]
pub struct Timestamp {
    pub seconds: i64,
    pub nanos: u32,
}

impl Timestamp {
    /// This point in time cut down to the whole second, as it goes out on the
    /// wire.
    pub fn whole_seconds(self) -> (cut: Timestamp)
        ensures
            cut == (Timestamp { seconds: self.seconds, nanos: 0 }),
    {
        Timestamp { seconds: self.seconds, nanos: 0 }
    }
}

/// Reads the clock through `chrono::Utc::now` and takes the seconds and
/// nanoseconds of the reading. The reading depends on the moment of the
/// call, so nothing is claimed of it. `Utc::now` gives up on a machine whose
/// clock stands before 1970.
#[verifier::external_body]
pub(crate) fn current_time() -> (now: Timestamp) {
    let now = chrono::Utc::now();
    Timestamp { seconds: now.timestamp(), nanos: now.timestamp_subsec_nanos() }
}

} // verus!
