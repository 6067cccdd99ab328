use vstd::prelude::*;

verus! {

/// A point in time, as milliseconds since the Unix epoch.
#[derive(Debug, Clone, Copy, PartialEq, Eq, Structural)]
pub struct Timestamp {
    pub millis: i64,
}

impl Timestamp {
    pub fn from_millis(millis: i64) -> (r: Timestamp)
        ensures
            r.millis == millis,
    {
        Timestamp { millis }
    }
}

/// Relies on chrono::Utc::now (with DateTime::timestamp_millis) for the
/// current wall-clock time; chrono requires a system clock at or after the
/// Unix epoch. The result depends on the clock, so nothing is promised of its
/// value.
#[verifier::external_body]
pub fn now() -> Timestamp {
    Timestamp { millis: chrono::Utc::now().timestamp_millis() }
}

} // verus!
