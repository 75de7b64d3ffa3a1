//! Instants in time, as seconds and nanoseconds since the Unix epoch.

use vstd::prelude::*;

verus! {

/// An instant in UTC: whole seconds since 1970-01-01T00:00:00Z and the
/// nanoseconds past that second (above 999_999_999 only inside a leap second).
#[derive(Clone, Copy, Debug, PartialEq, Eq, Hash, Structural)]
pub struct Timestamp {
    pub secs: i64,
    pub nanos: u32,
}

impl Timestamp {
    /// `self` lies strictly before `other`.
    pub open spec fn spec_before(self, other: Timestamp) -> bool {
        self.secs < other.secs || (self.secs == other.secs && self.nanos < other.nanos)
    }

    /// The Unix epoch itself.
    pub fn epoch() -> (t: Timestamp)
        ensures
            t.secs == 0,
            t.nanos == 0,
    {
        Timestamp { secs: 0, nanos: 0 }
    }

    /// Whether `self` lies strictly before `other`.
    pub fn before(&self, other: &Timestamp) -> (b: bool)
        ensures
            b == self.spec_before(*other),
    {
        self.secs < other.secs || (self.secs == other.secs && self.nanos < other.nanos)
    }
}

/// Reads the system clock with `std::time::SystemTime::now` and turns it into
/// a `chrono::DateTime<Utc>` through chrono's `From<SystemTime>`, which also
/// handles readings before 1970 (as negative seconds), then splits it with
/// `DateTime::timestamp` and `DateTime::timestamp_subsec_nanos`. What the
/// clock reads is left to the machine; chrono's conversion always yields
/// nanoseconds below one billion.
#[verifier::external_body]
pub(crate) fn clock_now() -> (t: Timestamp)
    ensures
        t.nanos < 1_000_000_000,
{
    let now = chrono::DateTime::<chrono::Utc>::from(std::time::SystemTime::now());
    Timestamp { secs: now.timestamp(), nanos: now.timestamp_subsec_nanos() }
}

} // verus!
