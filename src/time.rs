use vstd::prelude::*;

verus! {

/// Nanoseconds in one second.
pub const NANOS_PER_SEC: i128 = 1_000_000_000;

/// The later of two instants (the first one when they are equal).
pub open spec fn later(a: Timestamp, b: Timestamp) -> Timestamp {
    if b.spec_nanos() > a.spec_nanos() {
        b
    } else {
        a
    }
}

/// A point in time: whole seconds since the Unix epoch and the nanoseconds
/// past that second.
#[derive(Clone, Copy, Debug, PartialEq, Eq, Structural)]
pub struct Timestamp {
    pub secs: i64,
    pub nanos: u32,
}

impl Timestamp {
    /// The instant as nanoseconds since the epoch.
    pub open spec fn spec_nanos(self) -> int {
        self.secs as int * 1_000_000_000 + self.nanos as int
    }

    /// Nanoseconds since the epoch, exactly.
    pub fn as_nanos(&self) -> (r: i128)
        ensures
            r as int == self.spec_nanos(),
    {
        self.secs as i128 * NANOS_PER_SEC + self.nanos as i128
    }

    /// The later of two instants (the first one when they are equal).
    pub fn later_of(self, other: Timestamp) -> (r: Timestamp)
        ensures
            r == later(self, other),
            r.spec_nanos() >= self.spec_nanos(),
            r.spec_nanos() >= other.spec_nanos(),
    {
        if other.as_nanos() > self.as_nanos() {
            other
        } else {
            self
        }
    }
}

/// Relies on chrono::Utc::now, read back as `timestamp` (whole seconds) and
/// `timestamp_subsec_nanos`. Nothing is promised of the value: it is the
/// wall clock.
#[verifier::external_body]
pub(crate) fn clock_now() -> (r: Timestamp) {
    let t = chrono::Utc::now();
    Timestamp { secs: t.timestamp(), nanos: t.timestamp_subsec_nanos() }
}

} // verus!
