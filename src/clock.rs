use vstd::prelude::*;

verus! {

/// Number of nanoseconds in one second.
pub const NSEC_PER_SEC: i32 = 1_000_000_000;

/// A point in wall-clock time: whole seconds since the Unix epoch plus a
/// nanosecond part in `[0, NSEC_PER_SEC)`.
#[derive(Clone, Copy, Debug, PartialEq, Eq, Structural)]
pub struct Timespec {
    pub sec: i64,
    pub nsec: i32,
}

impl Timespec {
    /// The nanosecond part is a proper fraction of a second.
    pub open spec fn wf(self) -> bool {
        0 <= self.nsec < NSEC_PER_SEC
    }

    /// `self` comes strictly before `other`.
    pub open spec fn before(self, other: Timespec) -> bool {
        self.sec < other.sec || (self.sec == other.sec && self.nsec < other.nsec)
    }
}

/// Relies on `time::get_time`: it reads the system's real-time clock and
/// builds the result with `Timespec::new`, which only accepts a nanosecond
/// part in `[0, 1_000_000_000)`. Nothing is known of the value otherwise.
#[verifier::external_body]
pub(crate) fn current_time() -> (r: Timespec)
    ensures
        r.wf(),
{
    let t = time::get_time();
    Timespec { sec: t.sec, nsec: t.nsec }
}

} // verus!
