//! Wall-clock instants.

use vstd::prelude::*;

verus! {

/// Nanoseconds in a second.
pub const NANOS_PER_SEC: u32 = 1_000_000_000;

/// Nanoseconds in a microsecond.
pub const NANOS_PER_MICRO: u32 = 1_000;

/// A wall-clock instant, as its distance from the Unix epoch.
#[derive(Debug, Clone, Copy, PartialEq, Eq, Hash)]
pub struct Timestamp {
    /// Whether the instant lies before the epoch.
    pub before_epoch: bool,
    /// Whole seconds between the epoch and the instant.
    pub secs: u64,
    /// Nanoseconds beyond the whole seconds.
    pub nanos: u32,
}

impl Timestamp {
    /// Exactly one valid value stands for each instant: the nanoseconds stay
    /// below a second, and the epoch itself does not lie before the epoch.
    pub open spec fn valid(self) -> bool {
        &&& self.nanos < NANOS_PER_SEC
        &&& self.before_epoch ==> self.secs > 0 || self.nanos > 0
    }

    /// The instant in nanoseconds since the Unix epoch, negative before it.
    pub open spec fn unix_nanos(self) -> int {
        let distance = self.secs * NANOS_PER_SEC + self.nanos;
        if self.before_epoch {
            -distance
        } else {
            distance
        }
    }

    /// The instant `secs` seconds and `nanos` nanoseconds after the epoch.
    /// Nanoseconds beyond a second carry into the seconds.
    pub fn after_epoch(secs: u64, nanos: u32) -> (t: Timestamp)
        requires
            secs + nanos / NANOS_PER_SEC <= u64::MAX,
        ensures
            t.valid(),
            !t.before_epoch,
            t.unix_nanos() == secs * NANOS_PER_SEC + nanos,
            t.nanos < 1_000_000_000,
            t.secs * 1_000_000_000 + t.nanos == secs * 1_000_000_000 + nanos,
    {
        Timestamp {
            before_epoch: false,
            secs: secs + (nanos / NANOS_PER_SEC) as u64,
            nanos: nanos % NANOS_PER_SEC,
        }
    }
}

} // verus!
