//! Durations and instants with microsecond resolution on a 32-bit count.
use vstd::prelude::*;

verus! {

/// A time span in microseconds.
#[derive(Clone, Copy, Debug, PartialEq, Eq, Structural)]
pub struct Duration(pub u32);

impl Duration {
    pub fn from_secs(secs: u32) -> (r: Duration)
        requires
            secs * 1_000_000 <= u32::MAX,
        ensures
            r.0 == secs * 1_000_000,
    {
        Duration(secs * 1_000_000)
    }

    pub fn from_msecs(msecs: u32) -> (r: Duration)
        requires
            msecs * 1000 <= u32::MAX,
        ensures
            r.0 == msecs * 1000,
    {
        Duration(msecs * 1000)
    }

    pub fn from_usecs(usecs: u32) -> (r: Duration)
        ensures
            r.0 == usecs,
    {
        Duration(usecs)
    }

    /// The span in microseconds.
    pub fn usecs(self) -> (r: u32)
        ensures
            r == self.0,
    {
        self.0
    }
}

/// A point in time in microseconds, on a clock that wraps.
#[derive(Clone, Copy, Debug, PartialEq, Eq, Structural)]
pub struct Instant(pub u32);

impl Instant {
    pub fn from_secs(secs: u32) -> (r: Instant)
        requires
            secs * 1_000_000 <= u32::MAX,
        ensures
            r.0 == secs * 1_000_000,
    {
        Instant(secs * 1_000_000)
    }

    pub fn from_msecs(msecs: u32) -> (r: Instant)
        requires
            msecs * 1000 <= u32::MAX,
        ensures
            r.0 == msecs * 1000,
    {
        Instant(msecs * 1000)
    }

    pub fn from_usecs(usecs: u32) -> (r: Instant)
        ensures
            r.0 == usecs,
    {
        Instant(usecs)
    }

    /// The instant `d` later, on the wrapping clock.
    pub fn add(self, d: Duration) -> (r: Instant)
        ensures
            r.0 == crate::filter::wrap_add(self.0, d.0),
    {
        Instant(self.0.wrapping_add(d.0))
    }

    /// The instant `d` earlier, on the wrapping clock.
    pub fn sub(self, d: Duration) -> (r: Instant)
        ensures
            r.0 == crate::filter::wrap_sub(self.0, d.0),
    {
        Instant(self.0.wrapping_sub(d.0))
    }
}

} // verus!
