//! Points in time, in nanoseconds since the Unix epoch.
use vstd::prelude::*;

verus! {

/// A point in time, in nanoseconds since the Unix epoch.
#[derive(Clone, Copy, Debug, PartialEq, Eq, PartialOrd, Ord)]
pub struct Timestamp {
    nanos: u64,
}

impl Timestamp {
    pub closed spec fn spec_nanos(&self) -> u64 {
        self.nanos
    }

    /// The instant `nanos` nanoseconds after the epoch.
    pub fn from_nanos(nanos: u64) -> (r: Timestamp)
        ensures
            r.spec_nanos() == nanos,
    {
        Timestamp { nanos }
    }

    /// Nanoseconds since the epoch.
    pub fn nanos(&self) -> (r: u64)
        ensures
            r == self.spec_nanos(),
    {
        self.nanos
    }
}

} // verus!
