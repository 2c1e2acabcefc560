//! The last cluster version that the store has observed.

use vstd::prelude::*;

verus! {

/// The larger of two versions.
pub open spec fn later(a: u64, b: u64) -> u64 {
    if a < b {
        b
    } else {
        a
    }
}

/// A version that only moves forward: an observation older than the current
/// version leaves it unchanged.
pub struct VersionClock {
    version: u64,
}

impl View for VersionClock {
    type V = u64;

    closed spec fn view(&self) -> u64 {
        self.version
    }
}

impl VersionClock {
    /// A clock that starts at `initial`.
    pub fn new(initial: u64) -> (r: VersionClock)
        ensures
            r@ == initial,
    {
        VersionClock { version: initial }
    }

    /// The current version.
    pub fn version(&self) -> (r: u64)
        ensures
            r == self@,
    {
        self.version
    }

    /// Records an observed version and returns the clock's version after it.
    pub fn observe(&mut self, version: u64) -> (r: u64)
        ensures
            final(self)@ == later(old(self)@, version),
            final(self)@ >= old(self)@,
            r == final(self)@,
    {
        if version > self.version {
            self.version = version;
        }
        self.version
    }
}

} // verus!
