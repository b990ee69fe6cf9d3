//! Points in time, as milliseconds since the Unix epoch.

use vstd::prelude::*;

verus! {

/// A point in time: milliseconds since the Unix epoch.
#[derive(Debug, Clone, Copy, PartialEq, Eq, PartialOrd, Ord, Hash, Structural)]
pub struct UnixTimestamp {
    millis: u128,
}

impl UnixTimestamp {
    /// The point in time this many milliseconds after the epoch.
    pub fn from_millis(millis: u128) -> (r: UnixTimestamp)
        ensures
            r.millis() == millis,
    {
        UnixTimestamp { millis }
    }

    /// Milliseconds since the epoch.
    pub closed spec fn millis(self) -> u128 {
        self.millis
    }

    /// Milliseconds since the epoch.
    pub fn as_millis(&self) -> (r: u128)
        ensures
            r == self.millis(),
    {
        self.millis
    }

    /// The point in time `ms` milliseconds later.
    pub fn add_millis(&self, ms: u128) -> (r: UnixTimestamp)
        requires
            self.millis() + ms <= u128::MAX,
        ensures
            r.millis() == self.millis() + ms,
    {
        UnixTimestamp { millis: self.millis + ms }
    }

    /// The point in time `ms` milliseconds earlier.
    pub fn sub_millis(&self, ms: u128) -> (r: UnixTimestamp)
        requires
            ms <= self.millis(),
        ensures
            r.millis() == self.millis() - ms,
    {
        UnixTimestamp { millis: self.millis - ms }
    }

    /// The milliseconds from `earlier` to `self`, cut to 64 bits.
    pub fn millis_since(&self, earlier: &UnixTimestamp) -> (r: u64)
        requires
            earlier.millis() <= self.millis(),
        ensures
            r == (self.millis() - earlier.millis()) as u64,
    {
        (self.millis - earlier.millis) as u64
    }

    /// The milliseconds since the epoch as a signed 64-bit number, cut to 64
    /// bits.
    pub fn to_i64(&self) -> (r: i64)
        ensures
            r == self.millis() as i64,
    {
        self.millis as i64
    }
}

/// Timestamps are equal exactly when their milliseconds are.
pub proof fn lemma_timestamp_eq(a: UnixTimestamp, b: UnixTimestamp)
    ensures
        (a == b) <==> (a.millis() == b.millis()),
{
}

/// Moving forward and back by the same amount gives the same point in time.
pub proof fn lemma_add_sub_millis(t: UnixTimestamp, ms: u128, later: UnixTimestamp)
    requires
        later.millis() == t.millis() + ms,
    ensures
        later.millis() - ms == t.millis(),
{
}

} // verus!
