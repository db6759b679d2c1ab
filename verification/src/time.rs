//! The canonical timestamp: seconds since the Unix epoch plus a sub-second
//! microsecond part. Every cross-browser and cross-node comparison is made
//! in this representation; the browser codecs translate their native
//! formats to and from it.

use vstd::prelude::*;

verus! {

/// A point in time, at microsecond resolution.
///
/// `secs` counts whole seconds since the Unix epoch (negative values lie
/// before it); `micros` is the sub-second part and is always below one
/// million for a well-formed value.
#[derive(Clone, Copy, Debug, PartialEq, Eq, Structural, Hash)]
pub struct Timestamp {
    pub secs: i64,
    pub micros: u32,
}

pub const MICROS_PER_SEC: u32 = 1_000_000;

impl Timestamp {
    /// The sub-second part stays below one million.
    pub open spec fn wf(self) -> bool {
        self.micros < MICROS_PER_SEC
    }

    /// `self` is strictly before `other`.
    pub open spec fn spec_lt(self, other: Timestamp) -> bool {
        self.secs < other.secs || (self.secs == other.secs && self.micros < other.micros)
    }

    /// `self` is before `other` or equal to it.
    pub open spec fn spec_le(self, other: Timestamp) -> bool {
        self.spec_lt(other) || self == other
    }

    pub fn new(secs: i64, micros: u32) -> (r: Timestamp)
        requires
            micros < MICROS_PER_SEC,
        ensures
            r == (Timestamp { secs, micros }),
    {
        Timestamp { secs, micros }
    }

    /// The Unix epoch itself, the low-water mark a provider starts from.
    pub fn epoch() -> (r: Timestamp)
        ensures
            r == Timestamp::spec_epoch(),
    {
        Timestamp { secs: 0, micros: 0 }
    }

    pub open spec fn spec_epoch() -> Timestamp {
        Timestamp { secs: 0, micros: 0 }
    }

    pub fn lt(&self, other: &Timestamp) -> (r: bool)
        ensures
            r == self.spec_lt(*other),
    {
        self.secs < other.secs || (self.secs == other.secs && self.micros < other.micros)
    }

    pub fn le(&self, other: &Timestamp) -> (r: bool)
        ensures
            r == self.spec_le(*other),
    {
        self.secs < other.secs || (self.secs == other.secs && self.micros <= other.micros)
    }

    /// The later of the two points.
    pub fn max(self, other: Timestamp) -> (r: Timestamp)
        ensures
            r == if self.spec_le(other) { other } else { self },
    {
        if self.le(&other) {
            other
        } else {
            self
        }
    }
}

/// The order is total: of two points one is before the other or they are equal.
pub proof fn lemma_order_total(a: Timestamp, b: Timestamp)
    ensures
        a.spec_le(b) || b.spec_le(a),
        a.spec_le(b) && b.spec_le(a) ==> a == b,
{
}

} // verus!
