//! The Firefox codec: native time is an integer count of microseconds
//! since the canonical epoch directly, with no offset, and the conversion
//! is pure integer arithmetic, exact in both directions.

use vstd::prelude::*;

use crate::time::Timestamp;
use vstd::arithmetic::div_mod::{lemma_fundamental_div_mod, lemma_fundamental_div_mod_converse};

verus! {

/// The largest magnitude of `secs` for which the native microsecond count
/// still fits its 64 bits.
pub const FIREFOX_MAX_SECS: i64 = 9_223_372_036_853;

#[derive(Clone, Copy, Debug, Default)]
pub struct Firefox;

impl Firefox {
    pub open spec fn spec_canonical_of(ts: int) -> Timestamp {
        Timestamp { secs: (ts / 1_000_000) as i64, micros: (ts % 1_000_000) as u32 }
    }

    pub open spec fn spec_native_of(t: Timestamp) -> int {
        t.secs * 1_000_000 + t.micros
    }

    /// Decode a native microsecond count into canonical time.
    pub fn canonical_of(&self, ts: i64) -> (r: Timestamp)
        requires
            ts >= 0,
        ensures
            r == Self::spec_canonical_of(ts as int),
            r.wf(),
    {
        let secs = ts / 1_000_000;
        let micros = (ts % 1_000_000) as u32;
        Timestamp::new(secs, micros)
    }

    /// Encode canonical time as a native microsecond count.
    pub fn native_of(&self, t: Timestamp) -> (r: i64)
        requires
            t.wf(),
            -FIREFOX_MAX_SECS <= t.secs <= FIREFOX_MAX_SECS,
        ensures
            r == Self::spec_native_of(t),
    {
        t.secs * 1_000_000 + (t.micros as i64)
    }

    /// Encoding a decoded native value reproduces it exactly.
    pub proof fn lemma_native_round_trip(ts: int)
        requires
            0 <= ts <= i64::MAX,
        ensures
            Self::spec_native_of(Self::spec_canonical_of(ts)) == ts,
    {
        lemma_fundamental_div_mod(ts, 1_000_000);
    }

    /// Decoding an encoded canonical value reproduces it exactly.
    pub proof fn lemma_canonical_round_trip(t: Timestamp)
        requires
            t.wf(),
            0 <= t.secs <= FIREFOX_MAX_SECS,
        ensures
            Self::spec_canonical_of(Self::spec_native_of(t)) == t,
    {
        let n = Self::spec_native_of(t);
        lemma_fundamental_div_mod_converse(n, 1_000_000, t.secs as int, t.micros as int);
    }
}

} // verus!
