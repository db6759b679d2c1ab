//! The Chromium codec: native time is an integer count of microseconds
//! since an epoch 11 644 473 600 seconds before the canonical one, and the
//! conversion is pure integer arithmetic in both directions.

use vstd::prelude::*;

use crate::time::Timestamp;
use vstd::arithmetic::div_mod::{lemma_fundamental_div_mod, lemma_fundamental_div_mod_converse};

verus! {

/// Seconds between the Chromium epoch and the canonical epoch.
pub const CHROME_UNIX_DIFF: i64 = 11_644_473_600;

/// The largest value `secs + CHROME_UNIX_DIFF` may take for the native
/// microsecond count still to fit its 64 bits.
pub const CHROME_MAX_OFFSET_SECS: i64 = 9_223_372_036_853;

#[derive(Clone, Copy, Debug, Default)]
pub struct Chromium;

impl Chromium {
    pub open spec fn spec_canonical_of(ts: int) -> Timestamp {
        Timestamp {
            secs: (ts / 1_000_000 - CHROME_UNIX_DIFF) as i64,
            micros: (ts % 1_000_000) as u32,
        }
    }

    pub open spec fn spec_native_of(t: Timestamp) -> int {
        (t.secs + CHROME_UNIX_DIFF) * 1_000_000 + t.micros
    }

    /// Decode a native microsecond count into canonical time.
    pub fn canonical_of(&self, ts: i64) -> (r: Timestamp)
        requires
            ts >= 0,
        ensures
            r == Self::spec_canonical_of(ts as int),
            r.wf(),
    {
        let secs = ts / 1_000_000 - CHROME_UNIX_DIFF;
        let micros = (ts % 1_000_000) as u32;
        Timestamp::new(secs, micros)
    }

    /// Encode canonical time as a native microsecond count.
    pub fn native_of(&self, t: Timestamp) -> (r: i64)
        requires
            t.wf(),
            -CHROME_UNIX_DIFF <= t.secs,
            t.secs + CHROME_UNIX_DIFF <= CHROME_MAX_OFFSET_SECS,
        ensures
            r == Self::spec_native_of(t),
    {
        (t.secs + CHROME_UNIX_DIFF) * 1_000_000 + (t.micros as i64)
    }

    /// Encoding a decoded native value reproduces it exactly.
    pub proof fn lemma_native_round_trip(ts: int)
        requires
            0 <= ts <= i64::MAX,
        ensures
            Self::spec_native_of(Self::spec_canonical_of(ts)) == ts,
    {
        lemma_fundamental_div_mod(ts, 1_000_000);
    }

    /// Decoding an encoded canonical value reproduces it exactly.
    pub proof fn lemma_canonical_round_trip(t: Timestamp)
        requires
            t.wf(),
            -CHROME_UNIX_DIFF <= t.secs,
            t.secs + CHROME_UNIX_DIFF <= CHROME_MAX_OFFSET_SECS,
        ensures
            Self::spec_canonical_of(Self::spec_native_of(t)) == t,
    {
        let n = Self::spec_native_of(t);
        lemma_fundamental_div_mod_converse(
            n,
            1_000_000,
            t.secs + CHROME_UNIX_DIFF,
            t.micros as int,
        );
    }
}

} // verus!
