//! Vivaldi is Chromium-derived: it reuses the Chromium codec verbatim and
//! differs only in its default store location and attribution tag.

use vstd::prelude::*;

use super::chromium::{Chromium, CHROME_MAX_OFFSET_SECS, CHROME_UNIX_DIFF};
use crate::time::Timestamp;

verus! {

#[derive(Clone, Copy, Debug, Default)]
pub struct Vivaldi(pub Chromium);

impl Vivaldi {
    pub fn canonical_of(&self, ts: i64) -> (r: Timestamp)
        requires
            ts >= 0,
        ensures
            r == Chromium::spec_canonical_of(ts as int),
            r.wf(),
    {
        self.0.canonical_of(ts)
    }

    pub fn native_of(&self, t: Timestamp) -> (r: i64)
        requires
            t.wf(),
            -CHROME_UNIX_DIFF <= t.secs,
            t.secs + CHROME_UNIX_DIFF <= CHROME_MAX_OFFSET_SECS,
        ensures
            r == Chromium::spec_native_of(t),
    {
        self.0.native_of(t)
    }
}

} // verus!
