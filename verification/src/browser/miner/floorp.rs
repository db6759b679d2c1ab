//! Floorp is Firefox-derived: it reuses the Firefox codec verbatim and
//! differs only in its default store location and attribution tag.

use vstd::prelude::*;

use super::firefox::{Firefox, FIREFOX_MAX_SECS};
use crate::time::Timestamp;

verus! {

#[derive(Clone, Copy, Debug, Default)]
pub struct Floorp(pub Firefox);

impl Floorp {
    pub fn canonical_of(&self, ts: i64) -> (r: Timestamp)
        requires
            ts >= 0,
        ensures
            r == Firefox::spec_canonical_of(ts as int),
            r.wf(),
    {
        self.0.canonical_of(ts)
    }

    pub fn native_of(&self, t: Timestamp) -> (r: i64)
        requires
            t.wf(),
            -FIREFOX_MAX_SECS <= t.secs <= FIREFOX_MAX_SECS,
        ensures
            r == Firefox::spec_native_of(t),
    {
        self.0.native_of(t)
    }
}

} // verus!
