//! The Safari codec: native time counts seconds since an epoch
//! 978 307 200 seconds after the canonical one. The store holds it as a
//! floating-point value whose fraction encodes microseconds; that value is
//! decomposed into whole seconds and a rounded microsecond part before it
//! reaches this codec, so the conversion here is pure integer arithmetic
//! and exactly invertible.

use vstd::prelude::*;

use crate::time::{Timestamp, MICROS_PER_SEC};

verus! {

/// Seconds between the canonical epoch and the Safari epoch.
pub const SAFARI_UNIX_DIFF: i64 = 978_307_200;

/// `t` is the newest visit time of origin `o` among `rows`: one of `o`'s
/// rows carries it and none carries a later one.
pub open spec fn spec_is_origin_max(rows: Seq<(i64, Timestamp)>, o: i64, t: Timestamp) -> bool {
    &&& exists|i: int| 0 <= i < rows.len() && #[trigger] rows[i] == (o, t)
    &&& forall|i: int|
        0 <= i < rows.len() && (#[trigger] rows[i]).0 == o ==> rows[i].1.spec_le(t)
}

#[derive(Clone, Copy, Debug, Default)]
pub struct Safari;

impl Safari {
    pub open spec fn spec_canonical_of(secs: int, micros: int) -> Timestamp {
        Timestamp { secs: (secs + SAFARI_UNIX_DIFF) as i64, micros: micros as u32 }
    }

    pub open spec fn spec_native_of(t: Timestamp) -> (int, int) {
        (t.secs - SAFARI_UNIX_DIFF, t.micros as int)
    }

    /// Decode a native time, given as whole seconds and microseconds, into
    /// canonical time.
    pub fn canonical_of(&self, secs: i64, micros: u32) -> (r: Timestamp)
        requires
            micros < MICROS_PER_SEC,
            secs <= i64::MAX - SAFARI_UNIX_DIFF,
        ensures
            r == Self::spec_canonical_of(secs as int, micros as int),
            r.wf(),
    {
        Timestamp::new(secs + SAFARI_UNIX_DIFF, micros)
    }

    /// Encode canonical time as native whole seconds and microseconds.
    pub fn native_of(&self, t: Timestamp) -> (r: (i64, u32))
        requires
            t.wf(),
            t.secs >= i64::MIN + SAFARI_UNIX_DIFF,
        ensures
            (r.0 as int, r.1 as int) == Self::spec_native_of(t),
            r.1 < MICROS_PER_SEC,
    {
        (t.secs - SAFARI_UNIX_DIFF, t.micros)
    }

    /// The conservative watermark of a Safari store: the minimum, across
    /// all browsing origins, of each origin's newest visit time — an
    /// origin visited long ago must not count as synced just because some
    /// other origin was visited recently. An empty store has none.
    #[verifier::rlimit(50)]
    pub fn last_import_time(&self, rows: &Vec<(i64, Timestamp)>) -> (r: Option<Timestamp>)
        ensures
            r is None <==> rows@.len() == 0,
            rows@.len() > 0 ==> r is Some && (exists|o: i64|
                spec_is_origin_max(rows@, o, r->Some_0)),
            rows@.len() > 0 ==> forall|o: i64, t2: Timestamp|
                spec_is_origin_max(rows@, o, t2) ==> r->Some_0.spec_le(t2),
    {
        if rows.len() == 0 {
            return None;
        }
        let ghost rvs = rows@;
        let mut best = origin_max(rows, rows[0].0);
        proof {
            assert(spec_is_origin_max(rvs, rvs[0].0, best));
        }
        let mut j: usize = 1;
        while j < rows.len()
            invariant
                1 <= j <= rows@.len(),
                rvs == rows@,
                rvs.len() == rows@.len(),
                exists|o: i64| spec_is_origin_max(rvs, o, best),
                forall|jj: int| #![trigger rvs[jj]]
                    0 <= jj < j ==> (forall|t2: Timestamp|
                        spec_is_origin_max(rvs, rvs[jj].0, t2) ==> best.spec_le(t2)),
            decreases rows.len() - j,
        {
            let ghost old_best = best;
            let m = origin_max(rows, rows[j].0);
            if m.lt(&best) {
                best = m;
            }
            proof {
                crate::time::lemma_order_total(m, old_best);
                if m.spec_lt(old_best) {
                    assert(spec_is_origin_max(rvs, rvs[j as int].0, best));
                } else {
                    let o0 = choose|o: i64| spec_is_origin_max(rvs, o, old_best);
                    assert(spec_is_origin_max(rvs, o0, best));
                }
                assert forall|jj: int| #![trigger rvs[jj]]
                    0 <= jj < j + 1 implies (forall|t2: Timestamp|
                    spec_is_origin_max(rvs, rvs[jj].0, t2) ==> best.spec_le(t2)) by {
                    assert forall|t2: Timestamp|
                        spec_is_origin_max(rvs, rvs[jj].0, t2) implies best.spec_le(t2) by {
                        if jj == j {
                            crate::time::lemma_order_total(t2, m);
                            assert(t2 == m);
                        } else {
                            assert(old_best.spec_le(t2));
                        }
                    }
                }
            }
            j += 1;
        }
        proof {
            let ow = choose|o: i64| spec_is_origin_max(rvs, o, best);
            assert(spec_is_origin_max(rows@, ow, best));
            assert(exists|o: i64| spec_is_origin_max(rows@, o, best));
            assert forall|o: i64, t2: Timestamp|
                spec_is_origin_max(rows@, o, t2) implies best.spec_le(t2) by {
                assert(spec_is_origin_max(rvs, o, t2));
                let w = choose|w: int| 0 <= w < rvs.len() && #[trigger] rvs[w] == (o, t2);
                assert(rvs[w].0 == o);
                assert(spec_is_origin_max(rvs, rvs[w].0, t2));
            }
        }
        let r2: Option<Timestamp> = Some(best);
        proof {
            assert(r2->Some_0 == best);
            assert(exists|o: i64| spec_is_origin_max(rows@, o, r2->Some_0));
        }
        r2
    }

    /// Encoding a decoded native value reproduces it exactly.
    pub proof fn lemma_native_round_trip(secs: int, micros: int)
        requires
            0 <= micros < MICROS_PER_SEC,
            i64::MIN <= secs <= i64::MAX - SAFARI_UNIX_DIFF,
        ensures
            Self::spec_native_of(Self::spec_canonical_of(secs, micros)) == (secs, micros),
    {
    }

    /// Decoding an encoded canonical value reproduces it exactly.
    pub proof fn lemma_canonical_round_trip(t: Timestamp)
        requires
            t.wf(),
            t.secs >= i64::MIN + SAFARI_UNIX_DIFF,
        ensures
            Self::spec_canonical_of(
                Self::spec_native_of(t).0,
                Self::spec_native_of(t).1,
            ) == t,
    {
    }
}


/// The newest visit time of origin `o` among `rows`.
fn origin_max(rows: &Vec<(i64, Timestamp)>, o: i64) -> (r: Timestamp)
    requires
        exists|i: int| 0 <= i < rows@.len() && (#[trigger] rows@[i]).0 == o,
    ensures
        spec_is_origin_max(rows@, o, r),
{
    let ghost rvs = rows@;
    let mut best: Option<Timestamp> = None;
    let mut i: usize = 0;
    while i < rows.len()
        invariant
            i <= rows.len(),
            rvs == rows@,
            rvs.len() == rows@.len(),
            match best {
                Some(b) => (exists|w: int| 0 <= w < i && #[trigger] rvs[w] == (o, b)) && forall|
                    w: int,
                |
                    0 <= w < i && (#[trigger] rvs[w]).0 == o ==> rvs[w].1.spec_le(b),
                None => forall|w: int| 0 <= w < i ==> (#[trigger] rvs[w]).0 != o,
            },
        decreases rows.len() - i,
    {
        if rows[i].0 == o {
            let t = rows[i].1;
            best = match best {
                Some(b) => if b.lt(&t) {
                    Some(t)
                } else {
                    Some(b)
                },
                None => Some(t),
            };
            proof {
                crate::time::lemma_order_total(rvs[i as int].1, rvs[i as int].1);
            }
        }
        i += 1;
    }
    match best {
        Some(b) => {
            proof {
                let w = choose|w: int| 0 <= w < rvs.len() && #[trigger] rvs[w] == (o, b);
            }
            b
        },
        None => {
            proof {
                let w = choose|w: int| 0 <= w < rvs.len() && (#[trigger] rvs[w]).0 == o;
                assert(false);
            }
            Timestamp::epoch()
        },
    }
}

} // verus!
