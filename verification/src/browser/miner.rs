//! Mining: decoding the rows a browser's own store yields into canonical
//! visit records. Opening the store and running the family's fixed query
//! are I/O and live with the caller; everything that decides — which rows
//! are kept, how their native timestamps decode, how a batch becomes a
//! unit of transfer — is here.

use vstd::prelude::*;

pub mod chromium;
pub mod firefox;
pub mod floorp;
pub mod safari;
pub mod vivaldi;

use crate::browser::{Browser, BrowserSetting, CodecFamily};
use crate::resp::UrlInsert;
use crate::time::Timestamp;
use crate::url::Url;
use chromium::{Chromium, CHROME_MAX_OFFSET_SECS, CHROME_UNIX_DIFF};
use firefox::{Firefox, FIREFOX_MAX_SECS};
use safari::{Safari, SAFARI_UNIX_DIFF};
use vstd::string::StrSliceExecFns;

verus! {

/// A native timestamp as a browser store yields it: a single microsecond
/// count for the integer families, or whole seconds with a rounded
/// microsecond part for Safari.
#[derive(Clone, Copy, Debug, PartialEq, Eq, Structural)]
pub enum NativeTime {
    Micros(i64),
    SecondsMicros(i64, u32),
}

/// One row as the family's fixed query yields it, before decoding.
#[derive(Clone, Debug)]
pub struct RawRow {
    pub url: Option<String>,
    pub title: Option<String>,
    pub visit_count: Option<i32>,
    pub time: NativeTime,
}

/// The abstract content of a raw row.
pub ghost struct RawRowView {
    pub url: Option<Seq<char>>,
    pub title: Option<Seq<char>>,
    pub visit_count: Option<int>,
    pub time: NativeTime,
}

impl View for RawRow {
    type V = RawRowView;

    open spec fn view(&self) -> RawRowView {
        RawRowView {
            url: match self.url {
                Some(u) => Some(u@),
                None => None,
            },
            title: match self.title {
                Some(t) => Some(t@),
                None => None,
            },
            visit_count: match self.visit_count {
                Some(c) => Some(c as int),
                None => None,
            },
            time: self.time,
        }
    }
}

/// The abstract content of a canonical visit record.
pub ghost struct UrlView {
    pub url: Seq<char>,
    pub title: Seq<char>,
    pub visit_count: int,
    pub last_visit_time: Timestamp,
}

impl View for Url {
    type V = UrlView;

    open spec fn view(&self) -> UrlView {
        UrlView {
            url: self.url@,
            title: self.title@,
            visit_count: self.visit_count as int,
            last_visit_time: self.last_visit_time,
        }
    }
}

/// How a native timestamp of family `b` decodes, and when it does not: a
/// value outside the family's representable range, or one in the shape of
/// another family, yields nothing.
pub open spec fn spec_canonical_of(b: Browser, t: NativeTime) -> Option<Timestamp> {
    match (b.spec_family(), t) {
        (CodecFamily::Chromium, NativeTime::Micros(n)) => if n >= 0 {
            Some(Chromium::spec_canonical_of(n as int))
        } else {
            None
        },
        (CodecFamily::Firefox, NativeTime::Micros(n)) => if n >= 0 {
            Some(Firefox::spec_canonical_of(n as int))
        } else {
            None
        },
        (CodecFamily::Safari, NativeTime::SecondsMicros(s, m)) => if m < 1_000_000 && s
            <= i64::MAX - SAFARI_UNIX_DIFF {
            Some(Safari::spec_canonical_of(s as int, m as int))
        } else {
            None
        },
        _ => None,
    }
}

/// Decode a native timestamp of family `b` into canonical time.
pub fn canonical_of(b: Browser, t: NativeTime) -> (r: Option<Timestamp>)
    ensures
        r == spec_canonical_of(b, t),
        r matches Some(c) ==> c.wf(),
{
    match (b.family(), t) {
        (CodecFamily::Chromium, NativeTime::Micros(n)) => if n >= 0 {
            Some(Chromium.canonical_of(n))
        } else {
            None
        },
        (CodecFamily::Firefox, NativeTime::Micros(n)) => if n >= 0 {
            Some(Firefox.canonical_of(n))
        } else {
            None
        },
        (CodecFamily::Safari, NativeTime::SecondsMicros(s, m)) => if m < 1_000_000 && s
            <= i64::MAX - SAFARI_UNIX_DIFF {
            Some(Safari.canonical_of(s, m))
        } else {
            None
        },
        _ => None,
    }
}

/// How canonical time encodes into family `b`'s native representation,
/// and when it does not: a point outside the family's representable range
/// yields nothing.
pub open spec fn spec_native_of(b: Browser, t: Timestamp) -> Option<NativeTime> {
    match b.spec_family() {
        CodecFamily::Chromium => if t.wf() && -CHROME_UNIX_DIFF <= t.secs && t.secs
            + CHROME_UNIX_DIFF <= CHROME_MAX_OFFSET_SECS {
            Some(NativeTime::Micros(Chromium::spec_native_of(t) as i64))
        } else {
            None
        },
        CodecFamily::Firefox => if t.wf() && -FIREFOX_MAX_SECS <= t.secs
            && t.secs <= FIREFOX_MAX_SECS {
            Some(NativeTime::Micros(Firefox::spec_native_of(t) as i64))
        } else {
            None
        },
        CodecFamily::Safari => if t.wf() && t.secs >= i64::MIN + SAFARI_UNIX_DIFF {
            Some(
                NativeTime::SecondsMicros(
                    Safari::spec_native_of(t).0 as i64,
                    Safari::spec_native_of(t).1 as u32,
                ),
            )
        } else {
            None
        },
    }
}

/// Encode canonical time in family `b`'s native representation; this is
/// what the bound parameter of the family's fixed query is written in.
pub fn native_of(b: Browser, t: Timestamp) -> (r: Option<NativeTime>)
    ensures
        r == spec_native_of(b, t),
{
    match b.family() {
        CodecFamily::Chromium => if t.micros < 1_000_000 && -CHROME_UNIX_DIFF <= t.secs && t.secs
            <= CHROME_MAX_OFFSET_SECS - CHROME_UNIX_DIFF {
            Some(NativeTime::Micros(Chromium.native_of(t)))
        } else {
            None
        },
        CodecFamily::Firefox => if t.micros < 1_000_000 && -FIREFOX_MAX_SECS <= t.secs
            && t.secs <= FIREFOX_MAX_SECS {
            Some(NativeTime::Micros(Firefox.native_of(t)))
        } else {
            None
        },
        CodecFamily::Safari => if t.micros < 1_000_000 && t.secs >= i64::MIN + SAFARI_UNIX_DIFF {
            let (s, m) = Safari.native_of(t);
            Some(NativeTime::SecondsMicros(s, m))
        } else {
            None
        },
    }
}

/// A row is kept when its native timestamp decodes, lies strictly after
/// the watermark, and its url is not pathologically long.
pub open spec fn spec_row_keep(b: Browser, row: RawRowView, since: Timestamp) -> bool {
    match spec_canonical_of(b, row.time) {
        Some(t) => since.spec_lt(t) && spec_opt_text(row.url).len() < 2500,
        None => false,
    }
}

/// An absent text column reads as the empty string.
pub open spec fn spec_opt_text(s: Option<Seq<char>>) -> Seq<char> {
    match s {
        Some(x) => x,
        None => Seq::empty(),
    }
}

/// The canonical record a kept row decodes to.
pub open spec fn spec_row_url(b: Browser, row: RawRowView) -> UrlView
    recommends
        spec_canonical_of(b, row.time) is Some,
{
    UrlView {
        url: spec_opt_text(row.url),
        title: spec_opt_text(row.title),
        visit_count: match row.visit_count {
            Some(c) => c,
            None => 0,
        },
        last_visit_time: spec_canonical_of(b, row.time)->Some_0,
    }
}

/// The records mined from `rows`, in the order the store yielded them.
pub open spec fn spec_mined(b: Browser, rows: Seq<RawRowView>, since: Timestamp) -> Seq<UrlView>
    decreases rows.len(),
{
    if rows.len() == 0 {
        Seq::empty()
    } else {
        let prefix = spec_mined(b, rows.drop_last(), since);
        if spec_row_keep(b, rows.last(), since) {
            prefix.push(spec_row_url(b, rows.last()))
        } else {
            prefix
        }
    }
}

/// Decode the rows of family `b`'s fixed query into canonical records,
/// keeping those strictly newer than `since` and free of pathologically
/// long urls, in the order the store yielded them.
pub fn mine_urls(b: Browser, rows: &Vec<RawRow>, since: Timestamp) -> (r: Vec<Url>)
    ensures
        r@.map_values(|u: Url| u@) == spec_mined(
            b,
            rows@.map_values(|x: RawRow| x@),
            since,
        ),
        forall|i: int| 0 <= i < r@.len() ==> (#[trigger] r@[i]).last_visit_time.wf(),
{
    let ghost rvs = rows@.map_values(|x: RawRow| x@);
    let mut out: Vec<Url> = Vec::new();
    let mut i: usize = 0;
    while i < rows.len()
        invariant
            i <= rows.len(),
            rvs == rows@.map_values(|x: RawRow| x@),
            rvs.len() == rows@.len(),
            out@.map_values(|u: Url| u@) == spec_mined(b, rvs.take(i as int), since),
            forall|k: int| 0 <= k < out@.len() ==> (#[trigger] out@[k]).last_visit_time.wf(),
        decreases rows.len() - i,
    {
        let ghost pre = out@;
        match canonical_of(b, rows[i].time) {
            Some(t) => {
                let url_s = match &rows[i].url {
                    Some(u) => u.clone(),
                    None => String::new(),
                };
                if since.lt(&t) && url_s.as_str().unicode_len() < 2500 {
                    let title_s = match &rows[i].title {
                        Some(x) => x.clone(),
                        None => String::new(),
                    };
                    let count = match rows[i].visit_count {
                        Some(c) => c,
                        None => 0,
                    };
                    out.push(
                        Url { url: url_s, title: title_s, visit_count: count, last_visit_time: t },
                    );
                    proof {
                        assert(out@.map_values(|u: Url| u@) =~= pre.map_values(|u: Url| u@).push(
                            spec_row_url(b, rvs[i as int]),
                        ));
                    }
                }
            },
            None => {},
        }
        proof {
            assert(rvs.take(i + 1).drop_last() =~= rvs.take(i as int));
            assert(rvs.take(i + 1).last() == rvs[i as int]);
        }
        i += 1;
    }
    proof {
        assert(rvs.take(rvs.len() as int) =~= rvs);
    }
    out
}

impl BrowserSetting {
    /// Assemble a mined batch into the unit of transfer. An empty
    /// extraction is not an error — it signals "nothing new" and yields no
    /// insert at all, distinct from any failure of the store itself.
    pub fn url_insert(&self, provider: String, urls: Vec<Url>, last_import_time: Option<
        Timestamp,
    >) -> (r: Option<UrlInsert>)
        ensures
            urls@.len() == 0 ==> r is None,
            urls@.len() > 0 ==> (r matches Some(ins) && ins.name == provider && ins.browser
                == self.browser && ins.urls == urls && ins.last_import_time == last_import_time),
    {
        if urls.len() == 0 {
            None
        } else {
            Some(
                UrlInsert {
                    name: provider,
                    browser: self.browser,
                    urls,
                    last_import_time,
                },
            )
        }
    }
}

} // verus!
