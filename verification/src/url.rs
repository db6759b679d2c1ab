//! Canonical visit records, search results and the query filter.

use vstd::prelude::*;

pub mod tag;

pub use tag::{Tags, UrlTag};

use crate::browser::Browser;
use crate::errors::Error;
use crate::strutil::{spec_like, spec_split, split_spaces, str_eq, wrap_like};
use crate::time::Timestamp;
use vstd::string::{StrSliceExecFns, StringExecFns};

verus! {

/// Whether a url takes part in ordinary (non-private) search results.
#[derive(Clone, Copy, Debug, PartialEq, Eq, Structural, Hash)]
pub enum UrlPrivacy {
    Normal,
    Private,
}

impl Default for UrlPrivacy {
    fn default() -> (r: Self)
        ensures
            r == UrlPrivacy::Normal,
    {
        UrlPrivacy::Normal
    }
}

/// A canonical visit record. Identity is the url string itself; the title
/// is always the most recently observed one.
#[derive(Clone, Debug, PartialEq, Eq)]
pub struct Url {
    pub url: String,
    pub title: String,
    pub visit_count: i32,
    pub last_visit_time: Timestamp,
}

impl Default for Url {
    fn default() -> (r: Self)
        ensures
            r.url@ == Seq::<char>::empty(),
            r.title@ == Seq::<char>::empty(),
            r.visit_count == 0,
            r.last_visit_time == Timestamp::spec_epoch(),
    {
        Url {
            url: String::new(),
            title: String::new(),
            visit_count: 0,
            last_visit_time: Timestamp::epoch(),
        }
    }
}

/// One interactive search result.
#[derive(Clone, Debug, PartialEq, Eq)]
pub struct UrlResult {
    pub url: String,
    pub title: String,
    pub tag: UrlTag,
    pub privacy: UrlPrivacy,
}

/// The abstract content of a search result.
pub ghost struct UrlResultView {
    pub url: Seq<char>,
    pub title: Seq<char>,
    pub tag: UrlTag,
    pub privacy: UrlPrivacy,
}

impl View for UrlResult {
    type V = UrlResultView;

    open spec fn view(&self) -> UrlResultView {
        UrlResultView { url: self.url@, title: self.title@, tag: self.tag, privacy: self.privacy }
    }
}

/// A normalized query descriptor, consumed by both interactive search and
/// the sync engine's incremental pulls. It may only be used for a store
/// read once `ready` is set: that guards against free-text predicates that
/// were never normalized into contains-patterns.
#[derive(Clone, Debug, PartialEq, Eq)]
pub struct Filter {
    pub p_id: Option<i16>,
    pub provider_name: Option<String>,
    pub privacy: Option<UrlPrivacy>,
    pub tag: Option<UrlTag>,
    pub browser: Option<Browser>,
    pub time_from: Option<Timestamp>,
    pub time_to: Option<Timestamp>,
    pub url_segs: Vec<String>,
    /// url_segs before wildcard wrapping
    pub url_segs_raw: Vec<String>,
    pub title_segs: Vec<String>,
    /// title_segs before wildcard wrapping
    pub title_segs_raw: Vec<String>,
    pub limit: i64,
    /// the filter may be used only once this is set
    pub ready: bool,
}

/// The abstract content of a filter.
#[verifier::ext_equal]
pub ghost struct FilterView {
    pub p_id: Option<i16>,
    pub provider_name: Option<Seq<char>>,
    pub privacy: Option<UrlPrivacy>,
    pub tag: Option<UrlTag>,
    pub browser: Option<Browser>,
    pub time_from: Option<Timestamp>,
    pub time_to: Option<Timestamp>,
    pub url_segs: Seq<Seq<char>>,
    pub url_segs_raw: Seq<Seq<char>>,
    pub title_segs: Seq<Seq<char>>,
    pub title_segs_raw: Seq<Seq<char>>,
    pub limit: int,
    pub ready: bool,
}

impl View for Filter {
    type V = FilterView;

    open spec fn view(&self) -> FilterView {
        FilterView {
            p_id: self.p_id,
            provider_name: match self.provider_name {
                Some(n) => Some(n@),
                None => None,
            },
            privacy: self.privacy,
            tag: self.tag,
            browser: self.browser,
            time_from: self.time_from,
            time_to: self.time_to,
            url_segs: self.url_segs@.map_values(|s: String| s@),
            url_segs_raw: self.url_segs_raw@.map_values(|s: String| s@),
            title_segs: self.title_segs@.map_values(|s: String| s@),
            title_segs_raw: self.title_segs_raw@.map_values(|s: String| s@),
            limit: self.limit as int,
            ready: self.ready,
        }
    }
}

/// The all-empty filter: no scopes, no predicates, no limit, not ready.
pub open spec fn spec_default_filter() -> FilterView {
    FilterView {
        p_id: None,
        provider_name: None,
        privacy: None,
        tag: None,
        browser: None,
        time_from: None,
        time_to: None,
        url_segs: Seq::empty(),
        url_segs_raw: Seq::empty(),
        title_segs: Seq::empty(),
        title_segs_raw: Seq::empty(),
        limit: 0,
        ready: false,
    }
}

impl Default for Filter {
    fn default() -> (r: Self)
        ensures
            r@ == spec_default_filter(),
    {
        Filter {
            p_id: None,
            provider_name: None,
            privacy: None,
            tag: None,
            browser: None,
            time_from: None,
            time_to: None,
            url_segs: Vec::new(),
            url_segs_raw: Vec::new(),
            title_segs: Vec::new(),
            title_segs_raw: Vec::new(),
            limit: 0,
            ready: false,
        }
    }
}

/// What one whitespace token of a free-text query contributes: a `/`
/// prefix makes a url contains-predicate, a `,` prefix selects a privacy
/// or tag scope from a fixed vocabulary (unrecognized directives are
/// ignored), and anything else becomes a title contains-predicate.
pub open spec fn spec_apply_token(f: FilterView, t: Seq<char>) -> FilterView {
    if t.len() > 0 && t[0] == '/' {
        FilterView { url_segs: f.url_segs.push(spec_like(t.skip(1))), ..f }
    } else if t.len() > 0 && t[0] == ',' {
        let d = t.skip(1);
        if d == "p"@ || d == "privacy"@ {
            FilterView { privacy: Some(UrlPrivacy::Private), ..f }
        } else if d == "n"@ || d == "normal"@ {
            FilterView { tag: Some(UrlTag::Normal), ..f }
        } else if d == "s"@ || d == "saved"@ {
            FilterView { tag: Some(UrlTag::Saved), ..f }
        } else if d == "f"@ || d == "favorite"@ {
            FilterView { tag: Some(UrlTag::Favorite), ..f }
        } else if d == "r"@ || d == "readlater"@ {
            FilterView { tag: Some(UrlTag::ReadLater), ..f }
        } else {
            f
        }
    } else {
        FilterView { title_segs: f.title_segs.push(spec_like(t)), ..f }
    }
}

/// The filter after the first `j` tokens, in order.
pub open spec fn spec_parse_fold(f: FilterView, ts: Seq<Seq<char>>, j: int) -> FilterView
    decreases j,
{
    if j <= 0 {
        f
    } else {
        spec_apply_token(spec_parse_fold(f, ts, j - 1), ts[j - 1])
    }
}

/// How a free-text query parses. A query opening with the literal
/// directive `,url ` is special: the whole remainder becomes one url
/// contains-predicate, unwrapped, and the filter is ready at once. Any
/// other query is split on spaces and folded token by token.
pub open spec fn spec_parse(q: Seq<char>) -> FilterView {
    if q.len() >= 5 && q.subrange(0, 5) == ",url "@ {
        FilterView {
            url_segs: seq![q.skip(5)],
            ready: true,
            ..spec_default_filter()
        }
    } else {
        let ts = spec_split(q, ' ');
        spec_parse_fold(spec_default_filter(), ts, ts.len() as int)
    }
}

/// Normalization: raw terms are wrapped into contains-patterns where no
/// wrapped ones were supplied, an absent limit falls back to the default
/// bound, and the filter becomes ready.
pub open spec fn spec_init(f: FilterView) -> FilterView {
    if f.ready {
        f
    } else {
        let title_segs = if f.title_segs.len() == 0 && f.title_segs_raw.len() > 0 {
            f.title_segs_raw.map_values(|s: Seq<char>| spec_like(s))
        } else {
            f.title_segs
        };
        let url_segs = if f.url_segs.len() == 0 && f.url_segs_raw.len() > 0 {
            f.url_segs_raw.map_values(|s: Seq<char>| spec_like(s))
        } else {
            f.url_segs
        };
        let limit = if f.limit <= 0 {
            20
        } else {
            f.limit
        };
        FilterView { title_segs, url_segs, limit, ready: true, ..f }
    }
}

/// Wrap each raw term in wildcard markers.
pub fn to_like(segs: &Vec<String>) -> (r: Vec<String>)
    ensures
        r@.map_values(|s: String| s@) == segs@.map_values(|s: String| s@).map_values(
            |s: Seq<char>| spec_like(s),
        ),
{
    let mut out: Vec<String> = Vec::new();
    let mut i: usize = 0;
    while i < segs.len()
        invariant
            i <= segs.len(),
            out@.map_values(|s: String| s@) == segs@.map_values(|s: String| s@).take(
                i as int,
            ).map_values(|s: Seq<char>| spec_like(s)),
        decreases segs.len() - i,
    {
        out.push(wrap_like(segs[i].as_str()));
        proof {
            let svs = segs@.map_values(|s: String| s@);
            assert(out@.map_values(|s: String| s@) =~= svs.take(i as int).map_values(
                |s: Seq<char>| spec_like(s),
            ).push(spec_like(svs[i as int])));
            assert(svs.take(i + 1).map_values(|s: Seq<char>| spec_like(s)) =~= svs.take(
                i as int,
            ).map_values(|s: Seq<char>| spec_like(s)).push(spec_like(svs[i as int])));
        }
        i += 1;
    }
    proof {
        let svs = segs@.map_values(|s: String| s@);
        assert(svs.take(svs.len() as int) =~= svs);
    }
    out
}

impl Filter {
    /// Parse a free-text query: split on spaces, `/`-tokens scope the url,
    /// `,`-tokens are control directives, everything else scopes the
    /// title. A query opening with `,url ` takes the whole remainder as a
    /// single url predicate instead.
    pub fn parse(query: String) -> (r: Filter)
        ensures
            r@ == spec_parse(query@),
    {
        let mut res = Filter::default();
        let n = query.as_str().unicode_len();
        if n >= 5 {
            let head = query.as_str().substring_char(0, 5);
            if str_eq(head, ",url ") {
                let rest = query.as_str().substring_char(5, n).to_owned();
                proof {
                    assert(rest@ =~= query@.skip(5));
                }
                res.url_segs.push(rest);
                res.ready = true;
                proof {
                    assert(res@.url_segs =~= seq![query@.skip(5)]);
                    assert(res@ =~= spec_parse(query@));
                }
                return res;
            }
        }
        let tokens = split_spaces(query.as_str());
        let ghost ts = tokens@.map_values(|x: String| x@);
        let mut j: usize = 0;
        while j < tokens.len()
            invariant
                j <= tokens.len(),
                ts == tokens@.map_values(|x: String| x@),
                ts.len() == tokens@.len(),
                res@ == spec_parse_fold(spec_default_filter(), ts, j as int),
            decreases tokens.len() - j,
        {
            let ghost pre = res@;
            let tn = tokens[j].as_str().unicode_len();
            if tn > 0 && tokens[j].as_str().get_char(0) == '/' {
                let seg = tokens[j].as_str().substring_char(1, tn);
                proof {
                    assert(seg@ =~= ts[j as int].skip(1));
                }
                let w = wrap_like(seg);
                res.url_segs.push(w);
                proof {
                    assert(res@.url_segs =~= pre.url_segs.push(spec_like(ts[j as int].skip(1))));
                    assert(res@ =~= spec_apply_token(pre, ts[j as int]));
                }
            } else if tn > 0 && tokens[j].as_str().get_char(0) == ',' {
                let d = tokens[j].as_str().substring_char(1, tn);
                proof {
                    assert(d@ =~= ts[j as int].skip(1));
                }
                if str_eq(d, "p") || str_eq(d, "privacy") {
                    res.privacy = Some(UrlPrivacy::Private);
                } else if str_eq(d, "n") || str_eq(d, "normal") {
                    res.tag = Some(UrlTag::Normal);
                } else if str_eq(d, "s") || str_eq(d, "saved") {
                    res.tag = Some(UrlTag::Saved);
                } else if str_eq(d, "f") || str_eq(d, "favorite") {
                    res.tag = Some(UrlTag::Favorite);
                } else if str_eq(d, "r") || str_eq(d, "readlater") {
                    res.tag = Some(UrlTag::ReadLater);
                }
                proof {
                    assert(res@ =~= spec_apply_token(pre, ts[j as int]));
                }
            } else {
                let w = wrap_like(tokens[j].as_str());
                res.title_segs.push(w);
                proof {
                    assert(res@.title_segs =~= pre.title_segs.push(spec_like(ts[j as int])));
                    assert(res@ =~= spec_apply_token(pre, ts[j as int]));
                }
            }
            j += 1;
        }
        proof {
            assert(!(query@.len() >= 5 && query@.subrange(0, 5) == ",url "@));
        }
        res
    }

    /// The filter of a bulk incremental pull: pinned to one provider, one
    /// browser and a lower time bound, with no result limit, and ready at
    /// once.
    pub fn bulk_urls(name: String, browser: Browser, since: Timestamp) -> (r: Filter)
        ensures
            r@ == (FilterView {
                provider_name: Some(name@),
                browser: Some(browser),
                time_from: Some(since),
                ready: true,
                ..spec_default_filter()
            }),
    {
        let mut res = Filter::default();
        res.provider_name = Some(name);
        res.browser = Some(browser);
        res.time_from = Some(since);
        res.ready = true;
        proof {
            assert(res@ =~= (FilterView {
                provider_name: Some(res.provider_name->Some_0@),
                browser: Some(browser),
                time_from: Some(since),
                ready: true,
                ..spec_default_filter()
            }));
        }
        res
    }

    /// A filter may be used for a store read only once it is ready.
    pub fn ready(&self) -> (r: Result<(), Error>)
        ensures
            r is Ok <==> self.ready,
            !self.ready ==> r == Result::<(), Error>::Err(Error::NotReady),
    {
        if !self.ready {
            Err(Error::NotReady)
        } else {
            Ok(())
        }
    }

    /// Normalize the filter for interactive search: wrap raw predicate
    /// terms where no wrapped ones were supplied, fall back to the default
    /// result bound, and mark the filter ready.
    pub fn init(&mut self)
        ensures
            final(self)@ == spec_init(old(self)@),
    {
        if self.ready {
            return ;
        }
        if self.title_segs.len() == 0 && self.title_segs_raw.len() > 0 {
            self.title_segs = to_like(&self.title_segs_raw);
        }
        if self.url_segs.len() == 0 && self.url_segs_raw.len() > 0 {
            self.url_segs = to_like(&self.url_segs_raw);
        }
        if self.limit <= 0 {
            self.limit = 20;
        }
        self.ready = true;
        proof {
            assert(final(self)@ =~= spec_init(old(self)@));
        }
    }
}

} // verus!
