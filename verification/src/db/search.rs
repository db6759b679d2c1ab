//! Interactive search over the store: each url's visits in scope are
//! aggregated (counts summed, times maximal), every scope and
//! contains-predicate of the filter is applied, and the results come in
//! tag precedence order, newest and most visited first.

use vstd::prelude::*;

use super::{
    spec_resolve_pid, Store, StoreView, UrlRow, UrlRowView, VisitRow,
};
use crate::browser::Browser;
use crate::strutil::{ilike_all, spec_ilike};
use crate::time::Timestamp;
use crate::url::tag::UrlTag;
use crate::url::{spec_init, Filter, FilterView, UrlResult, UrlResultView};

verus! {

/// A candidate result: the url row with its aggregated newest visit time
/// and summed visit count.
pub ghost struct CandView {
    pub row: UrlRowView,
    pub time: Timestamp,
    pub count: int,
}

/// The precedence a tag sorts under: the more deliberate the tag, the
/// earlier its urls come.
pub open spec fn spec_tag_rank(t: UrlTag) -> int {
    match t {
        UrlTag::Normal => 0,
        UrlTag::Saved => 1,
        UrlTag::Favorite => 2,
        UrlTag::ReadLater => 3,
    }
}

/// Whether a visit row falls in the search scope of one url.
pub open spec fn spec_visit_in_scope(
    v: VisitRow,
    pid: Option<int>,
    b: Option<Browser>,
    uid: int,
) -> bool {
    &&& v.url_id == uid
    &&& match pid {
        Some(p) => v.provider_id == p,
        None => true,
    }
    &&& match b {
        Some(bb) => v.browser == bb,
        None => true,
    }
}

/// The newest in-scope visit time of one url, if it has any.
pub open spec fn spec_agg_time(
    visits: Seq<VisitRow>,
    pid: Option<int>,
    b: Option<Browser>,
    uid: int,
) -> Option<Timestamp>
    decreases visits.len(),
{
    if visits.len() == 0 {
        None
    } else {
        let rest = spec_agg_time(visits.drop_last(), pid, b, uid);
        if spec_visit_in_scope(visits.last(), pid, b, uid) {
            match rest {
                Some(m) => if m.spec_lt(visits.last().last_visit_time) {
                    Some(visits.last().last_visit_time)
                } else {
                    Some(m)
                },
                None => Some(visits.last().last_visit_time),
            }
        } else {
            rest
        }
    }
}

/// The summed in-scope visit count of one url.
pub open spec fn spec_agg_count(
    visits: Seq<VisitRow>,
    pid: Option<int>,
    b: Option<Browser>,
    uid: int,
) -> int
    decreases visits.len(),
{
    if visits.len() == 0 {
        0
    } else {
        spec_agg_count(visits.drop_last(), pid, b, uid) + (if spec_visit_in_scope(
            visits.last(),
            pid,
            b,
            uid,
        ) {
            visits.last().visit_count as int
        } else {
            0int
        })
    }
}

/// Whether url row `i` belongs to the result set: it passes the privacy
/// and tag scopes, every url and title contains-predicate, has at least
/// one in-scope visit, and its newest in-scope visit time lies within the
/// filter's inclusive time bounds.
pub open spec fn spec_url_matches(s: StoreView, f: FilterView, pid: Option<int>, i: int) -> bool {
    let u = s.urls[i];
    let agg = spec_agg_time(s.visits, pid, f.browser, u.id);
    &&& match f.privacy {
        Some(p) => u.privacy == p,
        None => true,
    }
    &&& match f.tag {
        Some(t) => u.tag == t,
        None => true,
    }
    &&& forall|k: int| 0 <= k < f.url_segs.len() ==> spec_ilike(#[trigger] f.url_segs[k], u.url)
    &&& forall|k: int|
        0 <= k < f.title_segs.len() ==> spec_ilike(#[trigger] f.title_segs[k], u.title)
    &&& agg is Some
    &&& match f.time_from {
        Some(t0) => t0.spec_le(agg->Some_0),
        None => true,
    }
    &&& match f.time_to {
        Some(t1) => agg->Some_0.spec_le(t1),
        None => true,
    }
}

/// The candidates among the first `i` url rows, in row order.
pub open spec fn spec_candidates(s: StoreView, f: FilterView, pid: Option<int>, i: int) -> Seq<
    CandView,
>
    decreases i,
{
    if i <= 0 {
        Seq::empty()
    } else {
        let rest = spec_candidates(s, f, pid, i - 1);
        if spec_url_matches(s, f, pid, i - 1) {
            rest.push(
                CandView {
                    row: s.urls[i - 1],
                    time: spec_agg_time(s.visits, pid, f.browser, s.urls[i - 1].id)->Some_0,
                    count: spec_agg_count(s.visits, pid, f.browser, s.urls[i - 1].id),
                },
            )
        } else {
            rest
        }
    }
}

/// The strict order results come in: higher tag precedence first, then
/// the newer aggregated time, then the larger count, and finally the
/// smaller row id — so the order is total and ties cannot arise.
pub open spec fn spec_cand_before(a: CandView, b: CandView) -> bool {
    ||| spec_tag_rank(a.row.tag) > spec_tag_rank(b.row.tag)
    ||| (spec_tag_rank(a.row.tag) == spec_tag_rank(b.row.tag) && b.time.spec_lt(a.time))
    ||| (spec_tag_rank(a.row.tag) == spec_tag_rank(b.row.tag) && a.time == b.time && a.count
        > b.count)
    ||| (spec_tag_rank(a.row.tag) == spec_tag_rank(b.row.tag) && a.time == b.time && a.count
        == b.count && a.row.id < b.row.id)
}

/// Where a candidate belongs in an ordered sequence: just before the
/// first entry it precedes.
pub open spec fn spec_ins_pos(s: Seq<CandView>, c: CandView) -> int
    decreases s.len(),
{
    if s.len() == 0 {
        0
    } else {
        let p = spec_ins_pos(s.drop_last(), c);
        if p < s.len() - 1 {
            p
        } else if spec_cand_before(c, s.last()) {
            s.len() - 1
        } else {
            s.len() as int
        }
    }
}

/// What the insertion position means.
pub proof fn lemma_ins_pos(s: Seq<CandView>, c: CandView)
    ensures
        0 <= spec_ins_pos(s, c) <= s.len(),
        spec_ins_pos(s, c) < s.len() ==> spec_cand_before(c, s[spec_ins_pos(s, c)]),
        forall|j: int| 0 <= j < spec_ins_pos(s, c) ==> !spec_cand_before(c, s[j]),
    decreases s.len(),
{
    if s.len() > 0 {
        lemma_ins_pos(s.drop_last(), c);
        let p = spec_ins_pos(s.drop_last(), c);
        if p < s.len() - 1 {
            assert(s.drop_last()[p] == s[p]);
        }
        assert forall|j: int| 0 <= j < spec_ins_pos(s, c) implies !spec_cand_before(c, s[j]) by {
            if j < s.len() - 1 {
                assert(s.drop_last()[j] == s[j]);
            }
        }
    }
}

/// The ordered arrangement of the first `k` candidates.
pub open spec fn spec_sorted_cands(cs: Seq<CandView>, k: int) -> Seq<CandView>
    decreases k,
{
    if k <= 0 {
        Seq::empty()
    } else {
        let prev = spec_sorted_cands(cs, k - 1);
        prev.insert(spec_ins_pos(prev, cs[k - 1]), cs[k - 1])
    }
}

/// What one candidate contributes to the result list.
pub open spec fn spec_result_of(c: CandView) -> UrlResultView {
    UrlResultView { url: c.row.url, title: c.row.title, tag: c.row.tag, privacy: c.row.privacy }
}

struct SearchCand {
    row: UrlRow,
    time: Timestamp,
    count: i64,
}

impl View for SearchCand {
    type V = CandView;

    closed spec fn view(&self) -> CandView {
        CandView { row: self.row@, time: self.time, count: self.count as int }
    }
}

fn tag_rank(t: UrlTag) -> (r: u8)
    ensures
        r as int == spec_tag_rank(t),
{
    match t {
        UrlTag::Normal => 0,
        UrlTag::Saved => 1,
        UrlTag::Favorite => 2,
        UrlTag::ReadLater => 3,
    }
}

fn cand_before(a: &SearchCand, b: &SearchCand) -> (r: bool)
    ensures
        r == spec_cand_before(a@, b@),
{
    let ra = tag_rank(a.row.tag);
    let rb = tag_rank(b.row.tag);
    if ra != rb {
        ra > rb
    } else if !(a.time == b.time) {
        b.time.lt(&a.time)
    } else if a.count != b.count {
        a.count > b.count
    } else {
        a.row.id < b.row.id
    }
}

impl Store {
    /// Interactive fuzzy search. The filter is normalized first; its
    /// provider scope resolves by id or by name, and an unknown name
    /// leaves the search unscoped rather than failing. Each url's
    /// in-scope visits are aggregated — counts summed, the newest time
    /// kept — and a url is reported when it passes every scope and
    /// contains-predicate and its newest visit lies within the inclusive
    /// time bounds. Results come ordered by tag precedence, then newest
    /// first, then by count, and at most `limit` of them.
    pub fn fuzzy_search(&self, filter: Filter) -> (r: Vec<UrlResult>)
        requires
            self.wf(),
            self@.visits.len() < 0x4000_0000,
        ensures
            ({
                let fv = spec_init(filter@);
                let pid = spec_resolve_pid(self@, fv);
                let cands = spec_candidates(self@, fv, pid, self@.urls.len() as int);
                let sorted = spec_sorted_cands(cands, cands.len() as int);
                let lim = if fv.limit < 0 {
                    0
                } else if fv.limit > sorted.len() {
                    sorted.len() as int
                } else {
                    fv.limit
                };
                r@.map_values(|x: UrlResult| x@) == sorted.take(lim).map_values(
                    |c: CandView| spec_result_of(c),
                )
            }),
    {
        let mut f = filter;
        f.init();
        let ghost fv = f@;
        let pid: Option<i16> = match f.p_id {
            Some(p) => Some(p),
            None => match &f.provider_name {
                Some(n) => {
                    proof {
                        super::lemma_first_index(self.provider_names(), n@);
                    }
                    match self.find_provider_idx(n.as_str()) {
                        Some(i) => Some(self.providers[i].id),
                        None => None,
                    }
                },
                None => None,
            },
        };
        let ghost gpid: Option<int> = spec_resolve_pid(self@, fv);
        proof {
            assert(gpid == match pid {
                Some(p) => Some(p as int),
                None => None::<int>,
            });
        }
        let mut cands: Vec<SearchCand> = Vec::new();
        let mut i: usize = 0;
        while i < self.urls.len()
            invariant
                i <= self.urls.len(),
                self.wf(),
                self@.visits.len() < 0x4000_0000,
                self@.urls.len() == self.urls@.len(),
                gpid == match pid {
                    Some(p) => Some(p as int),
                    None => None::<int>,
                },
                fv == f@,
                cands@.map_values(|c: SearchCand| c@) == spec_candidates(self@, fv, gpid, i as int),
            decreases self.urls.len() - i,
        {
            let ghost pre = cands@;
            let uid = self.urls[i].id;
            proof {
                assert(self@.urls[i as int].id == uid as int);
            }
            let ghost vs = self@.visits;
            let mut time: Option<Timestamp> = None;
            let mut count: i64 = 0;
            let mut j: usize = 0;
            while j < self.visits.len()
                invariant
                    j <= self.visits.len(),
                    vs == self@.visits,
                    vs.len() == self.visits@.len(),
                    vs.len() < 0x4000_0000,
                    gpid == match pid {
                        Some(p) => Some(p as int),
                        None => None::<int>,
                    },
                    time == spec_agg_time(vs.take(j as int), gpid, f.browser, uid as int),
                    count == spec_agg_count(vs.take(j as int), gpid, f.browser, uid as int),
                    -0x2000_0000_0000_0000 <= count <= 0x2000_0000_0000_0000,
                    -(j as int) * 0x8000_0000 <= count <= (j as int) * 0x8000_0000,
                decreases self.visits.len() - j,
            {
                proof {
                    assert(vs.take(j + 1).drop_last() =~= vs.take(j as int));
                    assert(vs.take(j + 1).last() == vs[j as int]);
                }
                let v = self.visits[j];
                let in_scope = v.url_id == uid && (match pid {
                    Some(p) => v.provider_id == p,
                    None => true,
                }) && (match f.browser {
                    Some(b) => v.browser == b,
                    None => true,
                });
                if in_scope {
                    time = match time {
                        Some(m) => if m.lt(&v.last_visit_time) {
                            Some(v.last_visit_time)
                        } else {
                            Some(m)
                        },
                        None => Some(v.last_visit_time),
                    };
                    count = count + (v.visit_count as i64);
                }
                j += 1;
            }
            proof {
                assert(vs.take(vs.len() as int) =~= vs);
            }
            let keep = match time {
                Some(mt) => {
                    let privacy_ok = match f.privacy {
                        Some(p) => self.urls[i].privacy == p,
                        None => true,
                    };
                    let tag_ok = match f.tag {
                        Some(t) => self.urls[i].tag == t,
                        None => true,
                    };
                    let from_ok = match f.time_from {
                        Some(t0) => t0.le(&mt),
                        None => true,
                    };
                    let to_ok = match f.time_to {
                        Some(t1) => mt.le(&t1),
                        None => true,
                    };
                    privacy_ok && tag_ok && from_ok && to_ok && ilike_all(
                        &f.url_segs,
                        self.urls[i].url.as_str(),
                    ) && ilike_all(&f.title_segs, self.urls[i].title.as_str())
                },
                None => false,
            };
            proof {
                assert forall|k: int|
                    0 <= k < fv.url_segs.len() implies fv.url_segs[k] == (
                #[trigger] f.url_segs@[k])@ by {}
                assert forall|k: int|
                    0 <= k < fv.title_segs.len() implies fv.title_segs[k] == (
                #[trigger] f.title_segs@[k])@ by {}
                assert(keep == spec_url_matches(self@, fv, gpid, i as int));
            }
            if keep {
                let mt = match time {
                    Some(m) => m,
                    None => Timestamp::epoch(),
                };
                cands.push(SearchCand { row: self.urls[i].clone_row(), time: mt, count });
                proof {
                    assert(cands@.map_values(|c: SearchCand| c@) =~= pre.map_values(
                        |c: SearchCand| c@,
                    ).push(
                        CandView {
                            row: self@.urls[i as int],
                            time: spec_agg_time(
                                self@.visits,
                                gpid,
                                fv.browser,
                                self@.urls[i as int].id,
                            )->Some_0,
                            count: spec_agg_count(
                                self@.visits,
                                gpid,
                                fv.browser,
                                self@.urls[i as int].id,
                            ),
                        },
                    ));
                }
            }
            i += 1;
        }
        let ghost cvs = cands@.map_values(|c: SearchCand| c@);
        let mut sorted: Vec<SearchCand> = Vec::new();
        let mut k: usize = 0;
        while k < cands.len()
            invariant
                k <= cands.len(),
                cvs == cands@.map_values(|c: SearchCand| c@),
                cvs.len() == cands@.len(),
                sorted@.map_values(|c: SearchCand| c@) == spec_sorted_cands(cvs, k as int),
                sorted@.len() == k,
            decreases cands.len() - k,
        {
            let ghost svs = sorted@.map_values(|c: SearchCand| c@);
            proof {
                lemma_ins_pos(svs, cvs[k as int]);
            }
            let mut pos: usize = 0;
            let mut found = false;
            while pos < sorted.len() && !found
                invariant
                    pos <= sorted.len(),
                    svs == sorted@.map_values(|c: SearchCand| c@),
                    svs.len() == sorted@.len(),
                    cvs.len() == cands@.len(),
                    cvs == cands@.map_values(|c: SearchCand| c@),
                    k < cands@.len(),
                    forall|j: int| 0 <= j < pos ==> !spec_cand_before(cvs[k as int], svs[j]),
                    found ==> pos < svs.len() && spec_cand_before(cvs[k as int], svs[pos as int]),
                decreases sorted.len() - pos + if found {
                    0int
                } else {
                    1int
                },
            {
                if cand_before(&cands[k], &sorted[pos]) {
                    found = true;
                } else {
                    pos += 1;
                }
            }
            proof {
                if found {
                    assert(pos as int == spec_ins_pos(svs, cvs[k as int]));
                } else {
                    assert(pos == svs.len());
                    if spec_ins_pos(svs, cvs[k as int]) < svs.len() {
                        assert(spec_cand_before(
                            cvs[k as int],
                            svs[spec_ins_pos(svs, cvs[k as int])],
                        ));
                    }
                    assert(pos as int == spec_ins_pos(svs, cvs[k as int]));
                }
            }
            let c = SearchCand {
                row: cands[k].row.clone_row(),
                time: cands[k].time,
                count: cands[k].count,
            };
            proof {
                assert(c@ == cvs[k as int]);
            }
            sorted.insert(pos, c);
            proof {
                assert(sorted@.map_values(|c2: SearchCand| c2@) =~= svs.insert(
                    pos as int,
                    cvs[k as int],
                ));
            }
            k += 1;
        }
        proof {
            assert(spec_sorted_cands(cvs, cvs.len() as int) == sorted@.map_values(
                |c: SearchCand| c@,
            ));
        }
        let lim: usize = if f.limit < 0 {
            0
        } else if f.limit as u64 >= sorted.len() as u64 {
            sorted.len()
        } else {
            f.limit as usize
        };
        let ghost srt = sorted@.map_values(|c: SearchCand| c@);
        let mut out: Vec<UrlResult> = Vec::new();
        let mut q: usize = 0;
        while q < lim
            invariant
                q <= lim,
                lim <= sorted@.len(),
                srt == sorted@.map_values(|c: SearchCand| c@),
                srt.len() == sorted@.len(),
                out@.map_values(|x: UrlResult| x@) == srt.take(lim as int).map_values(
                    |c: CandView| spec_result_of(c),
                ).take(q as int),
            decreases lim - q,
        {
            let ghost preo = out@;
            out.push(
                UrlResult {
                    url: sorted[q].row.url.clone(),
                    title: sorted[q].row.title.clone(),
                    tag: sorted[q].row.tag,
                    privacy: sorted[q].row.privacy,
                },
            );
            proof {
                let tk = srt.take(lim as int).map_values(|c: CandView| spec_result_of(c));
                assert(out@.map_values(|x: UrlResult| x@) =~= preo.map_values(
                    |x: UrlResult| x@,
                ).push(spec_result_of(srt[q as int])));
                assert(tk.take(q + 1) =~= tk.take(q as int).push(tk[q as int]));
            }
            q += 1;
        }
        proof {
            let tk = srt.take(lim as int).map_values(|c: CandView| spec_result_of(c));
            assert(tk.take(lim as int) =~= tk);
            let gl = if fv.limit < 0 {
                0
            } else if fv.limit > srt.len() {
                srt.len() as int
            } else {
                fv.limit
            };
            assert(gl == lim as int);
        }
        out
    }
}

} // verus!
