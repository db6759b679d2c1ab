//! The synchronization engine: provider-by-provider, browser-by-browser
//! incremental transfer of visit records between two stores, and the
//! independent two-way merge of their tag histories. Neither side is
//! privileged; a pass that stops partway leaves applied work in place, and
//! the next pass resumes correctly because the watermark comparison is
//! idempotent.

use vstd::prelude::*;

use crate::db::{spec_set_tag, Store};
use crate::errors::Error;
use crate::node::Provider;
use crate::time::Timestamp;
use crate::url::tag::{merge_changes, merge_fold, History, UrlTag};
use crate::url::Filter;

verus! {

/// Which side is behind and must pull from the other.
#[derive(Clone, Copy, Debug, PartialEq, Eq, Structural)]
pub enum Direction {
    /// The host's watermark is older: pull the remote's newer records
    /// into the host.
    IntoHost,
    /// The remote's watermark is older: pull the host's newer records
    /// into the remote.
    IntoRemote,
}

/// The watermark a provider has in one side's list, if it is named there.
pub open spec fn spec_lookup_time(ps: Seq<(Seq<char>, Timestamp)>, name: Seq<char>) -> Option<
    Timestamp,
>
    decreases ps.len(),
{
    if ps.len() == 0 {
        None
    } else {
        match spec_lookup_time(ps.drop_last(), name) {
            Some(t) => Some(t),
            None => if ps.last().0 == name {
                Some(ps.last().1)
            } else {
                None
            },
        }
    }
}

/// The providers of the remote list that the host list does not name, in
/// remote order, each with the epoch as its host-side watermark.
pub open spec fn spec_remote_only(
    host: Seq<(Seq<char>, Timestamp)>,
    remote: Seq<(Seq<char>, Timestamp)>,
) -> Seq<(Seq<char>, Timestamp, Timestamp)>
    decreases remote.len(),
{
    if remote.len() == 0 {
        Seq::empty()
    } else {
        let rest = spec_remote_only(host, remote.drop_last());
        if spec_lookup_time(host, remote.last().0) is None {
            rest.push((remote.last().0, Timestamp::spec_epoch(), remote.last().1))
        } else {
            rest
        }
    }
}

/// The combined mapping of both provider lists: one entry per provider
/// name of either side, host entries first in host order and then the
/// remote-only ones in remote order, each holding (host watermark, remote
/// watermark) with an absent side defaulting to the epoch.
pub open spec fn spec_combined(
    host: Seq<(Seq<char>, Timestamp)>,
    remote: Seq<(Seq<char>, Timestamp)>,
) -> Seq<(Seq<char>, Timestamp, Timestamp)> {
    host.map_values(
        |p: (Seq<char>, Timestamp)|
            (
                p.0,
                p.1,
                match spec_lookup_time(remote, p.0) {
                    Some(t) => t,
                    None => Timestamp::spec_epoch(),
                },
            ),
    ) + spec_remote_only(host, remote)
}

/// The view of one side's provider list.
pub open spec fn spec_provider_times(ps: Seq<Provider>) -> Seq<(Seq<char>, Timestamp)> {
    ps.map_values(|p: Provider| (p.name@, p.last_import_time))
}

fn lookup_time(ps: &Vec<Provider>, name: &str) -> (r: Option<Timestamp>)
    ensures
        r == spec_lookup_time(spec_provider_times(ps@), name@),
{
    proof {
        lemma_lookup_time(spec_provider_times(ps@), name@);
    }
    let mut i: usize = 0;
    while i < ps.len()
        invariant
            i <= ps.len(),
            forall|j: int| 0 <= j < i ==> spec_provider_times(ps@)[j].0 != name@,
        decreases ps.len() - i,
    {
        if crate::strutil::str_eq(ps[i].name.as_str(), name) {
            proof {
                assert(spec_provider_times(ps@)[i as int].0 == name@);
                lemma_lookup_time_first(spec_provider_times(ps@), name@, i as int);
            }
            return Some(ps[i].last_import_time);
        }
        i += 1;
    }
    proof {
        lemma_lookup_time(spec_provider_times(ps@), name@);
        match spec_lookup_time(spec_provider_times(ps@), name@) {
            Some(t) => {
                let j = choose|j: int|
                    0 <= j < spec_provider_times(ps@).len() && (#[trigger] spec_provider_times(
                        ps@,
                    )[j]).0 == name@ && spec_provider_times(ps@)[j].1 == t;
                assert(false);
            },
            None => {},
        }
    }
    None
}

/// What a lookup means: the first entry of that name decides, or there is
/// none.
pub proof fn lemma_lookup_time(ps: Seq<(Seq<char>, Timestamp)>, name: Seq<char>)
    ensures
        match spec_lookup_time(ps, name) {
            Some(t) => exists|i: int|
                0 <= i < ps.len() && (#[trigger] ps[i]).0 == name && ps[i].1 == t,
            None => forall|i: int| 0 <= i < ps.len() ==> (#[trigger] ps[i]).0 != name,
        },
    decreases ps.len(),
{
    if ps.len() > 0 {
        lemma_lookup_time(ps.drop_last(), name);
        match spec_lookup_time(ps.drop_last(), name) {
            Some(t) => {
                let i = choose|i: int|
                    0 <= i < ps.drop_last().len() && (#[trigger] ps.drop_last()[i]).0 == name
                        && ps.drop_last()[i].1 == t;
                assert(ps[i] == ps.drop_last()[i]);
            },
            None => {
                assert forall|i: int| 0 <= i < ps.len() - 1 implies (#[trigger] ps[i]).0
                    != name by {
                    assert(ps.drop_last()[i] == ps[i]);
                }
            },
        }
    }
}

/// A first match decides the lookup.
pub proof fn lemma_lookup_time_first(ps: Seq<(Seq<char>, Timestamp)>, name: Seq<char>, i: int)
    requires
        0 <= i < ps.len(),
        ps[i].0 == name,
        forall|j: int| 0 <= j < i ==> (#[trigger] ps[j]).0 != name,
    ensures
        spec_lookup_time(ps, name) == Some(ps[i].1),
    decreases ps.len(),
{
    if i == ps.len() - 1 {
        lemma_lookup_time(ps.drop_last(), name);
        match spec_lookup_time(ps.drop_last(), name) {
            Some(t) => {
                let j = choose|j: int|
                    0 <= j < ps.drop_last().len() && (#[trigger] ps.drop_last()[j]).0 == name
                        && ps.drop_last()[j].1 == t;
                assert(ps[j].0 == name);
                assert(false);
            },
            None => {},
        }
    } else {
        assert(ps.drop_last()[i] == ps[i]);
        assert forall|j: int| 0 <= j < i implies (#[trigger] ps.drop_last()[j]).0 != name by {
            assert(ps.drop_last()[j] == ps[j]);
        }
        lemma_lookup_time_first(ps.drop_last(), name, i);
    }
}

/// Build the combined mapping of both sides' provider lists.
pub fn combine_times(host: &Vec<Provider>, remote: &Vec<Provider>) -> (r: Vec<
    (String, Timestamp, Timestamp),
>)
    ensures
        r@.map_values(|p: (String, Timestamp, Timestamp)| (p.0@, p.1, p.2)) == spec_combined(
            spec_provider_times(host@),
            spec_provider_times(remote@),
        ),
{
    let ghost hs = spec_provider_times(host@);
    let ghost rs = spec_provider_times(remote@);
    let mut out: Vec<(String, Timestamp, Timestamp)> = Vec::new();
    let mut i: usize = 0;
    while i < host.len()
        invariant
            i <= host.len(),
            hs == spec_provider_times(host@),
            rs == spec_provider_times(remote@),
            hs.len() == host@.len(),
            out@.map_values(|p: (String, Timestamp, Timestamp)| (p.0@, p.1, p.2)) == hs.take(
                i as int,
            ).map_values(
                |p: (Seq<char>, Timestamp)|
                    (
                        p.0,
                        p.1,
                        match spec_lookup_time(rs, p.0) {
                            Some(t) => t,
                            None => Timestamp::spec_epoch(),
                        },
                    ),
            ),
        decreases host.len() - i,
    {
        let ghost pre = out@;
        let rt = match lookup_time(remote, host[i].name.as_str()) {
            Some(t) => t,
            None => Timestamp::epoch(),
        };
        out.push((host[i].name.clone(), host[i].last_import_time, rt));
        proof {
            let f = |p: (Seq<char>, Timestamp)|
                (
                    p.0,
                    p.1,
                    match spec_lookup_time(rs, p.0) {
                        Some(t) => t,
                        None => Timestamp::spec_epoch(),
                    },
                );
            assert(out@.map_values(|p: (String, Timestamp, Timestamp)| (p.0@, p.1, p.2))
                =~= pre.map_values(|p: (String, Timestamp, Timestamp)| (p.0@, p.1, p.2)).push(
                f(hs[i as int]),
            ));
            assert(hs.take(i + 1).map_values(f) =~= hs.take(i as int).map_values(f).push(
                f(hs[i as int]),
            ));
        }
        i += 1;
    }
    proof {
        assert(hs.take(hs.len() as int) =~= hs);
    }
    let mut j: usize = 0;
    while j < remote.len()
        invariant
            j <= remote.len(),
            hs == spec_provider_times(host@),
            rs == spec_provider_times(remote@),
            rs.len() == remote@.len(),
            out@.map_values(|p: (String, Timestamp, Timestamp)| (p.0@, p.1, p.2)) == hs.map_values(
                |p: (Seq<char>, Timestamp)|
                    (
                        p.0,
                        p.1,
                        match spec_lookup_time(rs, p.0) {
                            Some(t) => t,
                            None => Timestamp::spec_epoch(),
                        },
                    ),
            ) + spec_remote_only(hs, rs.take(j as int)),
        decreases remote.len() - j,
    {
        let ghost pre = out@;
        proof {
            assert(rs.take(j + 1).drop_last() =~= rs.take(j as int));
            assert(rs.take(j + 1).last() == rs[j as int]);
        }
        match lookup_time(host, remote[j].name.as_str()) {
            Some(_) => {},
            None => {
                out.push((remote[j].name.clone(), Timestamp::epoch(), remote[j].last_import_time));
                proof {
                    assert(out@.map_values(|p: (String, Timestamp, Timestamp)| (p.0@, p.1, p.2))
                        =~= pre.map_values(
                        |p: (String, Timestamp, Timestamp)| (p.0@, p.1, p.2),
                    ).push((rs[j as int].0, Timestamp::spec_epoch(), rs[j as int].1)));
                }
            },
        }
        j += 1;
    }
    proof {
        assert(rs.take(rs.len() as int) =~= rs);
        assert(out@.map_values(|p: (String, Timestamp, Timestamp)| (p.0@, p.1, p.2))
            =~= spec_combined(hs, rs));
    }
    out
}

/// Which way one provider must sync: the side with the older watermark
/// pulls, from its own watermark on; equal watermarks need nothing.
pub fn sync_direction(host_time: Timestamp, remote_time: Timestamp) -> (r: Option<
    (Timestamp, Direction),
>)
    ensures
        host_time == remote_time ==> r is None,
        host_time.spec_lt(remote_time) ==> r == Some((host_time, Direction::IntoHost)),
        remote_time.spec_lt(host_time) ==> r == Some((remote_time, Direction::IntoRemote)),
{
    proof {
        crate::time::lemma_order_total(host_time, remote_time);
    }
    if host_time.lt(&remote_time) {
        Some((host_time, Direction::IntoHost))
    } else if remote_time.lt(&host_time) {
        Some((remote_time, Direction::IntoRemote))
    } else {
        None
    }
}

/// The url tags after writing through a list of (url, tag) changes, in
/// order.
pub open spec fn spec_apply_tag_changes(
    urls: Seq<crate::db::UrlRowView>,
    changes: Seq<(Seq<char>, UrlTag)>,
    k: int,
) -> Seq<crate::db::UrlRowView>
    decreases k,
{
    if k <= 0 {
        urls
    } else {
        spec_set_tag(
            spec_apply_tag_changes(urls, changes, k - 1),
            seq![changes[k - 1].0],
            changes[k - 1].1,
        )
    }
}

/// Merge an incoming tag snapshot into this node's register and write
/// exactly the changed (url, tag) pairs through to the store — the
/// register is reconciled last-write-wins and the store's url rows receive
/// each changed tag in change order.
pub fn update_tag_log(store: &mut Store, log: &mut History, incoming: &History) -> (r: usize)
    requires
        old(store).wf(),
        old(log).wf(),
        incoming.wf(),
    ensures
        final(store).wf(),
        final(log).wf(),
        final(log)@ == merge_fold(
            old(log)@,
            incoming.entry_seq(),
            incoming.entry_seq().len() as int,
        ),
        final(store)@.providers == old(store)@.providers,
        final(store)@.visits == old(store)@.visits,
        final(store)@.urls == spec_apply_tag_changes(
            old(store)@.urls,
            merge_changes(old(log)@, incoming.entry_seq(), incoming.entry_seq().len() as int),
            merge_changes(
                old(log)@,
                incoming.entry_seq(),
                incoming.entry_seq().len() as int,
            ).len() as int,
        ),
        r == merge_changes(
            old(log)@,
            incoming.entry_seq(),
            incoming.entry_seq().len() as int,
        ).len(),
    {
        let changes = log.merge(incoming);
        let ghost cvs = merge_changes(
            old(log)@,
            incoming.entry_seq(),
            incoming.entry_seq().len() as int,
        );
        proof {
            assert(changes@.map_values(|p: (String, UrlTag)| (p.0@, p.1)).len() == cvs.len());
        }
        let mut k: usize = 0;
        while k < changes.len()
            invariant
                k <= changes.len(),
                store.wf(),
                cvs == changes@.map_values(|p: (String, UrlTag)| (p.0@, p.1)),
                cvs.len() == changes@.len(),
                store@.providers == old(store)@.providers,
                store@.visits == old(store)@.visits,
                store@.urls == spec_apply_tag_changes(old(store)@.urls, cvs, k as int),
            decreases changes.len() - k,
        {
            let url = changes[k].0.clone();
            let tag = changes[k].1;
            let one = vec![url];
            let _ = store.set_tag(&one, tag);
            proof {
                assert(one@.map_values(|s: String| s@) =~= seq![cvs[k as int].0]);
            }
            k += 1;
        }
        changes.len()
    }

/// One full two-way tag synchronization: each side's snapshot is taken
/// first, then merged into the other side's register and store, so the
/// two directions act independently, as they do when they run
/// concurrently.
pub fn sync_tag_logs(
    host_store: &mut Store,
    host_log: &mut History,
    remote_store: &mut Store,
    remote_log: &mut History,
)
    requires
        old(host_store).wf(),
        old(host_log).wf(),
        old(remote_store).wf(),
        old(remote_log).wf(),
    ensures
        final(host_store).wf(),
        final(host_log).wf(),
        final(remote_store).wf(),
        final(remote_log).wf(),
        final(host_log)@ == merge_fold(
            old(host_log)@,
            old(remote_log).entry_seq(),
            old(remote_log).entry_seq().len() as int,
        ),
        final(remote_log)@ == merge_fold(
            old(remote_log)@,
            old(host_log).entry_seq(),
            old(host_log).entry_seq().len() as int,
        ),
        final(host_store)@.providers == old(host_store)@.providers,
        final(host_store)@.visits == old(host_store)@.visits,
        final(remote_store)@.providers == old(remote_store)@.providers,
        final(remote_store)@.visits == old(remote_store)@.visits,
        final(host_store)@.urls == spec_apply_tag_changes(
            old(host_store)@.urls,
            merge_changes(
                old(host_log)@,
                old(remote_log).entry_seq(),
                old(remote_log).entry_seq().len() as int,
            ),
            merge_changes(
                old(host_log)@,
                old(remote_log).entry_seq(),
                old(remote_log).entry_seq().len() as int,
            ).len() as int,
        ),
        final(remote_store)@.urls == spec_apply_tag_changes(
            old(remote_store)@.urls,
            merge_changes(
                old(remote_log)@,
                old(host_log).entry_seq(),
                old(host_log).entry_seq().len() as int,
            ),
            merge_changes(
                old(remote_log)@,
                old(host_log).entry_seq(),
                old(host_log).entry_seq().len() as int,
            ).len() as int,
        ),
{
    let from_remote = remote_log.duplicate();
    let from_host = host_log.duplicate();
    let _ = update_tag_log(host_store, host_log, &from_remote);
    let _ = update_tag_log(remote_store, remote_log, &from_host);
}

/// The (name, watermark) pairs a store lists, in creation order.
pub open spec fn spec_store_times(s: crate::db::StoreView) -> Seq<(Seq<char>, Timestamp)> {
    s.providers.map_values(|p: crate::db::ProviderRowView| (p.name, p.last_import_time))
}

/// The provider id one side resolves a name to, if that side lists it.
pub open spec fn spec_newer_pid(newer: crate::db::StoreView, name: Seq<char>) -> Option<int> {
    match crate::db::spec_first_index(
        newer.providers.map_values(|p: crate::db::ProviderRowView| p.name),
        name,
    ) {
        Some(i) => Some(newer.providers[i].id),
        None => None,
    }
}

/// One provider's part of a pass, cut after the first `j` browsers of
/// the pulling direction: equal watermarks move nothing, the side that
/// is behind pulls from its own watermark on, and a provider the newer
/// side does not list moves nothing (the pass aborts there).
pub open spec fn spec_sync_step_partial(
    h: crate::db::StoreView,
    rm: crate::db::StoreView,
    e: (Seq<char>, Timestamp, Timestamp),
    j: int,
) -> (crate::db::StoreView, crate::db::StoreView) {
    if e.1 == e.2 {
        (h, rm)
    } else if e.1.spec_lt(e.2) {
        match spec_newer_pid(rm, e.0) {
            Some(pid) => (
                spec_pull_fold(
                    h,
                    rm,
                    pid,
                    e.0,
                    e.1,
                    crate::db::spec_provider_browsers(rm.visits, pid),
                    j,
                ),
                rm,
            ),
            None => (h, rm),
        }
    } else {
        match spec_newer_pid(h, e.0) {
            Some(pid) => (
                h,
                spec_pull_fold(
                    rm,
                    h,
                    pid,
                    e.0,
                    e.2,
                    crate::db::spec_provider_browsers(h.visits, pid),
                    j,
                ),
            ),
            None => (h, rm),
        }
    }
}

/// One provider's complete part of a pass: every browser the newer side
/// has data under, transferred.
pub open spec fn spec_sync_step(
    h: crate::db::StoreView,
    rm: crate::db::StoreView,
    e: (Seq<char>, Timestamp, Timestamp),
) -> (crate::db::StoreView, crate::db::StoreView) {
    let full = if e.1.spec_lt(e.2) {
        match spec_newer_pid(rm, e.0) {
            Some(pid) => crate::db::spec_provider_browsers(rm.visits, pid).len() as int,
            None => 0,
        }
    } else if e.2.spec_lt(e.1) {
        match spec_newer_pid(h, e.0) {
            Some(pid) => crate::db::spec_provider_browsers(h.visits, pid).len() as int,
            None => 0,
        }
    } else {
        0
    };
    spec_sync_step_partial(h, rm, e, full)
}

/// The two stores after the first `k` providers of the combined list.
pub open spec fn spec_sync_fold(
    h: crate::db::StoreView,
    rm: crate::db::StoreView,
    cs: Seq<(Seq<char>, Timestamp, Timestamp)>,
    k: int,
) -> (crate::db::StoreView, crate::db::StoreView)
    decreases k,
{
    if k <= 0 {
        (h, rm)
    } else {
        let prev = spec_sync_fold(h, rm, cs, k - 1);
        spec_sync_step(prev.0, prev.1, cs[k - 1])
    }
}

/// One incremental url pass between two stores: combine both provider
/// lists, and for every provider whose watermarks differ, pull each of
/// the newer side's browsers from the older side's watermark on and push
/// the batches into the older side, which derives its own watermark.
/// Returns how many records moved. On success both stores equal the full
/// fold of per-provider transfers over the combined list; a failing step
/// aborts the pass with the first providers fully applied and a
/// browser-prefix of the failing one in place — resumable, not atomic.
pub fn sync_urls(host: &mut Store, remote: &mut Store) -> (r: Result<u64, Error>)
    requires
        old(host).wf(),
        old(remote).wf(),
    ensures
        final(host).wf(),
        final(remote).wf(),
        ({
            let cs = spec_combined(spec_store_times(old(host)@), spec_store_times(old(remote)@));
            &&& (r is Ok ==> final(host)@ == spec_sync_fold(
                old(host)@,
                old(remote)@,
                cs,
                cs.len() as int,
            ).0 && final(remote)@ == spec_sync_fold(old(host)@, old(remote)@, cs, cs.len() as int).1)
            &&& (r is Err ==> exists|k: int, j: int|
                0 <= k < cs.len() && 0 <= j && (final(host)@, final(remote)@)
                    == spec_sync_step_partial(
                    spec_sync_fold(old(host)@, old(remote)@, cs, k).0,
                    spec_sync_fold(old(host)@, old(remote)@, cs, k).1,
                    cs[k],
                    j,
                ))
        }),
{
    let ghost o_h = host@;
    let ghost o_r = remote@;
    let host_ps = host.all();
    let remote_ps = remote.all();
    proof {
        assert forall|x: int|
            0 <= x < host_ps@.len() implies #[trigger] spec_provider_times(host_ps@)[x]
            == spec_store_times(o_h)[x] by {}
        assert(spec_provider_times(host_ps@) =~= spec_store_times(o_h));
        assert forall|x: int|
            0 <= x < remote_ps@.len() implies #[trigger] spec_provider_times(remote_ps@)[x]
            == spec_store_times(o_r)[x] by {}
        assert(spec_provider_times(remote_ps@) =~= spec_store_times(o_r));
    }
    let combined = combine_times(&host_ps, &remote_ps);
    let ghost cs = spec_combined(spec_store_times(o_h), spec_store_times(o_r));
    let mut moved: u64 = 0;
    let mut i: usize = 0;
    while i < combined.len()
        invariant
            i <= combined.len(),
            o_h == old(host)@,
            o_r == old(remote)@,
            cs == spec_combined(spec_store_times(o_h), spec_store_times(o_r)),
            combined@.map_values(|p: (String, Timestamp, Timestamp)| (p.0@, p.1, p.2)) == cs,
            cs.len() == combined@.len(),
            host.wf(),
            remote.wf(),
            host@ == spec_sync_fold(o_h, o_r, cs, i as int).0,
            remote@ == spec_sync_fold(o_h, o_r, cs, i as int).1,
        decreases combined.len() - i,
    {
        let ghost mid_h = host@;
        let ghost mid_r = remote@;
        let host_time = combined[i].1;
        let remote_time = combined[i].2;
        proof {
            assert(cs[i as int] == (
                combined@[i as int].0@,
                combined@[i as int].1,
                combined@[i as int].2,
            ));
            crate::time::lemma_order_total(host_time, remote_time);
        }
        match sync_direction(host_time, remote_time) {
            None => {
                proof {
                    assert(spec_sync_step(mid_h, mid_r, cs[i as int]) == (mid_h, mid_r));
                }
            },
            Some((since, Direction::IntoHost)) => {
                let ghost pn = remote@.providers.map_values(
                    |p: crate::db::ProviderRowView| p.name,
                );
                let n = match pull_provider(remote, host, &combined[i].0, since) {
                    Ok(n) => n,
                    Err(e) => {
                        proof {
                            match crate::db::spec_first_index(pn, cs[i as int].0) {
                                None => {
                                    assert((host@, remote@) == spec_sync_step_partial(
                                        spec_sync_fold(old(host)@, old(remote)@, cs, i as int).0,
                                        spec_sync_fold(old(host)@, old(remote)@, cs, i as int).1,
                                        cs[i as int],
                                        0,
                                    ));
                                },
                                Some(i0) => {
                                    let pid = mid_r.providers[i0].id;
                                    let bs = crate::db::spec_provider_browsers(mid_r.visits, pid);
                                    let k2 = choose|k2: int|
                                        0 <= k2 <= bs.len() && host@ == spec_pull_fold(
                                            mid_h,
                                            mid_r,
                                            pid,
                                            cs[i as int].0,
                                            since,
                                            bs,
                                            k2,
                                        );
                                    assert((host@, remote@) == spec_sync_step_partial(
                                        spec_sync_fold(old(host)@, old(remote)@, cs, i as int).0,
                                        spec_sync_fold(old(host)@, old(remote)@, cs, i as int).1,
                                        cs[i as int],
                                        k2,
                                    ));
                                },
                            }
                        }
                        return Err(e);
                    },
                };
                proof {
                    if crate::db::spec_first_index(pn, cs[i as int].0) is None {
                        assert(false);
                    }
                    let i0 = crate::db::spec_first_index(pn, cs[i as int].0)->Some_0;
                    let pid = mid_r.providers[i0].id;
                    let bs = crate::db::spec_provider_browsers(mid_r.visits, pid);
                    let k2 = choose|k2: int|
                        0 <= k2 <= bs.len() && host@ == spec_pull_fold(
                            mid_h,
                            mid_r,
                            pid,
                            cs[i as int].0,
                            since,
                            bs,
                            k2,
                        ) && k2 == bs.len();
                    assert(spec_newer_pid(mid_r, cs[i as int].0) == Some(pid));
                    assert((host@, remote@) == spec_sync_step(mid_h, mid_r, cs[i as int]));
                }
                moved = if moved <= u64::MAX - n {
                    moved + n
                } else {
                    moved
                };
            },
            Some((since, Direction::IntoRemote)) => {
                let ghost pn = host@.providers.map_values(
                    |p: crate::db::ProviderRowView| p.name,
                );
                let n = match pull_provider(host, remote, &combined[i].0, since) {
                    Ok(n) => n,
                    Err(e) => {
                        proof {
                            match crate::db::spec_first_index(pn, cs[i as int].0) {
                                None => {
                                    assert((host@, remote@) == spec_sync_step_partial(
                                        spec_sync_fold(old(host)@, old(remote)@, cs, i as int).0,
                                        spec_sync_fold(old(host)@, old(remote)@, cs, i as int).1,
                                        cs[i as int],
                                        0,
                                    ));
                                },
                                Some(i0) => {
                                    let pid = mid_h.providers[i0].id;
                                    let bs = crate::db::spec_provider_browsers(mid_h.visits, pid);
                                    let k2 = choose|k2: int|
                                        0 <= k2 <= bs.len() && remote@ == spec_pull_fold(
                                            mid_r,
                                            mid_h,
                                            pid,
                                            cs[i as int].0,
                                            since,
                                            bs,
                                            k2,
                                        );
                                    assert((host@, remote@) == spec_sync_step_partial(
                                        spec_sync_fold(old(host)@, old(remote)@, cs, i as int).0,
                                        spec_sync_fold(old(host)@, old(remote)@, cs, i as int).1,
                                        cs[i as int],
                                        k2,
                                    ));
                                },
                            }
                        }
                        return Err(e);
                    },
                };
                proof {
                    if crate::db::spec_first_index(pn, cs[i as int].0) is None {
                        assert(false);
                    }
                    let i0 = crate::db::spec_first_index(pn, cs[i as int].0)->Some_0;
                    let pid = mid_h.providers[i0].id;
                    let bs = crate::db::spec_provider_browsers(mid_h.visits, pid);
                    let k2 = choose|k2: int|
                        0 <= k2 <= bs.len() && remote@ == spec_pull_fold(
                            mid_r,
                            mid_h,
                            pid,
                            cs[i as int].0,
                            since,
                            bs,
                            k2,
                        ) && k2 == bs.len();
                    assert(spec_newer_pid(mid_h, cs[i as int].0) == Some(pid));
                    assert((host@, remote@) == spec_sync_step(mid_h, mid_r, cs[i as int]));
                }
                moved = if moved <= u64::MAX - n {
                    moved + n
                } else {
                    moved
                };
            },
        }
        proof {
            assert(spec_sync_fold(o_h, o_r, cs, i as int + 1) == spec_sync_step(
                spec_sync_fold(o_h, o_r, cs, i as int).0,
                spec_sync_fold(o_h, o_r, cs, i as int).1,
                cs[i as int],
            ));
        }
        i += 1;
    }
    proof {
        assert(i as int == cs.len());
        assert(host@ == spec_sync_fold(old(host)@, old(remote)@, cs, cs.len() as int).0);
        assert(remote@ == spec_sync_fold(old(host)@, old(remote)@, cs, cs.len() as int).1);
    }
    Ok(moved)
}

/// One browser's transfer: the incremental set the newer side holds for
/// the provider strictly after `since`, inserted into the older side with
/// no explicit watermark, so the older side derives its own.
pub open spec fn spec_pull_step(
    older: crate::db::StoreView,
    newer: crate::db::StoreView,
    pid: int,
    name: Seq<char>,
    since: Timestamp,
    b: crate::browser::Browser,
) -> crate::db::StoreView {
    let urls = crate::db::spec_bulk_urls(newer.visits, newer.urls, pid, b, since);
    crate::db::spec_insert_urls(
        crate::db::spec_find_or_insert(older, name).0,
        crate::db::spec_find_or_insert(older, name).1,
        b,
        urls,
        None,
    )
}

/// The older side after the first `k` browsers' transfers, in order.
pub open spec fn spec_pull_fold(
    older: crate::db::StoreView,
    newer: crate::db::StoreView,
    pid: int,
    name: Seq<char>,
    since: Timestamp,
    bs: Seq<crate::browser::Browser>,
    k: int,
) -> crate::db::StoreView
    decreases k,
{
    if k <= 0 {
        older
    } else {
        spec_pull_step(
            spec_pull_fold(older, newer, pid, name, since, bs, k - 1),
            newer,
            pid,
            name,
            since,
            bs[k - 1],
        )
    }
}

/// Pull one provider's newer records into the side that is behind:
/// enumerate the browsers the newer side has data under, pull each
/// browser's incremental set from `since` on, and push every batch into
/// the older side, which re-derives its own watermark. Returns how many
/// records moved. A pass that stops partway — an unknown provider, or a
/// store at capacity — leaves exactly the already-transferred browsers'
/// work in place.
pub fn pull_provider(newer: &Store, older: &mut Store, name: &String, since: Timestamp) -> (r:
    Result<u64, Error>)
    requires
        newer.wf(),
        old(older).wf(),
    ensures
        final(older).wf(),
        ({
            let pn = newer@.providers.map_values(|p: crate::db::ProviderRowView| p.name);
            match crate::db::spec_first_index(pn, name@) {
                None => r matches Err(e) && e is NotFound && final(older)@ == old(older)@,
                Some(i) => {
                    let pid = newer@.providers[i].id;
                    let bs = crate::db::spec_provider_browsers(newer@.visits, pid);
                    exists|k: int|
                        0 <= k <= bs.len() && final(older)@ == spec_pull_fold(
                            old(older)@,
                            newer@,
                            pid,
                            name@,
                            since,
                            bs,
                            k,
                        ) && (r is Ok ==> k == bs.len())
                },
            }
        }),
{
    let ghost pn = newer@.providers.map_values(|p: crate::db::ProviderRowView| p.name);
    proof {
        crate::db::lemma_first_index(pn, name@);
    }
    let browsers = match newer.all_browsers(name.as_str()) {
        Ok(bs) => bs,
        Err(e) => {
            proof {
                if crate::db::spec_first_index(pn, name@) is Some {
                    let i0 = crate::db::spec_first_index(pn, name@)->Some_0;
                    assert(newer@.providers[i0].name == name@);
                    assert(false);
                }
            }
            return Err(e);
        },
    };
    let ghost i0 = crate::db::spec_first_index(pn, name@)->Some_0;
    let ghost pid: int = newer@.providers[i0].id;
    let ghost bs = crate::db::spec_provider_browsers(newer@.visits, pid);
    proof {
        let i_w = choose|i: int|
            0 <= i < newer@.providers.len() && (#[trigger] newer@.providers[i]).name == name@
                && browsers@ == crate::db::spec_provider_browsers(
                newer@.visits,
                newer@.providers[i].id,
            );
        assert(newer@.providers[i_w].name == pn[i_w]);
        if crate::db::spec_first_index(pn, name@) is None {
            assert(pn[i_w] != name@);
        }
        assert(newer@.providers[i0].name == pn[i0]);
        if i_w != i0 {
            assert(newer@.providers[i_w].name == newer@.providers[i0].name);
            assert(false);
        }
        assert(browsers@ == bs);
    }
    let ghost o0 = older@;
    let mut moved: u64 = 0;
    let mut b: usize = 0;
    while b < browsers.len()
        invariant
            b <= browsers.len(),
            o0 == old(older)@,
            newer.wf(),
            older.wf(),
            pn == newer@.providers.map_values(|p: crate::db::ProviderRowView| p.name),
            crate::db::spec_first_index(pn, name@) == Some(i0),
            0 <= i0 < newer@.providers.len(),
            pid == newer@.providers[i0].id,
            newer@.providers[i0].name == name@,
            bs == browsers@,
            bs == crate::db::spec_provider_browsers(newer@.visits, pid),
            older@ == spec_pull_fold(o0, newer@, pid, name@, since, bs, b as int),
        decreases browsers.len() - b,
    {
        let filter = Filter::bulk_urls(name.clone(), browsers[b], since);
        let urls = match newer.get_urls(&filter) {
            Ok(us) => us,
            Err(e) => {
                proof {
                    crate::db::lemma_first_index(pn, name@);
                    assert(crate::db::spec_resolve_pid(newer@, filter@) == Some(pid));
                    assert(older@ == spec_pull_fold(
                        old(older)@,
                        newer@,
                        pid,
                        name@,
                        since,
                        bs,
                        b as int,
                    ));
                }
                return Err(e);
            },
        };
        proof {
            crate::db::lemma_first_index(pn, name@);
            assert(crate::db::spec_resolve_pid(newer@, filter@) == Some(pid));
            assert(urls@.map_values(|u: crate::url::Url| u@) == crate::db::spec_bulk_urls(
                newer@.visits,
                newer@.urls,
                pid,
                browsers@[b as int],
                since,
            ));
        }
        if older.providers_len() < 32766 && older.urls_len() < 0x3fff_ffff && urls.len()
            < 0x3fff_ffff {
            moved = if moved <= u64::MAX - (urls.len() as u64) {
                moved + (urls.len() as u64)
            } else {
                moved
            };
            match older.insert_urls(name.as_str(), browsers[b], urls, None) {
                Ok(_) => {},
                Err(e) => {
                    return Err(e);
                },
            }
        } else {
            proof {
                assert(older@ == spec_pull_fold(
                    old(older)@,
                    newer@,
                    pid,
                    name@,
                    since,
                    bs,
                    b as int,
                ));
            }
            return Err(Error::Query("store capacity exceeded during sync".to_owned()));
        }
        b += 1;
    }
    proof {
        assert(older@ == spec_pull_fold(old(older)@, newer@, pid, name@, since, bs, b as int));
        assert(b as int == bs.len());
    }
    Ok(moved)
}

/// One full pass: the url transfer first, then the independent two-way
/// tag synchronization. On success both stores hold the full url fold
/// with each side's changed tags written through, and both registers are
/// merged with the other side's pre-pass snapshot; a failed url pass
/// aborts before the tag phase, leaving the registers untouched and the
/// stores in the url pass's prefix state.
pub fn sync_all(
    host: &mut Store,
    host_log: &mut History,
    remote: &mut Store,
    remote_log: &mut History,
) -> (r: Result<u64, Error>)
    requires
        old(host).wf(),
        old(host_log).wf(),
        old(remote).wf(),
        old(remote_log).wf(),
    ensures
        final(host).wf(),
        final(host_log).wf(),
        final(remote).wf(),
        final(remote_log).wf(),
        r is Err ==> final(host_log)@ == old(host_log)@ && final(remote_log)@ == old(
            remote_log,
        )@ && ({
            let cs = spec_combined(spec_store_times(old(host)@), spec_store_times(old(remote)@));
            exists|k: int, j: int|
                0 <= k < cs.len() && 0 <= j && (final(host)@, final(remote)@)
                    == spec_sync_step_partial(
                    spec_sync_fold(old(host)@, old(remote)@, cs, k).0,
                    spec_sync_fold(old(host)@, old(remote)@, cs, k).1,
                    cs[k],
                    j,
                )
        }),
        r is Ok ==> ({
            let cs = spec_combined(spec_store_times(old(host)@), spec_store_times(old(remote)@));
            let mid = spec_sync_fold(old(host)@, old(remote)@, cs, cs.len() as int);
            let hcs = merge_changes(
                old(host_log)@,
                old(remote_log).entry_seq(),
                old(remote_log).entry_seq().len() as int,
            );
            let rcs = merge_changes(
                old(remote_log)@,
                old(host_log).entry_seq(),
                old(host_log).entry_seq().len() as int,
            );
            &&& final(host_log)@ == merge_fold(
                old(host_log)@,
                old(remote_log).entry_seq(),
                old(remote_log).entry_seq().len() as int,
            )
            &&& final(remote_log)@ == merge_fold(
                old(remote_log)@,
                old(host_log).entry_seq(),
                old(host_log).entry_seq().len() as int,
            )
            &&& final(host)@.providers == mid.0.providers
            &&& final(host)@.visits == mid.0.visits
            &&& final(host)@.urls == spec_apply_tag_changes(mid.0.urls, hcs, hcs.len() as int)
            &&& final(remote)@.providers == mid.1.providers
            &&& final(remote)@.visits == mid.1.visits
            &&& final(remote)@.urls == spec_apply_tag_changes(mid.1.urls, rcs, rcs.len() as int)
        }),
{
    let ghost cs = spec_combined(spec_store_times(host@), spec_store_times(remote@));
    let moved = match sync_urls(host, remote) {
        Ok(n) => n,
        Err(e) => {
            return Err(e);
        },
    };
    proof {
        assert(host@ == spec_sync_fold(old(host)@, old(remote)@, cs, cs.len() as int).0);
        assert(remote@ == spec_sync_fold(old(host)@, old(remote)@, cs, cs.len() as int).1);
    }
    sync_tag_logs(host, host_log, remote, remote_log);
    Ok(moved)
}

} // verus!
