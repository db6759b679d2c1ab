//! An in-memory canonical store with the semantics of the durable schema:
//! urls deduplicated by their text with the title always overwritten,
//! visits keyed by (provider, browser, url) and aggregated monotonically,
//! and per-provider watermarks derived from the inserted batch's newest
//! visit when an insert carries no explicit one.

use vstd::prelude::*;

pub mod search;

use crate::browser::Browser;
use crate::errors::Error;
use crate::node::Provider;
use crate::strutil::str_eq;
use crate::time::Timestamp;
use crate::url::tag::{Tags, UrlTag};
use crate::url::{Filter, Url, UrlPrivacy};

verus! {

/// One provider row: a dense id, the unique name, and the watermark.
#[derive(Clone, Debug, PartialEq, Eq)]
pub struct ProviderRow {
    pub id: i16,
    pub name: String,
    pub last_import_time: Timestamp,
}

/// The abstract content of a provider row.
pub ghost struct ProviderRowView {
    pub id: int,
    pub name: Seq<char>,
    pub last_import_time: Timestamp,
}

impl View for ProviderRow {
    type V = ProviderRowView;

    open spec fn view(&self) -> ProviderRowView {
        ProviderRowView { id: self.id as int, name: self.name@, last_import_time: self.last_import_time }
    }
}

/// One url row: a dense id, the unique url text, the last observed title,
/// and the manual tag and privacy scope.
#[derive(Clone, Debug, PartialEq, Eq)]
pub struct UrlRow {
    pub id: i32,
    pub url: String,
    pub title: String,
    pub tag: UrlTag,
    pub privacy: UrlPrivacy,
}

/// The abstract content of a url row.
pub ghost struct UrlRowView {
    pub id: int,
    pub url: Seq<char>,
    pub title: Seq<char>,
    pub tag: UrlTag,
    pub privacy: UrlPrivacy,
}

impl UrlRow {
    /// An independent copy of the row.
    pub fn clone_row(&self) -> (r: UrlRow)
        ensures
            r@ == self@,
    {
        UrlRow {
            id: self.id,
            url: self.url.clone(),
            title: self.title.clone(),
            tag: self.tag,
            privacy: self.privacy,
        }
    }
}

impl View for UrlRow {
    type V = UrlRowView;

    open spec fn view(&self) -> UrlRowView {
        UrlRowView {
            id: self.id as int,
            url: self.url@,
            title: self.title@,
            tag: self.tag,
            privacy: self.privacy,
        }
    }
}

/// One visit row: the join between a provider, a browser and a url,
/// carrying the aggregated count and the newest visit time.
#[derive(Clone, Copy, Debug, PartialEq, Eq, Structural)]
pub struct VisitRow {
    pub provider_id: i16,
    pub browser: Browser,
    pub url_id: i32,
    pub visit_count: i32,
    pub last_visit_time: Timestamp,
}

/// The abstract content of a store.
#[verifier::ext_equal]
pub ghost struct StoreView {
    pub providers: Seq<ProviderRowView>,
    pub urls: Seq<UrlRowView>,
    pub visits: Seq<VisitRow>,
}

/// The store's invariant: dense ids, unique provider names and url texts,
/// at most one visit row per (provider, browser, url), and visit rows that
/// name existing providers and urls.
pub open spec fn store_wf(s: StoreView) -> bool {
    &&& forall|i: int| 0 <= i < s.providers.len() ==> (#[trigger] s.providers[i]).id == i + 1
    &&& forall|i: int, j: int|
        0 <= i < j < s.providers.len() ==> s.providers[i].name != s.providers[j].name
    &&& forall|i: int| 0 <= i < s.urls.len() ==> (#[trigger] s.urls[i]).id == i + 1
    &&& forall|i: int, j: int| 0 <= i < j < s.urls.len() ==> s.urls[i].url != s.urls[j].url
    &&& forall|i: int, j: int|
        0 <= i < j < s.visits.len() ==> !(s.visits[i].provider_id == s.visits[j].provider_id
            && s.visits[i].browser == s.visits[j].browser && s.visits[i].url_id
            == s.visits[j].url_id)
    &&& forall|i: int|
        0 <= i < s.visits.len() ==> 1 <= (#[trigger] s.visits[i]).url_id <= s.urls.len() && 1
            <= s.visits[i].provider_id <= s.providers.len()
}

/// The first position of `key`, if it occurs.
pub open spec fn spec_first_index(keys: Seq<Seq<char>>, key: Seq<char>) -> Option<int>
    decreases keys.len(),
{
    if keys.len() == 0 {
        None
    } else {
        match spec_first_index(keys.drop_last(), key) {
            Some(i) => Some(i),
            None => if keys.last() == key {
                Some(keys.len() - 1)
            } else {
                None
            },
        }
    }
}

/// What the first position means: a match that nothing earlier matches, or
/// no match at all.
pub proof fn lemma_first_index(keys: Seq<Seq<char>>, key: Seq<char>)
    ensures
        match spec_first_index(keys, key) {
            Some(i) => 0 <= i < keys.len() && keys[i] == key && forall|j: int|
                0 <= j < i ==> keys[j] != key,
            None => forall|j: int| 0 <= j < keys.len() ==> keys[j] != key,
        },
    decreases keys.len(),
{
    if keys.len() > 0 {
        lemma_first_index(keys.drop_last(), key);
        match spec_first_index(keys.drop_last(), key) {
            Some(i) => {
                assert(keys.drop_last()[i] == keys[i]);
                assert forall|j: int| 0 <= j < i implies keys[j] != key by {
                    assert(keys.drop_last()[j] != key);
                }
            },
            None => {
                assert forall|j: int| 0 <= j < keys.len() - 1 implies keys[j] != key by {
                    assert(keys.drop_last()[j] != key);
                }
                if keys.last() == key {
                    assert(keys[keys.len() - 1] == key);
                }
            },
        }
    }
}

/// The newest visit time a provider has, if it has any visit at all.
pub open spec fn spec_max_visit(visits: Seq<VisitRow>, pid: int) -> Option<Timestamp>
    decreases visits.len(),
{
    if visits.len() == 0 {
        None
    } else {
        let rest = spec_max_visit(visits.drop_last(), pid);
        if visits.last().provider_id == pid {
            match rest {
                Some(m) => if m.spec_lt(visits.last().last_visit_time) {
                    Some(visits.last().last_visit_time)
                } else {
                    Some(m)
                },
                None => Some(visits.last().last_visit_time),
            }
        } else {
            rest
        }
    }
}

/// The in-memory canonical store.
#[derive(Debug, Clone)]
pub struct Store {
    providers: Vec<ProviderRow>,
    urls: Vec<UrlRow>,
    visits: Vec<VisitRow>,
}

impl View for Store {
    type V = StoreView;

    closed spec fn view(&self) -> StoreView {
        StoreView {
            providers: self.providers@.map_values(|p: ProviderRow| p@),
            urls: self.urls@.map_values(|u: UrlRow| u@),
            visits: self.visits@,
        }
    }
}

impl Store {
    pub open spec fn wf(&self) -> bool {
        store_wf(self@)
    }

    /// An empty store.
    pub fn new() -> (r: Store)
        ensures
            r@.providers.len() == 0,
            r@.urls.len() == 0,
            r@.visits.len() == 0,
            r.wf(),
    {
        Store { providers: Vec::new(), urls: Vec::new(), visits: Vec::new() }
    }

    /// How many providers the store holds.
    pub fn providers_len(&self) -> (r: usize)
        ensures
            r == self@.providers.len(),
    {
        self.providers.len()
    }

    /// How many url rows the store holds.
    pub fn urls_len(&self) -> (r: usize)
        ensures
            r == self@.urls.len(),
    {
        self.urls.len()
    }

    spec fn provider_names(&self) -> Seq<Seq<char>> {
        self@.providers.map_values(|p: ProviderRowView| p.name)
    }

    fn find_provider_idx(&self, name: &str) -> (r: Option<usize>)
        ensures
            match r {
                Some(i) => spec_first_index(self.provider_names(), name@) == Some(i as int),
                None => spec_first_index(self.provider_names(), name@) is None,
            },
    {
        proof {
            lemma_first_index(self.provider_names(), name@);
        }
        let mut i: usize = 0;
        while i < self.providers.len()
            invariant
                i <= self.providers.len(),
                forall|j: int| 0 <= j < i ==> self.provider_names()[j] != name@,
            decreases self.providers.len() - i,
        {
            if str_eq(self.providers[i].name.as_str(), name) {
                proof {
                    lemma_first_index(self.provider_names(), name@);
                    assert(self.provider_names()[i as int] == name@);
                }
                return Some(i);
            }
            i += 1;
        }
        None
    }

    /// The id of the provider of that name, if it is known.
    pub fn try_find(&self, name: &str) -> (r: Option<i16>)
        requires
            self.wf(),
        ensures
            match r {
                Some(id) => exists|i: int|
                    0 <= i < self@.providers.len() && (#[trigger] self@.providers[i]).name
                        == name@ && self@.providers[i].id == id as int,
                None => forall|i: int|
                    0 <= i < self@.providers.len() ==> (#[trigger] self@.providers[i]).name
                        != name@,
            },
    {
        proof {
            lemma_first_index(self.provider_names(), name@);
        }
        match self.find_provider_idx(name) {
            Some(i) => {
                proof {
                    assert(self@.providers[i as int].name == name@);
                    assert(self@.providers[i as int].id == self.providers@[i as int].id as int);
                }
                Some(self.providers[i].id)
            },
            None => {
                proof {
                    assert forall|k: int| 0 <= k < self@.providers.len() implies (
                    #[trigger] self@.providers[k]).name != name@ by {
                        assert(self.provider_names()[k] != name@);
                    }
                }
                None
            },
        }
    }

    /// The id of the provider of that name; unknown names are an error.
    pub fn find(&self, name: &str) -> (r: Result<i16, Error>)
        requires
            self.wf(),
        ensures
            match r {
                Ok(id) => exists|i: int|
                    0 <= i < self@.providers.len() && (#[trigger] self@.providers[i]).name
                        == name@ && self@.providers[i].id == id as int,
                Err(e) => e is NotFound && forall|i: int|
                    0 <= i < self@.providers.len() ==> (#[trigger] self@.providers[i]).name
                        != name@,
            },
    {
        match self.try_find(name) {
            Some(id) => Ok(id),
            None => Err(Error::NotFound(name.to_owned())),
        }
    }

    /// The id of the provider of that name, creating the provider — with
    /// the epoch as its watermark — on its first appearance.
    pub fn find_or_insert(&mut self, name: &str) -> (r: i16)
        requires
            old(self).wf(),
            old(self)@.providers.len() < 32767,
        ensures
            final(self).wf(),
            final(self)@ == spec_find_or_insert(old(self)@, name@).0,
            r as int == spec_find_or_insert(old(self)@, name@).1,
            1 <= r as int <= final(self)@.providers.len(),
    {
        proof {
            lemma_first_index(self.provider_names(), name@);
        }
        match self.find_provider_idx(name) {
            Some(i) => {
                proof {
                    assert(self@.providers[i as int].name == name@);
                    assert(self@.providers[i as int].id == i + 1);
                }
                self.providers[i].id
            },
            None => {
                proof {
                    assert forall|k: int| 0 <= k < self@.providers.len() implies (
                    #[trigger] self@.providers[k]).name != name@ by {
                        assert(self.provider_names()[k] != name@);
                    }
                }
                let id = (self.providers.len() + 1) as i16;
                let ghost pre = self@;
                self.providers.push(
                    ProviderRow {
                        id,
                        name: name.to_owned(),
                        last_import_time: Timestamp::epoch(),
                    },
                );
                proof {
                    assert(self@.providers =~= pre.providers.push(
                        ProviderRowView {
                            id: pre.providers.len() as int + 1,
                            name: name@,
                            last_import_time: Timestamp::spec_epoch(),
                        },
                    ));
                    assert(self@ =~= spec_find_or_insert(pre, name@).0);
                    assert forall|a: int, b: int|
                        0 <= a < b < self@.providers.len() implies self@.providers[a].name
                        != self@.providers[b].name by {
                        if b == self@.providers.len() - 1 {
                            assert(self@.providers[a] == pre.providers[a]);
                        }
                    }
                    assert(store_wf(self@));
                }
                id
            },
        }
    }

    /// Every provider, as (name, watermark) pairs, in creation order.
    pub fn all(&self) -> (r: Vec<Provider>)
        requires
            self.wf(),
        ensures
            r@.len() == self@.providers.len(),
            forall|i: int|
                0 <= i < r@.len() ==> (#[trigger] r@[i]).name@ == self@.providers[i].name
                    && r@[i].last_import_time == self@.providers[i].last_import_time,
    {
        let mut out: Vec<Provider> = Vec::new();
        let mut i: usize = 0;
        while i < self.providers.len()
            invariant
                i <= self.providers.len(),
                out@.len() == i,
                forall|j: int|
                    0 <= j < i ==> (#[trigger] out@[j]).name@ == self@.providers[j].name
                        && out@[j].last_import_time == self@.providers[j].last_import_time,
            decreases self.providers.len() - i,
        {
            out.push(
                Provider {
                    name: self.providers[i].name.clone(),
                    last_import_time: self.providers[i].last_import_time,
                },
            );
            i += 1;
        }
        out
    }

    /// A provider's watermark; a provider never seen reads as the epoch.
    pub fn last_import_time(&self, name: &str) -> (r: Timestamp)
        requires
            self.wf(),
        ensures
            (exists|i: int|
                0 <= i < self@.providers.len() && (#[trigger] self@.providers[i]).name == name@
                    && r == self@.providers[i].last_import_time) || (r == Timestamp::spec_epoch()
                && forall|i: int|
                0 <= i < self@.providers.len() ==> (#[trigger] self@.providers[i]).name != name@),
    {
        proof {
            lemma_first_index(self.provider_names(), name@);
        }
        match self.find_provider_idx(name) {
            Some(i) => {
                proof {
                    assert(self@.providers[i as int].name == name@);
                }
                self.providers[i].last_import_time
            },
            None => {
                proof {
                    assert forall|k: int| 0 <= k < self@.providers.len() implies (
                    #[trigger] self@.providers[k]).name != name@ by {
                        assert(self.provider_names()[k] != name@);
                    }
                }
                Timestamp::epoch()
            },
        }
    }

    /// The newest visit time of provider `p_id`, the epoch when it has no
    /// visit at all.
    pub fn last_visit_time(&self, p_id: i16) -> (r: Timestamp)
        ensures
            r == match spec_max_visit(self@.visits, p_id as int) {
                Some(m) => m,
                None => Timestamp::spec_epoch(),
            },
    {
        let ghost vs = self@.visits;
        let mut best: Option<Timestamp> = None;
        let mut i: usize = 0;
        while i < self.visits.len()
            invariant
                i <= self.visits.len(),
                vs == self@.visits,
                vs.len() == self.visits.len(),
                best == spec_max_visit(vs.take(i as int), p_id as int),
            decreases self.visits.len() - i,
        {
            proof {
                assert(vs.take(i + 1).drop_last() =~= vs.take(i as int));
                assert(vs.take(i + 1).last() == vs[i as int]);
            }
            if self.visits[i].provider_id == p_id {
                let t = self.visits[i].last_visit_time;
                best = match best {
                    Some(m) => if m.lt(&t) {
                        Some(t)
                    } else {
                        Some(m)
                    },
                    None => Some(t),
                };
            }
            i += 1;
        }
        proof {
            assert(vs.take(vs.len() as int) =~= vs);
        }
        match best {
            Some(m) => m,
            None => Timestamp::epoch(),
        }
    }

    /// Set provider `id`'s watermark: to the given time, or, where none
    /// is given, derive it as the provider's newest stored visit time —
    /// the fallback for a direct call that has no batch at hand. The
    /// joined insert derives an absent watermark from its own batch
    /// instead. An id no provider has is an error.
    pub fn update_last_import_time(&mut self, id: i16, last_import_time: Option<Timestamp>) -> (r:
        Result<i16, Error>)
        requires
            old(self).wf(),
        ensures
            final(self).wf(),
            final(self)@.urls == old(self)@.urls,
            final(self)@.visits == old(self)@.visits,
            if 1 <= id <= old(self)@.providers.len() {
                r == Ok::<i16, Error>(id) && final(self)@.providers == old(
                    self,
                )@.providers.update(
                    id - 1,
                    ProviderRowView {
                        last_import_time: match last_import_time {
                            Some(t) => t,
                            None => match spec_max_visit(old(self)@.visits, id as int) {
                                Some(m) => m,
                                None => Timestamp::spec_epoch(),
                            },
                        },
                        ..old(self)@.providers[id - 1]
                    },
                )
            } else {
                r matches Err(e) && e is NotFound && final(self)@ == old(self)@
            },
    {
        if id < 1 || (id as usize) > self.providers.len() {
            return Err(Error::NotFound("provider id".to_owned()));
        }
        let t = match last_import_time {
            Some(t) => t,
            None => self.last_visit_time(id),
        };
        let ghost pre = self@;
        let i = (id - 1) as usize;
        self.providers[i].last_import_time = t;
        proof {
            assert(final(self)@.providers =~= pre.providers.update(
                id - 1,
                ProviderRowView { last_import_time: t, ..pre.providers[id - 1] },
            ));
        }
        Ok(id)
    }
}

/// One url-with-title reaching the store: an existing row (found by the
/// url text) keeps its id, tag and privacy and has its title overwritten;
/// a new url gains a fresh row with the next dense id. Either way the
/// row's id is reported.
pub open spec fn spec_upsert_url_step(urls: Seq<UrlRowView>, u: Seq<char>, t: Seq<char>) -> (
    Seq<UrlRowView>,
    int,
) {
    match spec_first_index(urls.map_values(|r: UrlRowView| r.url), u) {
        Some(i) => (urls.update(i, UrlRowView { title: t, ..urls[i] }), i + 1),
        None => (
            urls.push(
                UrlRowView {
                    id: urls.len() as int + 1,
                    url: u,
                    title: t,
                    tag: UrlTag::Normal,
                    privacy: UrlPrivacy::Normal,
                },
            ),
            urls.len() as int + 1,
        ),
    }
}

/// The url rows after the first `k` entries of a batch, in order.
pub open spec fn spec_upsert_urls(
    urls: Seq<UrlRowView>,
    us: Seq<Seq<char>>,
    ts: Seq<Seq<char>>,
    k: int,
) -> Seq<UrlRowView>
    decreases k,
{
    if k <= 0 {
        urls
    } else {
        spec_upsert_url_step(spec_upsert_urls(urls, us, ts, k - 1), us[k - 1], ts[k - 1]).0
    }
}

/// The ids reported for the first `k` entries of a batch, in order.
pub open spec fn spec_upsert_url_ids(
    urls: Seq<UrlRowView>,
    us: Seq<Seq<char>>,
    ts: Seq<Seq<char>>,
    k: int,
) -> Seq<int>
    decreases k,
{
    if k <= 0 {
        Seq::empty()
    } else {
        spec_upsert_url_ids(urls, us, ts, k - 1).push(
            spec_upsert_url_step(spec_upsert_urls(urls, us, ts, k - 1), us[k - 1], ts[k - 1]).1,
        )
    }
}

/// The urls carrying tag `t`, in row order.
pub open spec fn spec_urls_with_tag(urls: Seq<UrlRowView>, t: UrlTag) -> Seq<Seq<char>>
    decreases urls.len(),
{
    if urls.len() == 0 {
        Seq::empty()
    } else {
        let rest = spec_urls_with_tag(urls.drop_last(), t);
        if urls.last().tag == t {
            rest.push(urls.last().url)
        } else {
            rest
        }
    }
}

/// The non-normal tags holding at least one url, each with its urls.
pub open spec fn spec_all_tags(urls: Seq<UrlRowView>) -> Seq<(UrlTag, Seq<Seq<char>>)> {
    spec_tag_group(urls, UrlTag::Saved) + spec_tag_group(urls, UrlTag::Favorite) + spec_tag_group(
        urls,
        UrlTag::ReadLater,
    )
}

pub open spec fn spec_tag_group(urls: Seq<UrlRowView>, t: UrlTag) -> Seq<(UrlTag, Seq<Seq<char>>)> {
    if spec_urls_with_tag(urls, t).len() > 0 {
        seq![(t, spec_urls_with_tag(urls, t))]
    } else {
        Seq::empty()
    }
}

/// How many rows name one of `names` as their url.
pub open spec fn spec_count_tagged(urls: Seq<UrlRowView>, names: Seq<Seq<char>>) -> int
    decreases urls.len(),
{
    if urls.len() == 0 {
        0
    } else {
        spec_count_tagged(urls.drop_last(), names) + (if names.contains(urls.last().url) {
            1int
        } else {
            0int
        })
    }
}

/// The url rows after setting tag `t` on every row whose url is one of
/// `names`.
pub open spec fn spec_set_tag(urls: Seq<UrlRowView>, names: Seq<Seq<char>>, t: UrlTag) -> Seq<
    UrlRowView,
> {
    Seq::new(
        urls.len(),
        |i: int|
            if names.contains(urls[i].url) {
                UrlRowView { tag: t, ..urls[i] }
            } else {
                urls[i]
            },
    )
}

impl Store {
    spec fn url_texts(&self) -> Seq<Seq<char>> {
        self@.urls.map_values(|r: UrlRowView| r.url)
    }

    fn find_url_idx(&self, url: &str) -> (r: Option<usize>)
        ensures
            match r {
                Some(i) => spec_first_index(self.url_texts(), url@) == Some(i as int),
                None => spec_first_index(self.url_texts(), url@) is None,
            },
    {
        proof {
            lemma_first_index(self.url_texts(), url@);
        }
        let mut i: usize = 0;
        while i < self.urls.len()
            invariant
                i <= self.urls.len(),
                forall|j: int| 0 <= j < i ==> self.url_texts()[j] != url@,
            decreases self.urls.len() - i,
        {
            if str_eq(self.urls[i].url.as_str(), url) {
                proof {
                    lemma_first_index(self.url_texts(), url@);
                    assert(self.url_texts()[i as int] == url@);
                }
                return Some(i);
            }
            i += 1;
        }
        None
    }

    /// The stored row of a url, if it is known.
    pub fn find_url(&self, url: &str) -> (r: Option<UrlRow>)
        requires
            self.wf(),
        ensures
            match r {
                Some(row) => exists|i: int|
                    0 <= i < self@.urls.len() && (#[trigger] self@.urls[i]) == row@,
                None => forall|i: int|
                    0 <= i < self@.urls.len() ==> (#[trigger] self@.urls[i]).url != url@,
            },
            r matches Some(row) ==> row.url@ == url@,
    {
        proof {
            lemma_first_index(self.url_texts(), url@);
        }
        match self.find_url_idx(url) {
            Some(i) => {
                proof {
                    assert(self@.urls[i as int].url == url@);
                    assert(self@.urls[i as int] == self.urls@[i as int]@);
                }
                Some(self.urls[i].clone_row())
            },
            None => {
                proof {
                    assert forall|k: int| 0 <= k < self@.urls.len() implies (
                    #[trigger] self@.urls[k]).url != url@ by {
                        assert(self.url_texts()[k] != url@);
                    }
                }
                None
            },
        }
    }

    /// Insert a batch of urls with their titles, in order: dedup is by the
    /// url text and the title is always overwritten. Returns each entry's
    /// row id, in batch order.
    pub fn upsert_urls(&mut self, urls: &Vec<String>, titles: &Vec<String>) -> (r: Vec<i32>)
        requires
            old(self).wf(),
            urls@.len() == titles@.len(),
            old(self)@.urls.len() + urls@.len() < 0x7fff_ffff,
        ensures
            final(self).wf(),
            final(self)@.providers == old(self)@.providers,
            final(self)@.visits == old(self)@.visits,
            final(self)@.urls == spec_upsert_urls(
                old(self)@.urls,
                urls@.map_values(|s: String| s@),
                titles@.map_values(|s: String| s@),
                urls@.len() as int,
            ),
            r@.map_values(|x: i32| x as int) == spec_upsert_url_ids(
                old(self)@.urls,
                urls@.map_values(|s: String| s@),
                titles@.map_values(|s: String| s@),
                urls@.len() as int,
            ),
    {
        let ghost u0 = self@.urls;
        let ghost us = urls@.map_values(|s: String| s@);
        let ghost ts = titles@.map_values(|s: String| s@);
        let mut ids: Vec<i32> = Vec::new();
        let mut k: usize = 0;
        while k < urls.len()
            invariant
                k <= urls.len(),
                urls@.len() == titles@.len(),
                us == urls@.map_values(|s: String| s@),
                ts == titles@.map_values(|s: String| s@),
                us.len() == urls@.len(),
                ts.len() == titles@.len(),
                self.wf(),
                self@.providers == old(self)@.providers,
                self@.visits == old(self)@.visits,
                u0 == old(self)@.urls,
                u0.len() + urls@.len() < 0x7fff_ffff,
                self@.urls.len() <= u0.len() + k,
                self@.urls == spec_upsert_urls(u0, us, ts, k as int),
                ids@.map_values(|x: i32| x as int) == spec_upsert_url_ids(u0, us, ts, k as int),
            decreases urls.len() - k,
        {
            let ghost pre = self@.urls;
            let ghost pre_ids = ids@;
            match self.find_url_idx(urls[k].as_str()) {
                Some(i) => {
                    proof {
                        lemma_first_index(self.url_texts(), us[k as int]);
                        assert(self@.urls[i as int].url == us[k as int]);
                    }
                    let id = self.urls[i].id;
                    self.urls[i].title = titles[k].clone();
                    ids.push(id);
                    proof {
                        assert(self@.urls =~= pre.update(
                            i as int,
                            UrlRowView { title: ts[k as int], ..pre[i as int] },
                        ));
                        assert(self@.urls =~= spec_upsert_url_step(pre, us[k as int], ts[k as int]).0);
                        assert(id as int == i + 1);
                        assert(ids@.map_values(|x: i32| x as int) =~= pre_ids.map_values(
                            |x: i32| x as int,
                        ).push(i + 1));
                        assert(store_wf(self@));
                    }
                },
                None => {
                    proof {
                        lemma_first_index(self.url_texts(), us[k as int]);
                    }
                    let id = (self.urls.len() + 1) as i32;
                    self.urls.push(
                        UrlRow {
                            id,
                            url: urls[k].clone(),
                            title: titles[k].clone(),
                            tag: UrlTag::Normal,
                            privacy: UrlPrivacy::Normal,
                        },
                    );
                    ids.push(id);
                    proof {
                        assert(self@.urls =~= pre.push(
                            UrlRowView {
                                id: pre.len() as int + 1,
                                url: us[k as int],
                                title: ts[k as int],
                                tag: UrlTag::Normal,
                                privacy: UrlPrivacy::Normal,
                            },
                        ));
                        assert(self@.urls =~= spec_upsert_url_step(pre, us[k as int], ts[k as int]).0);
                        assert(ids@.map_values(|x: i32| x as int) =~= pre_ids.map_values(
                            |x: i32| x as int,
                        ).push(pre.len() as int + 1));
                        assert forall|a: int, b: int|
                            0 <= a < b < self@.urls.len() implies self@.urls[a].url
                            != self@.urls[b].url by {
                            if b == self@.urls.len() - 1 {
                                assert(self.url_texts() =~= pre.map_values(
                                    |r: UrlRowView| r.url,
                                ).push(us[k as int]));
                                assert(pre.map_values(|r: UrlRowView| r.url)[a] == pre[a].url);
                            }
                        }
                        assert(store_wf(self@));
                    }
                },
            }
            k += 1;
        }
        ids
    }

    /// Set `tag` on every stored url whose text is one of `urls`, and
    /// report how many rows that reached.
    pub fn set_tag(&mut self, urls: &Vec<String>, tag: UrlTag) -> (r: u64)
        requires
            old(self).wf(),
        ensures
            final(self).wf(),
            final(self)@.providers == old(self)@.providers,
            final(self)@.visits == old(self)@.visits,
            final(self)@.urls == spec_set_tag(
                old(self)@.urls,
                urls@.map_values(|s: String| s@),
                tag,
            ),
            r as int == spec_count_tagged(old(self)@.urls, urls@.map_values(|s: String| s@)),
    {
        let ghost u0 = self@.urls;
        let ghost names = urls@.map_values(|s: String| s@);
        let mut count: u64 = 0;
        let mut i: usize = 0;
        while i < self.urls.len()
            invariant
                i <= self.urls.len(),
                names == urls@.map_values(|s: String| s@),
                self@.providers == old(self)@.providers,
                self@.visits == old(self)@.visits,
                u0 == old(self)@.urls,
                self@.urls.len() == u0.len(),
                self.urls@.len() == u0.len(),
                count <= i,
                count as int == spec_count_tagged(u0.take(i as int), names),
                forall|j: int| i <= j < u0.len() ==> self@.urls[j] == u0[j],
                forall|j: int|
                    0 <= j < i ==> self@.urls[j] == spec_set_tag(u0, names, tag)[j],
            decreases self.urls.len() - i,
        {
            proof {
                assert(u0.take(i + 1).drop_last() =~= u0.take(i as int));
                assert(u0.take(i + 1).last() == u0[i as int]);
            }
            if crate::strutil::vec_contains_str(urls, self.urls[i].url.as_str()) {
                self.urls[i].tag = tag;
                count += 1;
                proof {
                    assert(self@.urls[i as int] == (UrlRowView { tag, ..u0[i as int] }));
                }
            }
            i += 1;
        }
        proof {
            assert(u0.take(u0.len() as int) =~= u0);
            assert(self@.urls =~= spec_set_tag(u0, names, tag));
            assert forall|a: int, b: int|
                0 <= a < b < self@.urls.len() implies self@.urls[a].url != self@.urls[b].url by {
                assert(self@.urls[a].url == u0[a].url);
                assert(self@.urls[b].url == u0[b].url);
            }
            assert forall|a: int|
                0 <= a < self@.urls.len() implies (#[trigger] self@.urls[a]).id == a + 1 by {
                assert(self@.urls[a].id == u0[a].id);
            }
            assert(store_wf(self@));
        }
        count
    }

    fn urls_with_tag(&self, t: UrlTag) -> (r: Vec<String>)
        ensures
            r@.map_values(|s: String| s@) == spec_urls_with_tag(self@.urls, t),
    {
        let ghost u = self@.urls;
        let mut out: Vec<String> = Vec::new();
        let mut i: usize = 0;
        while i < self.urls.len()
            invariant
                i <= self.urls.len(),
                u == self@.urls,
                u.len() == self.urls@.len(),
                out@.map_values(|s: String| s@) == spec_urls_with_tag(u.take(i as int), t),
            decreases self.urls.len() - i,
        {
            proof {
                assert(u.take(i + 1).drop_last() =~= u.take(i as int));
                assert(u.take(i + 1).last() == u[i as int]);
            }
            let ghost pre = out@;
            if self.urls[i].tag == t {
                out.push(self.urls[i].url.clone());
                proof {
                    assert(out@.map_values(|s: String| s@) =~= pre.map_values(
                        |s: String| s@,
                    ).push(u[i as int].url));
                }
            }
            i += 1;
        }
        proof {
            assert(u.take(u.len() as int) =~= u);
        }
        out
    }

    /// Every non-normal tag holding at least one url, with those urls in
    /// row order.
    pub fn get_all_tags(&self) -> (r: Tags)
        requires
            self.wf(),
        ensures
            r@.map_values(|p: (UrlTag, Vec<String>)| (p.0, p.1@.map_values(|s: String| s@)))
                == spec_all_tags(self@.urls),
    {
        let mut out: Tags = Vec::new();
        let saved = self.urls_with_tag(UrlTag::Saved);
        if saved.len() > 0 {
            out.push((UrlTag::Saved, saved));
        }
        let favorite = self.urls_with_tag(UrlTag::Favorite);
        if favorite.len() > 0 {
            out.push((UrlTag::Favorite, favorite));
        }
        let readlater = self.urls_with_tag(UrlTag::ReadLater);
        if readlater.len() > 0 {
            out.push((UrlTag::ReadLater, readlater));
        }
        proof {
            assert(out@.map_values(
                |p: (UrlTag, Vec<String>)| (p.0, p.1@.map_values(|s: String| s@)),
            ) =~= spec_all_tags(self@.urls));
        }
        out
    }
}

/// The first visit row keyed (provider, browser, url), if one exists.
pub open spec fn spec_find_visit(visits: Seq<VisitRow>, pid: int, b: Browser, uid: int) -> Option<
    int,
>
    decreases visits.len(),
{
    if visits.len() == 0 {
        None
    } else {
        match spec_find_visit(visits.drop_last(), pid, b, uid) {
            Some(i) => Some(i),
            None => if visits.last().provider_id == pid && visits.last().browser == b
                && visits.last().url_id == uid {
                Some(visits.len() - 1)
            } else {
                None
            },
        }
    }
}

/// What the first visit position means.
pub proof fn lemma_find_visit(visits: Seq<VisitRow>, pid: int, b: Browser, uid: int)
    ensures
        match spec_find_visit(visits, pid, b, uid) {
            Some(i) => 0 <= i < visits.len() && visits[i].provider_id == pid && visits[i].browser
                == b && visits[i].url_id == uid && forall|j: int|
                0 <= j < i ==> !((#[trigger] visits[j]).provider_id == pid && visits[j].browser
                    == b && visits[j].url_id == uid),
            None => forall|j: int|
                0 <= j < visits.len() ==> !((#[trigger] visits[j]).provider_id == pid
                    && visits[j].browser == b && visits[j].url_id == uid),
        },
    decreases visits.len(),
{
    if visits.len() > 0 {
        lemma_find_visit(visits.drop_last(), pid, b, uid);
        match spec_find_visit(visits.drop_last(), pid, b, uid) {
            Some(i) => {
                assert(visits.drop_last()[i] == visits[i]);
                assert forall|j: int|
                    0 <= j < i implies !((#[trigger] visits[j]).provider_id == pid
                    && visits[j].browser == b && visits[j].url_id == uid) by {
                    assert(visits.drop_last()[j] == visits[j]);
                }
            },
            None => {
                assert forall|j: int|
                    0 <= j < visits.len() - 1 implies !((#[trigger] visits[j]).provider_id == pid
                    && visits[j].browser == b && visits[j].url_id == uid) by {
                    assert(visits.drop_last()[j] == visits[j]);
                }
            },
        }
    }
}

/// One visit reaching the store: an existing (provider, browser, url) row
/// keeps the larger count and the later time; a new key gains a row.
pub open spec fn spec_upsert_visit_step(
    visits: Seq<VisitRow>,
    pid: int,
    b: Browser,
    uid: int,
    c: int,
    t: Timestamp,
) -> Seq<VisitRow> {
    match spec_find_visit(visits, pid, b, uid) {
        Some(i) => visits.update(
            i,
            VisitRow {
                visit_count: if c > visits[i].visit_count {
                    c as i32
                } else {
                    visits[i].visit_count
                },
                last_visit_time: if visits[i].last_visit_time.spec_lt(t) {
                    t
                } else {
                    visits[i].last_visit_time
                },
                ..visits[i]
            },
        ),
        None => visits.push(
            VisitRow {
                provider_id: pid as i16,
                browser: b,
                url_id: uid as i32,
                visit_count: c as i32,
                last_visit_time: t,
            },
        ),
    }
}

/// The visit rows after the first `k` entries of a batch, in order.
pub open spec fn spec_upsert_visits(
    visits: Seq<VisitRow>,
    pid: int,
    b: Browser,
    uids: Seq<int>,
    cs: Seq<int>,
    tms: Seq<Timestamp>,
    k: int,
) -> Seq<VisitRow>
    decreases k,
{
    if k <= 0 {
        visits
    } else {
        spec_upsert_visit_step(
            spec_upsert_visits(visits, pid, b, uids, cs, tms, k - 1),
            pid,
            b,
            uids[k - 1],
            cs[k - 1],
            tms[k - 1],
        )
    }
}

impl Store {
    /// Record a batch of visits for provider `p_id` under one browser: one
    /// row per (provider, browser, url), the count and the visit time both
    /// aggregated by maximum. Returns how many entries were processed.
    pub fn upsert_visits(
        &mut self,
        p_id: i16,
        browser: Browser,
        url_ids: &Vec<i32>,
        visit_counts: &Vec<i32>,
        last_visit_times: &Vec<Timestamp>,
    ) -> (r: i32)
        requires
            old(self).wf(),
            url_ids@.len() == visit_counts@.len(),
            url_ids@.len() == last_visit_times@.len(),
            url_ids@.len() < 0x7fff_ffff,
            1 <= p_id <= old(self)@.providers.len(),
            forall|k: int|
                0 <= k < url_ids@.len() ==> 1 <= (#[trigger] url_ids@[k]) <= old(self)@.urls.len(),
        ensures
            final(self).wf(),
            final(self)@.providers == old(self)@.providers,
            final(self)@.urls == old(self)@.urls,
            final(self)@.visits == spec_upsert_visits(
                old(self)@.visits,
                p_id as int,
                browser,
                url_ids@.map_values(|x: i32| x as int),
                visit_counts@.map_values(|x: i32| x as int),
                last_visit_times@,
                url_ids@.len() as int,
            ),
            r == url_ids@.len(),
    {
        let ghost v0 = self@.visits;
        let ghost uids = url_ids@.map_values(|x: i32| x as int);
        let ghost cs = visit_counts@.map_values(|x: i32| x as int);
        let ghost tms = last_visit_times@;
        let mut k: usize = 0;
        while k < url_ids.len()
            invariant
                k <= url_ids@.len(),
                url_ids@.len() == visit_counts@.len(),
                url_ids@.len() == last_visit_times@.len(),
                url_ids@.len() < 0x7fff_ffff,
                uids == url_ids@.map_values(|x: i32| x as int),
                cs == visit_counts@.map_values(|x: i32| x as int),
                tms == last_visit_times@,
                uids.len() == url_ids@.len(),
                cs.len() == url_ids@.len(),
                1 <= p_id <= self@.providers.len(),
                forall|j: int|
                    0 <= j < url_ids@.len() ==> 1 <= (#[trigger] url_ids@[j]) <= self@.urls.len(),
                self.wf(),
                self@.providers == old(self)@.providers,
                self@.urls == old(self)@.urls,
                v0 == old(self)@.visits,
                self@.visits == spec_upsert_visits(v0, p_id as int, browser, uids, cs, tms, k as int),
            decreases url_ids@.len() - k,
        {
            let ghost pre = self@.visits;
            let uid = url_ids[k];
            let c = visit_counts[k];
            let t = last_visit_times[k];
            proof {
                lemma_find_visit(pre, p_id as int, browser, uid as int);
            }
            match self.find_visit_idx(p_id, browser, uid) {
                Some(i) => {
                    let row = self.visits[i];
                    let new_count = if c > row.visit_count {
                        c
                    } else {
                        row.visit_count
                    };
                    let new_time = if row.last_visit_time.lt(&t) {
                        t
                    } else {
                        row.last_visit_time
                    };
                    self.visits[i].visit_count = new_count;
                    self.visits[i].last_visit_time = new_time;
                    proof {
                        assert(self@.visits =~= spec_upsert_visit_step(
                            pre,
                            p_id as int,
                            browser,
                            uid as int,
                            c as int,
                            t,
                        ));
                        assert(store_wf(self@));
                    }
                },
                None => {
                    self.visits.push(
                        VisitRow {
                            provider_id: p_id,
                            browser,
                            url_id: uid,
                            visit_count: c,
                            last_visit_time: t,
                        },
                    );
                    proof {
                        assert(self@.visits =~= spec_upsert_visit_step(
                            pre,
                            p_id as int,
                            browser,
                            uid as int,
                            c as int,
                            t,
                        ));
                        assert forall|a: int, b2: int|
                            0 <= a < b2 < self@.visits.len() implies !(self@.visits[a].provider_id
                            == self@.visits[b2].provider_id && self@.visits[a].browser
                            == self@.visits[b2].browser && self@.visits[a].url_id
                            == self@.visits[b2].url_id) by {
                            if b2 == self@.visits.len() - 1 {
                                assert(self@.visits[a] == pre[a]);
                            }
                        }
                        assert(store_wf(self@));
                    }
                },
            }
            k += 1;
        }
        url_ids.len() as i32
    }

    fn find_visit_idx(&self, p_id: i16, browser: Browser, url_id: i32) -> (r: Option<usize>)
        ensures
            match r {
                Some(i) => spec_find_visit(self@.visits, p_id as int, browser, url_id as int)
                    == Some(i as int),
                None => spec_find_visit(self@.visits, p_id as int, browser, url_id as int) is None,
            },
    {
        proof {
            lemma_find_visit(self@.visits, p_id as int, browser, url_id as int);
        }
        let mut i: usize = 0;
        while i < self.visits.len()
            invariant
                i <= self.visits.len(),
                self@.visits == self.visits@,
                forall|j: int|
                    0 <= j < i ==> !((#[trigger] self@.visits[j]).provider_id == p_id
                        && self@.visits[j].browser == browser && self@.visits[j].url_id == url_id),
            decreases self.visits.len() - i,
        {
            let row = self.visits[i];
            if row.provider_id == p_id && row.browser == browser && row.url_id == url_id {
                proof {
                    lemma_find_visit(self@.visits, p_id as int, browser, url_id as int);
                }
                return Some(i);
            }
            i += 1;
        }
        None
    }

    /// The distinct browsers provider `name` has visits under, in order of
    /// first appearance; a name no provider has is an error.
    pub fn all_browsers(&self, name: &str) -> (r: Result<Vec<Browser>, Error>)
        requires
            self.wf(),
        ensures
            match r {
                Ok(bs) => (exists|i: int|
                    0 <= i < self@.providers.len() && (#[trigger] self@.providers[i]).name == name@
                        && bs@ == spec_provider_browsers(self@.visits, self@.providers[i].id)),
                Err(e) => e is NotFound && forall|i: int|
                    0 <= i < self@.providers.len() ==> (#[trigger] self@.providers[i]).name
                        != name@,
            },
    {
        let p_id = match self.find(name) {
            Ok(id) => id,
            Err(e) => {
                return Err(e);
            },
        };
        let ghost vs = self@.visits;
        let mut out: Vec<Browser> = Vec::new();
        let mut i: usize = 0;
        while i < self.visits.len()
            invariant
                i <= self.visits.len(),
                vs == self@.visits,
                vs.len() == self.visits@.len(),
                out@ == spec_provider_browsers(vs.take(i as int), p_id as int),
            decreases self.visits.len() - i,
        {
            proof {
                assert(vs.take(i + 1).drop_last() =~= vs.take(i as int));
                assert(vs.take(i + 1).last() == vs[i as int]);
            }
            if self.visits[i].provider_id == p_id {
                let b = self.visits[i].browser;
                if !vec_contains_browser(&out, b) {
                    out.push(b);
                }
            }
            i += 1;
        }
        proof {
            assert(vs.take(vs.len() as int) =~= vs);
        }
        Ok(out)
    }
}

/// The distinct browsers provider `pid` has visits under, in order of
/// first appearance.
pub open spec fn spec_provider_browsers(visits: Seq<VisitRow>, pid: int) -> Seq<Browser>
    decreases visits.len(),
{
    if visits.len() == 0 {
        Seq::empty()
    } else {
        let rest = spec_provider_browsers(visits.drop_last(), pid);
        if visits.last().provider_id == pid && !rest.contains(visits.last().browser) {
            rest.push(visits.last().browser)
        } else {
            rest
        }
    }
}

fn vec_contains_browser(bs: &Vec<Browser>, b: Browser) -> (r: bool)
    ensures
        r == bs@.contains(b),
{
    let mut i: usize = 0;
    while i < bs.len()
        invariant
            i <= bs.len(),
            forall|j: int| 0 <= j < i ==> bs@[j] != b,
        decreases bs.len() - i,
    {
        if bs[i] == b {
            return true;
        }
        i += 1;
    }
    proof {
        if bs@.contains(b) {
            let j = choose|j: int| 0 <= j < bs@.len() && bs@[j] == b;
            assert(bs@[j] != b);
        }
    }
    false
}

/// How a provider name resolves: an existing row is reused, a new name
/// gains a row with the next dense id and the epoch as its watermark.
pub open spec fn spec_find_or_insert(s: StoreView, name: Seq<char>) -> (StoreView, int) {
    match spec_first_index(s.providers.map_values(|p: ProviderRowView| p.name), name) {
        Some(i) => (s, s.providers[i].id),
        None => (
            StoreView {
                providers: s.providers.push(
                    ProviderRowView {
                        id: s.providers.len() as int + 1,
                        name,
                        last_import_time: Timestamp::spec_epoch(),
                    },
                ),
                ..s
            },
            s.providers.len() as int + 1,
        ),
    }
}

/// The whole joined insert: urls deduplicated with titles overwritten,
/// visits aggregated by maximum, and the provider's watermark set to the
/// explicit value or else derived as its newest visit time.
/// The newest visit time of a batch, if the batch holds any record.
pub open spec fn spec_batch_max(times: Seq<Timestamp>) -> Option<Timestamp>
    decreases times.len(),
{
    if times.len() == 0 {
        None
    } else {
        match spec_batch_max(times.drop_last()) {
            Some(m) => if m.spec_lt(times.last()) {
                Some(times.last())
            } else {
                Some(m)
            },
            None => Some(times.last()),
        }
    }
}

fn batch_max(times: &Vec<Timestamp>) -> (r: Option<Timestamp>)
    ensures
        r == spec_batch_max(times@),
{
    let ghost tms = times@;
    let mut best: Option<Timestamp> = None;
    let mut i: usize = 0;
    while i < times.len()
        invariant
            i <= times.len(),
            tms == times@,
            tms.len() == times@.len(),
            best == spec_batch_max(tms.take(i as int)),
        decreases times.len() - i,
    {
        proof {
            assert(tms.take(i + 1).drop_last() =~= tms.take(i as int));
            assert(tms.take(i + 1).last() == tms[i as int]);
        }
        let t = times[i];
        best = match best {
            Some(m) => if m.lt(&t) {
                Some(t)
            } else {
                Some(m)
            },
            None => Some(t),
        };
        i += 1;
    }
    proof {
        assert(tms.take(tms.len() as int) =~= tms);
    }
    best
}

pub open spec fn spec_insert_urls(
    s: StoreView,
    pid: int,
    b: Browser,
    urls: Seq<crate::browser::miner::UrlView>,
    last_import_time: Option<Timestamp>,
) -> StoreView {
    let us = urls.map_values(|u: crate::browser::miner::UrlView| u.url);
    let ts = urls.map_values(|u: crate::browser::miner::UrlView| u.title);
    let cs = urls.map_values(|u: crate::browser::miner::UrlView| u.visit_count);
    let tms = urls.map_values(|u: crate::browser::miner::UrlView| u.last_visit_time);
    let urls2 = spec_upsert_urls(s.urls, us, ts, urls.len() as int);
    let ids = spec_upsert_url_ids(s.urls, us, ts, urls.len() as int);
    let visits2 = spec_upsert_visits(s.visits, pid, b, ids, cs, tms, urls.len() as int);
    let watermark = match last_import_time {
        Some(t) => Some(t),
        None => spec_batch_max(tms),
    };
    match watermark {
        Some(w) => StoreView {
            providers: s.providers.update(
                pid - 1,
                ProviderRowView { last_import_time: w, ..s.providers[pid - 1] },
            ),
            urls: urls2,
            visits: visits2,
        },
        None => StoreView { providers: s.providers, urls: urls2, visits: visits2 },
    }
}

/// Each reported id names a row of the resulting table.
pub proof fn lemma_upsert_urls_props(
    urls: Seq<UrlRowView>,
    us: Seq<Seq<char>>,
    ts: Seq<Seq<char>>,
    k: int,
)
    requires
        0 <= k <= us.len(),
    ensures
        urls.len() <= spec_upsert_urls(urls, us, ts, k).len() <= urls.len() + k,
        spec_upsert_url_ids(urls, us, ts, k).len() == k,
        forall|j: int|
            0 <= j < k ==> 1 <= #[trigger] spec_upsert_url_ids(urls, us, ts, k)[j]
                <= spec_upsert_urls(urls, us, ts, k).len(),
    decreases k,
{
    if k > 0 {
        lemma_upsert_urls_props(urls, us, ts, k - 1);
        let prev = spec_upsert_urls(urls, us, ts, k - 1);
        lemma_first_index(prev.map_values(|r: UrlRowView| r.url), us[k - 1]);
    }
}

/// Split a batch of records into parallel columns: urls, titles, counts
/// and visit times, in batch order.
pub fn unpack_urls(urls: Vec<Url>) -> (r: (Vec<String>, Vec<String>, Vec<i32>, Vec<Timestamp>))
    ensures
        r.0@.map_values(|s: String| s@) == urls@.map_values(|u: Url| u@.url),
        r.1@.map_values(|s: String| s@) == urls@.map_values(|u: Url| u@.title),
        r.2@.map_values(|x: i32| x as int) == urls@.map_values(|u: Url| u@.visit_count),
        r.3@ == urls@.map_values(|u: Url| u@.last_visit_time),
        r.0@.len() == urls@.len(),
        r.1@.len() == urls@.len(),
        r.2@.len() == urls@.len(),
        r.3@.len() == urls@.len(),
{
    let mut us: Vec<String> = Vec::new();
    let mut ts: Vec<String> = Vec::new();
    let mut cs: Vec<i32> = Vec::new();
    let mut tms: Vec<Timestamp> = Vec::new();
    let mut i: usize = 0;
    while i < urls.len()
        invariant
            i <= urls.len(),
            us@.map_values(|s: String| s@) == urls@.map_values(|u: Url| u@.url).take(i as int),
            ts@.map_values(|s: String| s@) == urls@.map_values(|u: Url| u@.title).take(i as int),
            cs@.map_values(|x: i32| x as int) == urls@.map_values(|u: Url| u@.visit_count).take(
                i as int,
            ),
            tms@ == urls@.map_values(|u: Url| u@.last_visit_time).take(i as int),
            us@.len() == i,
            ts@.len() == i,
            cs@.len() == i,
            tms@.len() == i,
        decreases urls.len() - i,
    {
        let ghost pus = us@;
        let ghost pts = ts@;
        let ghost pcs = cs@;
        us.push(urls[i].url.clone());
        ts.push(urls[i].title.clone());
        cs.push(urls[i].visit_count);
        tms.push(urls[i].last_visit_time);
        proof {
            let uvs = urls@.map_values(|u: Url| u@.url);
            let tvs = urls@.map_values(|u: Url| u@.title);
            let cvs = urls@.map_values(|u: Url| u@.visit_count);
            let mvs = urls@.map_values(|u: Url| u@.last_visit_time);
            assert(us@.map_values(|s: String| s@) =~= pus.map_values(|s: String| s@).push(
                uvs[i as int],
            ));
            assert(uvs.take(i + 1) =~= uvs.take(i as int).push(uvs[i as int]));
            assert(ts@.map_values(|s: String| s@) =~= pts.map_values(|s: String| s@).push(
                tvs[i as int],
            ));
            assert(tvs.take(i + 1) =~= tvs.take(i as int).push(tvs[i as int]));
            assert(cs@.map_values(|x: i32| x as int) =~= pcs.map_values(|x: i32| x as int).push(
                cvs[i as int],
            ));
            assert(cvs.take(i + 1) =~= cvs.take(i as int).push(cvs[i as int]));
            assert(mvs.take(i + 1) =~= mvs.take(i as int).push(mvs[i as int]));
        }
        i += 1;
    }
    proof {
        assert(urls@.map_values(|u: Url| u@.url).take(urls@.len() as int) =~= urls@.map_values(
            |u: Url| u@.url,
        ));
        assert(urls@.map_values(|u: Url| u@.title).take(urls@.len() as int) =~= urls@.map_values(
            |u: Url| u@.title,
        ));
        assert(urls@.map_values(|u: Url| u@.visit_count).take(urls@.len() as int)
            =~= urls@.map_values(|u: Url| u@.visit_count));
        assert(urls@.map_values(|u: Url| u@.last_visit_time).take(urls@.len() as int)
            =~= urls@.map_values(|u: Url| u@.last_visit_time));
    }
    (us, ts, cs, tms)
}

impl Store {
    /// The joined insert for a known provider id: upsert the urls, record
    /// the visits, then set the provider's watermark — to the explicit
    /// value if one came with the batch, else derived as the newest visit
    /// time across the inserted batch; an empty batch with no explicit
    /// value leaves the watermark alone. Returns how many visit entries
    /// were processed.
    pub fn insert_urls_by_id(
        &mut self,
        p_id: i16,
        browser: Browser,
        urls: Vec<Url>,
        last_import_time: Option<Timestamp>,
    ) -> (r: Result<i32, Error>)
        requires
            old(self).wf(),
            1 <= p_id <= old(self)@.providers.len(),
            old(self)@.urls.len() + urls@.len() < 0x7fff_ffff,
        ensures
            final(self).wf(),
            final(self)@ == spec_insert_urls(
                old(self)@,
                p_id as int,
                browser,
                urls@.map_values(|u: Url| u@),
                last_import_time,
            ),
            r == Ok::<i32, Error>(urls@.len() as i32),
    {
        let ghost s0 = self@;
        let ghost uvs = urls@.map_values(|u: Url| u@);
        let ghost us = uvs.map_values(|u: crate::browser::miner::UrlView| u.url);
        let ghost ts = uvs.map_values(|u: crate::browser::miner::UrlView| u.title);
        let ghost cs = uvs.map_values(|u: crate::browser::miner::UrlView| u.visit_count);
        let ghost tms = uvs.map_values(|u: crate::browser::miner::UrlView| u.last_visit_time);
        let n = urls.len();
        let (u_texts, titles, counts, times) = unpack_urls(urls);
        proof {
            assert(u_texts@.map_values(|s: String| s@) =~= us);
            assert(titles@.map_values(|s: String| s@) =~= ts);
            assert(counts@.map_values(|x: i32| x as int) =~= cs);
            assert(times@ =~= tms);
        }
        let ids = self.upsert_urls(&u_texts, &titles);
        proof {
            lemma_upsert_urls_props(s0.urls, us, ts, n as int);
            assert forall|k: int| 0 <= k < ids@.len() implies 1 <= (#[trigger] ids@[k])
                <= self@.urls.len() by {
                assert(ids@.map_values(|x: i32| x as int)[k] == ids@[k] as int);
            }
        }
        let num = self.upsert_visits(p_id, browser, &ids, &counts, &times);
        proof {
            assert(ids@.map_values(|x: i32| x as int) == spec_upsert_url_ids(
                s0.urls,
                us,
                ts,
                n as int,
            ));
        }
        let watermark = match last_import_time {
            Some(t) => Some(t),
            None => batch_max(&times),
        };
        match watermark {
            Some(t) => {
                match self.update_last_import_time(p_id, Some(t)) {
                    Ok(_) => {},
                    Err(e) => {
                        return Err(e);
                    },
                }
            },
            None => {},
        }
        proof {
            assert(self@ =~= spec_insert_urls(s0, p_id as int, browser, uvs, last_import_time));
        }
        Ok(num)
    }

    /// The joined insert by provider name, creating the provider on its
    /// first batch.
    pub fn insert_urls(
        &mut self,
        name: &str,
        browser: Browser,
        urls: Vec<Url>,
        last_import_time: Option<Timestamp>,
    ) -> (r: Result<i32, Error>)
        requires
            old(self).wf(),
            old(self)@.providers.len() < 32767,
            old(self)@.urls.len() + urls@.len() < 0x7fff_ffff,
        ensures
            final(self).wf(),
            final(self)@ == spec_insert_urls(
                spec_find_or_insert(old(self)@, name@).0,
                spec_find_or_insert(old(self)@, name@).1,
                browser,
                urls@.map_values(|u: Url| u@),
                last_import_time,
            ),
            r == Ok::<i32, Error>(urls@.len() as i32),
    {
        proof {
            lemma_first_index(self.provider_names(), name@);
        }
        let p_id = self.find_or_insert(name);
        proof {
            assert(self@ =~= spec_find_or_insert(old(self)@, name@).0);
            assert(p_id as int == spec_find_or_insert(old(self)@, name@).1);
        }
        self.insert_urls_by_id(p_id, browser, urls, last_import_time)
    }
}

/// How a filter's provider scope resolves to a provider id: an explicit
/// id is taken as it stands, else the provider name is looked up.
pub open spec fn spec_resolve_pid(s: StoreView, f: crate::url::FilterView) -> Option<int> {
    match f.p_id {
        Some(p) => Some(p as int),
        None => match f.provider_name {
            Some(n) => match spec_first_index(
                s.providers.map_values(|p: ProviderRowView| p.name),
                n,
            ) {
                Some(i) => Some(s.providers[i].id),
                None => None,
            },
            None => None,
        },
    }
}

/// The records of one provider under one browser strictly newer than
/// `since`, joined with their url rows, in visit-row order.
pub open spec fn spec_bulk_urls(
    visits: Seq<VisitRow>,
    urls: Seq<UrlRowView>,
    pid: int,
    b: Browser,
    since: Timestamp,
) -> Seq<crate::browser::miner::UrlView>
    decreases visits.len(),
{
    if visits.len() == 0 {
        Seq::empty()
    } else {
        let rest = spec_bulk_urls(visits.drop_last(), urls, pid, b, since);
        let v = visits.last();
        if v.provider_id == pid && v.browser == b && since.spec_lt(v.last_visit_time) {
            rest.push(
                crate::browser::miner::UrlView {
                    url: urls[v.url_id - 1].url,
                    title: urls[v.url_id - 1].title,
                    visit_count: v.visit_count as int,
                    last_visit_time: v.last_visit_time,
                },
            )
        } else {
            rest
        }
    }
}

impl Store {
    /// The incremental set a ready bulk filter selects: the scoped
    /// provider's visits under the scoped browser, strictly newer than the
    /// lower time bound. A filter that is not ready, or lacks a resolvable
    /// provider, a browser or a lower bound, is an error.
    pub fn get_urls(&self, filter: &Filter) -> (r: Result<Vec<Url>, Error>)
        requires
            self.wf(),
        ensures
            !filter.ready ==> r == Result::<Vec<Url>, Error>::Err(Error::NotReady),
            filter.ready && (spec_resolve_pid(self@, filter@) is None || filter.time_from is None
                || filter.browser is None) ==> (r matches Err(e) && e matches Error::Query(m)
                && m@ == "required values in the filter are missing"@),
            filter.ready && spec_resolve_pid(self@, filter@) is Some && filter.time_from is Some
                && filter.browser is Some ==> (r matches Ok(v) && v@.map_values(|u: Url| u@)
                == spec_bulk_urls(
                self@.visits,
                self@.urls,
                spec_resolve_pid(self@, filter@)->Some_0,
                filter.browser->Some_0,
                filter.time_from->Some_0,
            )),
    {
        if !filter.ready {
            return Err(Error::NotReady);
        }
        let pid_opt: Option<i16> = match filter.p_id {
            Some(p) => Some(p),
            None => match &filter.provider_name {
                Some(n) => {
                    proof {
                        lemma_first_index(self.provider_names(), n@);
                    }
                    match self.find_provider_idx(n.as_str()) {
                        Some(i) => Some(self.providers[i].id),
                        None => None,
                    }
                },
                None => None,
            },
        };
        let p_id = match pid_opt {
            Some(p) => p,
            None => {
                return Err(Error::Query("required values in the filter are missing".to_owned()));
            },
        };
        let since = match filter.time_from {
            Some(t) => t,
            None => {
                return Err(Error::Query("required values in the filter are missing".to_owned()));
            },
        };
        let browser = match filter.browser {
            Some(b) => b,
            None => {
                return Err(Error::Query("required values in the filter are missing".to_owned()));
            },
        };
        let ghost vs = self@.visits;
        let mut out: Vec<Url> = Vec::new();
        let mut i: usize = 0;
        while i < self.visits.len()
            invariant
                i <= self.visits.len(),
                self.wf(),
                vs == self@.visits,
                vs.len() == self.visits@.len(),
                out@.map_values(|u: Url| u@) == spec_bulk_urls(
                    vs.take(i as int),
                    self@.urls,
                    p_id as int,
                    browser,
                    since,
                ),
            decreases self.visits.len() - i,
        {
            proof {
                assert(vs.take(i + 1).drop_last() =~= vs.take(i as int));
                assert(vs.take(i + 1).last() == vs[i as int]);
            }
            let ghost pre = out@;
            let v = self.visits[i];
            if v.provider_id == p_id && v.browser == browser && since.lt(&v.last_visit_time) {
                let idx = (v.url_id - 1) as usize;
                out.push(
                    Url {
                        url: self.urls[idx].url.clone(),
                        title: self.urls[idx].title.clone(),
                        visit_count: v.visit_count,
                        last_visit_time: v.last_visit_time,
                    },
                );
                proof {
                    assert(out@.map_values(|u: Url| u@) =~= pre.map_values(|u: Url| u@).push(
                        crate::browser::miner::UrlView {
                            url: self@.urls[v.url_id - 1].url,
                            title: self@.urls[v.url_id - 1].title,
                            visit_count: v.visit_count as int,
                            last_visit_time: v.last_visit_time,
                        },
                    ));
                }
            }
            i += 1;
        }
        proof {
            assert(vs.take(vs.len() as int) =~= vs);
        }
        Ok(out)
    }
}

} // verus!
