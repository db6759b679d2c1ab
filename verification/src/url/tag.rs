//! The conflict-resolution register for manual tags.
//!
//! A [`History`] maps each url to the last [`Record`] observed for it. Edits
//! made on different devices are reconciled by last-write-wins on the
//! record's wall-clock timestamp, with ties resolved in favour of the
//! incoming record. Merging is idempotent: replaying a snapshot changes
//! nothing and reports no change.

use vstd::prelude::*;

verus! {

/// The manual tag a url can carry.
#[derive(Clone, Copy, Debug, PartialEq, Eq, Structural, Hash)]
pub enum UrlTag {
    Normal,
    Saved,
    Favorite,
    ReadLater,
}

impl Default for UrlTag {
    fn default() -> (r: Self)
        ensures
            r == UrlTag::Normal,
    {
        UrlTag::Normal
    }
}

impl UrlTag {
    /// Read a tag from its lower-case name; any other text is no tag.
    pub fn parse(s: &str) -> (r: Option<UrlTag>)
        ensures
            r == (if s@ == "normal"@ {
                Some(UrlTag::Normal)
            } else if s@ == "saved"@ {
                Some(UrlTag::Saved)
            } else if s@ == "favorite"@ {
                Some(UrlTag::Favorite)
            } else if s@ == "readlater"@ {
                Some(UrlTag::ReadLater)
            } else {
                None
            }),
    {
        if crate::strutil::str_eq(s, "normal") {
            Some(UrlTag::Normal)
        } else if crate::strutil::str_eq(s, "saved") {
            Some(UrlTag::Saved)
        } else if crate::strutil::str_eq(s, "favorite") {
            Some(UrlTag::Favorite)
        } else if crate::strutil::str_eq(s, "readlater") {
            Some(UrlTag::ReadLater)
        } else {
            None
        }
    }
}

/// The non-normal tags of a store, each with the urls that carry it.
pub type Tags = Vec<(UrlTag, Vec<String>)>;

/// A tag observation: the tag together with the wall-clock second count at
/// which it was made.
#[derive(Clone, Copy, Debug, PartialEq, Eq, Structural)]
pub struct Record {
    pub tag: UrlTag,
    pub unix: u64,
}

impl Record {
    pub fn new(tag: UrlTag, unix: u64) -> (r: Self)
        ensures
            r == (Record { tag, unix }),
    {
        Record { tag, unix }
    }
}

/// Relies on `std::time::SystemTime::now` for the current wall-clock second
/// count; a clock that reads before the Unix epoch is reported as 0.
#[verifier::external_body]
fn cur_unix() -> u64 {
    match std::time::SystemTime::now().duration_since(std::time::SystemTime::UNIX_EPOCH) {
        Ok(d) => d.as_secs(),
        Err(_) => 0,
    }
}

/// No two entries name the same url.
pub open spec fn wf_entry_seq(s: Seq<(Seq<char>, Record)>) -> bool {
    forall|i: int, j: int| 0 <= i < j < s.len() ==> s[i].0 != s[j].0
}

/// The mapping an entry sequence denotes; a later entry for the same url
/// overrides an earlier one.
pub open spec fn entries_map(s: Seq<(Seq<char>, Record)>) -> Map<Seq<char>, Record>
    decreases s.len(),
{
    if s.len() == 0 {
        Map::empty()
    } else {
        entries_map(s.drop_last()).insert(s.last().0, s.last().1)
    }
}

/// An incoming record takes effect when the url is new or when its
/// timestamp is at least the stored one: ties favour the incoming record.
pub open spec fn upsert_applies(m: Map<Seq<char>, Record>, url: Seq<char>, new_r: Record) -> bool {
    !m.contains_key(url) || new_r.unix >= m[url].unix
}

/// An upsert is reported as a change exactly when it stores a record that
/// differs from what was there before.
pub open spec fn upsert_updated(m: Map<Seq<char>, Record>, url: Seq<char>, new_r: Record) -> bool {
    upsert_applies(m, url, new_r) && !(m.contains_key(url) && m[url] == new_r)
}

/// The state after one upsert.
pub open spec fn upsert_map(
    m: Map<Seq<char>, Record>,
    url: Seq<char>,
    new_r: Record,
) -> Map<Seq<char>, Record> {
    if upsert_applies(m, url, new_r) {
        m.insert(url, new_r)
    } else {
        m
    }
}

/// The state after upserting the first `j` entries of `os`, in order.
pub open spec fn merge_fold(
    m: Map<Seq<char>, Record>,
    os: Seq<(Seq<char>, Record)>,
    j: int,
) -> Map<Seq<char>, Record>
    decreases j,
{
    if j <= 0 {
        m
    } else {
        upsert_map(merge_fold(m, os, j - 1), os[j - 1].0, os[j - 1].1)
    }
}

/// The (url, tag) pairs reported while upserting the first `j` entries of
/// `os` into `m`, in order.
pub open spec fn merge_changes(
    m: Map<Seq<char>, Record>,
    os: Seq<(Seq<char>, Record)>,
    j: int,
) -> Seq<(Seq<char>, UrlTag)>
    decreases j,
{
    if j <= 0 {
        Seq::empty()
    } else {
        let prev = merge_changes(m, os, j - 1);
        if upsert_updated(merge_fold(m, os, j - 1), os[j - 1].0, os[j - 1].1) {
            prev.push((os[j - 1].0, os[j - 1].1.tag))
        } else {
            prev
        }
    }
}

/// The register: url to the last observed tag record.
#[derive(Debug, Clone)]
pub struct History {
    entries: Vec<(String, Record)>,
}

impl View for History {
    type V = Map<Seq<char>, Record>;

    open spec fn view(&self) -> Map<Seq<char>, Record> {
        entries_map(self.entry_seq())
    }
}

impl Default for History {
    fn default() -> (r: Self)
        ensures
            r@ == Map::<Seq<char>, Record>::empty(),
            r.wf(),
    {
        History { entries: Vec::new() }
    }
}

impl History {
    /// The entries in their storage order, abstracted to their views.
    pub closed spec fn entry_seq(&self) -> Seq<(Seq<char>, Record)> {
        self.entries@.map_values(|p: (String, Record)| (p.0@, p.1))
    }

    pub open spec fn wf(&self) -> bool {
        wf_entry_seq(self.entry_seq())
    }

    fn find(&self, url: &String) -> (r: Option<usize>)
        ensures
            match r {
                Some(i) => 0 <= i < self.entry_seq().len() && self.entry_seq()[i as int].0 == url@,
                None => forall|j: int|
                    0 <= j < self.entry_seq().len() ==> self.entry_seq()[j].0 != url@,
            },
    {
        let mut i: usize = 0;
        while i < self.entries.len()
            invariant
                i <= self.entries.len(),
                forall|j: int| 0 <= j < i ==> self.entry_seq()[j].0 != url@,
            decreases self.entries.len() - i,
        {
            if self.entries[i].0 == *url {
                return Some(i);
            }
            i += 1;
        }
        None
    }

    /// The record stored for `url`, if any.
    pub fn get(&self, url: &String) -> (r: Option<Record>)
        requires
            self.wf(),
        ensures
            r == if self@.contains_key(url@) {
                Some(self@[url@])
            } else {
                None::<Record>
            },
    {
        proof {
            lemma_entries_map_keys(self.entry_seq());
        }
        match self.find(url) {
            Some(i) => {
                proof {
                    lemma_entries_map_index(self.entry_seq(), i as int);
                }
                Some(self.entries[i].1)
            },
            None => None,
        }
    }

    /// Store `new_r` unconditionally, replacing whatever was there.
    fn set_record(&mut self, url: String, new_r: Record)
        requires
            old(self).wf(),
        ensures
            final(self).wf(),
            final(self)@ == old(self)@.insert(url@, new_r),
    {
        proof {
            lemma_entries_map_keys(self.entry_seq());
        }
        match self.find(&url) {
            Some(i) => {
                let ghost s = self.entry_seq();
                self.entries[i] = (url, new_r);
                proof {
                    assert(self.entry_seq() =~= s.update(i as int, (s[i as int].0, new_r)));
                    lemma_entries_map_update(s, i as int, new_r);
                }
            },
            None => {
                let ghost s = self.entry_seq();
                let ghost u = url@;
                self.entries.push((url, new_r));
                proof {
                    assert(self.entry_seq() =~= s.push((u, new_r)));
                    assert(s.push((u, new_r)).drop_last() =~= s);
                }
            },
        }
    }

    /// Record a local edit: stamp it with the current wall clock and
    /// replace the stored entry unconditionally (a local single-writer
    /// mutation is always considered newest).
    pub fn insert(&mut self, url: String, tag: UrlTag)
        requires
            old(self).wf(),
        ensures
            final(self).wf(),
            exists|t: u64| final(self)@ == old(self)@.insert(url@, Record { tag, unix: t }),
            final(self)@.contains_key(url@) && final(self)@[url@].tag == tag,
    {
        let now = cur_unix();
        self.set_record(url, Record { tag, unix: now });
    }

    /// The state after storing `rec` for every url of `urls`, in order.
    pub open spec fn batch_map(
        m: Map<Seq<char>, Record>,
        urls: Seq<Seq<char>>,
        rec: Record,
    ) -> Map<Seq<char>, Record>
        decreases urls.len(),
    {
        if urls.len() == 0 {
            m
        } else {
            Self::batch_map(m, urls.drop_last(), rec).insert(urls.last(), rec)
        }
    }

    /// Record one local edit for several urls at once: all of them receive
    /// one shared timestamp, sampled once.
    pub fn batch_insert(&mut self, urls: Vec<String>, tag: UrlTag)
        requires
            old(self).wf(),
        ensures
            final(self).wf(),
            exists|t: u64|
                final(self)@ == Self::batch_map(
                    old(self)@,
                    urls@.map_values(|u: String| u@),
                    Record { tag, unix: t },
                ),
    {
        let ghost m0 = self@;
        let ghost us = urls@.map_values(|u: String| u@);
        let now = cur_unix();
        let r = Record { tag, unix: now };
        let mut i: usize = 0;
        while i < urls.len()
            invariant
                i <= urls.len(),
                us == urls@.map_values(|u: String| u@),
                self.wf(),
                self@ == Self::batch_map(m0, us.take(i as int), r),
            decreases urls.len() - i,
        {
            self.set_record(urls[i].clone(), r);
            proof {
                assert(us.take(i + 1).drop_last() =~= us.take(i as int));
                assert(us.take(i + 1).last() == us[i as int]);
            }
            i += 1;
        }
        proof {
            assert(us.take(us.len() as int) =~= us);
        }
    }

    /// Reconcile an incoming record with the stored one, last-write-wins
    /// with ties favouring the incoming record. Returns the stored tag
    /// exactly when the stored record changed.
    pub fn upsert(&mut self, url: String, new_r: Record) -> (r: Option<UrlTag>)
        requires
            old(self).wf(),
        ensures
            final(self).wf(),
            final(self)@ == upsert_map(old(self)@, url@, new_r),
            r == if upsert_updated(old(self)@, url@, new_r) {
                Some(new_r.tag)
            } else {
                None::<UrlTag>
            },
    {
        proof {
            lemma_entries_map_keys(self.entry_seq());
        }
        match self.find(&url) {
            Some(i) => {
                proof {
                    lemma_entries_map_index(self.entry_seq(), i as int);
                }
                let cur = self.entries[i].1;
                if new_r.unix >= cur.unix {
                    let changed = !(cur == new_r);
                    let ghost s = self.entry_seq();
                    self.entries[i] = (url, new_r);
                    proof {
                        assert(self.entry_seq() =~= s.update(i as int, (s[i as int].0, new_r)));
                        lemma_entries_map_update(s, i as int, new_r);
                    }
                    if changed {
                        Some(new_r.tag)
                    } else {
                        None
                    }
                } else {
                    None
                }
            },
            None => {
                let ghost s = self.entry_seq();
                let ghost u = url@;
                self.entries.push((url, new_r));
                proof {
                    assert(self.entry_seq() =~= s.push((u, new_r)));
                    assert(s.push((u, new_r)).drop_last() =~= s);
                }
                Some(new_r.tag)
            },
        }
    }

    /// An independent copy with the same entries.
    pub fn duplicate(&self) -> (r: History)
        ensures
            r.entry_seq() == self.entry_seq(),
            r@ == self@,
            self.wf() ==> r.wf(),
    {
        let mut entries: Vec<(String, Record)> = Vec::new();
        let mut i: usize = 0;
        while i < self.entries.len()
            invariant
                i <= self.entries.len(),
                entries@.map_values(|p: (String, Record)| (p.0@, p.1)) == self.entry_seq().take(
                    i as int,
                ),
            decreases self.entries.len() - i,
        {
            let ghost pre = entries@;
            entries.push((self.entries[i].0.clone(), self.entries[i].1));
            proof {
                assert(entries@.map_values(|p: (String, Record)| (p.0@, p.1)) =~= pre.map_values(
                    |p: (String, Record)| (p.0@, p.1),
                ).push(self.entry_seq()[i as int]));
                assert(self.entry_seq().take(i + 1) =~= self.entry_seq().take(i as int).push(
                    self.entry_seq()[i as int],
                ));
            }
            i += 1;
        }
        let r = History { entries };
        proof {
            assert(self.entry_seq().take(self.entry_seq().len() as int) =~= self.entry_seq());
        }
        r
    }

    /// Apply every entry of `other` to `self` by [`History::upsert`], in
    /// `other`'s storage order, and return exactly the (url, tag) pairs
    /// whose stored record changed — the minimal set to write through to
    /// durable storage.
    pub fn merge(&mut self, other: &History) -> (r: Vec<(String, UrlTag)>)
        requires
            old(self).wf(),
            other.wf(),
        ensures
            final(self).wf(),
            final(self)@ == merge_fold(
                old(self)@,
                other.entry_seq(),
                other.entry_seq().len() as int,
            ),
            r@.map_values(|p: (String, UrlTag)| (p.0@, p.1)) == merge_changes(
                old(self)@,
                other.entry_seq(),
                other.entry_seq().len() as int,
            ),
    {
        let ghost m0 = self@;
        let ghost os = other.entry_seq();
        let mut r: Vec<(String, UrlTag)> = Vec::new();
        let mut j: usize = 0;
        while j < other.entries.len()
            invariant
                j <= other.entries.len(),
                os == other.entry_seq(),
                os.len() == other.entries.len(),
                self.wf(),
                self@ == merge_fold(m0, os, j as int),
                r@.map_values(|p: (String, UrlTag)| (p.0@, p.1)) == merge_changes(
                    m0,
                    os,
                    j as int,
                ),
            decreases other.entries.len() - j,
        {
            let ghost r_pre = r@;
            let url = other.entries[j].0.clone();
            let rec = other.entries[j].1;
            proof {
                assert(os[j as int] == (other.entries@[j as int].0@, other.entries@[j as int].1));
            }
            match self.upsert(url, rec) {
                Some(t) => {
                    r.push((other.entries[j].0.clone(), t));
                    proof {
                        assert(r@.map_values(|p: (String, UrlTag)| (p.0@, p.1)) =~= r_pre
                            .map_values(|p: (String, UrlTag)| (p.0@, p.1)).push(
                            (os[j as int].0, os[j as int].1.tag),
                        ));
                    }
                },
                None => {},
            }
            j += 1;
        }
        r
    }
}

/// A url is in the denoted mapping exactly when some entry names it.
pub proof fn lemma_entries_map_keys(s: Seq<(Seq<char>, Record)>)
    ensures
        forall|k: Seq<char>|
            entries_map(s).contains_key(k) <==> exists|i: int| 0 <= i < s.len() && s[i].0 == k,
    decreases s.len(),
{
    if s.len() > 0 {
        lemma_entries_map_keys(s.drop_last());
        assert forall|k: Seq<char>| entries_map(s).contains_key(k) implies exists|i: int|
            0 <= i < s.len() && s[i].0 == k by {
            if k == s.last().0 {
                assert(s[s.len() - 1].0 == k);
            } else {
                assert(entries_map(s.drop_last()).contains_key(k));
                let i = choose|i: int| 0 <= i < s.drop_last().len() && s.drop_last()[i].0 == k;
                assert(s.drop_last()[i] == s[i]);
                assert(s[i].0 == k);
            }
        }
        assert forall|k: Seq<char>|
            exists|i: int| 0 <= i < s.len() && s[i].0 == k implies entries_map(s).contains_key(
            k,
        ) by {
            let i = choose|i: int| 0 <= i < s.len() && s[i].0 == k;
            if i < s.len() - 1 {
                assert(s.drop_last()[i].0 == k);
                assert(entries_map(s.drop_last()).contains_key(k));
            } else {
                assert(k == s.last().0);
            }
        }
    }
}

/// With no duplicate urls, the mapping sends each entry's url to that
/// entry's record.
pub proof fn lemma_entries_map_index(s: Seq<(Seq<char>, Record)>, i: int)
    requires
        wf_entry_seq(s),
        0 <= i < s.len(),
    ensures
        entries_map(s).contains_key(s[i].0),
        entries_map(s)[s[i].0] == s[i].1,
    decreases s.len(),
{
    if i == s.len() - 1 {
    } else {
        assert(wf_entry_seq(s.drop_last()));
        lemma_entries_map_index(s.drop_last(), i);
        assert(s[i].0 != s.last().0);
    }
}

/// Replacing the record of entry `i` updates the mapping at that entry's
/// url alone.
pub proof fn lemma_entries_map_update(s: Seq<(Seq<char>, Record)>, i: int, r: Record)
    requires
        wf_entry_seq(s),
        0 <= i < s.len(),
    ensures
        wf_entry_seq(s.update(i, (s[i].0, r))),
        entries_map(s.update(i, (s[i].0, r))) == entries_map(s).insert(s[i].0, r),
    decreases s.len(),
{
    let t = s.update(i, (s[i].0, r));
    assert forall|x: int, y: int| 0 <= x < y < t.len() implies t[x].0 != t[y].0 by {
        assert(t[x].0 == s[x].0 && t[y].0 == s[y].0);
    }
    if i == s.len() - 1 {
        assert(t.drop_last() =~= s.drop_last());
        assert(entries_map(t) =~= entries_map(s).insert(s[i].0, r));
    } else {
        assert(t.drop_last() =~= s.drop_last().update(i, (s[i].0, r)));
        assert(wf_entry_seq(s.drop_last()));
        assert(s.drop_last()[i] == s[i]);
        lemma_entries_map_update(s.drop_last(), i, r);
        assert(t.last() == s.last());
        assert(s[i].0 != s.last().0);
        assert(entries_map(t) =~= entries_map(s).insert(s[i].0, r));
    }
}

/// Entries whose urls never occur in the first `j` entries of `os` are
/// untouched by the fold.
pub proof fn lemma_merge_fold_frame(
    m: Map<Seq<char>, Record>,
    os: Seq<(Seq<char>, Record)>,
    j: int,
    k: Seq<char>,
)
    requires
        0 <= j <= os.len(),
        forall|i: int| 0 <= i < j ==> os[i].0 != k,
    ensures
        merge_fold(m, os, j).contains_key(k) == m.contains_key(k),
        m.contains_key(k) ==> merge_fold(m, os, j)[k] == m[k],
    decreases j,
{
    if j > 0 {
        lemma_merge_fold_frame(m, os, j - 1, k);
    }
}

/// With no duplicate urls, the fold's decision for entry `i` is made
/// against the original mapping, and its outcome survives to the end.
pub proof fn lemma_merge_fold_at(
    m: Map<Seq<char>, Record>,
    os: Seq<(Seq<char>, Record)>,
    i: int,
    j: int,
)
    requires
        wf_entry_seq(os),
        0 <= i < j <= os.len(),
    ensures
        merge_fold(m, os, j).contains_key(os[i].0) == (upsert_applies(m, os[i].0, os[i].1)
            || m.contains_key(os[i].0)),
        upsert_applies(m, os[i].0, os[i].1) ==> merge_fold(m, os, j)[os[i].0] == os[i].1,
        !upsert_applies(m, os[i].0, os[i].1) ==> m.contains_key(os[i].0) && merge_fold(
            m,
            os,
            j,
        )[os[i].0] == m[os[i].0],
    decreases j,
{
    let k = os[i].0;
    if j - 1 == i {
        lemma_merge_fold_frame(m, os, i, k);
    } else {
        assert(os[j - 1].0 != k);
        lemma_merge_fold_at(m, os, i, j - 1);
    }
}

/// The register two maps reconcile to: every url of either side, carrying
/// the incoming record where it applies and the held one otherwise.
pub open spec fn merged(
    a: Map<Seq<char>, Record>,
    b: Map<Seq<char>, Record>,
) -> Map<Seq<char>, Record> {
    Map::new(
        |k: Seq<char>| a.contains_key(k) || b.contains_key(k),
        |k: Seq<char>|
            if b.contains_key(k) && upsert_applies(a, k, b[k]) {
                b[k]
            } else {
                a[k]
            },
    )
}

/// Folding a snapshot's entries over a register reconciles the two maps.
pub proof fn lemma_merge_fold_is_merged(m: Map<Seq<char>, Record>, os: Seq<(Seq<char>, Record)>)
    requires
        wf_entry_seq(os),
    ensures
        merge_fold(m, os, os.len() as int) == merged(m, entries_map(os)),
{
    let b = entries_map(os);
    let f = merge_fold(m, os, os.len() as int);
    lemma_entries_map_keys(os);
    assert forall|k: Seq<char>| #[trigger] f.contains_key(k) == merged(m, b).contains_key(k) by {
        if exists|i: int| 0 <= i < os.len() && (#[trigger] os[i]).0 == k {
            let i = choose|i: int| 0 <= i < os.len() && (#[trigger] os[i]).0 == k;
            lemma_entries_map_index(os, i);
            lemma_merge_fold_at(m, os, i, os.len() as int);
            assert(b.contains_key(k));
            assert(f.contains_key(k) == (upsert_applies(m, k, os[i].1) || m.contains_key(k)));
        } else {
            lemma_merge_fold_frame(m, os, os.len() as int, k);
            assert(!b.contains_key(k));
        }
    }
    assert forall|k: Seq<char>| #[trigger] f.contains_key(k) implies f[k] == merged(m, b)[k] by {
        if exists|i: int| 0 <= i < os.len() && (#[trigger] os[i]).0 == k {
            let i = choose|i: int| 0 <= i < os.len() && (#[trigger] os[i]).0 == k;
            lemma_entries_map_index(os, i);
            lemma_merge_fold_at(m, os, i, os.len() as int);
            assert(b[k] == os[i].1);
        } else {
            lemma_merge_fold_frame(m, os, os.len() as int, k);
            assert(!b.contains_key(k));
        }
    }
    assert(f =~= merged(m, b));
}

/// Merging A's snapshot into B and B's into A converge to the same state,
/// provided no url is held by the two sides with the same stamp but
/// different records — on such an exact tie each side prefers the
/// incoming record, and the two registers part ways.
pub proof fn lemma_two_way_merge_converges(
    ha: Seq<(Seq<char>, Record)>,
    hb: Seq<(Seq<char>, Record)>,
)
    requires
        wf_entry_seq(ha),
        wf_entry_seq(hb),
        forall|k: Seq<char>|
            entries_map(ha).contains_key(k) && entries_map(hb).contains_key(k) && (
            #[trigger] entries_map(ha)[k]).unix == (#[trigger] entries_map(hb)[k]).unix
                ==> entries_map(ha)[k] == entries_map(hb)[k],
    ensures
        merge_fold(entries_map(ha), hb, hb.len() as int) == merge_fold(
            entries_map(hb),
            ha,
            ha.len() as int,
        ),
{
    let a = entries_map(ha);
    let b = entries_map(hb);
    lemma_merge_fold_is_merged(a, hb);
    lemma_merge_fold_is_merged(b, ha);
    assert forall|k: Seq<char>| #![auto]
        merged(a, b).contains_key(k) == merged(b, a).contains_key(k) && (merged(
        a,
        b,
    ).contains_key(k) ==> merged(a, b)[k] == merged(b, a)[k]) by {
        if a.contains_key(k) && b.contains_key(k) {
            if a[k].unix == b[k].unix {
                assert(a[k] == b[k]);
            }
        }
    }
    assert(merged(a, b) =~= merged(b, a));
}

/// Merging the same snapshot a second time yields the same state again and
/// reports no change at all.
pub proof fn lemma_merge_idempotent(m: Map<Seq<char>, Record>, os: Seq<(Seq<char>, Record)>)
    requires
        wf_entry_seq(os),
    ensures
        merge_fold(merge_fold(m, os, os.len() as int), os, os.len() as int) == merge_fold(
            m,
            os,
            os.len() as int,
        ),
        merge_changes(merge_fold(m, os, os.len() as int), os, os.len() as int) == Seq::<
            (Seq<char>, UrlTag),
        >::empty(),
{
    let m1 = merge_fold(m, os, os.len() as int);
    assert forall|j: int| 0 <= j <= os.len() implies merge_fold(m1, os, j) == m1 && merge_changes(
        m1,
        os,
        j,
    ) == Seq::<(Seq<char>, UrlTag)>::empty() by {
        lemma_merge_idempotent_prefix(m, os, j);
    }
}

proof fn lemma_merge_idempotent_prefix(
    m: Map<Seq<char>, Record>,
    os: Seq<(Seq<char>, Record)>,
    j: int,
)
    requires
        wf_entry_seq(os),
        0 <= j <= os.len(),
    ensures
        merge_fold(merge_fold(m, os, os.len() as int), os, j) == merge_fold(
            m,
            os,
            os.len() as int,
        ),
        merge_changes(merge_fold(m, os, os.len() as int), os, j) == Seq::<
            (Seq<char>, UrlTag),
        >::empty(),
    decreases j,
{
    let m1 = merge_fold(m, os, os.len() as int);
    if j > 0 {
        lemma_merge_idempotent_prefix(m, os, j - 1);
        let k = os[j - 1].0;
        let rec = os[j - 1].1;
        lemma_merge_fold_at(m, os, j - 1, os.len() as int);
        if upsert_applies(m, k, rec) {
            assert(m1.contains_key(k) && m1[k] == rec);
            assert(upsert_applies(m1, k, rec));
            assert(m1.insert(k, rec) =~= m1);
            assert(!upsert_updated(m1, k, rec));
        } else {
            assert(m1.contains_key(k) && m1[k] == m[k]);
            assert(rec.unix < m[k].unix);
            assert(!upsert_applies(m1, k, rec));
        }
    }
}

} // verus!
