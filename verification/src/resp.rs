//! The value shapes exchanged between miners, stores and nodes.

use vstd::prelude::*;

use crate::browser::Browser;
use crate::time::Timestamp;
use crate::url::{tag::UrlTag, Url};

verus! {

/// Credentials presented when opening a session against a node.
#[derive(Clone, Debug, PartialEq, Eq)]
pub struct Auth {
    pub api_key: String,
}

/// The unit of transfer between a miner or the sync engine and a store:
/// one provider's batch of visit records for one browser. When
/// `last_import_time` is absent the receiving store derives its own
/// watermark from the batch.
#[derive(Clone, Debug, PartialEq, Eq)]
pub struct UrlInsert {
    pub name: String,
    pub browser: Browser,
    pub urls: Vec<Url>,
    pub last_import_time: Option<Timestamp>,
}

/// A request to set one tag on several urls at once.
#[derive(Clone, Debug, PartialEq, Eq)]
pub struct UrlTagSetter {
    pub tag: UrlTag,
    pub urls: Vec<String>,
}

impl UrlTagSetter {
    pub fn new(tag: UrlTag, urls: Vec<String>) -> (r: Self)
        ensures
            r.tag == tag,
            r.urls == urls,
    {
        UrlTagSetter { tag, urls }
    }
}

/// A bare url to be inserted by hand, without any visit data.
#[derive(Clone, Debug)]
pub struct FakeUrl {
    pub url: String,
    pub browser: Browser,
}

impl FakeUrl {
    /// The insert a bare url stands for: a single record with no title, no
    /// visits and the epoch as its visit time, under an empty provider
    /// name and with no explicit watermark.
    pub fn into_insert(self) -> (r: UrlInsert)
        ensures
            r.name@ == Seq::<char>::empty(),
            r.browser == self.browser,
            r.urls@.len() == 1,
            r.urls@[0].url == self.url,
            r.urls@[0].title@ == Seq::<char>::empty(),
            r.urls@[0].visit_count == 0,
            r.urls@[0].last_visit_time == Timestamp::spec_epoch(),
            r.last_import_time is None,
    {
        let url = Url {
            url: self.url,
            title: String::new(),
            visit_count: 0,
            last_visit_time: Timestamp::epoch(),
        };
        UrlInsert { name: String::new(), browser: self.browser, urls: vec![url], last_import_time: None }
    }
}

} // verus!
