//! The closed enumeration of supported browser families, and the
//! per-family policies: which codec strategy translates the family's
//! native timestamps, which fixed query reads its store, and whether the
//! store file must be copied aside before it is opened.

use vstd::prelude::*;

pub mod miner;

verus! {

/// A supported browser family. Chrome and Vivaldi are Chromium-derived and
/// Floorp is Firefox-derived: they share the parent family's codec and
/// query and differ only in their default store location and in the tag
/// used for attribution.
#[derive(Clone, Copy, Debug, PartialEq, Eq, Structural, Hash)]
pub enum Browser {
    Chromium,
    Chrome,
    Safari,
    Firefox,
    Floorp,
    Vivaldi,
}

/// The codec strategy a family's native timestamps are read with.
#[derive(Clone, Copy, Debug, PartialEq, Eq, Structural)]
pub enum CodecFamily {
    /// Integer microseconds since an epoch 11 644 473 600 s before the
    /// canonical one.
    Chromium,
    /// Integer microseconds since the canonical epoch directly.
    Firefox,
    /// A seconds count (with a sub-second fraction) since an epoch
    /// 978 307 200 s after the canonical one.
    Safari,
}

/// How a family's store may be opened while the browser is running.
#[derive(Clone, Copy, Debug, PartialEq, Eq, Structural)]
pub enum ConnectionStrategy {
    /// Open the store file directly, read-only and without locking: the
    /// family's own checkpointing leaves a consistent snapshot.
    InPlace,
    /// Copy the store file and its write-ahead log aside first: the live
    /// browser may hold the store locked, and reading it in place could
    /// observe a torn snapshot.
    CopyFirst,
}

/// The fixed read query of the Chromium codec family.
pub const CHROMIUM_QUERY: &'static str = "\nSELECT url,title, visit_count, last_visit_time\nFROM urls\nWHERE last_visit_time > ? AND length(url) < 2500\n";

/// The fixed read query of the Firefox codec family.
pub const FIREFOX_QUERY: &'static str = "\nSELECT url,title, visit_count,last_visit_date\nFROM moz_places\nWHERE last_visit_date > ? AND length(url) < 2500\n";

/// The fixed read query of the Safari codec family.
pub const SAFARI_QUERY: &'static str = "\nWITH last_visits AS (\nSELECT history_item, title, visit_time as last_visit_time\nFROM history_visits\nWHERE visit_time > ? \nGROUP BY history_item\nHAVING MAX(visit_time)\n) SELECT HI.url, LV.title, HI.visit_count , LV.last_visit_time\nFROM history_items HI INNER JOIN last_visits LV ON HI.id = LV.history_item\nWHERE length(url) < 2500\n";

impl Browser {
    pub open spec fn spec_family(self) -> CodecFamily {
        match self {
            Browser::Chromium => CodecFamily::Chromium,
            Browser::Chrome => CodecFamily::Chromium,
            Browser::Vivaldi => CodecFamily::Chromium,
            Browser::Firefox => CodecFamily::Firefox,
            Browser::Floorp => CodecFamily::Firefox,
            Browser::Safari => CodecFamily::Safari,
        }
    }

    /// The codec strategy this family's native timestamps use.
    pub fn family(self) -> (r: CodecFamily)
        ensures
            r == self.spec_family(),
    {
        match self {
            Browser::Chromium => CodecFamily::Chromium,
            Browser::Chrome => CodecFamily::Chromium,
            Browser::Vivaldi => CodecFamily::Chromium,
            Browser::Firefox => CodecFamily::Firefox,
            Browser::Floorp => CodecFamily::Firefox,
            Browser::Safari => CodecFamily::Safari,
        }
    }

    pub open spec fn spec_connection_strategy(self) -> ConnectionStrategy {
        if self.spec_family() == CodecFamily::Firefox {
            ConnectionStrategy::CopyFirst
        } else {
            ConnectionStrategy::InPlace
        }
    }

    /// Firefox-family stores may be held locked by the live browser and
    /// are copied aside before reading; Chromium-family and Safari stores
    /// are opened in place, read-only.
    pub fn connection_strategy(self) -> (r: ConnectionStrategy)
        ensures
            r == self.spec_connection_strategy(),
    {
        match self.family() {
            CodecFamily::Firefox => ConnectionStrategy::CopyFirst,
            _ => ConnectionStrategy::InPlace,
        }
    }

    pub open spec fn spec_query(self) -> &'static str {
        match self.spec_family() {
            CodecFamily::Chromium => CHROMIUM_QUERY,
            CodecFamily::Firefox => FIREFOX_QUERY,
            CodecFamily::Safari => SAFARI_QUERY,
        }
    }

    /// The fixed read query of this family's store, filtering rows
    /// strictly newer than the bound parameter and rejecting
    /// pathologically long urls.
    pub fn query(self) -> (r: &'static str)
        ensures
            r@ == self.spec_query()@,
    {
        match self.family() {
            CodecFamily::Chromium => CHROMIUM_QUERY,
            CodecFamily::Firefox => FIREFOX_QUERY,
            CodecFamily::Safari => SAFARI_QUERY,
        }
    }
}

/// The family's default history store location on a given platform,
/// relative to the user's home directory, where one is known.
pub open spec fn spec_default_relative_location(b: Browser, os: Seq<char>) -> Option<Seq<char>> {
    if b == Browser::Chromium && os == "linux"@ {
        Some(".config/chromium/Default/History"@)
    } else if b == Browser::Vivaldi && os == "linux"@ {
        Some(".config/vivaldi/Default/History"@)
    } else if b == Browser::Firefox && os == "linux"@ {
        Some(".mozilla/firefox/oqbprr8u.default/places.sqlite"@)
    } else if b == Browser::Chromium && os == "macos"@ {
        Some("Library/Application Support/Chromium/Default/History"@)
    } else if b == Browser::Safari && os == "macos"@ {
        Some("Library/Safari/History.db"@)
    } else {
        None
    }
}

/// The family's default store location on platform `os`, relative to the
/// user's home directory; the caller joins it onto that directory.
pub fn default_relative_location(b: Browser, os: &str) -> (r: Option<&'static str>)
    ensures
        match (r, spec_default_relative_location(b, os@)) {
            (Some(p), Some(w)) => p@ == w,
            (None, None) => true,
            _ => false,
        },
{
    if matches!(b, Browser::Chromium) && crate::strutil::str_eq(os, "linux") {
        Some(".config/chromium/Default/History")
    } else if matches!(b, Browser::Vivaldi) && crate::strutil::str_eq(os, "linux") {
        Some(".config/vivaldi/Default/History")
    } else if matches!(b, Browser::Firefox) && crate::strutil::str_eq(os, "linux") {
        Some(".mozilla/firefox/oqbprr8u.default/places.sqlite")
    } else if matches!(b, Browser::Chromium) && crate::strutil::str_eq(os, "macos") {
        Some("Library/Application Support/Chromium/Default/History")
    } else if matches!(b, Browser::Safari) && crate::strutil::str_eq(os, "macos") {
        Some("Library/Safari/History.db")
    } else {
        None
    }
}

/// One configured browser on a device: the family, and the history store's
/// location where it differs from the family's default.
#[derive(Clone, Debug, PartialEq, Eq)]
pub struct BrowserSetting {
    pub browser: Browser,
    pub location: Option<String>,
}

} // verus!
