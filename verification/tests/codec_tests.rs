use webman::browser::miner::chromium::Chromium;
use webman::browser::miner::firefox::Firefox;
use webman::browser::miner::floorp::Floorp;
use webman::browser::miner::safari::Safari;
use webman::browser::miner::vivaldi::Vivaldi;
use webman::browser::miner::{canonical_of, mine_urls, native_of, NativeTime, RawRow};
use webman::browser::{default_relative_location, Browser, CodecFamily, ConnectionStrategy};
use webman::time::Timestamp;

/// Split a native Safari float into whole seconds and the fractional part
/// rounded to the nearest microsecond, as the reading edge does.
fn split_safari(ts: f64) -> (i64, u32) {
    let secs = ts as i64;
    let micros = (ts.fract() * 1_000_000.0).round() as u32;
    (secs, micros)
}

#[test]
fn safari_datatime() {
    let ts = 683889614.050203;

    // 2022-09-03T09:20:14.050203 as canonical time
    let datetime = Timestamp::new(1662196814, 50203);

    let (secs, micros) = split_safari(ts);
    assert_eq!(Safari.canonical_of(secs, micros), datetime);

    let (nsecs, nmicros) = Safari.native_of(datetime);
    let reencoded = nsecs as f64 + nmicros as f64 / 1_000_000.0;
    assert_eq!(reencoded, ts);
}

#[test]
fn chromium_round_trip() {
    // an arbitrary microsecond-precise point, in Chromium native form
    let native: i64 = (1661160014 + 11_644_473_600) * 1_000_000 + 50203;
    let t = Chromium.canonical_of(native);
    assert_eq!(t, Timestamp::new(1661160014, 50203));
    assert_eq!(Chromium.native_of(t), native);
}

#[test]
fn firefox_round_trip() {
    let native: i64 = 1661160014_050203;
    let t = Firefox.canonical_of(native);
    assert_eq!(t, Timestamp::new(1661160014, 50203));
    assert_eq!(Firefox.native_of(t), native);
}

#[test]
fn delegated_families_share_codecs() {
    let native: i64 = 1_600_000_000_000_000;
    assert_eq!(Vivaldi::default().canonical_of(native + 11_644_473_600_000_000), Chromium.canonical_of(native + 11_644_473_600_000_000));
    assert_eq!(Floorp::default().canonical_of(native), Firefox.canonical_of(native));
    assert_eq!(Browser::Vivaldi.family(), CodecFamily::Chromium);
    assert_eq!(Browser::Chrome.family(), CodecFamily::Chromium);
    assert_eq!(Browser::Floorp.family(), CodecFamily::Firefox);
    assert_eq!(Browser::Vivaldi.query(), Browser::Chromium.query());
    assert_eq!(Browser::Floorp.query(), Browser::Firefox.query());
}

#[test]
fn connection_strategies() {
    assert_eq!(Browser::Firefox.connection_strategy(), ConnectionStrategy::CopyFirst);
    assert_eq!(Browser::Floorp.connection_strategy(), ConnectionStrategy::CopyFirst);
    assert_eq!(Browser::Chromium.connection_strategy(), ConnectionStrategy::InPlace);
    assert_eq!(Browser::Safari.connection_strategy(), ConnectionStrategy::InPlace);
}

#[test]
fn native_dispatch() {
    let t = Timestamp::new(1662196814, 50203);
    assert_eq!(
        native_of(Browser::Chromium, t),
        Some(NativeTime::Micros((1662196814 + 11_644_473_600) * 1_000_000 + 50203))
    );
    assert_eq!(
        native_of(Browser::Firefox, t),
        Some(NativeTime::Micros(1662196814_050203))
    );
    assert_eq!(
        native_of(Browser::Safari, t),
        Some(NativeTime::SecondsMicros(683889614, 50203))
    );
    assert_eq!(
        canonical_of(Browser::Safari, NativeTime::SecondsMicros(683889614, 50203)),
        Some(t)
    );
    // a value in another family's shape decodes to nothing
    assert_eq!(canonical_of(Browser::Safari, NativeTime::Micros(5)), None);
    assert_eq!(canonical_of(Browser::Chromium, NativeTime::Micros(-1)), None);
}

#[test]
fn mine_filters_and_converts() {
    let since = Timestamp::new(100, 0);
    let rows = vec![
        RawRow {
            url: Some("https://kept.example".to_string()),
            title: Some("kept".to_string()),
            visit_count: Some(3),
            time: NativeTime::Micros((100 + 11_644_473_600) * 1_000_000 + 1),
        },
        RawRow {
            // too old: exactly at the watermark
            url: Some("https://old.example".to_string()),
            title: None,
            visit_count: Some(1),
            time: NativeTime::Micros((100 + 11_644_473_600) * 1_000_000),
        },
        RawRow {
            // pathologically long url
            url: Some("x".repeat(2500)),
            title: Some("long".to_string()),
            visit_count: Some(1),
            time: NativeTime::Micros((200 + 11_644_473_600) * 1_000_000),
        },
        RawRow {
            // absent columns read as defaults
            url: None,
            title: None,
            visit_count: None,
            time: NativeTime::Micros((300 + 11_644_473_600) * 1_000_000),
        },
    ];
    let mined = mine_urls(Browser::Chromium, &rows, since);
    assert_eq!(mined.len(), 2);
    assert_eq!(mined[0].url, "https://kept.example");
    assert_eq!(mined[0].title, "kept");
    assert_eq!(mined[0].visit_count, 3);
    assert_eq!(mined[0].last_visit_time, Timestamp::new(100, 1));
    assert_eq!(mined[1].url, "");
    assert_eq!(mined[1].title, "");
    assert_eq!(mined[1].visit_count, 0);
    assert_eq!(mined[1].last_visit_time, Timestamp::new(300, 0));
}

#[test]
fn safari_watermark_is_min_of_origin_maxima() {
    let rows = vec![
        (1, Timestamp::new(10, 0)),
        (2, Timestamp::new(3, 0)),
        (1, Timestamp::new(7, 0)),
        (2, Timestamp::new(5, 0)),
    ];
    // origin 1 peaks at 10, origin 2 at 5: the conservative watermark is 5
    assert_eq!(Safari.last_import_time(&rows), Some(Timestamp::new(5, 0)));
    assert_eq!(Safari.last_import_time(&Vec::new()), None);
}

#[test]
fn default_locations_by_platform() {
    assert_eq!(
        default_relative_location(Browser::Chromium, "linux"),
        Some(".config/chromium/Default/History")
    );
    assert_eq!(
        default_relative_location(Browser::Firefox, "linux"),
        Some(".mozilla/firefox/oqbprr8u.default/places.sqlite")
    );
    assert_eq!(
        default_relative_location(Browser::Safari, "macos"),
        Some("Library/Safari/History.db")
    );
    assert_eq!(default_relative_location(Browser::Safari, "linux"), None);
    assert_eq!(default_relative_location(Browser::Chrome, "macos"), None);
}
