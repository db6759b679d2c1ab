use webman::browser::Browser;
use webman::db::Store;
use webman::node::Provider;
use webman::sync::{combine_times, sync_all, sync_direction, sync_tag_logs, sync_urls, Direction};
use webman::time::Timestamp;
use webman::url::tag::{History, Record, UrlTag};
use webman::url::Url;

fn t(i: i64) -> Timestamp {
    Timestamp::new(i, 0)
}

fn visit(url: &str, title: &str, at: i64) -> Url {
    Url {
        url: url.to_string(),
        title: title.to_string(),
        visit_count: 1,
        last_visit_time: t(at),
    }
}

#[test]
fn direction_by_watermark() {
    assert_eq!(sync_direction(t(1), t(1)), None);
    assert_eq!(sync_direction(t(1), t(2)), Some((t(1), Direction::IntoHost)));
    assert_eq!(sync_direction(t(2), t(1)), Some((t(1), Direction::IntoRemote)));
}

#[test]
fn combined_defaults_missing_side_to_epoch() {
    let host = vec![
        Provider { name: "a".to_string(), last_import_time: t(1) },
        Provider { name: "b".to_string(), last_import_time: t(2) },
    ];
    let remote = vec![
        Provider { name: "b".to_string(), last_import_time: t(5) },
        Provider { name: "c".to_string(), last_import_time: t(7) },
    ];
    let combined = combine_times(&host, &remote);
    assert_eq!(
        combined,
        vec![
            ("a".to_string(), t(1), Timestamp::epoch()),
            ("b".to_string(), t(2), t(5)),
            ("c".to_string(), Timestamp::epoch(), t(7)),
        ]
    );
}

/// Node A holds provider "laptop" at watermark T0; node B holds the same
/// provider at T1 > T0 with three visits between them. One pass brings all
/// three to A and advances A's watermark to their maximum; a second pass
/// against the unchanged B moves nothing and leaves the watermark alone.
#[test]
fn sync_convergence() {
    let t0 = 100;
    let t1 = 105;

    let mut a = Store::new();
    let a_pid = a.find_or_insert("laptop");
    a.update_last_import_time(a_pid, Some(t(t0))).unwrap();

    let mut b = Store::new();
    b.insert_urls(
        "laptop",
        Browser::Chrome,
        vec![
            visit("u1", "t1", 101),
            visit("u2", "t2", 102),
            visit("u3", "t3", 103),
        ],
        Some(t(t1)),
    )
    .unwrap();
    assert_eq!(b.last_import_time("laptop"), t(t1));

    let moved = sync_urls(&mut a, &mut b).unwrap();
    assert_eq!(moved, 3);
    assert_eq!(a.last_import_time("laptop"), t(103));
    let f = webman::url::Filter::bulk_urls("laptop".to_string(), Browser::Chrome, t(t0));
    assert_eq!(a.get_urls(&f).unwrap().len(), 3);

    let moved = sync_urls(&mut a, &mut b).unwrap();
    assert_eq!(moved, 0);
    assert_eq!(a.last_import_time("laptop"), t(103));
}

#[test]
fn sync_runs_both_ways() {
    let mut a = Store::new();
    a.insert_urls("desk", Browser::Firefox, vec![visit("d1", "x", 10)], None)
        .unwrap();
    let mut b = Store::new();
    b.insert_urls("phone", Browser::Safari, vec![visit("p1", "y", 20)], None)
        .unwrap();

    sync_urls(&mut a, &mut b).unwrap();

    let fa = webman::url::Filter::bulk_urls("phone".to_string(), Browser::Safari, t(0));
    assert_eq!(a.get_urls(&fa).unwrap().len(), 1);
    let fb = webman::url::Filter::bulk_urls("desk".to_string(), Browser::Firefox, t(0));
    assert_eq!(b.get_urls(&fb).unwrap().len(), 1);
    assert_eq!(a.last_import_time("phone"), t(20));
    assert_eq!(b.last_import_time("desk"), t(10));
}

#[test]
fn tag_logs_merge_both_ways() {
    let mut a_store = Store::new();
    a_store.upsert_urls(
        &vec!["u1".to_string(), "u2".to_string()],
        &vec!["t1".to_string(), "t2".to_string()],
    );
    let mut b_store = Store::new();
    b_store.upsert_urls(
        &vec!["u1".to_string(), "u2".to_string()],
        &vec!["t1".to_string(), "t2".to_string()],
    );

    let mut a_log = History::default();
    a_log.upsert("u1".to_string(), Record::new(UrlTag::Saved, 200));
    let mut b_log = History::default();
    b_log.upsert("u1".to_string(), Record::new(UrlTag::Favorite, 100));
    b_log.upsert("u2".to_string(), Record::new(UrlTag::ReadLater, 300));

    sync_tag_logs(&mut a_store, &mut a_log, &mut b_store, &mut b_log);

    // u1: A's record is newer and wins on both sides; u2 comes to A from B
    assert_eq!(a_log.get(&"u1".to_string()).unwrap().tag, UrlTag::Saved);
    assert_eq!(b_log.get(&"u1".to_string()).unwrap().tag, UrlTag::Saved);
    assert_eq!(a_log.get(&"u2".to_string()).unwrap().tag, UrlTag::ReadLater);

    assert_eq!(
        a_store.get_all_tags(),
        vec![(UrlTag::ReadLater, vec!["u2".to_string()])]
    );
    assert_eq!(
        b_store.get_all_tags(),
        vec![(UrlTag::Saved, vec!["u1".to_string()])]
    );
}

#[test]
fn sync_all_moves_urls_and_tags() {
    let mut a = Store::new();
    let mut b = Store::new();
    b.insert_urls("phone", Browser::Safari, vec![visit("p1", "y", 20)], None)
        .unwrap();
    let mut a_log = History::default();
    let mut b_log = History::default();
    b_log.upsert("p1".to_string(), Record::new(UrlTag::Saved, 10));

    let moved = sync_all(&mut a, &mut a_log, &mut b, &mut b_log).unwrap();
    assert_eq!(moved, 1);
    assert_eq!(a_log.get(&"p1".to_string()).unwrap().tag, UrlTag::Saved);
    assert_eq!(
        a.get_all_tags(),
        vec![(UrlTag::Saved, vec!["p1".to_string()])]
    );
}
