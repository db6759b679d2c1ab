use webman::url::tag::{History, Record, UrlTag};

fn cur_unix() -> u64 {
    std::time::SystemTime::now()
        .duration_since(std::time::SystemTime::UNIX_EPOCH)
        .map(|d| d.as_secs())
        .unwrap_or(0)
}

#[test]
fn insert_tags() {
    let url = "insert".to_string();
    let mut his = History::default();
    his.insert(url.clone(), UrlTag::Saved);
    his.insert(url.clone(), UrlTag::Favorite);
    assert_eq!(his.get(&url).unwrap().tag, UrlTag::Favorite)
}

#[test]
fn upsert_tags() {
    let url = "upsert".to_string();
    let mut his = History::default();
    his.insert(url.clone(), UrlTag::Saved);
    his.upsert(url.clone(), Record::new(UrlTag::Favorite, cur_unix()));
    assert_eq!(his.get(&url).unwrap().tag, UrlTag::Favorite)
}

#[test]
fn upsert_never_regresses() {
    let url = "a".to_string();
    let mut his = History::default();
    his.upsert(url.clone(), Record::new(UrlTag::Saved, 100));
    let changed = his.upsert(url.clone(), Record::new(UrlTag::Favorite, 50));
    assert_eq!(changed, None);
    let r = his.get(&url).unwrap();
    assert_eq!(r.tag, UrlTag::Saved);
    assert_eq!(r.unix, 100);
}

#[test]
fn upsert_tie_favors_incoming() {
    let url = "a".to_string();
    let mut his = History::default();
    his.upsert(url.clone(), Record::new(UrlTag::Saved, 100));
    let changed = his.upsert(url.clone(), Record::new(UrlTag::Favorite, 100));
    assert_eq!(changed, Some(UrlTag::Favorite));
    let r = his.get(&url).unwrap();
    assert_eq!(r.tag, UrlTag::Favorite);
    assert_eq!(r.unix, 100);
}

#[test]
fn merge_idempotent() {
    let mut his = History::default();
    his.upsert("a".to_string(), Record::new(UrlTag::Saved, 200));
    his.upsert("c".to_string(), Record::new(UrlTag::Saved, 200));

    let mut other = History::default();
    other.upsert("a".to_string(), Record::new(UrlTag::ReadLater, 100));
    other.upsert("b".to_string(), Record::new(UrlTag::ReadLater, 100));
    other.upsert("c".to_string(), Record::new(UrlTag::ReadLater, 300));

    let first = his.merge(&other);
    assert_eq!(
        first,
        vec![
            ("b".to_string(), UrlTag::ReadLater),
            ("c".to_string(), UrlTag::ReadLater)
        ]
    );

    let second = his.merge(&other);
    assert!(second.is_empty());

    for (url, tag, unix) in [
        ("a", UrlTag::Saved, 200),
        ("b", UrlTag::ReadLater, 100),
        ("c", UrlTag::ReadLater, 300),
    ] {
        let r = his.get(&url.to_string()).unwrap();
        assert_eq!(r.tag, tag, "url:{}", url);
        assert_eq!(r.unix, unix, "url:{}", url);
    }
}

#[test]
fn merge_reports_minimal_change_set() {
    let mut his = History::default();
    his.upsert("same".to_string(), Record::new(UrlTag::Saved, 100));

    let mut other = History::default();
    other.upsert("same".to_string(), Record::new(UrlTag::Saved, 100));
    other.upsert("new".to_string(), Record::new(UrlTag::Favorite, 50));

    let changes = his.merge(&other);
    assert_eq!(changes, vec![("new".to_string(), UrlTag::Favorite)]);
}

#[test]
fn batch_insert_shares_one_stamp() {
    let mut his = History::default();
    his.batch_insert(
        vec!["x".to_string(), "y".to_string(), "z".to_string()],
        UrlTag::ReadLater,
    );
    let rx = his.get(&"x".to_string()).unwrap();
    let ry = his.get(&"y".to_string()).unwrap();
    let rz = his.get(&"z".to_string()).unwrap();
    assert_eq!(rx.tag, UrlTag::ReadLater);
    assert_eq!(ry.tag, UrlTag::ReadLater);
    assert_eq!(rz.tag, UrlTag::ReadLater);
    assert_eq!(rx.unix, ry.unix);
    assert_eq!(ry.unix, rz.unix);
}

#[test]
fn parse_tag_names() {
    assert_eq!(UrlTag::parse("normal"), Some(UrlTag::Normal));
    assert_eq!(UrlTag::parse("saved"), Some(UrlTag::Saved));
    assert_eq!(UrlTag::parse("favorite"), Some(UrlTag::Favorite));
    assert_eq!(UrlTag::parse("readlater"), Some(UrlTag::ReadLater));
    assert_eq!(UrlTag::parse("Saved"), None);
    assert_eq!(UrlTag::parse(""), None);
}

#[test]
fn merge_converges_both_ways() {
    let mut a = History::default();
    a.upsert("x".to_string(), Record::new(UrlTag::Saved, 10));
    a.upsert("y".to_string(), Record::new(UrlTag::Favorite, 30));
    let mut b = History::default();
    b.upsert("y".to_string(), Record::new(UrlTag::ReadLater, 20));
    b.upsert("z".to_string(), Record::new(UrlTag::Saved, 40));

    let snap_a = a.clone();
    let snap_b = b.clone();
    a.merge(&snap_b);
    b.merge(&snap_a);

    for url in ["x", "y", "z"] {
        assert_eq!(
            a.get(&url.to_string()),
            b.get(&url.to_string()),
            "url:{}",
            url
        );
    }
}
