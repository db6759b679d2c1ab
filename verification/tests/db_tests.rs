use webman::browser::Browser;
use webman::db::Store;
use webman::node::Provider;
use webman::time::Timestamp;
use webman::url::{Filter, Url, UrlTag};

fn mock_provider() -> String {
    "test".to_owned()
}

fn mock_browser() -> Browser {
    Browser::Chrome
}

fn mock_time(i: i64) -> Timestamp {
    Timestamp::new(i, 0)
}

fn mock_urls(n: i32) -> Vec<Url> {
    vec![
        Url {
            url: "u1".to_owned(),
            title: "t1".to_owned(),
            visit_count: 1 + n,
            last_visit_time: mock_time((1 + n) as i64),
        },
        Url {
            url: "u2".to_owned(),
            title: "t2".to_owned(),
            visit_count: 2 + n,
            last_visit_time: mock_time((2 + n) as i64),
        },
        Url {
            url: "u3".to_owned(),
            title: "t3".to_owned(),
            visit_count: 3 + n,
            last_visit_time: mock_time((3 + n) as i64),
        },
    ]
}

#[test]
fn providers() {
    let mut store = Store::new();
    let all = store.all();
    assert_eq!(all.len(), 0);

    store.find_or_insert(&mock_provider());
    let all = store.all();
    assert_eq!(all.len(), 1);
    assert_eq!(
        all[0],
        Provider {
            name: mock_provider(),
            last_import_time: Timestamp::epoch()
        }
    )
}

#[test]
fn find_or_insert_provider() {
    let mut store = Store::new();
    store.find_or_insert(&mock_provider());
    let ps = store.all();
    assert_eq!(
        Provider {
            name: mock_provider(),
            last_import_time: Timestamp::epoch()
        },
        ps[0]
    );
    store.find_or_insert(&mock_provider());
    assert_eq!(store.find_or_insert(&mock_provider()), 1);
    assert_eq!(store.find(&mock_provider()), Ok(1));
    assert!(store.find("missing").is_err());
}

fn check(store: &Store, want_urls: Vec<Url>) {
    let f = Filter::bulk_urls(mock_provider(), mock_browser(), mock_time(-1));
    let got = store.get_urls(&f).unwrap();
    assert_eq!(want_urls, got);
}

#[test]
fn insert_joined_urls() {
    let mut store = Store::new();
    let p_id = store.find_or_insert(&mock_provider());

    store
        .insert_urls_by_id(p_id, mock_browser(), mock_urls(0)[..2].to_vec(), None)
        .unwrap();
    check(&store, mock_urls(0)[..2].to_vec());

    store
        .insert_urls_by_id(p_id, mock_browser(), mock_urls(0)[1..].to_vec(), None)
        .unwrap();
    check(&store, mock_urls(0));

    store
        .insert_urls_by_id(p_id, mock_browser(), mock_urls(99), None)
        .unwrap();
    check(&store, mock_urls(99));

    assert_eq!(store.last_import_time(&mock_provider()), mock_time(102))
}

#[test]
fn insert_dedup() {
    let mut store = Store::new();
    let ids = store.upsert_urls(
        &vec!["u1".to_string()],
        &vec!["old".to_string()],
    );
    assert_eq!(ids, vec![1]);
    let ids = store.upsert_urls(
        &vec!["u1".to_string()],
        &vec!["new".to_string()],
    );
    assert_eq!(ids, vec![1]);
    assert_eq!(store.urls_len(), 1);
    let row = store.find_url("u1").unwrap();
    assert_eq!(row.title, "new");
}

#[test]
fn visits_aggregate_by_maximum() {
    let mut store = Store::new();
    let p_id = store.find_or_insert(&mock_provider());
    let ids = store.upsert_urls(&vec!["u1".to_string()], &vec!["t1".to_string()]);
    store.upsert_visits(p_id, mock_browser(), &ids, &vec![5], &vec![mock_time(50)]);
    // an older snapshot with a smaller count changes nothing
    store.upsert_visits(p_id, mock_browser(), &ids, &vec![3], &vec![mock_time(40)]);
    let f = Filter::bulk_urls(mock_provider(), mock_browser(), mock_time(0));
    let got = store.get_urls(&f).unwrap();
    assert_eq!(got.len(), 1);
    assert_eq!(got[0].visit_count, 5);
    assert_eq!(got[0].last_visit_time, mock_time(50));
    // a newer snapshot advances both
    store.upsert_visits(p_id, mock_browser(), &ids, &vec![9], &vec![mock_time(60)]);
    let got = store.get_urls(&f).unwrap();
    assert_eq!(got[0].visit_count, 9);
    assert_eq!(got[0].last_visit_time, mock_time(60));
}

#[test]
fn tags_round_through_store() {
    let mut store = Store::new();
    store.upsert_urls(
        &vec!["u1".to_string(), "u2".to_string()],
        &vec!["t1".to_string(), "t2".to_string()],
    );
    let n = store.set_tag(&vec!["u1".to_string()], UrlTag::Saved);
    assert_eq!(n, 1);
    let tags = store.get_all_tags();
    assert_eq!(tags, vec![(UrlTag::Saved, vec!["u1".to_string()])]);
    let n = store.set_tag(&vec!["missing".to_string()], UrlTag::Favorite);
    assert_eq!(n, 0);
}

#[test]
fn all_browsers_are_distinct_in_first_seen_order() {
    let mut store = Store::new();
    let p_id = store.find_or_insert(&mock_provider());
    let ids = store.upsert_urls(
        &vec!["u1".to_string(), "u2".to_string()],
        &vec!["t1".to_string(), "t2".to_string()],
    );
    store.upsert_visits(p_id, Browser::Safari, &ids, &vec![1, 1], &vec![mock_time(1), mock_time(2)]);
    store.upsert_visits(p_id, Browser::Chrome, &vec![ids[0]], &vec![1], &vec![mock_time(3)]);
    let bs = store.all_browsers(&mock_provider()).unwrap();
    assert_eq!(bs, vec![Browser::Safari, Browser::Chrome]);
    assert!(store.all_browsers("missing").is_err());
}

#[test]
fn unready_filter_is_rejected_by_the_store() {
    let store = Store::new();
    let f = Filter::default();
    assert!(store.get_urls(&f).is_err());
    let mut g = Filter::default();
    g.ready = true;
    // ready but without provider, browser and time bound
    assert!(store.get_urls(&g).is_err());
}

#[test]
fn search() {
    let mut store = Store::new();
    let p_id = store.find_or_insert(&mock_provider());

    store
        .insert_urls_by_id(p_id, mock_browser(), mock_urls(0), None)
        .unwrap();

    let f = Filter {
        privacy: Some(webman::url::UrlPrivacy::Normal),
        limit: 8,
        ..Default::default()
    };
    let res = store.fuzzy_search(f);
    assert_eq!(res.len(), 3);
    assert_eq!(res[0].title, "t3");

    store
        .insert_urls_by_id(p_id, Browser::Safari, mock_urls(99), None)
        .unwrap();

    let f = Filter {
        browser: Some(Browser::Safari),
        ..Default::default()
    };
    let res = store.fuzzy_search(f);
    assert_eq!(res.len(), 3);
    assert_eq!(res[0].title, "t3");

    let f = Filter {
        title_segs: vec!["%1%".to_owned()],
        url_segs: vec!["%1%".to_owned()],
        ..Default::default()
    };
    let res = store.fuzzy_search(f);
    assert_eq!(res.len(), 1);
    assert_eq!(res[0].title, "t1");

    let res = store.fuzzy_search(Filter::default());
    assert_eq!(res.len(), 3);
}

#[test]
fn search_orders_by_tag_precedence() {
    let mut store = Store::new();
    let p_id = store.find_or_insert(&mock_provider());
    store
        .insert_urls_by_id(p_id, mock_browser(), mock_urls(0), None)
        .unwrap();
    store.set_tag(&vec!["u1".to_string()], UrlTag::ReadLater);
    store.set_tag(&vec!["u2".to_string()], UrlTag::Saved);
    let res = store.fuzzy_search(Filter::default());
    assert_eq!(res[0].url, "u1");
    assert_eq!(res[1].url, "u2");
    assert_eq!(res[2].url, "u3");
    // case-insensitive contains, and the limit caps the results
    let f = Filter {
        title_segs_raw: vec!["T".to_owned()],
        limit: 2,
        ..Default::default()
    };
    let res = store.fuzzy_search(f);
    assert_eq!(res.len(), 2);
    // a query from the special ,url form matches exactly, without wildcards
    let mut f = Filter::parse(",url u1".to_string());
    f.limit = 5;
    let res = store.fuzzy_search(f);
    assert_eq!(res.len(), 1);
    assert_eq!(res[0].url, "u1");
}

#[test]
fn watermark_derives_from_the_batch() {
    let mut store = Store::new();
    let p_id = store.find_or_insert(&mock_provider());
    store
        .insert_urls_by_id(p_id, mock_browser(), mock_urls(0), Some(mock_time(50)))
        .unwrap();
    // the explicit value overrides derivation
    assert_eq!(store.last_import_time(&mock_provider()), mock_time(50));
    // no explicit value: the batch's newest visit time, not the store's
    store
        .insert_urls_by_id(
            p_id,
            mock_browser(),
            vec![Url {
                url: "u0".to_owned(),
                title: "t0".to_owned(),
                visit_count: 1,
                last_visit_time: mock_time(2),
            }],
            None,
        )
        .unwrap();
    assert_eq!(store.last_import_time(&mock_provider()), mock_time(2));
    // an empty batch with no explicit value leaves the watermark alone
    store
        .insert_urls_by_id(p_id, mock_browser(), Vec::new(), None)
        .unwrap();
    assert_eq!(store.last_import_time(&mock_provider()), mock_time(2));
}
