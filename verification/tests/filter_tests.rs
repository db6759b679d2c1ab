use webman::browser::Browser;
use webman::errors::Error;
use webman::time::Timestamp;
use webman::url::{Filter, UrlPrivacy, UrlTag};

#[test]
fn filter_parse() {
    let f = Filter::parse(",url http://localhost:3000/".to_string());
    assert_eq!(
        f,
        Filter {
            url_segs: vec!["http://localhost:3000/".to_string()],
            ready: true,
            ..Default::default()
        }
    )
}

#[test]
fn parse_tokens() {
    let f = Filter::parse("/rust ,s manual".to_string());
    assert_eq!(
        f,
        Filter {
            url_segs: vec!["%rust%".to_string()],
            tag: Some(UrlTag::Saved),
            title_segs: vec!["%manual%".to_string()],
            ..Default::default()
        }
    );
}

#[test]
fn parse_directives() {
    let f = Filter::parse(",p".to_string());
    assert_eq!(f.privacy, Some(UrlPrivacy::Private));
    let f = Filter::parse(",privacy".to_string());
    assert_eq!(f.privacy, Some(UrlPrivacy::Private));
    let f = Filter::parse(",n".to_string());
    assert_eq!(f.tag, Some(UrlTag::Normal));
    let f = Filter::parse(",favorite".to_string());
    assert_eq!(f.tag, Some(UrlTag::Favorite));
    let f = Filter::parse(",r".to_string());
    assert_eq!(f.tag, Some(UrlTag::ReadLater));
    // an unrecognized directive is ignored
    let f = Filter::parse(",bogus".to_string());
    assert_eq!(f.tag, None);
    assert_eq!(f.privacy, None);
    assert!(f.title_segs.is_empty());
}

#[test]
fn init_normalizes() {
    let mut f = Filter {
        title_segs_raw: vec!["abc".to_string()],
        url_segs_raw: vec!["xyz".to_string()],
        ..Default::default()
    };
    f.init();
    assert!(f.ready);
    assert_eq!(f.title_segs, vec!["%abc%".to_string()]);
    assert_eq!(f.url_segs, vec!["%xyz%".to_string()]);
    assert_eq!(f.limit, 20);

    // a ready filter is left untouched
    let mut g = Filter {
        ready: true,
        ..Default::default()
    };
    g.init();
    assert_eq!(g.limit, 0);
}

#[test]
fn bulk_filter_is_ready_without_limit() {
    let f = Filter::bulk_urls("laptop".to_string(), Browser::Safari, Timestamp::new(5, 0));
    assert_eq!(f.provider_name, Some("laptop".to_string()));
    assert_eq!(f.browser, Some(Browser::Safari));
    assert_eq!(f.time_from, Some(Timestamp::new(5, 0)));
    assert_eq!(f.limit, 0);
    assert!(f.ready);
    assert!(f.ready().is_ok());
}

#[test]
fn unready_filter_is_an_error() {
    let f = Filter::default();
    assert_eq!(f.ready(), Err(Error::NotReady));
    assert_eq!(Error::NotReady.message(), "filter is not ready");
}
