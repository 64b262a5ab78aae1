use rari_doc::locale::Locale;
use rari_doc::page::{PageCategory, SiteIndex};
use rari_doc::resolve::UrlError;
use rari_doc::routes::{page_route, PageRoute, RouteError};

#[test]
fn documents_route_to_their_folder() {
    match page_route("/en-US/docs/Web/CSS/:hover#syntax", None, &SiteIndex::empty()).unwrap() {
        PageRoute::Doc {
            folder_path,
            locale,
        } => {
            assert_eq!(folder_path, "web/css/_colon_hover");
            assert_eq!(locale, Locale::EnUs);
        }
        other => panic!("unexpected {other:?}"),
    }
    match page_route("/en-US/docs/Web", Some(Locale::Fr), &SiteIndex::empty()).unwrap() {
        PageRoute::Doc { locale, .. } => assert_eq!(locale, Locale::Fr),
        other => panic!("unexpected {other:?}"),
    }
}

#[test]
fn the_blog_exists_in_en_us_only() {
    match page_route("/en-US/blog/some-post/", None, &SiteIndex::empty()).unwrap() {
        PageRoute::BlogPost { url } => assert_eq!(url, "/en-US/blog/some-post/"),
        other => panic!("unexpected {other:?}"),
    }
    match page_route("/en-US/blog/some-post/", Some(Locale::De), &SiteIndex::empty()) {
        Err(RouteError::NotFound(url, PageCategory::BlogPost)) => {
            assert_eq!(url, "/en-US/blog/some-post/")
        }
        other => panic!("unexpected {other:?}"),
    }
    match page_route("/en-US/blog/", Some(Locale::Ja), &SiteIndex::empty()) {
        Err(RouteError::NotFound(_, PageCategory::SPA)) => {}
        other => panic!("unexpected {other:?}"),
    }
}

#[test]
fn bad_urls_are_errors() {
    assert!(matches!(
        page_route("/xx/docs/Web", None, &SiteIndex::empty()),
        Err(RouteError::Url(UrlError::LocaleError(_)))
    ));
    assert!(matches!(
        page_route("/en-US/nothing/here", None, &SiteIndex::empty()),
        Err(RouteError::Url(UrlError::InvalidUrl))
    ));
}
