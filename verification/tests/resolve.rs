use rari_doc::locale::Locale;
use rari_doc::page::{PageCategory, SiteIndex, SpaEntry};
use rari_doc::resolve::{
    build_url, locale_from_url, strip_locale_from_url, url_meta_from, url_to_folder_path,
    url_with_locale, UrlError, UrlMeta,
};

#[test]
fn test_url_to_path() {
    let url = "/en-US/docs/Web/HTML";
    let UrlMeta {
        folder_path,
        slug,
        locale,
        ..
    } = url_meta_from(url, &SiteIndex::empty()).unwrap();
    assert_eq!(locale, Locale::EnUs);
    assert_eq!(folder_path, "web/html");
    assert_eq!(slug, "Web/HTML");
}

#[test]
fn test_from_url() {
    let url = "/en-US/docs/Web";
    let (locale, url) = strip_locale_from_url(url);
    assert_eq!(Some(Locale::EnUs), locale);
    assert_eq!("/docs/Web", url);
}

#[test]
fn folder_path_escapes_special_characters() {
    assert_eq!(url_to_folder_path("Web/CSS/::after"), "web/css/_doublecolon_after");
    assert_eq!(url_to_folder_path("A*B:C?D"), "a_star_b_colon_c_question_d");
}

#[test]
fn locale_helpers() {
    assert_eq!(locale_from_url("/en-US/some/path"), Some(Locale::EnUs));
    assert_eq!(locale_from_url("fr/page"), Some(Locale::Fr));
    assert_eq!(locale_from_url("invalid/path"), None);
    assert_eq!(url_with_locale("/en-US/some/path", Locale::Fr).as_deref(), Some("/fr/some/path"));
    assert_eq!(url_with_locale("/en-US/", Locale::ZhTw).as_deref(), Some("/zh-TW/"));
    assert_eq!(url_with_locale("/invalid/path", Locale::Ja), None);
    assert_eq!(url_with_locale("/fr/x", Locale::Fr), None);
}

fn site() -> SiteIndex {
    SiteIndex {
        spas: vec![
            SpaEntry { slug: "play".to_string(), en_us_only: false, trailing_slash: false },
            SpaEntry { slug: "plus".to_string(), en_us_only: true, trailing_slash: true },
        ],
        generic_urls: vec!["/en-us/about".to_string()],
    }
}

#[test]
fn url_meta_categories() {
    let s = site();
    let m = url_meta_from("/en-US/blog/", &s).unwrap();
    assert_eq!((m.page_category, m.slug.as_str()), (PageCategory::SPA, "blog"));
    let m = url_meta_from("/en-US/blog/my-post/", &s).unwrap();
    assert_eq!(m.page_category, PageCategory::BlogPost);
    let m = url_meta_from("/en-US/curriculum/core/", &s).unwrap();
    assert_eq!(m.page_category, PageCategory::Curriculum);
    let m = url_meta_from("/en-US/community/spotlight/foo", &s).unwrap();
    assert_eq!(m.page_category, PageCategory::ContributorSpotlight);
    let m = url_meta_from("/fr/play", &s).unwrap();
    assert_eq!((m.page_category, m.locale), (PageCategory::SPA, Locale::Fr));
    let m = url_meta_from("/en-US/About", &s).unwrap();
    assert_eq!((m.page_category, m.slug.as_str()), (PageCategory::GenericPage, "About"));
    assert!(matches!(url_meta_from("/fr/plus", &s), Err(UrlError::InvalidUrl)));
    assert!(matches!(url_meta_from("/xx/docs/Web", &s), Err(UrlError::LocaleError(_))));
    let m = url_meta_from("/de/docs/Web/API#section", &s).unwrap();
    assert_eq!((m.slug.as_str(), m.locale), ("Web/API", Locale::De));
}

#[test]
fn build_urls() {
    let s = site();
    assert_eq!(build_url(&s, "Web/HTML", Locale::Fr, PageCategory::Doc).unwrap(), "/fr/docs/Web/HTML");
    assert_eq!(build_url(&s, "post", Locale::EnUs, PageCategory::BlogPost).unwrap(), "/en-US/blog/post/");
    assert_eq!(build_url(&s, "plus", Locale::EnUs, PageCategory::SPA).unwrap(), "/en-US/plus/");
    assert_eq!(build_url(&s, "play", Locale::Ja, PageCategory::SPA).unwrap(), "/ja/play");
    assert!(build_url(&s, "plus", Locale::Ja, PageCategory::SPA).is_err());
    assert!(build_url(&s, "nope", Locale::EnUs, PageCategory::SPA).is_err());
    assert_eq!(
        build_url(&s, "x", Locale::EnUs, PageCategory::ContributorSpotlight).unwrap(),
        "/en-US/community/spotlight/x"
    );
}
