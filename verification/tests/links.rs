use rari_doc::links::{
    check_and_fix_link, check_templ_link, handle_extenal_link, handle_internal_link,
    ignore_link_check, mark_flaw, page_exists, ContentRoots, LinkElement, LinkPage,
    TemplLinkIssue,
};
use rari_doc::locale::Locale;
use rari_doc::page::{PageType, SiteIndex};
use rari_doc::redirects::UrlMap;

fn el(attrs: &[(&str, &str)]) -> LinkElement {
    LinkElement {
        attrs: attrs
            .iter()
            .map(|(k, v)| (k.to_string(), v.to_string()))
            .collect(),
    }
}

fn attrs(e: &LinkElement) -> Vec<(&str, &str)> {
    e.attrs.iter().map(|(k, v)| (k.as_str(), v.as_str())).collect()
}

fn page(locale: Locale, url: &str) -> LinkPage {
    LinkPage {
        page_type: PageType::Other,
        locale,
        url: url.to_string(),
        fm_offset: 10,
    }
}

fn files() -> Vec<(String, Vec<(String, Vec<(String, String)>)>)> {
    vec![(
        "Common".to_string(),
        vec![(
            "summary".to_string(),
            vec![(
                "en-US".to_string(),
                "This page has not been created yet.".to_string(),
            )],
        )],
    )]
}

fn redirects() -> UrlMap {
    let mut m = UrlMap::new();
    m.insert("/en-us/docs/old".to_string(), "/en-US/docs/New".to_string());
    m
}

#[test]
fn external_links_open_in_a_new_tab() {
    let mut e = el(&[("href", "https://example.com/"), ("class", "foo")]);
    handle_extenal_link(&mut e);
    assert_eq!(
        attrs(&e),
        vec![
            ("href", "https://example.com/"),
            ("class", "foo external"),
            ("target", "_blank")
        ]
    );
    // Already marked, with its own target: nothing changes.
    let mut e = el(&[("href", "http://x.org"), ("class", "external"), ("target", "_self")]);
    handle_extenal_link(&mut e);
    assert_eq!(
        attrs(&e),
        vec![("href", "http://x.org"), ("class", "external"), ("target", "_self")]
    );
}

#[test]
fn other_links_are_left_alone() {
    let mut e = el(&[("href", "mailto:someone@example.com")]);
    let r = check_and_fix_link(
        &mut e,
        &page(Locale::EnUs, "/en-US/docs/A"),
        &UrlMap::new(),
        &UrlMap::new(),
        &SiteIndex::empty(),
        &files(),
        |_: &str| true,
    );
    assert!(matches!(r, Ok(None)));
    assert_eq!(attrs(&e), vec![("href", "mailto:someone@example.com")]);
}

#[test]
fn existing_internal_link_is_unchanged() {
    let mut e = el(&[("href", "/en-US/docs/Web/CSS")]);
    let r = check_and_fix_link(
        &mut e,
        &page(Locale::EnUs, "/en-US/docs/Web/HTML"),
        &UrlMap::new(),
        &UrlMap::new(),
        &SiteIndex::empty(),
        &files(),
        |_: &str| true,
    );
    assert!(matches!(r, Ok(None)));
    assert_eq!(attrs(&e), vec![("href", "/en-US/docs/Web/CSS")]);
}

#[test]
fn link_to_the_current_page_is_marked() {
    let mut e = el(&[("href", "/en-US/docs/Web/HTML#syntax")]);
    let r = check_and_fix_link(
        &mut e,
        &page(Locale::EnUs, "/en-US/docs/Web/HTML"),
        &UrlMap::new(),
        &UrlMap::new(),
        &SiteIndex::empty(),
        &files(),
        |_: &str| true,
    );
    assert!(matches!(r, Ok(None)));
    assert_eq!(
        attrs(&e),
        vec![("href", "/en-US/docs/Web/HTML#syntax"), ("aria-current", "page")]
    );
}

#[test]
fn redirected_link_is_pointed_at_its_target_and_reported() {
    let mut e = el(&[("href", "/en-US/docs/Old"), ("data-sourcepos", "3:5-3:20")]);
    let r = handle_internal_link(
        "/en-US/docs/Old",
        &mut e,
        &page(Locale::EnUs, "/en-US/docs/A"),
        &redirects(),
        &UrlMap::new(),
        &SiteIndex::empty(),
        &files(),
        |_: &str| true,
    )
    .unwrap()
    .unwrap();
    assert_eq!(r.line, Some(13));
    assert_eq!(r.col, Some(5));
    assert_eq!(r.url, "/en-US/docs/Old");
    assert_eq!(r.redirect, "/en-US/docs/New");
    assert_eq!(
        attrs(&e),
        vec![("href", "/en-US/docs/New"), ("data-sourcepos", "3:5-3:20")]
    );
    mark_flaw(&mut e, 42);
    assert_eq!(e.get_attribute("data-flaw").as_deref(), Some("42"));
}

#[test]
fn redirect_without_position_is_reported_without_one() {
    let mut e = el(&[("href", "https://developer.mozilla.org/en-US/docs/Old")]);
    let r = check_and_fix_link(
        &mut e,
        &page(Locale::EnUs, "/en-US/docs/A"),
        &redirects(),
        &UrlMap::new(),
        &SiteIndex::empty(),
        &files(),
        |_: &str| true,
    )
    .unwrap()
    .unwrap();
    assert_eq!(r.line, None);
    assert_eq!(r.col, None);
    assert_eq!(r.url, "https://developer.mozilla.org/en-US/docs/Old");
    assert_eq!(attrs(&e), vec![("href", "/en-US/docs/New")]);
}

#[test]
fn malformed_position_suppresses_the_report() {
    let mut e = el(&[("href", "/en-US/docs/Old"), ("data-sourcepos", "nonsense")]);
    let r = check_and_fix_link(
        &mut e,
        &page(Locale::EnUs, "/en-US/docs/A"),
        &redirects(),
        &UrlMap::new(),
        &SiteIndex::empty(),
        &files(),
        |_: &str| true,
    )
    .unwrap();
    assert!(r.is_none());
    assert_eq!(e.get_attribute("href").as_deref(), Some("/en-US/docs/New"));
}

#[test]
fn link_to_missing_page_loses_its_href() {
    let mut e = el(&[("href", "/en-US/docs/Nope")]);
    let r = check_and_fix_link(
        &mut e,
        &page(Locale::EnUs, "/en-US/docs/A"),
        &UrlMap::new(),
        &UrlMap::new(),
        &SiteIndex::empty(),
        &files(),
        |_: &str| false,
    );
    assert!(matches!(r, Ok(None)));
    assert_eq!(
        attrs(&e),
        vec![
            ("class", "page-not-created"),
            ("data-href", "/en-US/docs/Nope"),
            ("title", "This page has not been created yet.")
        ]
    );
}

#[test]
fn missing_tooltip_translation_is_an_error() {
    let mut e = el(&[("href", "/en-US/docs/Nope")]);
    let r = check_and_fix_link(
        &mut e,
        &page(Locale::EnUs, "/en-US/docs/A"),
        &UrlMap::new(),
        &UrlMap::new(),
        &SiteIndex::empty(),
        &Vec::new(),
        |_: &str| false,
    );
    assert!(r.is_err());
}

#[test]
fn translated_link_to_missing_page_falls_back_to_en_us() {
    let mut e = el(&[("href", "/de/docs/Web/Foo")]);
    let r = check_and_fix_link(
        &mut e,
        &page(Locale::De, "/de/docs/Web/A"),
        &UrlMap::new(),
        &UrlMap::new(),
        &SiteIndex::empty(),
        &files(),
        |u: &str| u.starts_with("/en-US/"),
    )
    .unwrap()
    .unwrap();
    assert_eq!(r.redirect, "/en-US/docs/Web/Foo");
    assert_eq!(
        attrs(&e),
        vec![("href", "/en-US/docs/Web/Foo"), ("class", "only-in-en-us")]
    );
}

#[test]
fn link_without_locale_keeps_its_form() {
    let mut e = el(&[("href", "/docs/Web/CSS")]);
    let r = check_and_fix_link(
        &mut e,
        &page(Locale::Fr, "/fr/docs/Web/HTML"),
        &UrlMap::new(),
        &UrlMap::new(),
        &SiteIndex::empty(),
        &files(),
        |u: &str| u == "/fr/docs/Web/CSS",
    );
    assert!(matches!(r, Ok(None)));
    assert_eq!(attrs(&e), vec![("href", "/docs/Web/CSS")]);
}

#[test]
fn some_links_are_never_checked() {
    assert!(ignore_link_check("/discord"));
    assert!(ignore_link_check("/en-US/plus/docs"));
    assert!(ignore_link_check("/users/fxa/login"));
    assert!(!ignore_link_check("/en-US/docs/Web"));
    let mut e = el(&[("href", "/discord")]);
    let r = check_and_fix_link(
        &mut e,
        &page(Locale::EnUs, "/en-US/docs/A"),
        &UrlMap::new(),
        &UrlMap::new(),
        &SiteIndex::empty(),
        &files(),
        |_: &str| false,
    );
    assert!(matches!(r, Ok(None)));
    assert_eq!(attrs(&e), vec![("href", "/discord")]);
}

#[test]
fn pages_without_a_configured_root_count_as_existing() {
    let roots = ContentRoots {
        blog: false,
        curriculum: true,
        contributor_spotlight: true,
        generic_content: true,
    };
    let site = SiteIndex::empty();
    assert!(page_exists("/en-US/blog/some-post/", &site, &roots, |_: &str| false));
    assert!(!page_exists("/en-US/docs/Web", &site, &roots, |_: &str| false));
    assert!(page_exists("/en-US/docs/Web", &site, &roots, |_: &str| true));
    assert!(!page_exists("not a url", &site, &roots, |_: &str| true));
}

#[test]
fn element_attributes_are_set_in_place() {
    let mut e = el(&[("a", "1"), ("b", "2")]);
    e.set_attribute("a", "3");
    e.set_attribute("c", "4");
    e.remove_attribute("b");
    assert_eq!(attrs(&e), vec![("a", "3"), ("c", "4")]);
    assert!(e.has_attribute("c"));
    assert!(!e.has_attribute("b"));
}

#[test]
fn tags_internal_links_so_fix_link_skips_them() {
    // A hand-written internal link is tagged with `data-templ-link`, so that the
    // link fixing later skips it.
    let mut e = el(&[("href", "/en-US/docs/Web/CSS/Reference/Values/foo")]);
    let issues = check_templ_link(
        &mut e,
        &UrlMap::new(),
        &UrlMap::new(),
        &SiteIndex::empty(),
        |_: &str| true,
    );
    assert!(issues.is_empty());
    assert!(
        e.has_attribute("data-templ-link"),
        "expected internal link to be tagged with `data-templ-link`"
    );
}

#[test]
fn leaves_external_links_alone() {
    let mut e = el(&[("href", "https://drafts.csswg.org/css-conditional-5/")]);
    let issues = check_templ_link(
        &mut e,
        &UrlMap::new(),
        &UrlMap::new(),
        &SiteIndex::empty(),
        |_: &str| false,
    );
    assert!(issues.is_empty());
    assert!(!e.has_attribute("data-templ-link"), "external link should not be tagged");
}

#[test]
fn skips_already_tagged_links() {
    // Links emitted through the template API already carry `data-templ-link` and have
    // been validated: they are not processed again.
    let mut e = el(&[
        ("data-templ-link", ""),
        ("href", "/en-US/docs/Web/CSS/Reference/Properties/color"),
    ]);
    let issues = check_templ_link(
        &mut e,
        &UrlMap::new(),
        &UrlMap::new(),
        &SiteIndex::empty(),
        |_: &str| false,
    );
    assert!(issues.is_empty());
    assert_eq!(
        e.attrs.iter().filter(|(k, _)| k == "data-templ-link").count(),
        1
    );
}

#[test]
fn hand_written_links_report_redirects_and_missing_pages() {
    let mut m = UrlMap::new();
    m.insert("/en-us/docs/a".to_string(), "/en-US/docs/A".to_string());
    m.insert("/en-us/docs/old".to_string(), "/en-US/docs/New".to_string());
    let mut e = el(&[("href", "/en-US/docs/a#x")]);
    let issues = check_templ_link(&mut e, &m, &UrlMap::new(), &SiteIndex::empty(), |_: &str| true);
    assert_eq!(issues.len(), 1);
    assert!(matches!(&issues[0], TemplLinkIssue::IllCased { url, redirect } if url == "/en-US/docs/a#x" && redirect == "/en-US/docs/A"));
    let mut e = el(&[("href", "/en-US/docs/Old")]);
    let issues = check_templ_link(&mut e, &m, &UrlMap::new(), &SiteIndex::empty(), |u: &str| u != "/en-US/docs/New");
    assert_eq!(issues.len(), 2);
    assert!(matches!(&issues[0], TemplLinkIssue::Redirected { redirect, .. } if redirect == "/en-US/docs/New"));
    assert!(matches!(&issues[1], TemplLinkIssue::Broken { url } if url == "/en-US/docs/Old"));
}
