use rari_doc::page::SiteIndex;
use rari_doc::redirects::{
    en_redirect_for_locale, parse_redirect_line, read_redirects, resolve_redirect, UrlMap,
};

fn redirects(entries: &[(&str, &str)]) -> UrlMap {
    let mut m = UrlMap::new();
    for (k, v) in entries {
        m.insert(k.to_lowercase(), v.to_string());
    }
    m
}

#[test]
fn test_en_redirect_translated_to_locale() {
    let map = redirects(&[(
        "/en-US/docs/Learn/Accessibility/WAI-ARIA_basics",
        "/en-US/docs/Learn_web_development/Core/Accessibility/WAI-ARIA_basics",
    )]);
    assert_eq!(
        en_redirect_for_locale("/es/docs/Learn/Accessibility/WAI-ARIA_basics", &map, &SiteIndex::empty()),
        Some("/es/docs/Learn_web_development/Core/Accessibility/WAI-ARIA_basics".to_string())
    );
}

#[test]
fn test_en_redirect_not_applied_for_en_us() {
    let map = redirects(&[("/en-US/docs/Old", "/en-US/docs/New")]);
    assert_eq!(en_redirect_for_locale("/en-US/docs/Old", &map, &SiteIndex::empty()), None);
}

#[test]
fn test_en_redirect_no_match_returns_none() {
    let map = redirects(&[]);
    assert_eq!(
        en_redirect_for_locale("/es/docs/Learn/Accessibility/WAI-ARIA_basics", &map, &SiteIndex::empty()),
        None
    );
}

#[test]
fn test_en_redirect_non_doc_ignored() {
    // Blog posts should not be affected
    let map = redirects(&[("/en-US/docs/Old", "/en-US/docs/New")]);
    assert_eq!(en_redirect_for_locale("/en-US/blog/some-post", &map, &SiteIndex::empty()), None);
}

#[test]
fn redirect_lines_are_parsed() {
    assert_eq!(
        parse_redirect_line("/en-US/docs/A\t/en-US/docs/B"),
        Some(("/en-us/docs/a".to_string(), "/en-US/docs/B".to_string()))
    );
    assert_eq!(parse_redirect_line("# comment\tx"), None);
    assert_eq!(parse_redirect_line("no tab here"), None);
    let mut m = UrlMap::new();
    read_redirects(
        &["/A\t/B".to_string(), "#x\ty".to_string(), "/a\t/C".to_string()],
        &mut m,
    );
    assert_eq!(m.get("/a").map(|s| s.as_str()), Some("/C"));
    assert_eq!(m.get("#x"), None);
}

#[test]
fn resolve_redirect_keeps_fragment() {
    let map = redirects(&[("/en-US/docs/Old", "/en-US/docs/New")]);
    let pages = UrlMap::new();
    let site = SiteIndex::empty();
    assert_eq!(
        resolve_redirect("/en-US/docs/Old#sec", &map, &pages, &site).as_deref(),
        Some("/en-US/docs/New#sec")
    );
    assert_eq!(resolve_redirect("/en-US/docs/Other", &map, &pages, &site), None);
    let mut pages = UrlMap::new();
    pages.insert("/en-us/docs/web".to_string(), "/en-US/docs/Web".to_string());
    assert_eq!(
        resolve_redirect("/en-us/docs/web", &map, &pages, &site).as_deref(),
        Some("/en-US/docs/Web")
    );
    assert_eq!(resolve_redirect("/en-US/docs/Web", &map, &pages, &site), None);
}
