use rari_doc::curriculum_page::parts_from_captures;
use rari_doc::link_render::render_pieces;
use rari_doc::page::PageRef;
use rari_doc::sidebar::RenderPiece;
use rari_doc::link_render::{
    list_sub_pages_flattened_internal, list_sub_pages_reverse_internal, render_internal_link,
    render_link_from_page, render_link_via_page, write_li_with_badges, write_parent_li, BadgeHtml,
    LinkFlags, LinkModifier, LinkTarget,
};
use rari_doc::locale::Locale;
use rari_doc::sub_listing::list_sub_pages_nested_internal;
use rari_doc::page::{PageCategory, PageType};
use rari_doc::resolve::DocError;
use rari_doc::site::FeatureStatus;

fn badges() -> BadgeHtml {
    BadgeHtml {
        experimental: "EXP".to_string(),
        non_standard: "NS".to_string(),
        deprecated: "DEP".to_string(),
    }
}

fn target(url: &str, title: &str, locale: Locale, t: PageType) -> LinkTarget {
    LinkTarget {
        url: url.to_string(),
        title: title.to_string(),
        short_title: None,
        locale,
        page_type: t,
        status: vec![],
    }
}

fn anchorize(s: &str) -> String {
    s.to_lowercase().replace(' ', "_")
}

#[test]
fn internal_link_with_everything() {
    let mut out = String::from(">");
    let m = LinkModifier {
        badges: vec![FeatureStatus::Deprecated, FeatureStatus::Experimental],
        code: true,
        only_en_us: true,
    };
    render_internal_link(&mut out, "/en-US/docs/Web", Some("Foo Bar"), "Web", Some("A \"t\""), &m, true, &badges(), anchorize)
        .unwrap();
    assert_eq!(
        out,
        "><a href=\"/en-US/docs/Web#foo_bar\" title=\"A &quot;t&quot;\" class=\"only-in-en-us\" data-templ-link><code>Web</code>EXPDEP</a>"
    );
}

#[test]
fn plain_internal_link() {
    let mut out = String::new();
    let m = LinkModifier { badges: vec![], code: false, only_en_us: false };
    render_internal_link(&mut out, "/x", None, "X", None, &m, false, &badges(), anchorize).unwrap();
    assert_eq!(out, "<a href=\"/x\">X</a>");
}

#[test]
fn link_from_page_escapes_its_title() {
    let mut out = String::new();
    let mut p = target("/en-US/docs/A", "a &lt; b > c", Locale::EnUs, PageType::Other);
    p.short_title = None;
    let m = LinkModifier { badges: vec![FeatureStatus::NonStandard], code: false, only_en_us: false };
    render_link_from_page(&mut out, &p, &m, &badges()).unwrap();
    assert_eq!(out, "<a href=\"/en-US/docs/A\" data-templ-link>a &lt; b &gt; cNS</a>");
}

#[test]
fn link_via_page_found() {
    let mut out = String::new();
    let asked = std::cell::RefCell::new(vec![]);
    let flags = LinkFlags { code: false, with_badges: true, report: true };
    render_link_via_page(
        &mut out,
        "/Web/CSS#x",
        Locale::De,
        None,
        None,
        flags,
        &badges(),
        |u: &str, report: bool| {
            asked.borrow_mut().push((u.to_string(), report));
            let mut p = target("/en-US/docs/Web/CSS", "CSS: Cascading &amp; <b>", Locale::EnUs, PageType::Other);
            p.status = vec![FeatureStatus::NonStandard];
            Some(p)
        },
        anchorize,
    )
    .unwrap();
    assert_eq!(asked.into_inner(), vec![("/de/docs/Web/CSS".to_string(), true)]);
    assert_eq!(
        out,
        "<a href=\"/en-US/docs/Web/CSS#x\" class=\"only-in-en-us\" data-templ-link>CSS: Cascading &amp; &lt;b&gt;NS</a>"
    );
}

#[test]
fn link_via_page_with_content_and_no_badges() {
    let mut out = String::new();
    let flags = LinkFlags { code: true, with_badges: false, report: false };
    render_link_via_page(
        &mut out,
        "/en-US/docs/Web/API",
        Locale::EnUs,
        Some("<raw>"),
        Some("t"),
        flags,
        &badges(),
        |_: &str, _: bool| {
            let mut p = target("/en-US/docs/Web/API", "API", Locale::EnUs, PageType::Other);
            p.status = vec![FeatureStatus::Deprecated];
            Some(p)
        },
        anchorize,
    )
    .unwrap();
    assert_eq!(out, "<a href=\"/en-US/docs/Web/API\" title=\"t\" data-templ-link><code><raw></code></a>");
}

#[test]
fn link_via_page_missing_falls_back() {
    let flags = LinkFlags { code: false, with_badges: false, report: true };
    let mut out = String::new();
    render_link_via_page(&mut out, "/en-US/docs/Web/Missing/", Locale::EnUs, None, Some("a\"b"), flags, &badges(), |_: &str, _: bool| None, anchorize)
        .unwrap();
    assert_eq!(out, "<a data-templ-link href=\"/en-US/docs/Web/Missing/\" title=\"a&quot;b\">Missing</a>");
    let mut out = String::new();
    render_link_via_page(&mut out, "/Web/Gone", Locale::Fr, Some("a &amp; b"), None, flags, &badges(), |_: &str, _: bool| None, anchorize)
        .unwrap();
    assert_eq!(out, "<a data-templ-link href=\"/fr/docs/Web/Gone\">a &amp; b</a>");
}

#[test]
fn link_via_page_to_another_site() {
    let flags = LinkFlags { code: false, with_badges: false, report: true };
    let mut out = String::new();
    render_link_via_page(
        &mut out,
        "https://x.org/a",
        Locale::EnUs,
        None,
        None,
        flags,
        &badges(),
        |_: &str, _: bool| -> Option<LinkTarget> { panic!("no page is looked up") },
        anchorize,
    )
    .unwrap();
    assert_eq!(out, "<a data-templ-link href=\"https://x.org/a\">https:&#x2F;&#x2F;x.org&#x2F;a</a>");
}

#[test]
fn list_item_with_badges() {
    let mut out = String::new();
    let mut p = target("/en-US/docs/Web/A", "A <b>", Locale::EnUs, PageType::Other);
    p.status = vec![FeatureStatus::Experimental];
    let none = |_: &str, _: Locale| -> Result<LinkTarget, DocError> { panic!("en-US needs no lookup") };
    write_li_with_badges(&mut out, &p, Locale::EnUs, true, false, &badges(), &none).unwrap();
    assert_eq!(out, "<li><a href=\"/en-US/docs/Web/A\" data-templ-link><code>A &lt;b&gt;</code>EXP</a>");
    let mut out = String::new();
    let de = |u: &str, l: Locale| -> Result<LinkTarget, DocError> {
        assert_eq!(l, Locale::De);
        Ok(target(&u.replace("en-US", "de"), "A (de)", Locale::De, PageType::Other))
    };
    write_li_with_badges(&mut out, &p, Locale::De, false, true, &badges(), &de).unwrap();
    assert_eq!(out, "<li><a href=\"/de/docs/Web/A\" data-templ-link>A (de)EXP</a></li>");
    let mut out = String::from("x");
    let fail = |u: &str, _: Locale| -> Result<LinkTarget, DocError> { Err(DocError::PageNotFound(u.to_string(), PageCategory::Doc)) };
    assert!(write_li_with_badges(&mut out, &p, Locale::De, false, true, &badges(), &fail).is_err());
    assert_eq!(out, "x");
}

fn overview_files() -> Vec<(String, Vec<(String, Vec<(String, String)>)>)> {
    vec![(
        "Template".to_string(),
        vec![("overview".to_string(), vec![("en-US".to_string(), "Overview".to_string())])],
    )]
}

#[test]
fn parent_list_item() {
    let mut out = String::new();
    let p = target("/en-US/docs/Web", "Web", Locale::EnUs, PageType::Other);
    write_parent_li(&mut out, &p, Locale::De, &overview_files(), &badges()).unwrap();
    assert_eq!(out, "<li><a href=\"/en-US/docs/Web\" class=\"only-in-en-us\" data-templ-link>Overview</a></li>");
    let mut out = String::new();
    assert!(matches!(write_parent_li(&mut out, &p, Locale::EnUs, &vec![], &badges()), Err(DocError::L10nError(_))));
    assert_eq!(out, "");
}

#[test]
fn flattened_and_reverse_listings() {
    let pages = vec![
        target("/en-US/docs/A", "A", Locale::EnUs, PageType::WebApiInstanceMethod),
        target("/en-US/docs/B", "B", Locale::EnUs, PageType::Other),
        target("/en-US/docs/C", "C", Locale::EnUs, PageType::WebApiInstanceMethod),
    ];
    let none = |_: &str, _: Locale| -> Result<LinkTarget, DocError> { panic!("en-US needs no lookup") };
    let parent = target("/en-US/docs/P", "P", Locale::EnUs, PageType::Other);
    let mut out = String::new();
    list_sub_pages_flattened_internal(
        &mut out,
        &pages,
        Some(&parent),
        Locale::EnUs,
        &[PageType::WebApiInstanceMethod],
        false,
        &overview_files(),
        &badges(),
        &none,
    )
    .unwrap();
    assert_eq!(
        out,
        "<li><a href=\"/en-US/docs/P\" data-templ-link>Overview</a></li><li><a href=\"/en-US/docs/A\" data-templ-link>A</a></li><li><a href=\"/en-US/docs/C\" data-templ-link>C</a></li>"
    );
    let mut out = String::new();
    list_sub_pages_reverse_internal(&mut out, &pages, Locale::EnUs, &[], false, &badges(), &none).unwrap();
    assert_eq!(
        out,
        "<li><a href=\"/en-US/docs/C\" data-templ-link>C</a></li><li><a href=\"/en-US/docs/B\" data-templ-link>B</a></li><li><a href=\"/en-US/docs/A\" data-templ-link>A</a></li>"
    );
}

#[test]
fn listing_stops_at_a_failed_lookup() {
    let pages = vec![
        target("/en-US/docs/A", "A", Locale::EnUs, PageType::Other),
        target("/en-US/docs/B", "B", Locale::EnUs, PageType::Other),
    ];
    let lookup = |u: &str, _: Locale| -> Result<LinkTarget, DocError> {
        if u.ends_with('B') {
            Err(DocError::PageNotFound(u.to_string(), PageCategory::Doc))
        } else {
            Ok(target(u, "A (fr)", Locale::Fr, PageType::Other))
        }
    };
    let mut out = String::new();
    let r = list_sub_pages_flattened_internal(&mut out, &pages, None, Locale::Fr, &[], false, &vec![], &badges(), &lookup);
    assert!(matches!(r, Err(DocError::PageNotFound(u, _)) if u == "/en-US/docs/B"));
    assert_eq!(out, "<li><a href=\"/en-US/docs/A\" data-templ-link>A (fr)</a></li>");
}

#[test]
fn curriculum_parts_from_given_captures() {
    let content = "# Title\nBody";
    let r = parts_from_captures("a/b".to_string(), content, Some(vec![Some("# Title\n".to_string()), Some("Title".to_string())]))
        .expect("a title line");
    assert_eq!(r.url, "/en-US/a/b/");
    assert_eq!(r.title, "Title");
    assert_eq!(r.content, "Body");
    assert!(matches!(parts_from_captures("a".to_string(), content, None), Err(DocError::NoH1)));
    assert!(matches!(
        parts_from_captures("a".to_string(), content, Some(vec![Some(String::new()), Some("T".to_string())])),
        Err(DocError::NoH1)
    ));
}

#[test]
fn sidebar_pieces_render_to_html() {
    let pieces = vec![
        RenderPiece::Html("<li>".to_string()),
        RenderPiece::LinkViaPage { link: "/Web/HTML".to_string(), title: Some("HTML".to_string()), code: true },
        RenderPiece::LinkFromPage {
            page: PageRef {
                url: "/en-US/docs/Web/CSS".to_string(),
                slug: "Web/CSS".to_string(),
                title: "CSS".to_string(),
                short_title: None,
                locale: Locale::EnUs,
                page_type: PageType::Other,
            },
            code: false,
            only_en_us: true,
        },
        RenderPiece::ListSubPages { url: "/en-US/docs/Web".to_string(), page_types: vec![], code: false, include_parent: false },
        RenderPiece::Html("</li>".to_string()),
    ];
    let get_page = |u: &str, _: bool| -> Option<LinkTarget> {
        let mut t = target(u, "ignored", Locale::De, PageType::Other);
        t.status = vec![FeatureStatus::Deprecated];
        Some(t)
    };
    let link_page = |p: &PageRef| -> LinkTarget { target(&p.url, &p.title, p.locale, p.page_type) };
    let badges_for = |l: Locale| -> BadgeHtml {
        let mut b = badges();
        if l == Locale::De {
            b.deprecated = "DEP(de)".to_string();
        }
        b
    };
    let lists = |p: &RenderPiece| -> Result<String, DocError> {
        match p {
            RenderPiece::ListSubPages { url, .. } => Ok(format!("<ol data-url=\"{url}\"></ol>")),
            _ => Err(DocError::InvalidTempl("unexpected".to_string())),
        }
    };
    let html = render_pieces(&pieces, Locale::De, &get_page, &anchorize, &link_page, &badges_for, &lists).unwrap();
    assert_eq!(
        html,
        "<li><a href=\"/de/docs/Web/HTML\" data-templ-link><code>HTML</code>DEP(de)</a><a href=\"/en-US/docs/Web/CSS\" class=\"only-in-en-us\" data-templ-link>CSS</a><ol data-url=\"/en-US/docs/Web\"></ol></li>"
    );
    let bad = vec![RenderPiece::Html("x".to_string()), RenderPiece::WebExtApi { slug: "s".to_string() }];
    assert!(matches!(
        render_pieces(&bad, Locale::De, &get_page, &anchorize, &link_page, &badges_for, &lists),
        Err(DocError::InvalidTempl(_))
    ));
}

fn tree(u: &str, _depth: Option<usize>) -> Result<Vec<LinkTarget>, DocError> {
    let t = |url: &str, title: &str, pt: PageType| target(url, title, Locale::EnUs, pt);
    match u {
        "/en-US/docs/P" => Ok(vec![
            t("/en-US/docs/P/A", "A", PageType::Other),
            t("/en-US/docs/P/B", "B", PageType::WebApiInstanceMethod),
        ]),
        "/en-US/docs/P/A" => Ok(vec![
            t("/en-US/docs/P/A/X", "X", PageType::WebApiInstanceMethod),
            t("/en-US/docs/P/A/Y", "Y", PageType::Other),
        ]),
        "/en-US/docs/Missing" => Err(DocError::PageNotFound(u.to_string(), PageCategory::Doc)),
        _ => Ok(vec![]),
    }
}

#[test]
fn nested_listing_nests_sub_pages() {
    let same = |u: &str, _: Locale| -> Result<LinkTarget, DocError> { Ok(target(u, "P", Locale::EnUs, PageType::Other)) };
    let mut out = String::new();
    list_sub_pages_nested_internal(&mut out, "/en-US/docs/P", Locale::EnUs, None, &[], false, false, &vec![], &badges(), &tree, &same)
        .unwrap();
    assert_eq!(
        out,
        "<li><a href=\"/en-US/docs/P/A\" data-templ-link>A</a><ol><li><a href=\"/en-US/docs/P/A/X\" data-templ-link>X</a></li><li><a href=\"/en-US/docs/P/A/Y\" data-templ-link>Y</a></li></ol></li><li><a href=\"/en-US/docs/P/B\" data-templ-link>B</a></li>"
    );
}

#[test]
fn nested_listing_with_parent_and_types() {
    let same = |u: &str, _: Locale| -> Result<LinkTarget, DocError> { Ok(target(u, "P", Locale::EnUs, PageType::Other)) };
    let mut out = String::new();
    list_sub_pages_nested_internal(
        &mut out,
        "/en-US/docs/P",
        Locale::EnUs,
        None,
        &[PageType::WebApiInstanceMethod],
        false,
        true,
        &overview_files(),
        &badges(),
        &tree,
        &same,
    )
    .unwrap();
    // A is not of the listed type: its own items stand without its item, but nested.
    assert_eq!(
        out,
        "<li><a href=\"/en-US/docs/P\" data-templ-link>Overview</a></li><ol><li><a href=\"/en-US/docs/P/A\" data-templ-link>Overview</a></li><li><a href=\"/en-US/docs/P/A/X\" data-templ-link>X</a></li></ol><li><a href=\"/en-US/docs/P/B\" data-templ-link>B</a></li>"
    );
}

#[test]
fn nested_listing_depth_and_errors() {
    let same = |u: &str, _: Locale| -> Result<LinkTarget, DocError> { Ok(target(u, "P", Locale::EnUs, PageType::Other)) };
    let mut out = String::from("x");
    list_sub_pages_nested_internal(&mut out, "/en-US/docs/P", Locale::EnUs, Some(0), &[], false, false, &vec![], &badges(), &tree, &same)
        .unwrap();
    assert_eq!(out, "x");
    let mut out = String::new();
    let r = list_sub_pages_nested_internal(&mut out, "/en-US/docs/Missing", Locale::EnUs, None, &[], false, false, &vec![], &badges(), &tree, &same);
    assert!(matches!(r, Err(DocError::PageNotFound(u, _)) if u == "/en-US/docs/Missing"));
    assert_eq!(out, "");
    let mut out = String::new();
    let r = list_sub_pages_nested_internal(&mut out, "/en-US/docs/P", Locale::EnUs, None, &[], false, true, &vec![], &badges(), &tree, &same);
    assert!(matches!(r, Err(DocError::L10nError(_))));
    assert_eq!(out, "");
}
