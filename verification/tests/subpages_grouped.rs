use rari_doc::locale::Locale;
use rari_doc::link_render::{BadgeHtml, LinkTarget};
use rari_doc::page::{PageCategory, PageType};
use rari_doc::resolve::DocError;
use rari_doc::sub_listing::list_sub_pages_flattened_grouped_internal;
use rari_doc::subpages::group_sub_pages;

fn page(title: &str, t: PageType) -> LinkTarget {
    LinkTarget {
        url: format!("/en-US/docs/Web/CSS/{title}"),
        title: title.to_string(),
        short_title: None,
        locale: Locale::EnUs,
        page_type: t,
        status: vec![],
    }
}

fn titles(v: &[&LinkTarget]) -> Vec<String> {
    v.iter().map(|p| p.title.clone()).collect()
}

#[test]
fn pages_group_by_title_prefix_in_key_order() {
    let pages = vec![
        page("font-weight", PageType::Other),
        page("color", PageType::Other),
        page("font-size", PageType::Other),
        page("-webkit-box", PageType::Other),
        page("font-family", PageType::Other),
    ];
    let g = group_sub_pages(&pages, &[]);
    let keys: Vec<&str> = g.iter().map(|(k, _)| k.as_str()).collect();
    assert_eq!(keys, vec!["-webkit", "color", "font"]);
    assert_eq!(titles(&g[2].1), vec!["font-weight", "font-size", "font-family"]);
    assert_eq!(titles(&g[1].1), vec!["color"]);
}

#[test]
fn only_pages_of_the_types_asked_for_are_grouped() {
    let pages = vec![
        page("a-1", PageType::WebApiEvent),
        page("a-2", PageType::Other),
    ];
    let g = group_sub_pages(&pages, &[PageType::WebApiEvent]);
    assert_eq!(g.len(), 1);
    assert_eq!(titles(&g[0].1), vec!["a-1"]);
}

#[test]
fn a_title_without_prefix_replaces_its_group() {
    let pages = vec![page("x-1", PageType::Other), page("x", PageType::Other)];
    let g = group_sub_pages(&pages, &[]);
    assert_eq!(g.len(), 1);
    assert_eq!(g[0].0, "x");
    assert_eq!(titles(&g[0].1), vec!["x"]);
}

fn badges() -> BadgeHtml {
    BadgeHtml { experimental: "E".to_string(), non_standard: "N".to_string(), deprecated: "D".to_string() }
}

fn overview_files() -> Vec<(String, Vec<(String, Vec<(String, String)>)>)> {
    vec![(
        "Template".to_string(),
        vec![("overview".to_string(), vec![("en-US".to_string(), "Overview".to_string())])],
    )]
}

fn li(title: &str) -> String {
    format!("<li><a href=\"/en-US/docs/Web/CSS/{title}\" data-templ-link>{title}</a></li>")
}

#[test]
fn large_groups_are_toggles() {
    let pages = vec![
        page("font-a", PageType::Other),
        page("color", PageType::Other),
        page("font-b", PageType::Other),
        page("font-c", PageType::Other),
    ];
    let parent = LinkTarget { url: "/en-US/docs/Web/CSS".to_string(), ..page("CSS", PageType::Other) };
    let none = |_: &str, _: Locale| -> Result<LinkTarget, DocError> { panic!("en-US needs no lookup") };
    let mut out = String::new();
    list_sub_pages_flattened_grouped_internal(&mut out, &pages, Some(&parent), Locale::EnUs, &[], false, &overview_files(), &badges(), &none)
        .unwrap();
    let expected = format!(
        "<li><a href=\"/en-US/docs/Web/CSS\" data-templ-link>Overview</a></li>{}<li class=\"toggle\"><details><summary>font-*</summary><ol>{}{}{}</ol></details></li>",
        li("color"),
        li("font-a"),
        li("font-b"),
        li("font-c")
    );
    assert_eq!(out, expected);
}

#[test]
fn small_groups_are_plain_items_and_errors_stop_the_listing() {
    let pages = vec![page("x-1", PageType::Other), page("x-2", PageType::Other), page("y", PageType::Other)];
    let lookup = |u: &str, _: Locale| -> Result<LinkTarget, DocError> {
        if u.ends_with('y') {
            Err(DocError::PageNotFound(u.to_string(), PageCategory::Doc))
        } else {
            Ok(LinkTarget { locale: Locale::De, ..page(&u["/en-US/docs/Web/CSS/".len()..], PageType::Other) })
        }
    };
    let mut out = String::new();
    let r = list_sub_pages_flattened_grouped_internal(&mut out, &pages, None, Locale::De, &[], false, &vec![], &badges(), &lookup);
    assert!(matches!(r, Err(DocError::PageNotFound(u, _)) if u.ends_with('y')));
    assert_eq!(
        out,
        "<li><a href=\"/en-US/docs/Web/CSS/x-1\" data-templ-link>x-1</a></li><li><a href=\"/en-US/docs/Web/CSS/x-2\" data-templ-link>x-2</a></li>"
    );
    let mut out = String::new();
    let r = list_sub_pages_flattened_grouped_internal(&mut out, &pages, Some(&pages[0]), Locale::EnUs, &[], false, &vec![], &badges(), &lookup);
    assert!(matches!(r, Err(DocError::L10nError(_))));
    assert_eq!(out, "");
}
