use rari_doc::locale::Locale;
use rari_doc::page::{PageRef, PageType};
use rari_doc::sidebar::{Details, MetaChildren, SidebarMetaEntry, SidebarMetaEntryContent};
use rari_doc::webext::{api_page_title, build_sublist, children, entry};

fn page(slug: &str, title: &str, t: PageType) -> PageRef {
    PageRef {
        url: format!("/en-US/docs/{slug}"),
        slug: slug.to_string(),
        title: title.to_string(),
        short_title: None,
        locale: Locale::EnUs,
        page_type: t,
    }
}

fn files(with_events: bool) -> Vec<(String, Vec<(String, Vec<(String, String)>)>)> {
    let mut keys = vec![];
    for (k, v) in [
        ("Properties", "Properties"),
        ("Methods", "Methods"),
        ("Types", "Types"),
        ("Events", "Events"),
    ] {
        if k == "Events" && !with_events {
            continue;
        }
        keys.push((
            k.to_string(),
            vec![
                ("en-US".to_string(), v.to_string()),
                ("de".to_string(), format!("{v} (de)")),
            ],
        ));
    }
    vec![("Common".to_string(), keys)]
}

fn link_of(e: &SidebarMetaEntry) -> (Option<&str>, Option<&str>) {
    match &e.content {
        SidebarMetaEntryContent::Link { link, title } => (link.as_deref(), title.as_deref()),
        _ => panic!("not a link"),
    }
}

const NS: &str = "Mozilla/Add-ons/WebExtensions/API";

#[test]
fn api_titles() {
    let p = page("Web/API/Foo/bar", "Foo.bar", PageType::WebApiInstanceMethod);
    assert_eq!(api_page_title(&p), "bar");
    let e = page("Web/API/Foo/click_event", "Foo: click event", PageType::WebApiEvent);
    assert_eq!(api_page_title(&e), "click");
    let mut s = page("Web/API/Foo/x", "Foo.x", PageType::WebApiStaticMethod);
    s.short_title = Some("Short".to_string());
    assert_eq!(api_page_title(&s), "Short");
    let plain = page("Web/API/Foo", "Foo", PageType::Other);
    assert_eq!(api_page_title(&plain), "Foo");
}

#[test]
fn sublists_group_pages_under_a_label() {
    let mut entries = vec![];
    build_sublist(&mut entries, &[], "Nothing");
    assert!(entries.is_empty());
    let pages = vec![page(
        &format!("{NS}/tabs/query"),
        "tabs.query()",
        PageType::WebextensionApiFunction,
    )];
    build_sublist(&mut entries, &pages, "Methods");
    assert_eq!(entries.len(), 1);
    assert_eq!(entries[0].details, Details::Open);
    assert_eq!(link_of(&entries[0]), (None, Some("Methods")));
    match &entries[0].children {
        MetaChildren::Children(c) => {
            assert_eq!(c.len(), 1);
            assert!(c[0].code);
            assert_eq!(
                link_of(&c[0]),
                (
                    Some("/Mozilla/Add-ons/WebExtensions/API/tabs/query"),
                    Some("query()")
                )
            );
        }
        _ => panic!("expected children"),
    }
}

#[test]
fn namespace_groups_come_in_order() {
    let pages = vec![
        page(&format!("{NS}/tabs/Tab"), "tabs.Tab", PageType::WebextensionApiType),
        page(&format!("{NS}/tabs/onCreated"), "tabs.onCreated", PageType::WebextensionApiEvent),
        page(&format!("{NS}/tabs/query"), "tabs.query()", PageType::WebextensionApiFunction),
        page(&format!("{NS}/tabs/other"), "other", PageType::Other),
    ];
    let e = entry(Locale::De, &files(true), &pages).unwrap();
    let labels: Vec<_> = e.iter().map(|x| link_of(x).1.unwrap()).collect();
    assert_eq!(labels, vec!["Methods (de)", "Types (de)", "Events (de)"]);
    assert!(entry(Locale::EnUs, &files(false), &pages).is_err());
}

#[test]
fn the_current_namespace_is_expanded() {
    let api = vec![
        page(&format!("{NS}/alarms"), "alarms", PageType::Other),
        page(&format!("{NS}/tabs"), "tabs", PageType::Other),
    ];
    let below = vec![page(
        &format!("{NS}/tabs/query"),
        "tabs.query()",
        PageType::WebextensionApiFunction,
    )];
    let c = children(&format!("{NS}/tabs"), Locale::EnUs, &files(true), &api, &below).unwrap();
    assert_eq!(c.len(), 3);
    assert_eq!(
        link_of(&c[0]),
        (
            Some("/Mozilla/Add-ons/WebExtensions/Browser_support_for_JavaScript_APIs"),
            None
        )
    );
    assert!(matches!(c[1].children, MetaChildren::NoChildren));
    match &c[2].children {
        MetaChildren::Children(groups) => assert_eq!(groups.len(), 1),
        _ => panic!("expected the current namespace expanded"),
    }
    // Without translations, expanding fails.
    assert!(children(&format!("{NS}/tabs"), Locale::EnUs, &files(false), &api, &below).is_err());
    // No namespace is expanded: no translation is needed.
    assert_eq!(
        children("elsewhere", Locale::EnUs, &files(false), &api, &below)
            .unwrap()
            .len(),
        3
    );
    assert!(children("x", Locale::EnUs, &files(true), &[], &below)
        .unwrap()
        .is_empty());
}
