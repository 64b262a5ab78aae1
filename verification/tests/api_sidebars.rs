use rari_doc::apiref;
use rari_doc::data::{GroupData, InterfaceData, L10nError};
use rari_doc::default_api_sidebar;
use rari_doc::locale::Locale;
use rari_doc::page::{PageRef, PageType};
use rari_doc::resolve::DocError;
use rari_doc::sidebar::{Details, MetaChildren, SidebarMetaEntry, SidebarMetaEntryContent};

fn page(slug: &str, title: &str, t: PageType) -> PageRef {
    PageRef {
        url: format!("/en-US/docs/{slug}"),
        slug: slug.to_string(),
        title: title.to_string(),
        short_title: None,
        locale: Locale::EnUs,
        page_type: t,
    }
}

fn common(keys: &[(&str, &str)]) -> Vec<(String, Vec<(String, Vec<(String, String)>)>)> {
    let entries = keys
        .iter()
        .map(|(k, v)| (k.to_string(), vec![("en-US".to_string(), v.to_string())]))
        .collect();
    vec![("Common".to_string(), entries)]
}

fn group_files() -> Vec<(String, Vec<(String, Vec<(String, String)>)>)> {
    common(&[
        ("Properties", "Properties"),
        ("Methods", "Methods"),
        ("Events", "Events"),
        ("Interfaces", "Interfaces"),
        ("Guides", "Guides"),
        ("Tutorial", "Tutorial"),
    ])
}

fn interface_files() -> Vec<(String, Vec<(String, Vec<(String, String)>)>)> {
    common(&[
        ("Static_properties", "Static_properties"),
        ("Instance_properties", "Instance properties"),
        ("Static_methods", "Static methods"),
        ("Instance_methods", "Instance methods"),
        ("Constructor", "Constructor"),
        ("Inheritance", "Inheritance"),
        ("Related_pages", "Related pages for $1"),
        ("Related_pages_wo_group", "Related pages"),
        ("Events", "Events"),
    ])
}

fn strs(v: &[&str]) -> Vec<String> {
    v.iter().map(|s| s.to_string()).collect()
}

fn link_of(e: &SidebarMetaEntry) -> (Option<&str>, Option<&str>) {
    match &e.content {
        SidebarMetaEntryContent::Link { link, title } => (link.as_deref(), title.as_deref()),
        _ => panic!("not a link"),
    }
}

fn children(e: &SidebarMetaEntry) -> &Vec<SidebarMetaEntry> {
    match &e.children {
        MetaChildren::Children(c) => c,
        _ => panic!("no children"),
    }
}

fn fetch_group() -> GroupData {
    GroupData {
        overview: strs(&["Fetch API"]),
        guides: strs(&["/docs/Web/API/Fetch_API/Using_Fetch", "/en-US/elsewhere"]),
        interfaces: strs(&["Request", "Response"]),
        methods: strs(&["Window.fetch()"]),
        properties: strs(&[]),
        events: strs(&["Window: load", "broken"]),
        tutorial: strs(&[]),
    }
}

#[test]
fn group_sidebar_lists_the_group() {
    let groups = vec![("Fetch API".to_string(), fetch_group())];
    let mut asked = vec![];
    let r = default_api_sidebar::sidebar("Fetch API", Locale::EnUs, &group_files(), &groups, |slug: &str| {
        asked.push(slug.to_string());
        Ok(page(slug, "Fetch API", PageType::Other))
    })
    .expect("sidebar");
    assert_eq!(asked, vec!["Web/API/Fetch_API".to_string()]);
    let es = &r.entries;
    assert_eq!(es.len(), 5);
    assert!(es[0].section);
    assert!(matches!(&es[0].content, SidebarMetaEntryContent::Page(p) if p.slug == "Web/API/Fetch_API"));
    assert_eq!(link_of(&es[1]), (None, Some("Guides")));
    assert_eq!(es[1].details, Details::Open);
    let guides = children(&es[1]);
    assert_eq!(link_of(&guides[0]), (Some("/Web/API/Fetch_API/Using_Fetch"), None));
    assert_eq!(link_of(&guides[1]), (Some("/en-US/elsewhere"), None));
    assert_eq!(link_of(&es[2]), (None, Some("Interfaces")));
    assert_eq!(link_of(&children(&es[2])[1]), (Some("/Web/API/Response"), Some("Response")));
    assert!(children(&es[2])[1].code);
    assert_eq!(link_of(&es[3]), (None, Some("Methods")));
    assert_eq!(link_of(&children(&es[3])[0]), (Some("/Web/API/Window/fetch"), Some("Window.fetch()")));
    assert_eq!(link_of(&es[4]), (None, Some("Events")));
    let events = children(&es[4]);
    assert_eq!(events.len(), 1);
    assert_eq!(link_of(&events[0]), (Some("/Web/API/Window/load_event"), Some("Window: load")));
}

#[test]
fn group_sidebar_of_an_unknown_group_is_an_error() {
    let r = default_api_sidebar::sidebar("Nope", Locale::EnUs, &group_files(), &[], |_: &str| {
        panic!("no page is read")
    });
    assert!(matches!(r, Err(DocError::InvalidSlugForX(g)) if g == "Nope"));
}

#[test]
fn group_sidebar_needs_its_labels() {
    let files = common(&[("Properties", "Properties")]);
    let r = default_api_sidebar::sidebar("Fetch API", Locale::EnUs, &files, &[], |_: &str| {
        panic!("no page is read")
    });
    match r {
        Err(DocError::L10nError(L10nError::InvalidKey(k))) => assert_eq!(k, "Methods"),
        _ => panic!("expected a missing label"),
    }
}

#[test]
fn group_sidebar_passes_on_a_missing_overview() {
    let groups = vec![("Fetch API".to_string(), fetch_group())];
    let r = default_api_sidebar::sidebar("Fetch API", Locale::EnUs, &group_files(), &groups, |s: &str| {
        Err(DocError::InvalidTempl(s.to_string()))
    });
    assert!(matches!(r, Err(DocError::InvalidTempl(s)) if s == "Web/API/Fetch_API"));
}

#[test]
fn interface_sidebar_lists_members_inheritance_and_related() {
    let groups = vec![(
        "Fetch API".to_string(),
        GroupData {
            overview: strs(&["Fetch API"]),
            interfaces: strs(&["Response", "Request", "Headers"]),
            methods: strs(&["Window.fetch()"]),
            properties: strs(&[]),
            ..Default::default()
        },
    )];
    let interfaces = vec![
        ("Request".to_string(), InterfaceData { inh: "Body".to_string() }),
        ("Body".to_string(), InterfaceData { inh: String::new() }),
    ];
    let mut urls = vec![];
    let mut read = std::cell::RefCell::new(vec![]);
    let r = apiref::sidebar(
        "Web/API/Request/clone",
        Some("Fetch API"),
        Locale::EnUs,
        &interface_files(),
        &groups,
        &interfaces,
        |u: &str| {
            urls.push(u.to_string());
            Ok(vec![
                page("Web/API/Request/Request", "Request()", PageType::WebApiConstructor),
                page("Web/API/Request/body", "Request.body", PageType::WebApiInstanceProperty),
                page("Web/API/Request/clone", "Request.clone()", PageType::WebApiInstanceMethod),
                page("Web/API/Request/guide", "Guide", PageType::Other),
            ])
        },
        |s: &str| {
            read.borrow_mut().push(s.to_string());
            Ok(page(s, s, PageType::Other))
        },
    )
    .expect("sidebar");
    assert_eq!(urls, vec!["/en-US/docs/Web/API/Request".to_string()]);
    assert_eq!(*read.get_mut(), vec!["Web/API/Fetch_API".to_string(), "Web/API/Request".to_string()]);
    let es = &r.entries;
    assert_eq!(es.len(), 7);
    assert!(es[0].section && !es[0].code);
    assert!(es[1].section && es[1].code);
    assert!(matches!(&es[1].content, SidebarMetaEntryContent::Page(p) if p.slug == "Web/API/Request"));
    assert_eq!(link_of(&es[2]), (None, Some("Constructor")));
    assert_eq!(link_of(&children(&es[2])[0]), (Some("/Web/API/Request/Request"), Some("Request()")));
    assert_eq!(link_of(&es[3]), (None, Some("Instance properties")));
    assert_eq!(link_of(&children(&es[3])[0]), (Some("/Web/API/Request/body"), Some("body")));
    assert_eq!(link_of(&es[4]), (None, Some("Instance methods")));
    assert_eq!(link_of(&es[5]), (None, Some("Inheritance")));
    assert_eq!(link_of(&children(&es[5])[0]), (Some("/Web/API/Body"), Some("Body")));
    assert_eq!(link_of(&es[6]), (None, Some("Related pages for Fetch API")));
    let related = children(&es[6]);
    let titles: Vec<_> = related.iter().map(|e| link_of(e).1.unwrap()).collect();
    assert_eq!(titles, vec!["Headers", "Response", "Window.fetch()"]);
    assert_eq!(link_of(&related[2]).0, Some("/Web/API/Window/fetch"));
}

#[test]
fn interface_sidebar_without_group() {
    let r = apiref::sidebar(
        "Web/API/Foo",
        None,
        Locale::EnUs,
        &interface_files(),
        &[],
        &[],
        |_: &str| Ok(vec![page("Web/API/Foo/bar_static", "Foo.bar_static", PageType::WebApiStaticMethod)]),
        |s: &str| Ok(page(s, s, PageType::Other)),
    )
    .expect("sidebar");
    let es = &r.entries;
    assert_eq!(es.len(), 2);
    assert!(es[0].code);
    assert_eq!(link_of(&es[1]), (None, Some("Static methods")));
}

#[test]
fn interface_sidebar_drops_static_from_labels() {
    let r = apiref::sidebar(
        "Web/API/Foo",
        None,
        Locale::EnUs,
        &interface_files(),
        &[],
        &[],
        |_: &str| Ok(vec![page("Web/API/Foo/x", "Foo.x", PageType::WebApiStaticProperty)]),
        |s: &str| Ok(page(s, s, PageType::Other)),
    )
    .expect("sidebar");
    assert_eq!(link_of(&r.entries[1]), (None, Some("Static_properties")));
    let r = apiref::sidebar(
        "Web/API/Foo",
        None,
        Locale::EnUs,
        &common(&[
            ("Static_properties", "Props_static"),
            ("Instance_properties", "a"),
            ("Static_methods", "b"),
            ("Instance_methods", "c"),
            ("Constructor", "d"),
            ("Inheritance", "e"),
            ("Related_pages_wo_group", "f"),
            ("Events", "g"),
        ]),
        &[],
        &[],
        |_: &str| Ok(vec![page("Web/API/Foo/x", "Foo.x", PageType::WebApiStaticProperty)]),
        |s: &str| Ok(page(s, s, PageType::Other)),
    )
    .expect("sidebar");
    assert_eq!(link_of(&r.entries[1]), (None, Some("Props")));
}

#[test]
fn interface_sidebar_needs_a_web_api_slug() {
    let r = apiref::sidebar(
        "Web/CSS/color",
        None,
        Locale::EnUs,
        &interface_files(),
        &[],
        &[],
        |_: &str| panic!("nothing is read"),
        |_: &str| panic!("nothing is read"),
    );
    assert!(matches!(r, Err(DocError::InvalidSlugForX(s)) if s == "Web/CSS/color"));
}
