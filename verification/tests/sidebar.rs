use rari_doc::locale::Locale;
use rari_doc::page::{PageRef, PageType};
use rari_doc::sidebar::{
    details_is_none, entry_try_into, BasicEntry, Details, MetaChildren, MetaSidebar,
    RenderPiece, Sidebar, SidebarEntry, SidebarError, SidebarL10n, SidebarMetaEntry,
    SidebarMetaEntryContent, SubPageEntry, WebExtApiEntry,
};

fn html(p: &RenderPiece) -> &str {
    match p {
        RenderPiece::Html(s) => s.as_str(),
        _ => panic!("expected html, got {p:?}"),
    }
}

#[test]
fn details_flags() {
    assert!(Details::Open.is_set());
    assert!(Details::Closed.is_set());
    assert!(!Details::Unset.is_set());
    assert!(Details::Open.is_open());
    assert!(!Details::Closed.is_open());
    assert!(details_is_none(&Details::Unset));
    assert!(!details_is_none(&Details::Closed));
}

#[test]
fn section_with_children_converts() {
    let child = SidebarEntry::Link("/Web/HTML".to_string());
    let e = SidebarEntry::Section(BasicEntry {
        link: Some("/Web".to_string()),
        hash: Some("top".to_string()),
        title: Some("Web".to_string()),
        details: Details::Open,
        code: true,
        children: vec![child],
    });
    let m = entry_try_into(e).unwrap();
    assert!(m.section);
    assert!(m.code);
    assert_eq!(m.details, Details::Open);
    match &m.content {
        SidebarMetaEntryContent::LinkWithHash { link, title, hash } => {
            assert_eq!(link, "/Web");
            assert_eq!(title.as_deref(), Some("Web"));
            assert_eq!(hash, "top");
        }
        _ => panic!("expected a link with hash"),
    }
    match &m.children {
        MetaChildren::Children(cs) => {
            assert_eq!(cs.len(), 1);
            assert!(!cs[0].section);
            match &cs[0].content {
                SidebarMetaEntryContent::Link { link, title } => {
                    assert_eq!(link.as_deref(), Some("/Web/HTML"));
                    assert_eq!(*title, None);
                }
                _ => panic!("expected a link"),
            }
        }
        _ => panic!("expected children"),
    }
}

#[test]
fn invalid_entries_are_refused_at_any_depth() {
    assert!(matches!(
        entry_try_into(SidebarEntry::Empty),
        Err(SidebarError::InvalidSidebarEntry)
    ));
    let e = SidebarEntry::Default(BasicEntry {
        children: vec![SidebarEntry::Link("/a".to_string()), SidebarEntry::Empty],
        ..Default::default()
    });
    assert!(matches!(
        entry_try_into(e),
        Err(SidebarError::InvalidSidebarEntry)
    ));
    let s = Sidebar {
        sidebar: vec![SidebarEntry::Empty],
        l10n: SidebarL10n::default(),
    };
    assert!(MetaSidebar::try_from(s).is_err());
}

#[test]
fn sub_page_and_webext_entries_convert() {
    let m = entry_try_into(SidebarEntry::ListSubPages(SubPageEntry {
        path: "/Web/API".to_string(),
        title: Some("APIs".to_string()),
        code: true,
        include_parent: true,
        ..Default::default()
    }))
    .unwrap();
    assert!(!m.code);
    match &m.children {
        MetaChildren::ListSubPages(path, tags, code, include_parent) => {
            assert_eq!(path, "/Web/API");
            assert!(tags.is_empty());
            assert!(*code);
            assert!(*include_parent);
        }
        _ => panic!("expected a sub-page listing"),
    }
    let w = entry_try_into(SidebarEntry::WebExtApi(WebExtApiEntry {
        title: "APIs".to_string(),
    }))
    .unwrap();
    assert_eq!(w.details, Details::Closed);
    assert!(matches!(w.children, MetaChildren::WebExtApi));
}

fn l10n() -> SidebarL10n {
    SidebarL10n {
        l10n: vec![
            (
                Locale::EnUs,
                vec![("Guides".to_string(), "Guides (en)".to_string())],
            ),
            (Locale::De, vec![("Tools".to_string(), "Werkzeuge".to_string())]),
        ],
    }
}

#[test]
fn labels_fall_back_to_en_us_then_to_the_key() {
    let l = l10n();
    assert_eq!(l.lookup("Tools", Locale::De), "Werkzeuge");
    assert_eq!(l.lookup("Guides", Locale::De), "Guides (en)");
    assert_eq!(l.lookup("Other", Locale::De), "Other");
    assert_eq!(l.lookup("Tools", Locale::EnUs), "Tools");
    assert!(!l.is_empty());
    assert!(SidebarL10n::default().is_empty());
}

#[test]
fn an_entry_renders_as_a_list_item() {
    let e = SidebarMetaEntry {
        details: Details::Open,
        section: true,
        code: true,
        content: SidebarMetaEntryContent::Link {
            link: None,
            title: Some("Tools".to_string()),
        },
        children: MetaChildren::ListSubPages("/Web/API".to_string(), vec![PageType::WebApiEvent], false, false),
    };
    let mut out = vec![];
    e.render(&mut out, Locale::De, None, &l10n()).unwrap();
    let texts: Vec<String> = out
        .iter()
        .filter_map(|p| match p {
            RenderPiece::Html(s) => Some(s.clone()),
            _ => None,
        })
        .collect();
    assert_eq!(
        texts.concat(),
        "<li class=\"section\" class=\"toggle\"><details open ><summary><code>Werkzeuge</code></summary><ol></ol></details></li>"
    );
    let listing = out
        .iter()
        .find_map(|p| match p {
            RenderPiece::ListSubPages { url, page_types, .. } => Some((url.clone(), page_types.clone())),
            _ => None,
        })
        .unwrap();
    assert_eq!(listing.0, "/en-US/docs/Web/API");
    assert_eq!(listing.1, vec![PageType::WebApiEvent]);
}

#[test]
fn links_render_through_their_pages() {
    let page = PageRef {
        url: "/en-US/docs/Web".to_string(),
        slug: "Web".to_string(),
        title: "Web".to_string(),
        short_title: None,
        locale: Locale::EnUs,
        page_type: PageType::Other,
    };
    let sb = MetaSidebar {
        entries: vec![
            SidebarMetaEntry {
                details: Details::Unset,
                section: false,
                code: false,
                content: SidebarMetaEntryContent::LinkWithHash {
                    link: "/Web".to_string(),
                    title: Some("Guides".to_string()),
                    hash: "Tools".to_string(),
                },
                children: MetaChildren::NoChildren,
            },
            SidebarMetaEntry {
                details: Details::Unset,
                section: false,
                code: true,
                content: SidebarMetaEntryContent::Page(page),
                children: MetaChildren::NoChildren,
            },
        ],
        l10n: l10n(),
    };
    let out = sb.render("test", Locale::De).unwrap();
    assert_eq!(html(&out[0]), "<ol>");
    assert_eq!(html(&out[1]), "<li");
    assert_eq!(html(&out[2]), ">");
    match &out[3] {
        RenderPiece::LinkViaPage { link, title, code } => {
            assert_eq!(link, "/Web#Werkzeuge");
            assert_eq!(title.as_deref(), Some("Guides (en)"));
            assert!(!code);
        }
        p => panic!("expected a link, got {p:?}"),
    }
    assert_eq!(html(&out[4]), "</li>");
    match &out[7] {
        RenderPiece::LinkFromPage { page, code, only_en_us } => {
            assert_eq!(page.url, "/en-US/docs/Web");
            assert!(*code);
            assert!(*only_en_us);
        }
        p => panic!("expected a page link, got {p:?}"),
    }
    assert_eq!(html(out.last().unwrap()), "</ol>");
}

#[test]
fn webext_entries_need_a_slug() {
    let e = SidebarMetaEntry {
        details: Details::Closed,
        section: false,
        code: false,
        content: SidebarMetaEntryContent::Link {
            link: None,
            title: Some("APIs".to_string()),
        },
        children: MetaChildren::WebExtApi,
    };
    let sb = MetaSidebar {
        entries: vec![e],
        l10n: SidebarL10n::default(),
    };
    assert!(matches!(
        sb.render("webext", Locale::EnUs),
        Err(SidebarError::SlugRequiredForSidebarEntry)
    ));
    let out = sb
        .render_with_slug("webext", "Mozilla/Add-ons/WebExtensions/API", Locale::EnUs)
        .unwrap();
    assert!(out.iter().any(|p| matches!(p, RenderPiece::WebExtApi { slug } if slug == "Mozilla/Add-ons/WebExtensions/API")));
}
