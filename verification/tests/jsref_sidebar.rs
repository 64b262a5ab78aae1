use rari_doc::jsref::{
    build_member_entry, inheritance_chain, member_queries, sidebar, JSRefItem, JsRefLabels,
};
use rari_doc::locale::Locale;
use rari_doc::page::{PageRef, PageType};
use rari_doc::sidebar::{Details, MetaChildren, SidebarMetaEntryContent};

const GO: &str = "Web/JavaScript/Reference/Global_Objects";

fn page(slug: &str, t: PageType) -> PageRef {
    PageRef {
        url: format!("/en-US/docs/{slug}"),
        slug: slug.to_string(),
        title: slug.to_string(),
        short_title: None,
        locale: Locale::EnUs,
        page_type: t,
    }
}

fn slugs(v: &[PageRef]) -> Vec<&str> {
    v.iter().map(|p| p.slug.as_str()).collect()
}

#[test]
fn queries_for_the_base_and_for_a_class() {
    let q = member_queries("%Base%");
    assert_eq!(q.len(), 2);
    assert_eq!(q[0].0, format!("/en-US/docs/{GO}/Object"));
    assert_eq!(q[0].1, Some(1));
    assert_eq!(q[1].0, format!("/en-US/docs/{GO}/Function"));
    let q = member_queries("Intl.Segmenter");
    assert_eq!(q, vec![(format!("/en-US/docs/{GO}/Intl/Segmenter"), None)]);
}

#[test]
fn the_base_lists_prototype_members_of_object_and_function() {
    let object = vec![
        page(&format!("{GO}/Object/toString"), PageType::JavascriptInstanceMethod),
        page(&format!("{GO}/Object/constructor"), PageType::JavascriptInstanceDataProperty),
        page(&format!("{GO}/Object/keys"), PageType::JavascriptStaticMethod),
    ];
    let function = vec![
        page(&format!("{GO}/Function/call"), PageType::JavascriptInstanceMethod),
        page(&format!("{GO}/Function/length"), PageType::JavascriptInstanceDataProperty),
    ];
    let item = JSRefItem::from_obj_str("%Base%", false, vec![object, function]);
    assert_eq!(item.title, "Object/Function");
    assert_eq!(item.sub_path, "Object");
    assert!(!item.default_opened);
    assert_eq!(slugs(&item.instance_methods), vec![format!("{GO}/Object/toString").as_str()]);
    assert_eq!(slugs(&item.instance_properties), vec![format!("{GO}/Object/constructor").as_str()]);
    assert_eq!(slugs(&item.static_methods), vec![format!("{GO}/Function/call").as_str()]);
    assert_eq!(slugs(&item.static_properties), vec![format!("{GO}/Function/length").as_str()]);
    assert!(item.constructors.is_empty());
    assert!(item.sub_pages.is_empty());
}

#[test]
fn a_class_sorts_its_members_and_keeps_deeper_pages() {
    let class = format!("{GO}/Intl/Segmenter");
    let pages = vec![
        page(&format!("{class}/Segmenter"), PageType::JavascriptConstructor),
        page(&format!("{class}/segment"), PageType::JavascriptInstanceMethod),
        page(&format!("{class}/segment/Segments"), PageType::JavascriptClass),
        page(&format!("{class}/segment/Segments/containing"), PageType::JavascriptInstanceMethod),
        page(&format!("{class}/supportedLocalesOf"), PageType::JavascriptStaticMethod),
        page(&format!("{class}/resolvedOptions"), PageType::JavascriptInstanceMethod),
    ];
    let item = JSRefItem::from_obj_str("Intl.Segmenter", true, vec![pages]);
    assert_eq!(item.title, "Intl.Segmenter");
    assert_eq!(item.sub_path, "Intl/Segmenter");
    assert!(item.default_opened);
    assert_eq!(item.constructors.len(), 1);
    assert_eq!(item.static_methods.len(), 1);
    assert_eq!(
        slugs(&item.instance_methods),
        vec![format!("{class}/segment").as_str(), format!("{class}/resolvedOptions").as_str()]
    );
    assert_eq!(item.sub_pages.len(), 2);
    let under = |k: &str| {
        item.sub_pages
            .iter()
            .find(|(key, _)| key == k)
            .map(|(_, v)| slugs(v).into_iter().map(String::from).collect::<Vec<_>>())
    };
    assert_eq!(under(&format!("{class}/segment")), Some(vec![format!("{class}/segment/Segments")]));
    assert_eq!(
        under(&format!("{class}/segment/Segments")),
        Some(vec![format!("{class}/segment/Segments/containing")])
    );

    // the member entry nests the pages below it
    let e = build_member_entry(&item.instance_methods[0], &item.sub_pages);
    assert!(e.code);
    assert_eq!(e.details, Details::Closed);
    match &e.content {
        SidebarMetaEntryContent::Link { link, title } => {
            assert_eq!(link.as_deref(), Some(format!("/{class}/segment").as_str()));
            assert!(title.is_none());
        }
        _ => panic!("expected a link"),
    }
    match &e.children {
        MetaChildren::Children(cs) => {
            assert_eq!(cs.len(), 1);
            assert_eq!(cs[0].details, Details::Closed);
            match &cs[0].children {
                MetaChildren::Children(ds) => {
                    assert_eq!(ds.len(), 1);
                    assert_eq!(ds[0].details, Details::Unset);
                    assert!(matches!(ds[0].children, MetaChildren::NoChildren));
                }
                _ => panic!("expected nested children"),
            }
        }
        _ => panic!("expected children"),
    }
    let leaf = build_member_entry(&item.instance_methods[1], &item.sub_pages);
    assert_eq!(leaf.details, Details::Unset);
}

#[test]
fn inheritance_chains() {
    assert_eq!(inheritance_chain("Int8Array"), vec!["Int8Array", "TypedArray", "%Base%"]);
    assert_eq!(inheritance_chain("Array"), vec!["Array", "%Base%"]);
    assert_eq!(inheritance_chain("Math"), vec!["Math"]);
    assert_eq!(inheritance_chain("AsyncGenerator"), vec!["AsyncGenerator", "AsyncIterator", "%Base%"]);
}

fn labels() -> JsRefLabels {
    JsRefLabels {
        constructor: "Constructor".to_string(),
        static_methods: "Static methods".to_string(),
        static_properties: "Static properties".to_string(),
        instance_methods: "Instance methods".to_string(),
        instance_properties: "Instance properties".to_string(),
        inheritance: "Inheritance".to_string(),
        related: "Related".to_string(),
    }
}

fn title(e: &rari_doc::sidebar::SidebarMetaEntry) -> Option<String> {
    match &e.content {
        SidebarMetaEntryContent::Link { title, .. } => title.clone(),
        _ => None,
    }
}

#[test]
fn the_sidebar_of_a_typed_array() {
    let go = page(GO, PageType::Other);
    let int8 = vec![page(&format!("{GO}/Int8Array/Int8Array"), PageType::JavascriptConstructor)];
    let typed = vec![page(&format!("{GO}/TypedArray/at"), PageType::JavascriptInstanceMethod)];
    let base_object = vec![page(&format!("{GO}/Object/toString"), PageType::JavascriptInstanceMethod)];
    let found = vec![vec![int8], vec![typed], vec![base_object, vec![]]];
    let sb = sidebar(&format!("{GO}/Int8Array"), &labels(), go, found, &[], &[]);
    let titles: Vec<Option<String>> = sb.entries.iter().map(title).collect();
    let t = |s: &str| Some(s.to_string());
    assert_eq!(
        titles,
        vec![
            None,
            t("Int8Array"),
            t("Constructor"),
            t("Inheritance"),
            t("TypedArray"),
            t("Instance methods"),
            t("Object/Function"),
            t("Instance methods"),
            t("Related"),
            t("BigInt64Array"),
            t("BigUint64Array"),
            t("Float16Array"),
            t("Float32Array"),
            t("Float64Array"),
            t("Int16Array"),
            t("Int32Array"),
            t("Uint8Array"),
            t("Uint8ClampedArray"),
            t("Uint16Array"),
            t("Uint32Array"),
        ]
    );
    assert!(matches!(sb.entries[0].content, SidebarMetaEntryContent::Page(_)));
    assert_eq!(sb.entries[2].details, Details::Open);
    assert_eq!(sb.entries[5].details, Details::Closed);
    match &sb.entries[1].content {
        SidebarMetaEntryContent::Link { link, .. } => {
            assert_eq!(link.as_deref(), Some("/Web/JavaScript/Reference/Global_Objects/Int8Array"));
        }
        _ => panic!("expected a link"),
    }
}
