use rari_doc::html::BuildSectionType;
use rari_doc::sections::{split_sections, SectionElement, SectionNode};

fn element(name: &str, html: &str) -> SectionElement {
    SectionElement {
        name: name.to_string(),
        id: None,
        classes: vec![],
        data_query: None,
        data_bcd_query: None,
        data_spec_urls: None,
        data_multiple: None,
        html: html.to_string(),
        inner_html: String::new(),
    }
}

fn heading(name: &str, id: &str) -> SectionNode {
    let mut e = element(name, "");
    e.id = Some(id.to_string());
    SectionNode::Element(e)
}

fn para(html: &str) -> SectionNode {
    SectionNode::Element(element("p", html))
}

fn compat(query: &str, multiple: bool) -> SectionNode {
    let mut e = element("div", "<div class=\"bc-data\"></div>");
    e.classes = vec!["bc-data".to_string()];
    e.data_query = Some(query.to_string());
    if multiple {
        e.data_multiple = Some("true".to_string());
    }
    SectionNode::Element(e)
}

fn specs(query: &str, urls: &str) -> SectionNode {
    let mut e = element("div", "<div class=\"bc-specs\"></div>");
    e.classes = vec!["bc-specs".to_string()];
    e.data_bcd_query = Some(query.to_string());
    e.data_spec_urls = Some(urls.to_string());
    SectionNode::Element(e)
}

#[test]
fn prose_is_grouped_under_headings() {
    let nodes = vec![
        para("<p>Intro</p>"),
        SectionNode::Text("\n\n".to_string()),
        heading("h2", "syntax"),
        para("<p>a</p>"),
        SectionNode::Comment("note".to_string()),
        heading("h3", "values"),
        SectionNode::Text("\nloose text\n".to_string()),
    ];
    let s = split_sections(&nodes, &["".to_string(), "Intro".to_string()]).unwrap();
    assert_eq!(s.summary.as_deref(), Some("Intro"));
    assert_eq!(s.sidebar, None);
    assert_eq!(s.sections.len(), 3);
    assert_eq!(s.sections[0].heading, None);
    assert_eq!(s.sections[0].body, vec!["<p>Intro</p>".to_string()]);
    assert_eq!(s.sections[0].typ, BuildSectionType::Unknown);
    assert_eq!(s.sections[1].heading, Some(2));
    assert_eq!(s.sections[1].id.as_deref(), Some("syntax"));
    assert_eq!(s.sections[1].typ, BuildSectionType::Prose);
    assert!(!s.sections[1].is_h3);
    assert_eq!(
        s.sections[1].body,
        vec!["<p>a</p>".to_string(), "<!-- note -->".to_string()]
    );
    assert!(s.sections[2].is_h3);
    assert_eq!(s.sections[2].body, vec!["loose text".to_string()]);
}

#[test]
fn compat_table_right_after_heading_becomes_the_section() {
    let nodes = vec![heading("h2", "browser_compatibility"), compat("api.Foo", false)];
    let s = split_sections(&nodes, &[]).unwrap();
    assert_eq!(s.summary, None);
    assert_eq!(s.sections.len(), 1);
    assert_eq!(s.sections[0].typ, BuildSectionType::Compat);
    assert_eq!(s.sections[0].query.as_deref(), Some("api.Foo"));
    assert_eq!(s.sections[0].heading, Some(0));
}

#[test]
fn compat_table_after_prose_takes_the_heading() {
    let nodes = vec![
        heading("h2", "browser_compatibility"),
        para("<p>before</p>"),
        compat("api.Foo", false),
        para("<p>after</p>"),
    ];
    let s = split_sections(&nodes, &[]).unwrap();
    assert_eq!(s.sections.len(), 2);
    assert_eq!(s.sections[0].typ, BuildSectionType::Compat);
    assert_eq!(s.sections[0].heading, Some(0));
    assert_eq!(s.sections[0].id.as_deref(), Some("browser_compatibility"));
    assert!(s.sections[0].body.is_empty());
    assert_eq!(s.sections[1].typ, BuildSectionType::Prose);
    assert_eq!(s.sections[1].heading, None);
    assert_eq!(s.sections[1].id, None);
    assert_eq!(
        s.sections[1].body,
        vec!["<p>before</p>".to_string(), "<p>after</p>".to_string()]
    );
}

#[test]
fn multiple_compat_tables_stand_alone() {
    let nodes = vec![
        heading("h2", "browser_compatibility"),
        compat("api.A", true),
        compat("api.B", true),
        para("<p>x</p>"),
    ];
    let s = split_sections(&nodes, &[]).unwrap();
    assert_eq!(s.sections.len(), 4);
    assert_eq!(s.sections[0].typ, BuildSectionType::Prose);
    assert_eq!(s.sections[1].query.as_deref(), Some("api.A"));
    assert!(s.sections[1].is_h3);
    assert_eq!(s.sections[2].query.as_deref(), Some("api.B"));
    assert_eq!(s.sections[3].typ, BuildSectionType::Unknown);
    assert_eq!(s.sections[3].body, vec!["<p>x</p>".to_string()]);
}

#[test]
fn prose_after_a_compat_table_starts_a_loose_section() {
    let nodes = vec![
        heading("h2", "bc"),
        compat("api.A", false),
        SectionNode::Comment("c".to_string()),
    ];
    let s = split_sections(&nodes, &[]).unwrap();
    assert_eq!(s.sections.len(), 2);
    assert_eq!(s.sections[0].typ, BuildSectionType::Compat);
    assert_eq!(s.sections[1].typ, BuildSectionType::Unknown);
    assert_eq!(s.sections[1].body, vec!["<!-- c -->".to_string()]);
}

#[test]
fn specification_table_and_sidebar() {
    let mut quick = element("section", "");
    quick.id = Some("Quick_links".to_string());
    quick.inner_html = "<ol><li>x</li></ol>".to_string();
    let nodes = vec![
        SectionNode::Element(quick),
        heading("h2", "specifications"),
        specs("api.Foo", "https://spec"),
        SectionNode::Other,
    ];
    let s = split_sections(&nodes, &[]).unwrap();
    assert_eq!(s.sidebar.as_deref(), Some("<ol><li>x</li></ol>"));
    assert_eq!(s.sections.len(), 1);
    assert_eq!(s.sections[0].typ, BuildSectionType::Specification);
    assert_eq!(s.sections[0].query.as_deref(), Some("api.Foo"));
    assert_eq!(s.sections[0].spec_urls.as_deref(), Some("https://spec"));
}

#[test]
fn tables_without_queries_are_prose() {
    let mut e = element("div", "<div class=\"bc-data\"></div>");
    e.classes = vec!["bc-data".to_string()];
    let nodes = vec![heading("h2", "x"), SectionNode::Element(e)];
    let s = split_sections(&nodes, &[]).unwrap();
    assert_eq!(s.sections.len(), 1);
    assert_eq!(s.sections[0].typ, BuildSectionType::Prose);
    assert_eq!(
        s.sections[0].body,
        vec!["<div class=\"bc-data\"></div>".to_string()]
    );
}

#[test]
fn compat_table_after_specification_keeps_its_urls() {
    let nodes = vec![
        heading("h2", "specifications"),
        specs("api.Foo", "https://spec"),
        compat("api.Foo", false),
    ];
    let s = split_sections(&nodes, &[]).unwrap();
    assert_eq!(s.sections.len(), 1);
    assert_eq!(s.sections[0].typ, BuildSectionType::Compat);
    assert_eq!(s.sections[0].query.as_deref(), Some("api.Foo"));
    assert_eq!(s.sections[0].spec_urls.as_deref(), Some("https://spec"));
}
