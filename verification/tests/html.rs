use rari_doc::html::{strip_paragraph_unckecked, APILink, BuildSectionType, Code, LinkFlags};
use rari_doc::subpages::{split_into_parts, SubPagesSorter};

#[test]
fn api_links() {
    let l = APILink::from("Element.attachShadow()").unwrap();
    assert_eq!(l.link, "/Web/API/Element/attachShadow");
    assert_eq!(l.title.as_deref(), Some("Element.attachShadow()"));
    let e = APILink::from_event("Element: click").unwrap();
    assert_eq!(e.link, "/Web/API/Element/click_event");
    assert_eq!(e.title.as_deref(), Some("Element: click"));
    assert!(APILink::from_event("click").is_none());
}

#[test]
fn paragraphs_are_stripped_in_good_faith() {
    assert_eq!(strip_paragraph_unckecked("  <p>foo</p>\n"), "foo");
    assert_eq!(strip_paragraph_unckecked("<p>foo</p>bar"), "foo</p>bar");
    assert_eq!(strip_paragraph_unckecked("foo"), "foo");
    assert_eq!(strip_paragraph_unckecked(" foo</p> "), "foo");
    assert_eq!(strip_paragraph_unckecked("\u{3000}<p>x</p>"), "x");
}

#[test]
fn titles_split_into_text_and_numbers() {
    let parts = split_into_parts("v1.2beta10");
    let v: Vec<(bool, &str)> = parts.iter().map(|(b, s)| (*b, s.as_str())).collect();
    assert_eq!(v, vec![(false, "v"), (true, "1.2"), (false, "beta"), (true, "10")]);
    assert!(split_into_parts("").is_empty());
    let parts = split_into_parts("42");
    assert_eq!(parts, vec![(true, "42".to_string())]);
}

#[test]
fn plain_types() {
    let c = Code { id: "x".to_string(), ..Default::default() };
    assert!(c.css.is_empty() && c.src.is_none());
    let f = LinkFlags { code: true, with_badges: false, report: true };
    assert!(f.code && f.report && !f.with_badges);
    assert_eq!(BuildSectionType::Prose, BuildSectionType::Prose);
    assert_eq!(SubPagesSorter::default(), SubPagesSorter::Title);
}
