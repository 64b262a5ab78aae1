use rari_doc::ids::IdSet;
use rari_doc::links::LinkElement;
use rari_doc::rewrite::{
    brush_text, code_frame, fix_curriculum_link, lazy_loading, notecard_prefix, notranslate_class, rewrite_id,
    table_container,
};

fn el(attrs: &[(&str, &str)]) -> LinkElement {
    LinkElement {
        attrs: attrs
            .iter()
            .map(|(k, v)| (k.to_string(), v.to_string()))
            .collect(),
    }
}

#[test]
fn ids_are_lowercased_and_made_unique() {
    let mut ids = IdSet::new();
    let mut a = el(&[("id", "Syntax")]);
    rewrite_id(&mut a, &mut ids, "{{");
    assert_eq!(a.get_attribute("id").as_deref(), Some("syntax"));
    let mut b = el(&[("id", "SYNTAX")]);
    rewrite_id(&mut b, &mut ids, "{{");
    assert_eq!(b.get_attribute("id").as_deref(), Some("syntax_2"));
    let mut c = el(&[("id", "syntax_2")]);
    rewrite_id(&mut c, &mut ids, "{{");
    assert_eq!(c.get_attribute("id").as_deref(), Some("syntax_3"));
    assert!(ids.contains("syntax_3"));
}

#[test]
fn ids_with_templates_are_marked_for_update() {
    let mut ids = IdSet::new();
    let mut a = el(&[("id", "x{{y")]);
    rewrite_id(&mut a, &mut ids, "{{");
    assert_eq!(a.get_attribute("id").as_deref(), Some("x{{y"));
    assert_eq!(a.get_attribute("data-update-id").as_deref(), Some(""));
    assert!(!ids.contains("x{{y"));
}

#[test]
fn pre_gets_notranslate() {
    let mut a = el(&[("class", "brush: js")]);
    notranslate_class(&mut a);
    assert_eq!(a.get_attribute("class").as_deref(), Some("brush: js notranslate"));
    let mut b = el(&[]);
    notranslate_class(&mut b);
    assert_eq!(b.get_attribute("class").as_deref(), Some(" notranslate"));
}

#[test]
fn code_examples_are_framed_by_language() {
    let f = code_frame(Some("brush: js notranslate"));
    assert!(f.wrap_code);
    assert_eq!(
        f.before.as_deref(),
        Some("<div class=\"code-example\"><div class='example-header'><span class=\"language-name\">js</span></div>")
    );
    assert!(f.close_after);
    let h = code_frame(Some("brush: css hidden"));
    assert!(h.wrap_code);
    assert_eq!(h.before.as_deref(), Some("<div class=\"code-example\">"));
    let p = code_frame(Some("brush: plain"));
    assert!(!p.wrap_code);
    assert!(p.before.is_none());
    assert!(!p.close_after);
    let n = code_frame(None);
    assert!(!n.wrap_code && n.before.is_none());
}

#[test]
fn first_empty_line_of_an_example_is_dropped() {
    assert_eq!(brush_text("\nlet a;", false, false), ("let a;".to_string(), true));
    assert_eq!(brush_text("\nmore", true, true), ("\nmore".to_string(), false));
}

#[test]
fn relative_curriculum_links_point_at_pages() {
    let mut a = el(&[("href", "./styling.md#intro")]);
    fix_curriculum_link(&mut a, |f: &str| {
        assert_eq!(f, "./styling.md");
        Some("/en-US/curriculum/core/styling/".to_string())
    });
    assert_eq!(
        a.get_attribute("href").as_deref(),
        Some("/en-US/curriculum/core/styling/#intro")
    );
    let mut b = el(&[("href", "./missing.md")]);
    fix_curriculum_link(&mut b, |_: &str| None);
    assert_eq!(b.get_attribute("href").as_deref(), Some("./missing.md"));
}

#[test]
fn images_load_lazily_unless_told_otherwise() {
    let mut a = el(&[("src", "a.png")]);
    lazy_loading(&mut a);
    assert_eq!(a.get_attribute("loading").as_deref(), Some("lazy"));
    assert_eq!(a.get_attribute("src").as_deref(), Some("a.png"));
    let mut b = el(&[("loading", "eager")]);
    lazy_loading(&mut b);
    assert_eq!(b.get_attribute("loading").as_deref(), Some("eager"));
}

#[test]
fn notecard_prefix_and_table_frame() {
    assert_eq!(notecard_prefix("Warning:"), "<strong>Warning:</strong>");
    assert_eq!(notecard_prefix(""), "<strong></strong>");
    let (open, close) = table_container();
    assert_eq!(open, "<figure class=\"table-container\">");
    assert_eq!(close, "</figure>");
}
