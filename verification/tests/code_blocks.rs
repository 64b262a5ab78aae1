use rari_doc::code_blocks::{
    code_by_query, ends_section, is_heading, is_major_heading, is_parent_heading, live_sample_class, to_code,
    CodeInternal, CodePre,
};

fn pre(classes: &[&str], text: &str, node: usize) -> CodePre {
    CodePre { classes: classes.iter().map(|c| c.to_string()).collect(), text: text.to_string(), node }
}

#[test]
fn code_is_gathered_by_kind() {
    let pres = vec![
        pre(&["brush:", "css", "live-sample___x"], "a {}", 0),
        pre(&["html"], "<p>", 1),
        pre(&["python"], "print()", 2),
        pre(&["css"], "b {}", 3),
        pre(&["js", "css"], "f()", 4),
    ];
    let c = code_by_query(&pres, None).unwrap();
    assert_eq!(c.css, "a {}\nb {}");
    assert_eq!(c.html, "<p>");
    assert_eq!(c.js, "f()");
    assert_eq!(c.node_ids, vec![0, 1, 3, 4]);
    assert_eq!(c.src, None);
    assert_eq!(c.id, "");
    assert!(code_by_query(&[], None).is_none());
    let more = code_by_query(&[pre(&["css"], "c {}", 5)], Some(c)).unwrap();
    assert_eq!(more.css, "a {}\nb {}\nc {}");
    let only_other = code_by_query(&[pre(&["python"], "x", 6)], None).unwrap();
    assert_eq!(only_other.css, "");
    assert!(only_other.node_ids.is_empty());
}

#[test]
fn sample_classes_and_headings() {
    assert_eq!(live_sample_class(Some("brush: css"), "demo"), "brush: css live-sample---demo");
    assert_eq!(live_sample_class(Some(""), "demo"), "live-sample---demo");
    assert_eq!(live_sample_class(None, "demo"), "live-sample---demo");
    assert!(is_heading("h5") && !is_heading("p"));
    assert!(is_major_heading("h3") && !is_major_heading("h4"));
    assert!(ends_section("h2", "h3") && ends_section("h3", "h3") && !ends_section("h4", "h3") && !ends_section("div", "h3"));
    assert!(is_parent_heading("h2", "h3") && !is_parent_heading("h3", "h3") && !is_parent_heading("h4", "h5"));
    let code = to_code(CodeInternal {
        css: "a".to_string(),
        html: String::new(),
        js: String::new(),
        src: Some("/s".to_string()),
        node_ids: vec![1],
        id: "x".to_string(),
    });
    assert_eq!((code.css.as_str(), code.src.as_deref(), code.id.as_str()), ("a", Some("/s"), "x"));
}
