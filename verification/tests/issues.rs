use rari_doc::issues::{
    is_fixable_template, issue_from_scope, to_display_issues, DIssue, Issue, IssueEntries,
    IssueType,
};

fn issue(ic: i64, line: i64, col: i64, fields: &[(&str, &str)]) -> Issue {
    Issue {
        req: 0,
        ic,
        col,
        line,
        end_col: 0,
        end_line: 0,
        file: String::new(),
        ignore: false,
        fields: fields
            .iter()
            .map(|(k, v)| (k.to_string(), v.to_string()))
            .collect(),
        spans: vec![],
    }
}

#[test]
fn broken_link_gets_char_columns_and_context() {
    let content = "line one\nhé llo\nthird";
    let i = issue(
        7,
        2,
        4,
        &[("source", "broken-link"), ("url", "/en-US/docs/Foo")],
    );
    let d = DIssue::from_issue(i, content, 0, "/content/foo/index.md").unwrap();
    match &d {
        DIssue::BrokenLink { display_issue, href } => {
            assert_eq!(href.as_deref(), Some("/en-US/docs/Foo"));
            assert_eq!(display_issue.id, 7);
            assert_eq!(display_issue.line, Some(2));
            assert_eq!(display_issue.column, Some(4));
            assert_eq!(display_issue.end_column, None);
            assert_eq!(display_issue.fixable, Some(false));
            assert!(!display_issue.fixed);
            assert_eq!(
                display_issue.explanation.as_deref(),
                Some("Link /en-US/docs/Foo doesn't resolve")
            );
            assert_eq!(
                display_issue.source_context.as_deref(),
                Some("line one\nhé llo\n---^\nthird\n")
            );
            assert_eq!(
                display_issue.filepath.as_deref(),
                Some("/content/foo/index.md")
            );
            assert_eq!(display_issue.name, IssueType::BrokenLink);
        }
        _ => panic!("expected a broken link"),
    }
    assert_eq!(d.content(), Some("/en-US/docs/Foo"));
}

#[test]
fn negative_counter_is_not_shown() {
    let i = issue(-1, 1, 1, &[("source", "broken-link")]);
    assert!(DIssue::from_issue(i, "x", 0, "f").is_none());
}

#[test]
fn context_is_taken_around_later_lines_and_front_matter_is_skipped() {
    let content = "a\nb\nc\nd\ne\nf\ng\nh\ni";
    // line 8 of the file with 2 front-matter lines is line 6 of the content ("f")
    let i = issue(1, 8, 1, &[("source", "ill-cased-link"), ("url", "/x")]);
    let d = DIssue::from_issue(i, content, 2, "p").unwrap();
    let di = d.display_issue();
    assert_eq!(di.column, Some(2));
    assert_eq!(di.source_context.as_deref(), Some("c\nd\ne\nf\n-^\ng\nh\ni\n"));
    assert_eq!(di.fixable, Some(true));
    assert_eq!(di.explanation.as_deref(), Some("Link /x is ill cased"));
}

#[test]
fn redirected_template_link_is_fixable_for_navigation_macros() {
    let i = issue(
        2,
        0,
        0,
        &[
            ("source", "templ-redirected-link"),
            ("templ", "previous"),
            ("url", "/a"),
            ("redirect", "/b"),
        ],
    );
    let d = DIssue::from_issue(i, "", 0, "p").unwrap();
    match &d {
        DIssue::Macros {
            display_issue,
            macro_name,
            href,
        } => {
            assert_eq!(macro_name.as_deref(), Some("previous"));
            assert_eq!(href.as_deref(), Some("/a"));
            assert_eq!(display_issue.fixable, Some(true));
            assert_eq!(display_issue.suggestion.as_deref(), Some("/b"));
            assert_eq!(
                display_issue.explanation.as_deref(),
                Some("Macro previous produces link /a which is a redirect")
            );
            assert_eq!(display_issue.line, None);
            assert_eq!(display_issue.column, None);
            assert_eq!(display_issue.source_context, None);
        }
        _ => panic!("expected a macro issue"),
    }
}

#[test]
fn other_template_issues() {
    let d = DIssue::from_issue(
        issue(3, 0, 0, &[("source", "templ-ill-cased-link"), ("templ", "cssxref"), ("url", "/c")]),
        "",
        0,
        "p",
    )
    .unwrap();
    let di = d.display_issue();
    assert_eq!(di.fixable, Some(false));
    assert_eq!(
        di.explanation.as_deref(),
        Some("Macro cssxref produces link /c which is ill cased")
    );

    let d = DIssue::from_issue(
        issue(4, 0, 0, &[("source", "templ-broken-link"), ("url", "/c")]),
        "",
        0,
        "p",
    )
    .unwrap();
    assert_eq!(
        d.display_issue().explanation.as_deref(),
        Some("Macro ? produces link /c which doesn't resolve")
    );

    let d = DIssue::from_issue(
        issue(5, 0, 0, &[("source", "templ-invalid-arg"), ("templ", "jsxref"), ("arg", "42")]),
        "",
        0,
        "p",
    )
    .unwrap();
    assert_eq!(
        d.display_issue().explanation.as_deref(),
        Some("Macro jsxref received argument (42) which is not valid.")
    );
    assert_eq!(d.display_issue().fixable, None);
    assert_eq!(d.content(), None);
}

#[test]
fn unknown_issue_keeps_message_and_later_fields_win() {
    let mut i = issue(6, 0, 0, &[("message", "second"), ("source", "whatever")]);
    i.spans = vec![("message".to_string(), "first".to_string())];
    let d = DIssue::from_issue(i, "", 0, "p").unwrap();
    assert!(matches!(d, DIssue::Unknown { .. }));
    assert_eq!(d.display_issue().explanation.as_deref(), Some("second"));
    assert_eq!(d.display_issue().name, IssueType::Unknown);
}

#[test]
fn display_issues_are_grouped_by_kind() {
    let issues = vec![
        issue(1, 0, 0, &[("source", "templ-broken-link")]),
        issue(2, 0, 0, &[("source", "broken-link")]),
        issue(-5, 0, 0, &[("source", "broken-link")]),
        issue(3, 0, 0, &[("source", "redirected-link")]),
    ];
    let groups = to_display_issues(issues, "", 0, "p");
    assert_eq!(groups.len(), 2);
    assert_eq!(groups[0].0, "broken_links");
    assert_eq!(groups[0].1.len(), 2);
    assert_eq!(groups[0].1[0].display_issue().id, 2);
    assert_eq!(groups[0].1[1].display_issue().id, 3);
    assert_eq!(groups[1].0, "macros");
    assert_eq!(groups[1].1.len(), 1);
}

#[test]
fn issue_names_and_fixable_templates() {
    assert_eq!(IssueType::from_name("templ-broken-link"), IssueType::TemplBrokenLink);
    assert_eq!(IssueType::from_name("redirected-link"), IssueType::RedirectedLink);
    assert_eq!(IssueType::from_name("nope"), IssueType::Unknown);
    assert!(is_fixable_template(Some("previousmenunext")));
    assert!(!is_fixable_template(Some("cssxref")));
    assert!(!is_fixable_template(None));
}

#[test]
fn spans_give_positions_outermost_first() {
    let mut inner = IssueEntries::default();
    inner.record_i64("col", 5);
    inner.record_str("templ", "a");
    inner.record_str("url", "b");
    let mut outer = IssueEntries::default();
    outer.record_i64("col", 7);
    outer.record_i64("line", 3);
    outer.record_str("file", "f.md");
    outer.record_u64("req", 9);
    let i = issue_from_scope(&[inner, outer]);
    assert_eq!(i.col, 7);
    assert_eq!(i.line, 3);
    assert_eq!(i.req, 9);
    // a span's entries start with `ic` 0, which replaces the unset -1
    assert_eq!(i.ic, 0);
    assert_eq!(i.file, "f.md");
    assert!(!i.ignore);
    assert_eq!(
        i.spans,
        vec![
            ("url".to_string(), "b".to_string()),
            ("templ".to_string(), "a".to_string())
        ]
    );
    assert!(!i.wants_counter());
}

#[test]
fn an_ignoring_span_ignores_the_issue() {
    let mut s = IssueEntries::default();
    s.record_bool("ignore", true);
    s.record_i64("ic", 12);
    let mut i = issue_from_scope(&[s]);
    assert!(i.ignore);
    assert_eq!(i.ic, 12);
    assert!(!i.wants_counter());
    i.record_str("file", "g.md");
    i.record_str("source", "broken-link");
    i.record_i64("end_line", 4);
    assert_eq!(i.file, "g.md");
    assert_eq!(i.end_line, 4);
    assert_eq!(i.fields, vec![("source".to_string(), "broken-link".to_string())]);
}
