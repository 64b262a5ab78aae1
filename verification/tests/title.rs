use rari_doc::title::{process_backticks, root_doc_url, transform_title, TitleFormat};

#[test]
fn test_backtick_processing() {
    let cases: &[(&str, &str, &str)] = &[
        (
            "no backticks here",
            "no backticks here",
            "no backticks here",
        ),
        ("", "", ""),
        (
            "`<input>`: The Input element",
            "<input>: The Input element",
            "<code>&lt;input&gt;</code>: The Input element",
        ),
        (
            "`foo` and `bar`",
            "foo and bar",
            "<code>foo</code> and <code>bar</code>",
        ),
        (
            "The `<input>` & `<output>` elements",
            "The <input> & <output> elements",
            "The <code>&lt;input&gt;</code> &amp; <code>&lt;output&gt;</code> elements",
        ),
        ("foo `bar", "foo `bar", "foo `bar"),
        (
            "`foo` bar `baz",
            "foo bar `baz",
            "<code>foo</code> bar `baz",
        ),
        ("`foo``bar`", "foobar", "<code>foo</code><code>bar</code>"),
        ("``", "", "<code></code>"),
        ("foo `` bar", "foo  bar", "foo <code></code> bar"),
        ("\\`", "`", "`"),
        ("\\`foo\\`", "`foo`", "`foo`"),
        ("\\`foo` bar", "`foo` bar", "`foo` bar"),
        ("`foo\\`bar`", "foo`bar", "<code>foo`bar</code>"),
    ];

    for (input, expected_plain, expected_html) in cases {
        assert_eq!(
            process_backticks(input, TitleFormat::Plain),
            *expected_plain,
        );
        assert_eq!(process_backticks(input, TitleFormat::Html), *expected_html,);
    }
}

#[test]
fn test_root_doc_url() {
    assert_eq!(
        root_doc_url("/en-US/docs/Web/CSS/Reference/Properties/border"),
        Some("/en-US/docs/Web/CSS")
    );
    assert_eq!(
        root_doc_url("/en-US/docs/Web/CSS"),
        Some("/en-US/docs/Web/CSS")
    );
    assert_eq!(
        root_doc_url("/en-US/docs/Learn/foo"),
        Some("/en-US/docs/Learn")
    );
    assert_eq!(root_doc_url("/en-US/blog/foo"), None);
    assert_eq!(root_doc_url("/en-US/curriculum/foo"), None);
}

#[test]
fn transform_title_known_and_unknown() {
    assert_eq!(transform_title("JavaScript reference"), "Reference");
    assert_eq!(transform_title("Web forms — Working with user data"), "Forms");
    assert_eq!(transform_title("Something else"), "Something else");
}

#[test]
fn root_doc_url_other_sections() {
    assert_eq!(root_doc_url("/en-US/docs/Web/API/Guides/Foo/Bar"), Some("/en-US/docs/Web/API"));
    assert_eq!(root_doc_url("/en-US/docs/conflicting/Foo"), None);
    assert_eq!(root_doc_url("/en-US/docs"), None);
    assert_eq!(root_doc_url("/en-US/play/foo"), Some("/en-US/play/foo"));
}
