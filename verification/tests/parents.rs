use rari_doc::parents::{page_title, parent_urls, parents, TitledPage};
use rari_doc::resolve::DocError;

fn titled(url: &str, title: &str, short: Option<&str>) -> TitledPage {
    TitledPage {
        url: url.to_string(),
        title: title.to_string(),
        short_title: short.map(String::from),
    }
}

#[test]
fn parent_urls_walk_up_to_the_base() {
    assert_eq!(
        parent_urls("/en-US/docs/Web/CSS/color", false, "/en-US/docs"),
        vec!["/en-US/docs/Web/CSS".to_string(), "/en-US/docs/Web".to_string()]
    );
    assert_eq!(
        parent_urls("/en-US/curriculum/core/styling/", true, "/en-US/"),
        vec![
            "/en-US/curriculum/core/".to_string(),
            "/en-US/curriculum/".to_string()
        ]
    );
    assert!(parent_urls("nothing", false, "/").is_empty());
}

#[test]
fn breadcrumbs_run_from_the_root() {
    let doc = titled("/en-US/docs/Web/CSS/color", "color", None);
    let found = vec![
        Some(titled("/en-US/docs/Web/CSS", "CSS: Cascading Style Sheets", Some("CSS"))),
        None,
    ];
    let p = parents(&doc, &found);
    let got: Vec<(&str, &str)> = p.iter().map(|p| (p.uri.as_str(), p.title.as_str())).collect();
    assert_eq!(
        got,
        vec![("/en-US/docs/Web/CSS", "CSS"), ("/en-US/docs/Web/CSS/color", "color")]
    );
}

#[test]
fn document_titles_name_their_section() {
    let doc = titled("/en-US/docs/Web/CSS/color", "color", None);
    let t = page_title(&doc, Some("MDN"), true, |u: &str| {
        assert_eq!(u, "/en-US/docs/Web/CSS");
        Ok(titled("/en-US/docs/Web/CSS", "CSS: Cascading Style Sheets", Some("CSS")))
    })
    .unwrap();
    assert_eq!(t, "color - CSS | MDN");
    let t = page_title(&doc, Some("MDN"), false, |_: &str| {
        Ok(titled("/en-US/docs/Web/CSS", "CSS", None))
    })
    .unwrap();
    assert_eq!(t, "color - CSS");
    let err = page_title(&doc, None, true, |u: &str| {
        Err(DocError::InvalidTempl(u.to_string()))
    });
    assert!(err.is_err());
}

#[test]
fn blog_titles_have_no_section() {
    let doc = titled("/en-US/blog/some-post/", "Some post", None);
    let t = page_title(&doc, Some("MDN Blog"), true, |_: &str| -> Result<TitledPage, DocError> {
        panic!("no root document is read")
    })
    .unwrap();
    assert_eq!(t, "Some post | MDN Blog");
}
