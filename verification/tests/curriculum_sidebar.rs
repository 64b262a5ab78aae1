use rari_doc::curriculum::CurriculumSidebarEntry;
use rari_doc::curriculum_sidebar::{build_sidebar, path_less};

fn page(path: &str, slug: &str) -> (String, CurriculumSidebarEntry) {
    (
        path.to_string(),
        CurriculumSidebarEntry {
            url: format!("/en-US/curriculum/{slug}/"),
            title: slug.to_string(),
            slug: slug.to_string(),
            children: vec![],
        },
    )
}

#[test]
fn paths_compare_by_component() {
    assert!(path_less("/c/a/x.md", "/c/a-b/x.md"));
    assert!(!path_less("/c/a-b/x.md", "/c/a/x.md"));
    assert!(path_less("/c/a", "/c/a/b"));
    assert!(path_less("/z", "a"));
    assert!(!path_less("/c/a", "/c/a"));
}

#[test]
fn sidebar_follows_file_order_and_nests_deep_pages() {
    let pages = vec![
        page("/cur/1-core/2-scripting/1-js.md", "core/scripting/js"),
        page("/cur/1-core/1-styling/0-README.md", "core/styling"),
        page("/cur/0-README.md", "about"),
        page("/cur/1-core/2-scripting/0-README.md", "core/scripting"),
        page("/cur/1-core/1-styling/1-css.md", "core/styling/css"),
    ];
    let sb = build_sidebar(pages).unwrap();
    let top: Vec<&str> = sb.iter().map(|e| e.slug.as_str()).collect();
    assert_eq!(top, vec!["about", "core/styling", "core/scripting"]);
    assert!(sb[0].children.is_empty());
    assert_eq!(sb[1].children.len(), 1);
    assert_eq!(sb[1].children[0].slug, "core/styling/css");
    assert_eq!(sb[2].children[0].slug, "core/scripting/js");
}

#[test]
fn empty_curriculum_has_empty_sidebar() {
    assert!(build_sidebar(vec![]).unwrap().is_empty());
}
