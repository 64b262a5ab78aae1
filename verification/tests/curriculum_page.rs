use rari_doc::curriculum_page::{curriculum_file_to_slug, curriculum_page_parts};
use rari_doc::resolve::DocError;

#[test]
fn file_names_become_slugs() {
    assert_eq!(
        curriculum_file_to_slug("1-core/2-scripting/0-README.md").as_deref(),
        Some("core/scripting")
    );
    assert_eq!(
        curriculum_file_to_slug("1-core/2-scripting/3-events.md").as_deref(),
        Some("core/scripting/events")
    );
    // At the start, the order prefix `0-` is what matches first.
    assert_eq!(curriculum_file_to_slug("0-README.md").as_deref(), Some("README"));
}

#[test]
fn pages_are_read_into_parts() {
    let parts = curriculum_page_parts(
        "1-core/1-styling/2-box-model.md",
        "# The box model\n\nEvery element is a box.\n",
    )
    .unwrap()
    .unwrap();
    assert_eq!(parts.slug, "core/styling/box-model");
    assert_eq!(parts.url, "/en-US/core/styling/box-model/");
    assert_eq!(parts.title, "The box model");
    assert_eq!(parts.content, "\nEvery element is a box.\n");
}

#[test]
fn pages_without_a_title_are_an_error() {
    let r = curriculum_page_parts("1-core/x.md", "No heading here\n").unwrap();
    assert!(matches!(r, Err(DocError::NoH1)));
    assert_eq!(DocError::NoH1.to_string(), "No H1 found");
}
