use rari_doc::curriculum::{
    build_landing_modules, build_overview_modules, curriculum_group, grouped_index, prev_next,
    prev_next_modules, prev_next_overview, CurriculumIndexEntry, Topic,
};
use rari_doc::json::Parent;

fn entry(slug: &str) -> CurriculumIndexEntry {
    CurriculumIndexEntry {
        url: format!("/en-US/curriculum/{slug}/"),
        title: format!("T {slug}"),
        slug: Some(slug.to_string()),
        summary: None,
        topic: Topic::NoTopic,
        children: vec![],
    }
}

fn index() -> Vec<CurriculumIndexEntry> {
    vec![
        entry("core"),
        entry("core/scripting"),
        entry("core/scripting/variables"),
        entry("core/scripting/loops"),
        entry("core/styling"),
        entry("extensions"),
    ]
}

fn slugs(v: &[CurriculumIndexEntry]) -> Vec<String> {
    v.iter().map(|e| e.slug.clone().unwrap_or_default()).collect()
}

#[test]
fn deeper_entries_join_the_module_before_them() {
    let g = grouped_index(index());
    assert_eq!(slugs(&g), vec!["core", "core/scripting", "core/styling", "extensions"]);
    assert_eq!(
        slugs(&g[1].children),
        vec!["core/scripting/variables", "core/scripting/loops"]
    );
    assert!(g[0].children.is_empty());
}

#[test]
fn a_deep_first_entry_starts_its_own_group() {
    let g = grouped_index(vec![entry("a/b/c"), entry("a/b/d")]);
    assert_eq!(slugs(&g), vec!["a/b/c"]);
    assert_eq!(slugs(&g[0].children), vec!["a/b/d"]);
}

#[test]
fn landing_and_overview_modules() {
    let landing = build_landing_modules(index()).unwrap();
    assert_eq!(slugs(&landing), vec!["core/scripting"]);
    let overview = build_overview_modules(index(), "core/scripting").unwrap();
    assert_eq!(
        slugs(&overview),
        vec!["core/scripting/variables", "core/scripting/loops"]
    );
    assert!(build_overview_modules(index(), "nope").unwrap().is_empty());
}

#[test]
fn previous_and_next_entries() {
    let idx = index();
    let p = prev_next(&idx, Some(0)).unwrap().unwrap();
    assert!(p.prev.is_none());
    assert_eq!(p.next.unwrap().url, "/en-US/curriculum/core/scripting/");
    let p = prev_next(&idx, Some(2)).unwrap().unwrap();
    assert_eq!(p.prev.unwrap().title, "T core/scripting");
    assert_eq!(p.next.unwrap().title, "T core/scripting/loops");
    let p = prev_next(&idx, Some(6)).unwrap().unwrap();
    assert_eq!(p.prev.unwrap().title, "T extensions");
    assert!(p.next.is_none());
    assert!(prev_next(&idx, None).unwrap().is_none());
    let p = prev_next(&[], Some(0)).unwrap().unwrap();
    assert!(p.prev.is_none() && p.next.is_none());
}

#[test]
fn previous_and_next_modules_by_slug() {
    let idx = index();
    let p = prev_next_modules(&idx, "core/styling").unwrap().unwrap();
    assert_eq!(p.prev.unwrap().title, "T core/scripting/loops");
    assert_eq!(p.next.unwrap().title, "T extensions");
    assert!(prev_next_modules(&idx, "missing").unwrap().is_none());
    let p = prev_next_overview(index(), "core/scripting").unwrap().unwrap();
    assert!(p.prev.is_none());
    assert!(p.next.is_none());
}

#[test]
fn group_comes_from_the_breadcrumbs() {
    let parents = vec![
        Parent { uri: "/".to_string(), title: "Curriculum".to_string() },
        Parent { uri: "/a".to_string(), title: "Core modules".to_string() },
        Parent { uri: "/b".to_string(), title: "Scripting".to_string() },
    ];
    assert_eq!(curriculum_group(&parents), Some("Core modules".to_string()));
    assert_eq!(curriculum_group(&parents[..2]), None);
    assert_eq!(curriculum_group(&parents[..1]), None);
}
