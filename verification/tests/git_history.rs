use rari_doc::history::{apply_redirects, HistoryEntry, PathMap};
use rari_doc::page::SiteIndex;

/// Seconds from the epoch to the first of January of `year` (no leap days: the
/// tests only compare entries with each other).
fn entry(year: i64, hash: &str) -> HistoryEntry {
    HistoryEntry {
        modified: (year - 1970) * 31_536_000,
        hash: hash.to_string(),
    }
}

fn redirect(old: &str, new: &str) -> Vec<(String, String)> {
    vec![(old.to_string(), new.to_string())]
}

#[test]
fn propagates_entry_from_old_to_new_path() {
    let old = "fr/web/http/status/303/index.md";
    let new = "fr/web/http/reference/status/303/index.md";
    let mut map = PathMap::new();
    map.insert(old.to_string(), entry(2024, "deadbeef"));

    apply_redirects(
        &mut map,
        &redirect(
            "/fr/docs/Web/HTTP/Status/303",
            "/fr/docs/Web/HTTP/Reference/Status/303",
        ),
        &SiteIndex::empty(),
    );

    assert_eq!(map.get(new), Some(&entry(2024, "deadbeef")));
    // Old entry is left in place; lookups happen via the new key.
    assert!(map.contains_key(old));
}

#[test]
fn does_not_overwrite_existing_new_path_entry() {
    let old = "fr/a/index.md";
    let new = "fr/b/index.md";
    let mut map = PathMap::new();
    map.insert(old.to_string(), entry(2020, "old-hash"));
    map.insert(new.to_string(), entry(2024, "new-hash"));

    apply_redirects(&mut map, &redirect("/fr/docs/A", "/fr/docs/B"), &SiteIndex::empty());

    assert_eq!(map.get(new), Some(&entry(2024, "new-hash")));
}

#[test]
fn skips_redirect_when_old_path_has_no_history() {
    let new = "fr/b/index.md";
    let mut map: PathMap<HistoryEntry> = PathMap::new();

    apply_redirects(&mut map, &redirect("/fr/docs/A", "/fr/docs/B"), &SiteIndex::empty());

    assert!(!map.contains_key(new));
}

#[test]
fn skips_self_redirect() {
    // Pure case-only URL renames produce equal lowercase paths.
    let path = "fr/web/api/example/index.md";
    let mut map = PathMap::new();
    map.insert(path.to_string(), entry(2022, "abc"));

    apply_redirects(
        &mut map,
        &redirect("/fr/docs/Web/api/Example", "/fr/docs/Web/API/Example"),
        &SiteIndex::empty(),
    );

    assert_eq!(map.len(), 1);
    assert_eq!(map.get(path), Some(&entry(2022, "abc")));
}

#[test]
fn skips_unparseable_urls() {
    let mut map: PathMap<HistoryEntry> = PathMap::new();

    apply_redirects(
        &mut map,
        &redirect("not-a-url", "https://example.com/external"),
        &SiteIndex::empty(),
    );

    assert!(map.is_empty());
}

#[test]
fn redirects_apply_in_order_and_chain() {
    let mut map = PathMap::new();
    map.insert("de/a/index.md".to_string(), entry(2019, "h1"));
    let redirects = vec![
        ("/de/docs/A".to_string(), "/de/docs/B".to_string()),
        ("/de/docs/B".to_string(), "/de/docs/C".to_string()),
    ];
    apply_redirects(&mut map, &redirects, &SiteIndex::empty());
    assert_eq!(map.get("de/b/index.md"), Some(&entry(2019, "h1")));
    assert_eq!(map.get("de/c/index.md"), Some(&entry(2019, "h1")));
    assert_eq!(map.len(), 3);
}
