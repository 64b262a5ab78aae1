use rari_doc::homepage::{featured_articles, recent_contributions, recent_contributions_from_log, FeaturedSource};
use rari_doc::json::{HomePageRecentContribution, NameUrl, Parent, UtcTime};
use rari_doc::page::PageCategory;
use rari_doc::resolve::DocError;

#[test]
fn reads_pull_requests_from_the_log() {
    let log = "2024-03-01T10:00:00+01:00 Fix the thing (#42)\0\n2024-02-28T09:30:00+00:00 Add a page (#7)";
    let r = recent_contributions_from_log(log, "mdn/content").expect("pattern compiles");
    assert_eq!(r.len(), 2);
    assert_eq!(r[0].number, 42);
    assert_eq!(r[0].title, "Fix the thing");
    assert_eq!(r[0].updated_at, UtcTime { seconds: 1709283600, nanos: 0 });
    assert_eq!(r[0].url, "https://github.com/mdn/content/pull/42");
    assert_eq!(r[0].repo.name, "mdn/content");
    assert_eq!(r[0].repo.url, "https://github.com/mdn/content");
    assert_eq!(r[1].number, 7);
    assert_eq!(r[1].title, "Add a page");
    assert_eq!(r[1].updated_at, UtcTime { seconds: 1709112600, nanos: 0 });
}

#[test]
fn skips_commits_without_a_pull_request() {
    let log = "2024-03-01T10:00:00+01:00 Direct push\02024-03-02T10:00:00+01:00 Merged (#1)\0";
    let r = recent_contributions_from_log(log, "mdn/translated-content").expect("pattern compiles");
    assert_eq!(r.len(), 1);
    assert_eq!(r[0].number, 1);
    assert_eq!(r[0].url, "https://github.com/mdn/translated-content/pull/1");
}

#[test]
fn keeps_at_most_five_contributions() {
    let mut log = String::new();
    for i in 1..=8 {
        log.push_str(&format!("2024-03-0{i}T10:00:00+00:00 Change {i} (#{i})\0"));
    }
    let r = recent_contributions_from_log(&log, "mdn/content").expect("pattern compiles");
    assert_eq!(r.len(), 5);
    assert_eq!(r[4].number, 5);
    assert_eq!(r[4].title, "Change 5");
}

#[test]
fn a_number_out_of_range_counts_as_zero() {
    let log = "2024-03-01T10:00:00+01:00 Huge (#99999999999999999999)";
    let r = recent_contributions_from_log(log, "mdn/content").expect("pattern compiles");
    assert_eq!(r.len(), 1);
    assert_eq!(r[0].number, 0);
    assert_eq!(r[0].url, "https://github.com/mdn/content/pull/99999999999999999999");
}

#[test]
fn an_empty_log_has_no_contributions() {
    let r = recent_contributions_from_log("", "mdn/content").expect("pattern compiles");
    assert!(r.is_empty());
}

#[test]
fn featured_articles_from_posts_and_docs() {
    let found = vec![
        Ok(FeaturedSource::BlogPost {
            url: "/en-US/blog/post/".to_string(),
            title: "A post".to_string(),
            description: "About it".to_string(),
        }),
        Err(DocError::PageNotFound("/en-US/docs/Gone".to_string(), PageCategory::Doc)),
        Ok(FeaturedSource::Other),
        Ok(FeaturedSource::Doc {
            url: "/en-US/docs/Web/CSS".to_string(),
            title: "CSS".to_string(),
            summary: None,
            tag: Some(Parent { uri: "/en-US/docs/Web".to_string(), title: "Web".to_string() }),
        }),
    ];
    let r = featured_articles(found).expect("no hard error");
    assert_eq!(r.len(), 2);
    assert_eq!(r[0].mdn_url, "/en-US/blog/post/");
    assert_eq!(r[0].summary, "About it");
    assert_eq!(r[0].tag.as_ref().map(|t| (t.uri.as_str(), t.title.as_str())), Some(("/en-US/blog/", "Blog")));
    assert_eq!(r[1].title, "CSS");
    assert_eq!(r[1].summary, "");
    assert_eq!(r[1].tag.as_ref().map(|t| t.title.as_str()), Some("Web"));
}

#[test]
fn featured_articles_stop_at_another_error() {
    let found = vec![
        Err(DocError::InvalidTempl("bad".to_string())),
        Ok(FeaturedSource::Other),
    ];
    assert!(matches!(featured_articles(found), Err(DocError::InvalidTempl(m)) if m == "bad"));
}

#[test]
fn a_date_that_does_not_read_is_the_epoch() {
    let r = recent_contributions_from_log("yesterday Fix (#3)\02024-01-01T00:00:00.5Z Other (#4)", "mdn/content").expect("pattern compiles");
    assert_eq!(r[0].updated_at, UtcTime { seconds: 0, nanos: 0 });
    assert_eq!(r[1].updated_at, UtcTime { seconds: 1704067200, nanos: 500_000_000 });
}

fn contribution(n: i64, seconds: i64) -> HomePageRecentContribution {
    HomePageRecentContribution {
        number: n,
        title: format!("#{n}"),
        updated_at: UtcTime { seconds, nanos: 0 },
        url: String::new(),
        repo: NameUrl::default(),
    }
}

#[test]
fn recent_contributions_are_ordered_by_time_stably() {
    let content = vec![contribution(1, 30), contribution(2, 10)];
    let translated = vec![contribution(3, 20), contribution(4, 10)];
    let r = recent_contributions(content.clone(), Some(translated));
    let numbers: Vec<i64> = r.iter().map(|c| c.number).collect();
    assert_eq!(numbers, vec![2, 4, 3, 1]);
    let r = recent_contributions(content, None);
    let numbers: Vec<i64> = r.iter().map(|c| c.number).collect();
    assert_eq!(numbers, vec![2, 1]);
}
