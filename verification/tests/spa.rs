use rari_doc::blog::{Author, AuthorFrontmatter, BlogDate, BlogImage, BlogPostBuildMeta, BlogPostRef};
use rari_doc::config::{BasicSPA, BuildSPA, SPAData};
use rari_doc::json::Parent;
use rari_doc::locale::Locale;
use rari_doc::site::PaginationData;
use rari_doc::spa::{as_built_doc, blog_index_posts, spa_renderer, BuiltSpa, SPA};
use rari_doc::templates::{SpaBuildTemplate, SpaRenderer};

fn spas() -> Vec<(String, BuildSPA)> {
    vec![
        (
            "blog".to_string(),
            BuildSPA {
                slug: "blog".to_string(),
                page_title: "MDN Blog".to_string(),
                short_title: None,
                page_description: None,
                trailing_slash: true,
                en_us_only: true,
                data: SPAData::BlogIndex(PaginationData {
                    current_page: 2,
                    num_pages: 3,
                }),
                template: SpaBuildTemplate::SpaUnknown,
            },
        ),
        (
            "search".to_string(),
            BuildSPA {
                slug: "search".to_string(),
                page_title: "Search".to_string(),
                short_title: Some("Search".to_string()),
                page_description: Some("Find things".to_string()),
                trailing_slash: false,
                en_us_only: false,
                data: SPAData::BasicSPA(BasicSPA {
                    only_follow: true,
                    no_indexing: false,
                }),
                template: SpaBuildTemplate::SpaSearch,
            },
        ),
    ]
}

fn post(n: usize) -> BlogPostRef {
    BlogPostRef {
        url: format!("/en-US/blog/p{n}/"),
        slug: format!("p{n}"),
        title: format!("Post {n}"),
    }
}

#[test]
fn spas_are_found_by_slug_and_locale() {
    let s = SPA::from_slug("search", Locale::Fr, &spas()).unwrap();
    assert_eq!(s.url, "/fr/search");
    assert_eq!(s.base_slug, "/fr/");
    let b = SPA::from_slug("blog", Locale::EnUs, &spas()).unwrap();
    assert_eq!(b.url, "/en-US/blog/");
    assert!(SPA::from_slug("blog", Locale::De, &spas()).is_none());
    assert!(SPA::from_slug("nope", Locale::EnUs, &spas()).is_none());
    assert!(SPA::from_url("/en-us/blog/", &spas()).is_some());
    assert!(SPA::from_url("/en-US/search", &spas()).is_none());
}

#[test]
fn blog_index_pages_list_newest_posts_first() {
    let posts: Vec<BlogPostRef> = (1..=25).map(post).collect();
    let page2 = blog_index_posts(&posts, 10, 2);
    let slugs: Vec<&str> = page2.iter().map(|p| p.slug.as_str()).collect();
    assert_eq!(slugs[0], "p15");
    assert_eq!(slugs.len(), 10);
    assert_eq!(slugs[9], "p6");
    let page3 = blog_index_posts(&posts, 10, 3);
    assert_eq!(page3.len(), 5);
    assert!(blog_index_posts(&posts, 10, 4).is_empty());
    assert_eq!(blog_index_posts(&posts, usize::MAX, 1).len(), 25);
}

fn build_meta(n: usize) -> BlogPostBuildMeta {
    BlogPostBuildMeta {
        slug: format!("p{n}"),
        title: format!("Post {n}"),
        description: format!("About {n}"),
        image: BlogImage { file: format!("p{n}.png"), alt: None, source: None, creator: None },
        keywords: "k".to_string(),
        sponsored: n % 2 == 0,
        published: true,
        date: BlogDate { year: 2024, month: 1, day: n as u32 },
        author: if n == 15 { "ada".to_string() } else { "bob".to_string() },
        url: format!("/en-US/blog/p{n}/"),
        full_path: format!("/blog/p{n}/index.md"),
        path: format!("p{n}/index.md"),
        read_time: n,
    }
}

#[test]
fn built_pages_by_kind() {
    let posts: Vec<BlogPostBuildMeta> = (1..=25).map(build_meta).collect();
    let authors = vec![(
        "ada".to_string(),
        Author {
            frontmatter: AuthorFrontmatter { name: Some("Ada".to_string()), link: None, avatar: Some("a.png".to_string()) },
            path: String::new(),
        },
    )];
    let b = SPA::from_slug("blog", Locale::EnUs, &spas()).unwrap();
    match as_built_doc(&b, "MDN Blog | MDN".to_string(), vec![], vec![], &posts, &authors, 10).unwrap() {
        BuiltSpa::BlogIndex {
            posts, parents, pagination, ..
        } => {
            assert_eq!(posts.len(), 10);
            assert_eq!(posts[0].slug, "p15");
            assert_eq!(posts[0].description, "About 15");
            assert_eq!(posts[0].image.file, "p15.png");
            assert_eq!(posts[0].date, BlogDate { year: 2024, month: 1, day: 15 });
            assert_eq!(posts[0].read_time, 15);
            assert!(!posts[0].sponsored);
            assert_eq!(posts[0].author.name.as_deref(), Some("Ada"));
            assert_eq!(posts[0].author.avatar_url.as_deref(), Some("/en-US/blog/author/ada/a.png"));
            assert_eq!(posts[1].author.name.as_deref(), Some("bob"));
            assert!(posts[1].links.previous.is_none() && posts[1].links.next.is_none());
            assert_eq!(pagination.current_page, 2);
            assert_eq!(parents.len(), 1);
            assert_eq!(parents[0].uri, "/en-US/blog/");
            assert_eq!(parents[0].title, "MDN Blog");
        }
        _ => panic!("expected the blog index"),
    }
    let s = SPA::from_slug("search", Locale::Ja, &spas()).unwrap();
    let crumbs = vec![Parent {
        uri: "/ja/search".to_string(),
        title: "Search".to_string(),
    }];
    match as_built_doc(&s, "Search | MDN".to_string(), crumbs, vec![], &[], &[], 10).unwrap() {
        BuiltSpa::Spa {
            url,
            renderer,
            only_follow,
            page_not_found,
            parents,
            ..
        } => {
            assert_eq!(url, "/ja/search");
            assert_eq!(renderer, SpaRenderer::SpaSearch);
            assert!(only_follow);
            assert!(!page_not_found);
            assert_eq!(parents.len(), 1);
        }
        _ => panic!("expected an application page"),
    }
}

#[test]
fn renderers_follow_templates() {
    assert_eq!(spa_renderer(SpaBuildTemplate::SpaPlay), SpaRenderer::SpaPlay);
    assert_eq!(spa_renderer(SpaBuildTemplate::SpaHomepage), SpaRenderer::SpaUnknown);
}

#[test]
fn blog_index_pages_together_list_every_post_once() {
    let posts: Vec<BlogPostRef> = (1..=25).map(post).collect();
    let mut all = vec![];
    for page in 1..=3 {
        all.extend(blog_index_posts(&posts, 10, page));
    }
    let slugs: Vec<String> = all.iter().map(|p| p.slug.clone()).collect();
    let expected: Vec<String> = (1..=25).rev().map(|n| format!("p{n}")).collect();
    assert_eq!(slugs, expected);
}

#[test]
fn all_spas_with_their_locales() {
    let all = SPA::all(&spas(), Some(&[Locale::EnUs, Locale::De]));
    let got: Vec<(&str, Locale)> = all.iter().map(|(s, l)| (s.as_str(), *l)).collect();
    assert_eq!(
        got,
        vec![("blog", Locale::EnUs), ("search", Locale::EnUs), ("search", Locale::De)]
    );
    let en_only = SPA::all(&spas(), None);
    let got: Vec<(&str, Locale)> = en_only.iter().map(|(s, l)| (s.as_str(), *l)).collect();
    assert_eq!(got, vec![("blog", Locale::EnUs), ("search", Locale::EnUs)]);
}
