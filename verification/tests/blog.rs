use rari_doc::blog::{
    blog_author_by_name, post_author, prev_next, Author, AuthorFrontmatter, AuthorLink,
    BlogDate, BlogImage, BlogMeta, BlogPostBuildMeta, BlogPostRef,
};

fn authors() -> Vec<(String, Author)> {
    vec![(
        "jane".to_string(),
        Author {
            frontmatter: AuthorFrontmatter {
                name: Some("Jane Doe".to_string()),
                link: Some("https://example.com".to_string()),
                avatar: Some("avatar.png".to_string()),
            },
            path: "/blog/authors/jane".to_string(),
        },
    )]
}

#[test]
fn author_links_point_at_the_avatar() {
    let a = &authors()[0].1;
    let l = AuthorLink::from_author(a, "jane");
    assert_eq!(l.name.as_deref(), Some("Jane Doe"));
    assert_eq!(l.link.as_deref(), Some("https://example.com"));
    assert_eq!(l.avatar_url.as_deref(), Some("/en-US/blog/author/jane/avatar.png"));
}

#[test]
fn authors_are_found_by_name() {
    let all = authors();
    assert!(blog_author_by_name("jane", &all).is_some());
    assert!(blog_author_by_name("john", &all).is_none());
    let unknown = post_author("john", &all);
    assert_eq!(unknown.name.as_deref(), Some("john"));
    assert!(unknown.link.is_none() && unknown.avatar_url.is_none());
    let known = post_author("jane", &all);
    assert_eq!(known.name.as_deref(), Some("Jane Doe"));
}

fn post(n: u32) -> BlogPostRef {
    BlogPostRef {
        url: format!("/en-US/blog/p{n}/"),
        slug: format!("p{n}"),
        title: format!("Post {n}"),
    }
}

#[test]
fn posts_link_to_their_neighbours() {
    let posts = vec![post(1), post(2), post(3)];
    let p = prev_next("/en-US/blog/p2/", &posts);
    assert_eq!(p.previous.unwrap().slug, "p1");
    assert_eq!(p.next.unwrap().slug, "p3");
    let p = prev_next("/en-US/blog/p1/", &posts);
    assert!(p.previous.is_none());
    assert_eq!(p.next.unwrap().title, "Post 2");
    let p = prev_next("/en-US/blog/p3/", &posts);
    assert!(p.next.is_none());
    let p = prev_next("/en-US/blog/other/", &posts);
    assert!(p.is_none());
}

#[test]
fn blog_meta_links_its_neighbours() {
    let b = BlogPostBuildMeta {
        slug: "p2".to_string(),
        title: "Post 2".to_string(),
        description: "d".to_string(),
        image: BlogImage::default(),
        keywords: String::new(),
        sponsored: false,
        published: true,
        date: BlogDate { year: 2023, month: 5, day: 4 },
        author: "nobody".to_string(),
        url: "/en-US/blog/p2/".to_string(),
        full_path: String::new(),
        path: String::new(),
        read_time: 3,
    };
    let sorted: Vec<BlogPostRef> = (1..=3).map(post).collect();
    let m = BlogMeta::from_build(&b, &sorted, &[]);
    assert_eq!(m.links.previous.as_ref().map(|l| l.slug.as_str()), Some("p1"));
    assert_eq!(m.links.next.as_ref().map(|l| l.slug.as_str()), Some("p3"));
    assert_eq!(m.author.name.as_deref(), Some("nobody"));
    assert_eq!(m.date, BlogDate { year: 2023, month: 5, day: 4 });
    assert_eq!(m.read_time, 3);
}
