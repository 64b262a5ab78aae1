//! Blog authors, the metadata of blog posts, and the links between them.
use vstd::prelude::*;
use crate::json::{PrevNextBySlug, SlugNTitle};
use crate::text::{chars_of, push_str, str_eq, string_of};

verus! {

/// The front matter of a blog author.
#[derive(Clone, Debug, Default)]
pub struct AuthorFrontmatter {
    pub name: Option<String>,
    pub link: Option<String>,
    pub avatar: Option<String>,
}

/// A blog author: the front matter and the path of the author's file.
#[derive(Clone, Debug, Default)]
pub struct Author {
    pub frontmatter: AuthorFrontmatter,
    pub path: String,
}

/// The author of a blog post as the post shows it.
#[derive(Clone, Debug, Default)]
pub struct AuthorLink {
    pub name: Option<String>,
    pub link: Option<String>,
    pub avatar_url: Option<String>,
}

/// A person credited for an image.
#[derive(Clone, Debug, Default)]
pub struct AuthorMetadata {
    pub name: String,
    pub link: Option<String>,
    pub avatar_url: Option<String>,
}

/// The image of a blog post.
#[derive(Clone, Debug, Default)]
pub struct BlogImage {
    pub file: String,
    pub alt: Option<String>,
    pub source: Option<AuthorMetadata>,
    pub creator: Option<AuthorMetadata>,
}

/// What the links between blog posts read of a post: its URL, slug and title.
#[derive(Clone, Debug)]
pub struct BlogPostRef {
    pub url: String,
    pub slug: String,
    pub title: String,
}

/// A copy of a post reference.
pub(crate) fn clone_post(p: &BlogPostRef) -> (r: BlogPostRef)
    ensures
        r == *p,
{
    BlogPostRef { url: p.url.clone(), slug: p.slug.clone(), title: p.title.clone() }
}

/// The URL of author `name`'s avatar `avatar`.
pub open spec fn avatar_url(name: Seq<char>, avatar: Seq<char>) -> Seq<char> {
    "/en-US/blog/author/"@ + name + "/"@ + avatar
}

/// The text of an optional string.
pub open spec fn opt_text(o: Option<String>) -> Option<Seq<char>> {
    match o {
        Some(s) => Some(s@),
        None => None,
    }
}

fn clone_opt(o: &Option<String>) -> (r: Option<String>)
    ensures
        r == *o,
{
    match o {
        Some(s) => Some(s.clone()),
        None => None,
    }
}

impl AuthorLink {
    /// The link to author `author` (named `name` among the authors): the front matter's
    /// name and link, and the URL of the avatar where there is one.
    pub fn from_author(author: &Author, name: &str) -> (r: AuthorLink)
        ensures
            r.name == author.frontmatter.name,
            r.link == author.frontmatter.link,
            opt_text(r.avatar_url) == match author.frontmatter.avatar {
                Some(a) => Some(avatar_url(name@, a@)),
                None => None,
            },
    {
        let avatar_url = match &author.frontmatter.avatar {
            Some(a) => {
                let mut u = String::new();
                push_str(&mut u, "/en-US/blog/author/");
                push_str(&mut u, name);
                push_str(&mut u, "/");
                push_str(&mut u, a.as_str());
                Some(u)
            },
            None => None,
        };
        AuthorLink {
            name: clone_opt(&author.frontmatter.name),
            link: clone_opt(&author.frontmatter.link),
            avatar_url,
        }
    }
}

/// The first author named `name` among `authors`.
pub open spec fn author_position(authors: Seq<(String, Author)>, name: Seq<char>) -> Option<int>
    decreases authors.len(),
{
    if authors.len() == 0 {
        None
    } else if authors[0].0@ == name {
        Some(0)
    } else {
        match author_position(authors.drop_first(), name) {
            Some(k) => Some(k + 1),
            None => None,
        }
    }
}

/// The author named `name` among the blog's authors (each name once).
pub fn blog_author_by_name<'a>(name: &str, authors: &'a [(String, Author)]) -> (r: Option<&'a Author>)
    ensures
        match author_position(authors@, name@) {
            Some(k) => r == Some(&authors@[k].1),
            None => r is None,
        },
{
    let n = authors.len();
    let mut i: usize = 0;
    assert(authors@.skip(0) =~= authors@);
    while i < n
        invariant
            n == authors@.len(),
            i <= n,
            author_position(authors@, name@) == match author_position(authors@.skip(i as int), name@) {
                Some(k) => Some(k + i),
                None => None,
            },
        decreases n - i,
    {
        assert(authors@.skip(i as int).drop_first() =~= authors@.skip(i + 1));
        assert(authors@.skip(i as int)[0] == authors@[i as int]);
        if str_eq(authors[i].0.as_str(), name) {
            return Some(&authors[i].1);
        }
        i += 1;
    }
    None
}

/// `r` is the author shown on a post by `name`: the author's link where the author is
/// known, else just the name.
pub open spec fn is_post_author(r: AuthorLink, name: Seq<char>, authors: Seq<(String, Author)>) -> bool {
    match author_position(authors, name) {
        Some(k) => r.name == authors[k].1.frontmatter.name && r.link == authors[k].1.frontmatter.link
            && opt_text(r.avatar_url) == match authors[k].1.frontmatter.avatar {
            Some(a) => Some(avatar_url(name, a@)),
            None => None,
        },
        None => opt_text(r.name) == Some(name) && r.link is None && r.avatar_url is None,
    }
}

/// The author shown on a post by `name` (see `is_post_author`).
pub fn post_author(name: &str, authors: &[(String, Author)]) -> (r: AuthorLink)
    ensures
        is_post_author(r, name@, authors@),
{
    match blog_author_by_name(name, authors) {
        Some(a) => AuthorLink::from_author(a, name),
        None => AuthorLink { name: Some(string_of(chars_of(name).as_slice())), link: None, avatar_url: None },
    }
}

/// The first post with URL `url` among `posts`.
pub open spec fn post_position(posts: Seq<BlogPostRef>, url: Seq<char>) -> Option<int>
    decreases posts.len(),
{
    if posts.len() == 0 {
        None
    } else if posts[0].url@ == url {
        Some(0)
    } else {
        match post_position(posts.drop_first(), url) {
            Some(k) => Some(k + 1),
            None => None,
        }
    }
}

/// `l` links to post `j` of `posts` (its slug and title), or is absent where there is
/// no such post.
pub open spec fn post_link(l: Option<SlugNTitle>, posts: Seq<BlogPostRef>, j: int) -> bool {
    if 0 <= j < posts.len() {
        l matches Some(x) && x.slug@ == posts[j].slug@ && x.title@ == posts[j].title@
    } else {
        l is None
    }
}

fn link_to_post(posts: &[BlogPostRef], j: usize) -> (r: Option<SlugNTitle>)
    ensures
        post_link(r, posts@, j as int),
{
    if j < posts.len() {
        Some(SlugNTitle { slug: posts[j].slug.clone(), title: posts[j].title.clone() })
    } else {
        None
    }
}

/// The previous and next posts around the post with URL `url` among the posts sorted by
/// date; none where the post is not among them.
pub fn prev_next(url: &str, sorted: &[BlogPostRef]) -> (r: PrevNextBySlug)
    ensures
        match post_position(sorted@, url@) {
            Some(i) => post_link(r.previous, sorted@, i - 1) && post_link(r.next, sorted@, i + 1),
            None => r.previous is None && r.next is None,
        },
{
    let n = sorted.len();
    let mut i: usize = 0;
    assert(sorted@.skip(0) =~= sorted@);
    while i < n
        invariant
            n == sorted@.len(),
            i <= n,
            post_position(sorted@, url@) == match post_position(sorted@.skip(i as int), url@) {
                Some(k) => Some(k + i),
                None => None,
            },
        decreases n - i,
    {
        assert(sorted@.skip(i as int).drop_first() =~= sorted@.skip(i + 1));
        assert(sorted@.skip(i as int)[0] == sorted@[i as int]);
        if str_eq(sorted[i].url.as_str(), url) {
            let previous = if i > 0 { link_to_post(sorted, i - 1) } else { None };
            let next = if i < n - 1 { link_to_post(sorted, i + 1) } else { None };
            return PrevNextBySlug { previous, next };
        }
        i += 1;
    }
    PrevNextBySlug { previous: None, next: None }
}


/// A calendar date (of a blog post's front matter).
#[derive(Clone, Copy, Debug, Default, PartialEq, Eq, Structural)]
pub struct BlogDate {
    pub year: i32,
    pub month: u32,
    pub day: u32,
}

/// The metadata of a blog post as the build reads it from its front matter and file.
#[derive(Clone, Debug)]
pub struct BlogPostBuildMeta {
    pub slug: String,
    pub title: String,
    pub description: String,
    pub image: BlogImage,
    pub keywords: String,
    pub sponsored: bool,
    pub published: bool,
    pub date: BlogDate,
    /// The name of the author.
    pub author: String,
    pub url: String,
    pub full_path: String,
    pub path: String,
    /// Minutes of reading.
    pub read_time: usize,
}

/// The metadata of a blog post as its page and the blog index show it; its date is at
/// midnight of the post's date.
#[derive(Clone, Debug)]
pub struct BlogMeta {
    pub slug: String,
    pub title: String,
    pub description: String,
    pub image: BlogImage,
    pub keywords: String,
    pub sponsored: bool,
    pub date: BlogDate,
    pub author: AuthorLink,
    pub links: PrevNextBySlug,
    pub read_time: usize,
}

/// `m` shows the post `b`: its slug, title, description, image, keywords, sponsoring,
/// date and reading time as they are, its author as `is_post_author` gives it from
/// `authors`; its links are `links`.
pub open spec fn is_blog_meta(m: BlogMeta, b: BlogPostBuildMeta, authors: Seq<(String, Author)>, links: PrevNextBySlug) -> bool {
    &&& m.slug == b.slug
    &&& m.title == b.title
    &&& m.description == b.description
    &&& m.image == b.image
    &&& m.keywords == b.keywords
    &&& m.sponsored == b.sponsored
    &&& m.date == b.date
    &&& m.read_time == b.read_time
    &&& is_post_author(m.author, b.author@, authors)
    &&& m.links == links
}

fn clone_author_meta(a: &Option<AuthorMetadata>) -> (r: Option<AuthorMetadata>)
    ensures
        r == *a,
{
    match a {
        Some(x) => Some(AuthorMetadata { name: x.name.clone(), link: clone_opt(&x.link), avatar_url: clone_opt(&x.avatar_url) }),
        None => None,
    }
}

/// A copy of a post's image.
pub fn clone_image(i: &BlogImage) -> (r: BlogImage)
    ensures
        r == *i,
{
    BlogImage { file: i.file.clone(), alt: clone_opt(&i.alt), source: clone_author_meta(&i.source), creator: clone_author_meta(&i.creator) }
}

/// The reference to a post that the links between posts read.
pub fn post_ref(b: &BlogPostBuildMeta) -> (r: BlogPostRef)
    ensures
        r.url == b.url,
        r.slug == b.slug,
        r.title == b.title,
{
    BlogPostRef { url: b.url.clone(), slug: b.slug.clone(), title: b.title.clone() }
}

impl BlogMeta {
    /// The metadata of post `b` without links between posts (see `is_blog_meta`).
    pub fn unlinked(b: &BlogPostBuildMeta, authors: &[(String, Author)]) -> (r: BlogMeta)
        ensures
            is_blog_meta(r, *b, authors@, PrevNextBySlug { previous: None, next: None }),
    {
        BlogMeta {
            slug: b.slug.clone(),
            title: b.title.clone(),
            description: b.description.clone(),
            image: clone_image(&b.image),
            keywords: b.keywords.clone(),
            sponsored: b.sponsored,
            date: b.date,
            author: post_author(b.author.as_str(), authors),
            links: PrevNextBySlug { previous: None, next: None },
            read_time: b.read_time,
        }
    }

    /// The metadata of post `b` (see `is_blog_meta`), linked to the posts before and
    /// after it among `sorted` (the posts sorted by date, see `prev_next`).
    pub fn from_build(b: &BlogPostBuildMeta, sorted: &[BlogPostRef], authors: &[(String, Author)]) -> (r: BlogMeta)
        ensures
            exists|links: PrevNextBySlug|
                {
                    &&& is_blog_meta(r, *b, authors@, links)
                    &&& match post_position(sorted@, b.url@) {
                        Some(i) => post_link(links.previous, sorted@, i - 1) && post_link(links.next, sorted@, i + 1),
                        None => links.previous is None && links.next is None,
                    }
                },
    {
        let m0 = BlogMeta::unlinked(b, authors);
        let links = prev_next(b.url.as_str(), sorted);
        let ghost gl = links;
        let m = BlogMeta { links, ..m0 };
        assert(is_blog_meta(m, *b, authors@, gl));
        m
    }
}

} // verus!
