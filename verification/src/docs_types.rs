//! Navigation links of blog posts and curriculum pages.
use vstd::prelude::*;

verus! {

/// A link by slug and title.
#[derive(Clone, Debug, Default, PartialEq)]
pub struct SlugNTitle {
    pub title: String,
    pub slug: String,
}

/// A link by URL and title.
#[derive(Clone, Debug, Default, PartialEq)]
pub struct UrlNTitle {
    pub title: String,
    pub url: String,
}

/// The previous and next blog posts.
#[derive(Clone, Debug, Default, PartialEq)]
pub struct PrevNextBlog {
    pub previous: Option<SlugNTitle>,
    pub next: Option<SlugNTitle>,
}

/// The previous and next curriculum pages.
#[derive(Clone, Debug, Default, PartialEq)]
pub struct PrevNextCurriculum {
    pub prev: Option<UrlNTitle>,
    pub next: Option<UrlNTitle>,
}

impl PrevNextBlog {
    /// Neither a previous nor a next post.
    pub fn is_none(&self) -> (r: bool)
        ensures
            r == (self.previous is None && self.next is None),
    {
        self.previous.is_none() && self.next.is_none()
    }
}

} // verus!
