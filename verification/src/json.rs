//! The JSON shapes of built pages.
use vstd::prelude::*;
use crate::contributors::Usernames;

verus! {

/// An entry of a table of contents.
#[derive(Clone, Debug, Default, PartialEq)]
pub struct TocEntry {
    pub text: String,
    pub id: String,
}

/// Where a page's source lives.
#[derive(Clone, Debug, Default, PartialEq)]
pub struct Source {
    pub folder: String,
    pub github_url: String,
    pub last_commit_url: String,
    pub filename: String,
}

/// A breadcrumb: a parent page's URI and title.
#[derive(Clone, Debug, Default, PartialEq)]
pub struct Parent {
    pub uri: String,
    pub title: String,
}

/// A prose section.
#[derive(Clone, Debug, Default, PartialEq)]
pub struct Prose {
    pub id: Option<String>,
    pub title: Option<String>,
    pub is_h3: bool,
    pub content: String,
}

/// A browser-compatibility section.
#[derive(Clone, Debug, Default, PartialEq)]
pub struct Compat {
    pub id: Option<String>,
    pub title: Option<String>,
    pub is_h3: bool,
    pub query: String,
    pub content: Option<String>,
}

/// A specification link.
#[derive(Clone, Debug, Default, PartialEq)]
pub struct Specification {
    pub bcd_specification_url: String,
    pub title: String,
}

/// A specifications section.
#[derive(Clone, Debug, Default, PartialEq)]
pub struct SpecificationSection {
    pub id: Option<String>,
    pub title: Option<String>,
    pub is_h3: bool,
    pub specifications: Vec<Specification>,
    pub query: String,
    pub content: Option<String>,
}

/// A section of a built document.
#[derive(Clone, Debug, PartialEq)]
pub enum Section {
    Prose(Prose),
    BrowserCompatibility(Compat),
    Specifications(SpecificationSection),
}

/// The data of a contributor spotlight page.
#[derive(Clone, Debug, Default, PartialEq)]
pub struct ContributorSpotlightHyData {
    pub sections: Vec<Section>,
    pub contributor_name: String,
    pub folder_name: String,
    pub is_featured: bool,
    pub profile_img: String,
    pub profile_img_alt: String,
    pub usernames: Usernames,
    pub quote: String,
}

/// The previous and next pages by slug.
#[derive(Clone, Debug, Default, PartialEq)]
pub struct PrevNextBySlug {
    pub previous: Option<SlugNTitle>,
    pub next: Option<SlugNTitle>,
}

impl PrevNextBySlug {
    /// Neither a previous nor a next page (then the field is not serialized).
    pub fn is_none(&self) -> (r: bool)
        ensures
            r == (self.previous is None && self.next is None),
    {
        self.previous.is_none() && self.next.is_none()
    }
}

/// A navigation link by slug and title.
#[derive(Clone, Debug, Default, PartialEq)]
pub struct SlugNTitle {
    pub title: String,
    pub slug: String,
}

/// The previous and next pages by URL.
#[derive(Clone, Debug, Default, PartialEq)]
pub struct PrevNextByUrl {
    pub prev: Option<UrlNTitle>,
    pub next: Option<UrlNTitle>,
}

/// A navigation link by URL and title.
#[derive(Clone, Debug, Default, PartialEq)]
pub struct UrlNTitle {
    pub title: String,
    pub url: String,
}

/// An article featured on the home page.
#[derive(Clone, Debug, Default, PartialEq)]
pub struct HomePageFeaturedArticle {
    pub mdn_url: String,
    pub summary: String,
    pub title: String,
    pub tag: Option<Parent>,
}

/// The contributor featured on the home page.
#[derive(Clone, Debug, Default, PartialEq)]
pub struct HomePageFeaturedContributor {
    pub contributor_name: String,
    pub url: String,
    pub quote: String,
}

/// A name with a URL.
#[derive(Clone, Debug, Default, PartialEq)]
pub struct NameUrl {
    pub name: String,
    pub url: String,
}

/// A point in time in UTC: seconds since the Unix epoch and the nanoseconds after them.
#[derive(Clone, Copy, Debug, Default, PartialEq, Eq, Structural)]
pub struct UtcTime {
    pub seconds: i64,
    pub nanos: u32,
}

/// A recent contribution shown on the home page: a merged pull request.
#[derive(Clone, Debug, Default, PartialEq)]
pub struct HomePageRecentContribution {
    /// The pull request's number.
    pub number: i64,
    pub title: String,
    /// When it was merged (the Unix epoch where its date does not read).
    pub updated_at: UtcTime,
    pub url: String,
    pub repo: NameUrl,
}

/// The data of a generic page.
#[derive(Clone, Debug, Default, PartialEq)]
pub struct JsonGenericHyData {
    pub sections: Vec<Section>,
    pub title: String,
    pub toc: Vec<TocEntry>,
}

} // verus!
