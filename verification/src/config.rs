//! The configuration of generic pages and single-page applications.
use vstd::prelude::*;
use crate::site::PaginationData;
use crate::templates::SpaBuildTemplate;

verus! {

/// How the pages of a section of generic content are published.
#[derive(Debug, Clone, Default)]
pub struct GenericPagesConfig {
    pub slug_prefix: Option<String>,
    pub title_suffix: Option<String>,
}

/// A single-page application that is nothing but a page.
#[derive(Debug, Clone, Copy, Default)]
pub struct BasicSPA {
    pub only_follow: bool,
    pub no_indexing: bool,
}

/// What a single-page application shows.
#[derive(Debug, Clone, Copy)]
pub enum SPAData {
    /// A page of the blog index.
    BlogIndex(PaginationData),
    HomePage,
    NotFound,
    BasicSPA(BasicSPA),
}

/// A single-page application as it is built.
#[derive(Debug, Clone)]
pub struct BuildSPA {
    pub slug: String,
    pub page_title: String,
    pub short_title: Option<String>,
    pub page_description: Option<String>,
    pub trailing_slash: bool,
    pub en_us_only: bool,
    pub data: SPAData,
    pub template: SpaBuildTemplate,
}

/// The configuration of all generic content: the sections of generic pages and the
/// single-page applications, by name.
#[derive(Debug, Clone, Default)]
pub struct GenericContentConfig {
    pub pages: Vec<(String, GenericPagesConfig)>,
    pub spas: Vec<(String, BuildSPA)>,
}

} // verus!
