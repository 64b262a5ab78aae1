//! Kinds of pages and what is known about the pages of the site.
use vstd::prelude::*;
use crate::locale::{spec_url_str, Locale};
use crate::text::{ascii_lowercase, chars_of, push_str, seq_eq, str_eq, to_ascii_lowercase};

verus! {

/// The category of a page.
#[derive(Clone, Copy, Debug, PartialEq, Eq, Structural)]
pub enum PageCategory {
    Doc,
    BlogPost,
    SPA,
    Curriculum,
    ContributorSpotlight,
    GenericPage,
}

/// A single-page application: its slug, whether it exists in en-US only, and whether its
/// URL ends in a slash.
pub struct SpaEntry {
    pub slug: String,
    pub en_us_only: bool,
    pub trailing_slash: bool,
}

/// What the site holds beyond documents: its single-page applications and the
/// (lower-cased) URLs of its generic pages.
pub struct SiteIndex {
    pub spas: Vec<SpaEntry>,
    pub generic_urls: Vec<String>,
}

/// The single-page applications as (slug, en-US only, trailing slash).
pub open spec fn spa_view(site: &SiteIndex) -> Seq<(Seq<char>, bool, bool)> {
    site.spas@.map_values(|e: SpaEntry| (e.slug@, e.en_us_only, e.trailing_slash))
}

/// The first single-page application with slug `slug`.
pub open spec fn spa_lookup(spas: Seq<(Seq<char>, bool, bool)>, slug: Seq<char>) -> Option<
    (Seq<char>, bool, bool),
>
    decreases spas.len(),
{
    if spas.len() == 0 {
        None
    } else if spas[0].0 == slug {
        Some(spas[0])
    } else {
        spa_lookup(spas.drop_first(), slug)
    }
}

/// `slug` names a single-page application available in `locale`.
pub open spec fn spec_is_spa(site: &SiteIndex, slug: Seq<char>, locale: Locale) -> bool {
    match spa_lookup(spa_view(site), slug) {
        Some(e) => locale == Locale::EnUs || !e.1,
        None => false,
    }
}

/// The URL of a generic page, before lower-casing.
pub open spec fn generic_url(slug: Seq<char>, locale: Locale) -> Seq<char> {
    seq!['/'] + spec_url_str(locale) + seq!['/'] + slug
}

/// `slug` names a generic page in `locale`.
pub open spec fn spec_is_generic(site: &SiteIndex, slug: Seq<char>, locale: Locale) -> bool {
    exists|i: int|
        0 <= i < site.generic_urls@.len() && #[trigger] site.generic_urls@[i]@ == ascii_lowercase(
            generic_url(slug, locale),
        )
}

impl SiteIndex {
    /// A site with no single-page applications and no generic pages.
    pub fn empty() -> (r: SiteIndex)
        ensures
            r.spas@.len() == 0,
            r.generic_urls@.len() == 0,
    {
        SiteIndex { spas: Vec::new(), generic_urls: Vec::new() }
    }

    /// The single-page application with slug `slug`, if any.
    pub fn spa(&self, slug: &str) -> (r: Option<&SpaEntry>)
        ensures
            match r {
                Some(e) => spa_lookup(spa_view(self), slug@) == Some(
                    (e.slug@, e.en_us_only, e.trailing_slash),
                ),
                None => spa_lookup(spa_view(self), slug@) is None,
            },
    {
        let n = self.spas.len();
        let mut i: usize = 0;
        assert(spa_view(self).skip(0) =~= spa_view(self));
        while i < n
            invariant
                n == self.spas@.len(),
                i <= n,
                spa_lookup(spa_view(self), slug@) == spa_lookup(spa_view(self).skip(i as int), slug@),
            decreases n - i,
        {
            let ghost rest = spa_view(self).skip(i as int);
            assert(rest[0] == (self.spas@[i as int].slug@, self.spas@[i as int].en_us_only,
                self.spas@[i as int].trailing_slash));
            if str_eq(self.spas[i].slug.as_str(), slug) {
                return Some(&self.spas[i]);
            }
            assert(rest.drop_first() =~= spa_view(self).skip(i + 1));
            i += 1;
        }
        assert(spa_view(self).skip(n as int).len() == 0);
        None
    }

    /// Whether `slug` names a single-page application available in `locale`.
    pub fn is_spa(&self, slug: &str, locale: Locale) -> (r: bool)
        ensures
            r == spec_is_spa(self, slug@, locale),
    {
        match self.spa(slug) {
            Some(e) => locale == Locale::EnUs || !e.en_us_only,
            None => false,
        }
    }

    /// Whether `slug` names a generic page in `locale`.
    pub fn is_generic(&self, slug: &str, locale: Locale) -> (r: bool)
        ensures
            r == spec_is_generic(self, slug@, locale),
    {
        let mut url = String::new();
        push_str(&mut url, "/");
        push_str(&mut url, locale.as_url_str());
        push_str(&mut url, "/");
        push_str(&mut url, slug);
        proof {
            reveal_strlit("/");
            assert(url@ =~= generic_url(slug@, locale));
        }
        let lower = to_ascii_lowercase(url.as_str());
        let lv = chars_of(lower.as_str());
        let n = self.generic_urls.len();
        let mut i: usize = 0;
        while i < n
            invariant
                n == self.generic_urls@.len(),
                i <= n,
                lv@ == ascii_lowercase(generic_url(slug@, locale)),
                forall|j: int| 0 <= j < i ==> self.generic_urls@[j]@ != lv@,
            decreases n - i,
        {
            let g = chars_of(self.generic_urls[i].as_str());
            if seq_eq(g.as_slice(), lv.as_slice()) {
                return true;
            }
            i += 1;
        }
        false
    }
}

/// The type of a page, as its front matter declares it.
#[derive(Clone, Copy, Debug, PartialEq, Eq, Structural)]
pub enum PageType {
    JavascriptClass,
    JavascriptNamespace,
    JavascriptConstructor,
    JavascriptInstanceAccessorProperty,
    JavascriptInstanceDataProperty,
    JavascriptInstanceMethod,
    JavascriptStaticAccessorProperty,
    JavascriptStaticDataProperty,
    JavascriptStaticMethod,
    WebApiConstructor,
    WebApiEvent,
    WebApiInstanceMethod,
    WebApiInstanceProperty,
    WebApiStaticMethod,
    WebApiStaticProperty,
    WebextensionApiEvent,
    WebextensionApiFunction,
    WebextensionApiProperty,
    WebextensionApiType,
    Curriculum,
    BlogPost,
    SPA,
    GenericPage,
    Dummy,
    /// Any other declared type.
    Other,
    /// No type declared.
    NoType,
}

/// What the sidebars and link checks read of a page: its URL, slug, title, short title,
/// locale and type.
#[derive(Clone, Debug)]
pub struct PageRef {
    pub url: String,
    pub slug: String,
    pub title: String,
    pub short_title: Option<String>,
    pub locale: Locale,
    pub page_type: PageType,
}

/// A template named in front matter: a bare name, or a name with arguments.
#[derive(Clone, Debug)]
pub enum FmTempl {
    NoArgs(String),
    WithArgs { name: String, args: Vec<String> },
}

/// The name of a front-matter template.
pub open spec fn templ_name(t: FmTempl) -> Seq<char> {
    match t {
        FmTempl::NoArgs(name) => name@,
        FmTempl::WithArgs { name, .. } => name@,
    }
}

impl FmTempl {
    /// The template's name.
    pub fn name(&self) -> (r: &str)
        ensures
            r@ == templ_name(*self),
    {
        match self {
            FmTempl::NoArgs(name) => name.as_str(),
            FmTempl::WithArgs { name, .. } => name.as_str(),
        }
    }
}

/// The front matter of a generic page.
#[derive(Debug, Clone)]
pub struct GenericPageFrontmatter {
    pub title: String,
}

} // verus!
