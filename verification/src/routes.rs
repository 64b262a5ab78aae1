//! Where the page at a URL is read from: which kind of page it is, under which slug or
//! folder and in which locale, and which URLs name no page at all.
use vstd::prelude::*;
use crate::locale::{Locale, LocaleError};
use crate::page::{PageCategory, SiteIndex};
use crate::resolve::{before_hash, spec_folder_path, spec_url_meta, url_meta_from, UrlError, UrlMeta};
use crate::text::{chars_of, find_char, slice_of, starts_with, string_of};

verus! {

/// Where a page is read from.
#[derive(Debug, Clone)]
pub enum PageRoute {
    /// A single-page application, by slug.
    Spa { slug: String, locale: Locale },
    /// A document, by the folder of its slug.
    Doc { folder_path: String, locale: Locale },
    /// A blog post, by URL.
    BlogPost { url: String },
    /// A curriculum page, by URL.
    Curriculum { url: String },
    /// A community spotlight, by URL.
    ContributorSpotlight { url: String, locale: Locale },
    /// A generic page, by slug.
    GenericPage { slug: String, locale: Locale },
}

/// Why a URL names no page.
#[derive(Debug)]
pub enum RouteError {
    /// The URL is not one of the site's.
    Url(UrlError),
    /// The page would exist in en-US only.
    NotFound(String, PageCategory),
}

/// The error is the URL error that `spec_url_meta` describes.
pub open spec fn url_error_is(e: UrlError, spec_err: Option<Seq<char>>) -> bool {
    match spec_err {
        None => e is InvalidUrl,
        Some(s) => e matches UrlError::LocaleError(LocaleError::InvalidLocale(x)) && x@ == s,
    }
}

/// Where the page at `url` (its fragment dropped) is read from, in `locale` where one
/// is given, else in the URL's locale: the kind of page the URL names, with the blog,
/// its index and the curriculum in en-US only.
pub open spec fn spec_page_route(url: Seq<char>, locale: Option<Locale>, site: &SiteIndex, r: Result<PageRoute, RouteError>) -> bool {
    let u = before_hash(url);
    match spec_url_meta(u, site) {
        Err(e) => r matches Err(RouteError::Url(x)) && url_error_is(x, e),
        Ok((c, slug, l0)) => {
            let loc = match locale {
                Some(l) => l,
                None => l0,
            };
            match c {
                PageCategory::SPA => if loc != Locale::EnUs && "blog"@.is_prefix_of(slug) {
                    r matches Err(RouteError::NotFound(x, PageCategory::SPA)) && x@ == u
                } else {
                    r matches Ok(PageRoute::Spa { slug: s, locale: l }) && s@ == slug && l == loc
                },
                PageCategory::Doc => r matches Ok(PageRoute::Doc { folder_path: f, locale: l }) && f@ == spec_folder_path(slug)
                    && l == loc,
                PageCategory::BlogPost => if loc != Locale::EnUs {
                    r matches Err(RouteError::NotFound(x, PageCategory::BlogPost)) && x@ == u
                } else {
                    r matches Ok(PageRoute::BlogPost { url: x }) && x@ == u
                },
                PageCategory::Curriculum => if loc != Locale::EnUs {
                    r matches Err(RouteError::NotFound(x, PageCategory::Curriculum)) && x@ == u
                } else {
                    r matches Ok(PageRoute::Curriculum { url: x }) && x@ == u
                },
                PageCategory::ContributorSpotlight => r matches Ok(PageRoute::ContributorSpotlight { url: x, locale: l }) && x@ == u
                    && l == loc,
                PageCategory::GenericPage => r matches Ok(PageRoute::GenericPage { slug: s, locale: l }) && s@ == slug && l
                    == loc,
            }
        },
    }
}

/// Where the page at `url` is read from (see `spec_page_route`).
pub fn page_route(url: &str, locale: Option<Locale>, site: &SiteIndex) -> (r: Result<PageRoute, RouteError>)
    ensures
        spec_page_route(url@, locale, site, r),
{
    let v = chars_of(url);
    let h = match find_char(v.as_slice(), '#') {
        Some(i) => i,
        None => v.len(),
    };
    let uv = slice_of(v.as_slice(), 0, h);
    proof {
        if crate::text::first_index(url@, '#') is None {
            assert(uv@ =~= url@);
        }
    }
    let u = string_of(uv.as_slice());
    let meta = match url_meta_from(u.as_str(), site) {
        Ok(m) => m,
        Err(e) => return Err(RouteError::Url(e)),
    };
    let UrlMeta { folder_path, slug, locale: l0, page_category } = meta;
    let loc = match locale {
        Some(l) => l,
        None => l0,
    };
    match page_category {
        PageCategory::SPA => {
            if loc != Locale::EnUs && starts_with(chars_of(slug.as_str()).as_slice(), chars_of("blog").as_slice()) {
                Err(RouteError::NotFound(u, PageCategory::SPA))
            } else {
                Ok(PageRoute::Spa { slug, locale: loc })
            }
        },
        PageCategory::Doc => Ok(PageRoute::Doc { folder_path, locale: loc }),
        PageCategory::BlogPost => {
            if loc != Locale::EnUs {
                Err(RouteError::NotFound(u, PageCategory::BlogPost))
            } else {
                Ok(PageRoute::BlogPost { url: u })
            }
        },
        PageCategory::Curriculum => {
            if loc != Locale::EnUs {
                Err(RouteError::NotFound(u, PageCategory::Curriculum))
            } else {
                Ok(PageRoute::Curriculum { url: u })
            }
        },
        PageCategory::ContributorSpotlight => Ok(PageRoute::ContributorSpotlight { url: u, locale: loc }),
        PageCategory::GenericPage => Ok(PageRoute::GenericPage { slug, locale: loc }),
    }
}

} // verus!
