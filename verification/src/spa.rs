//! The single-page applications of the site (the blog index, the home page, search,
//! the observatory, ...): finding them by slug or URL and building their pages.
use vstd::prelude::*;
use crate::blog::{is_blog_meta, Author, BlogMeta, BlogPostBuildMeta, BlogPostRef};
use crate::config::{BuildSPA, SPAData};
use crate::json::{Parent, PrevNextBySlug};
use crate::locale::{spec_url_str, Locale};
use crate::page::PageType;
use crate::resolve::DocError;
use crate::sections::opt_view;
use crate::site::PaginationData;
use crate::templates::{SpaBuildTemplate, SpaRenderer};
use crate::text::{chars_of, push_str, str_eq, string_of};

verus! {

/// A single-page application in one locale.
#[derive(Debug, Clone)]
pub struct SPA {
    pub page_title: String,
    pub short_title: Option<String>,
    pub slug: String,
    pub url: String,
    pub locale: Locale,
    pub page_type: PageType,
    pub data: SPAData,
    pub base_slug: String,
    pub page_description: Option<String>,
    pub template: SpaBuildTemplate,
}

/// The first application configured under `slug`.
pub open spec fn spa_config(spas: Seq<(String, BuildSPA)>, slug: Seq<char>) -> Option<BuildSPA>
    decreases spas.len(),
{
    if spas.len() == 0 {
        None
    } else if spas[0].0@ == slug {
        Some(spas[0].1)
    } else {
        spa_config(spas.drop_first(), slug)
    }
}

/// The URL of an application in `locale`: `/<locale>/<slug>`, with a final `/` where
/// its URLs end in one and its slug is not empty.
pub open spec fn spa_url(b: BuildSPA, locale: Locale) -> Seq<char> {
    "/"@ + spec_url_str(locale) + "/"@ + b.slug@ + if b.trailing_slash && b.slug@.len() > 0 {
        "/"@
    } else {
        ""@
    }
}

/// `s` is the application `b` in `locale`.
pub open spec fn is_spa_in(s: SPA, b: BuildSPA, locale: Locale) -> bool {
    &&& s.page_title == b.page_title
    &&& s.short_title == b.short_title
    &&& s.slug == b.slug
    &&& s.url@ == spa_url(b, locale)
    &&& s.locale == locale
    &&& s.page_type == PageType::SPA
    &&& s.data == b.data
    &&& s.base_slug@ == "/"@ + spec_url_str(locale) + "/"@
    &&& s.page_description == b.page_description
    &&& s.template == b.template
}

fn spa_config_exec<'a>(spas: &'a [(String, BuildSPA)], slug: &str) -> (r: Option<&'a BuildSPA>)
    ensures
        match spa_config(spas@, slug@) {
            Some(b) => r matches Some(x) && *x == b,
            None => r is None,
        },
{
    let n = spas.len();
    let mut i: usize = 0;
    assert(spas@.skip(0) =~= spas@);
    while i < n
        invariant
            n == spas@.len(),
            i <= n,
            spa_config(spas@, slug@) == spa_config(spas@.skip(i as int), slug@),
        decreases n - i,
    {
        assert(spas@.skip(i as int).drop_first() =~= spas@.skip(i + 1));
        assert(spas@.skip(i as int)[0] == spas@[i as int]);
        if str_eq(spas[i].0.as_str(), slug) {
            return Some(&spas[i].1);
        }
        i += 1;
    }
    None
}

fn clone_opt(o: &Option<String>) -> (r: Option<String>)
    ensures
        r == *o,
{
    match o {
        Some(s) => Some(s.clone()),
        None => None,
    }
}

/// The slugs and locales of a list of pairs.
pub open spec fn views_locales(v: Seq<(String, Locale)>) -> Seq<(Seq<char>, Locale)> {
    v.map_values(|p: (String, Locale)| (p.0@, p.1))
}

/// Every application with each locale it is built in (see `SPA::all`).
pub open spec fn spa_locales(spas: Seq<(String, BuildSPA)>, translated: Option<Seq<Locale>>) -> Seq<(Seq<char>, Locale)>
    decreases spas.len(),
{
    if spas.len() == 0 {
        seq![]
    } else {
        let (slug, b) = spas.last();
        spa_locales(spas.drop_last(), translated) + match translated {
            Some(ls) if !b.en_us_only => ls.map_values(|l: Locale| (slug@, l)),
            _ => seq![(slug@, Locale::EnUs)],
        }
    }
}

impl SPA {
    /// The application configured under `slug` in `locale` (`spas` being the
    /// configuration): none where there is none, or where it exists in en-US only and
    /// `locale` is another.
    pub fn from_slug(slug: &str, locale: Locale, spas: &[(String, BuildSPA)]) -> (r: Option<SPA>)
        ensures
            match spa_config(spas@, slug@) {
                Some(b) => if b.en_us_only && locale != Locale::EnUs {
                    r is None
                } else {
                    r matches Some(s) && is_spa_in(s, b, locale)
                },
                None => r is None,
            },
    {
        let b = match spa_config_exec(spas, slug) {
            Some(b) => b,
            None => return None,
        };
        if b.en_us_only && locale != Locale::EnUs {
            return None;
        }
        let mut url = String::new();
        push_str(&mut url, "/");
        push_str(&mut url, locale.as_url_str());
        push_str(&mut url, "/");
        push_str(&mut url, b.slug.as_str());
        if b.trailing_slash && chars_of(b.slug.as_str()).len() > 0 {
            push_str(&mut url, "/");
        }
        let mut base_slug = String::new();
        push_str(&mut base_slug, "/");
        push_str(&mut base_slug, locale.as_url_str());
        push_str(&mut base_slug, "/");
        proof {
            reveal_strlit("");
            assert(url@ =~= spa_url(*b, locale));
        }
        Some(
            SPA {
                page_title: b.page_title.clone(),
                short_title: clone_opt(&b.short_title),
                slug: b.slug.clone(),
                url,
                locale,
                page_type: PageType::SPA,
                data: b.data,
                base_slug,
                page_description: clone_opt(&b.page_description),
                template: b.template,
            },
        )
    }

    /// The application at `url`: the blog index at `/en-US/blog/` (in either case of
    /// the locale), none elsewhere.
    pub fn from_url(url: &str, spas: &[(String, BuildSPA)]) -> (r: Option<SPA>)
        ensures
            if url@ == "/en-US/blog/"@ || url@ == "/en-us/blog/"@ {
                match spa_config(spas@, "blog"@) {
                    Some(b) => r matches Some(s) && is_spa_in(s, b, Locale::EnUs),
                    None => r is None,
                }
            } else {
                r is None
            },
    {
        if str_eq(url, "/en-US/blog/") || str_eq(url, "/en-us/blog/") {
            SPA::from_slug("blog", Locale::EnUs, spas)
        } else {
            None
        }
    }

    /// Every application with each locale it is built in, in the configuration's order:
    /// in en-US only where it is configured so or where there is no translated content
    /// (`translated_locales` none), else in each of `translated_locales` (the locales of
    /// generic pages and applications).
    pub fn all(spas: &[(String, BuildSPA)], translated_locales: Option<&[Locale]>) -> (r: Vec<(String, Locale)>)
        ensures
            views_locales(r@) == spa_locales(spas@, match translated_locales {
                Some(l) => Some(l@),
                None => None,
            }),
    {
        let ghost tl = match translated_locales {
            Some(l) => Some(l@),
            None => None::<Seq<Locale>>,
        };
        let mut out: Vec<(String, Locale)> = Vec::new();
        let n = spas.len();
        let mut i: usize = 0;
        assert(spas@.take(0) =~= Seq::<(String, BuildSPA)>::empty());
        assert(views_locales(out@) =~= Seq::<(Seq<char>, Locale)>::empty());
        while i < n
            invariant
                n == spas@.len(),
                i <= n,
                tl == match translated_locales {
                    Some(l) => Some(l@),
                    None => None::<Seq<Locale>>,
                },
                views_locales(out@) == spa_locales(spas@.take(i as int), tl),
            decreases n - i,
        {
            assert(spas@.take(i + 1).drop_last() =~= spas@.take(i as int));
            assert(spas@.take(i + 1).last() == spas@[i as int]);
            let slug = &spas[i].0;
            let ghost before = views_locales(out@);
            match translated_locales {
                Some(locales) if !spas[i].1.en_us_only => {
                    let m = locales.len();
                    let mut j: usize = 0;
                    while j < m
                        invariant
                            m == locales@.len(),
                            j <= m,
                            views_locales(out@) == before + locales@.take(j as int).map_values(|l: Locale| (slug@, l)),
                        decreases m - j,
                    {
                        let ghost mid = views_locales(out@);
                        out.push((slug.clone(), locales[j]));
                        assert(views_locales(out@) =~= mid.push((slug@, locales@[j as int])));
                        assert(locales@.take(j + 1).map_values(|l: Locale| (slug@, l)) =~= locales@.take(j as int).map_values(
                            |l: Locale| (slug@, l),
                        ).push((slug@, locales@[j as int])));
                        j += 1;
                    }
                    assert(locales@.take(m as int) =~= locales@);
                },
                _ => {
                    out.push((slug.clone(), Locale::EnUs));
                    assert(views_locales(out@) =~= before.push((slug@, Locale::EnUs)));
                    assert(seq![(slug@, Locale::EnUs)] =~= seq![].push((slug@, Locale::EnUs)));
                },
            }
            i += 1;
        }
        assert(spas@.take(n as int) =~= spas@);
        out
    }
}

/// The renderer of an application built from `t`.
pub open spec fn spec_spa_renderer(t: SpaBuildTemplate) -> SpaRenderer {
    match t {
        SpaBuildTemplate::SpaNotFound => SpaRenderer::SpaNotFound,
        SpaBuildTemplate::SpaObservatoryLanding => SpaRenderer::SpaObservatoryLanding,
        SpaBuildTemplate::SpaObservatoryAnalyze => SpaRenderer::SpaObservatoryAnalyze,
        SpaBuildTemplate::SpaAdvertise => SpaRenderer::SpaAdvertise,
        SpaBuildTemplate::SpaPlusLanding => SpaRenderer::SpaPlusLanding,
        SpaBuildTemplate::SpaPlusCollections => SpaRenderer::SpaPlusCollections,
        SpaBuildTemplate::SpaPlusCollectionsFrequentlyViewed => SpaRenderer::SpaPlusCollectionsFrequentlyViewed,
        SpaBuildTemplate::SpaPlusUpdates => SpaRenderer::SpaPlusUpdates,
        SpaBuildTemplate::SpaPlusSettings => SpaRenderer::SpaPlusSettings,
        SpaBuildTemplate::SpaPlusAiHelp => SpaRenderer::SpaPlusAiHelp,
        SpaBuildTemplate::SpaPlay => SpaRenderer::SpaPlay,
        SpaBuildTemplate::SpaSearch => SpaRenderer::SpaSearch,
        _ => SpaRenderer::SpaUnknown,
    }
}

/// The renderer of an application built from `t` (see `spec_spa_renderer`).
pub fn spa_renderer(t: SpaBuildTemplate) -> (r: SpaRenderer)
    ensures
        r == spec_spa_renderer(t),
{
    match t {
        SpaBuildTemplate::SpaNotFound => SpaRenderer::SpaNotFound,
        SpaBuildTemplate::SpaObservatoryLanding => SpaRenderer::SpaObservatoryLanding,
        SpaBuildTemplate::SpaObservatoryAnalyze => SpaRenderer::SpaObservatoryAnalyze,
        SpaBuildTemplate::SpaAdvertise => SpaRenderer::SpaAdvertise,
        SpaBuildTemplate::SpaPlusLanding => SpaRenderer::SpaPlusLanding,
        SpaBuildTemplate::SpaPlusCollections => SpaRenderer::SpaPlusCollections,
        SpaBuildTemplate::SpaPlusCollectionsFrequentlyViewed => SpaRenderer::SpaPlusCollectionsFrequentlyViewed,
        SpaBuildTemplate::SpaPlusUpdates => SpaRenderer::SpaPlusUpdates,
        SpaBuildTemplate::SpaPlusSettings => SpaRenderer::SpaPlusSettings,
        SpaBuildTemplate::SpaPlusAiHelp => SpaRenderer::SpaPlusAiHelp,
        SpaBuildTemplate::SpaPlay => SpaRenderer::SpaPlay,
        SpaBuildTemplate::SpaSearch => SpaRenderer::SpaSearch,
        _ => SpaRenderer::SpaUnknown,
    }
}

/// The posts on page `current_page` of the blog index, `per_page` a page: the posts
/// newest first (`sorted` is oldest first), from the first of that page on.
pub open spec fn spec_blog_window<T>(sorted: Seq<T>, per_page: nat, current_page: nat) -> Seq<T> {
    let from = per_page * (current_page - 1);
    let rest = if from <= sorted.len() {
        sorted.reverse().skip(from as int)
    } else {
        seq![]
    };
    if rest.len() <= per_page {
        rest
    } else {
        rest.take(per_page as int)
    }
}

/// The posts on page `current_page` (from 1) of the blog index (see
/// `spec_blog_window`).
pub fn blog_index_posts(sorted: &[BlogPostRef], per_page: usize, current_page: usize) -> (r: Vec<BlogPostRef>)
    requires
        current_page >= 1,
        per_page * (current_page - 1) <= usize::MAX,
    ensures
        r@ == spec_blog_window(sorted@, per_page as nat, current_page as nat),
{
    let from: usize = per_page * (current_page - 1);
    let n = sorted.len();
    let mut r: Vec<BlogPostRef> = Vec::new();
    if from > n {
        assert(r@ =~= spec_blog_window(sorted@, per_page as nat, current_page as nat));
        return r;
    }
    let ghost rest = sorted@.reverse().skip(from as int);
    let mut k: usize = 0;
    while k < per_page && k < n - from
        invariant
            from <= n,
            n == sorted@.len(),
            rest == sorted@.reverse().skip(from as int),
            k <= per_page,
            k <= n - from,
            r@ == rest.take(k as int),
        decreases n - from - k,
    {
        let p = &sorted[n - 1 - from - k];
        assert(rest[k as int] == sorted@[n - 1 - from - k]);
        r.push(crate::blog::clone_post(p));
        assert(rest.take(k + 1) =~= rest.take(k as int).push(rest[k as int]));
        k += 1;
    }
    proof {
        if rest.len() <= per_page {
            assert(rest.take(k as int) =~= rest);
        }
    }
    r
}

/// The metadata of the posts on page `current_page` (from 1) of the blog index: the
/// posts of `spec_blog_window`, each shown without links (see `is_blog_meta`), the
/// authors from `authors`.
pub fn blog_index_metas(sorted: &[BlogPostBuildMeta], authors: &[(String, Author)], per_page: usize, current_page: usize) -> (r: Vec<BlogMeta>)
    requires
        current_page >= 1,
        per_page * (current_page - 1) <= usize::MAX,
    ensures
        r@.len() == spec_blog_window(sorted@, per_page as nat, current_page as nat).len(),
        forall|j: int| 0 <= j < r@.len() ==> is_blog_meta(
            #[trigger] r@[j],
            spec_blog_window(sorted@, per_page as nat, current_page as nat)[j],
            authors@,
            PrevNextBySlug { previous: None, next: None },
        ),
{
    let from: usize = per_page * (current_page - 1);
    let n = sorted.len();
    let mut r: Vec<BlogMeta> = Vec::new();
    if from > n {
        return r;
    }
    let ghost rest = sorted@.reverse().skip(from as int);
    let mut k: usize = 0;
    while k < per_page && k < n - from
        invariant
            from <= n,
            n == sorted@.len(),
            rest == sorted@.reverse().skip(from as int),
            k <= per_page,
            k <= n - from,
            r@.len() == k,
            forall|j: int| 0 <= j < k ==> is_blog_meta(#[trigger] r@[j], rest[j], authors@, PrevNextBySlug { previous: None, next: None }),
        decreases n - from - k,
    {
        let p = &sorted[n - 1 - from - k];
        assert(rest[k as int] == sorted@[n - 1 - from - k]);
        r.push(BlogMeta::unlinked(p, authors));
        k += 1;
    }
    proof {
        let w = spec_blog_window(sorted@, per_page as nat, current_page as nat);
        assert forall|j: int| 0 <= j < r@.len() implies w[j] == rest[j] by {}
    }
    r
}

/// A translation of a page: its locale and title there.
#[derive(Debug, Clone)]
pub struct Translation {
    pub locale: Locale,
    pub title: String,
}

/// A built application page.
#[derive(Debug, Clone)]
pub enum BuiltSpa {
    /// A page of the blog index.
    BlogIndex {
        title: String,
        url: String,
        locale: Locale,
        page_title: String,
        posts: Vec<BlogMeta>,
        pagination: PaginationData,
        parents: Vec<Parent>,
        other_translations: Vec<Translation>,
    },
    /// An application page.
    Spa {
        slug: String,
        page_title: String,
        page_description: Option<String>,
        only_follow: bool,
        no_indexing: bool,
        page_not_found: bool,
        url: String,
        parents: Vec<Parent>,
        other_translations: Vec<Translation>,
        renderer: SpaRenderer,
    },
    /// The home page.
    Home {
        url: String,
        page_title: String,
        page_description: Option<String>,
        parents: Vec<Parent>,
        other_translations: Vec<Translation>,
    },
}

/// The page of an application. `page_title` is its document title, `parents` and
/// `translations` its breadcrumbs and translations, `sorted_posts` the blog posts
/// oldest first (their authors among `authors`) and `posts_per_page` the length of a
/// page of the blog index, whose posts are shown without links (see `blog_index_metas`). The blog
/// index has the one breadcrumb `/en-US/blog/` and its own locale as its translation;
/// the home page is rendered from its data by the home renderer.
pub fn as_built_doc(
    spa: &SPA,
    page_title: String,
    parents: Vec<Parent>,
    translations: Vec<Translation>,
    sorted_posts: &[BlogPostBuildMeta],
    authors: &[(String, Author)],
    posts_per_page: usize,
) -> (r: Result<BuiltSpa, DocError>)
    requires
        spa.data matches SPAData::BlogIndex(p) ==> p.current_page >= 1 && posts_per_page * (p.current_page - 1) <= usize::MAX,
    ensures
        match spa.data {
            SPAData::BlogIndex(p) => r matches Ok(BuiltSpa::BlogIndex { title, url, locale, page_title: pt, posts, pagination, parents: ps, other_translations: ts })
                && title == spa.page_title && url == spa.url && locale == spa.locale && pt == page_title
                && posts@.len() == spec_blog_window(sorted_posts@, posts_per_page as nat, p.current_page as nat).len()
                && (forall|j: int| 0 <= j < posts@.len() ==> is_blog_meta(
                    #[trigger] posts@[j],
                    spec_blog_window(sorted_posts@, posts_per_page as nat, p.current_page as nat)[j],
                    authors@,
                    PrevNextBySlug { previous: None, next: None },
                ))
                && pagination == p
                && ps@.len() == 1 && ps@[0].uri@ == "/en-US/blog/"@ && ps@[0].title == spa.page_title
                && ts@.len() == 1 && ts@[0].locale == spa.locale && ts@[0].title == spa.page_title,
            SPAData::BasicSPA(b) => r matches Ok(BuiltSpa::Spa { slug, page_title: pt, page_description, only_follow, no_indexing, page_not_found, url, parents: ps, other_translations: ts, renderer })
                && slug == spa.slug && pt == spa.page_title && page_description == spa.page_description
                && only_follow == b.only_follow && no_indexing == b.no_indexing && !page_not_found
                && url@ == spa.base_slug@ + spa.slug@ && ps == parents && ts == translations
                && renderer == spec_spa_renderer(spa.template),
            SPAData::NotFound => r matches Ok(BuiltSpa::Spa { slug, page_title: pt, page_description, only_follow, no_indexing, page_not_found, url, parents: ps, other_translations: ts, renderer })
                && slug == spa.slug && pt == spa.page_title && page_description == spa.page_description
                && !only_follow && no_indexing && page_not_found
                && url@ == spa.base_slug@ + spa.slug@ && ps == parents && ts == translations
                && renderer == SpaRenderer::SpaNotFound,
            SPAData::HomePage => r matches Ok(BuiltSpa::Home { url, page_title: pt, page_description, parents: ps, other_translations: ts })
                && url@ == "/"@ + spec_url_str(spa.locale) + "/"@ + spa.slug@ && pt == spa.page_title
                && page_description == spa.page_description && ps == parents && ts == translations,
        },
{
    match spa.data {
        SPAData::BlogIndex(p) => {
            let posts = blog_index_metas(sorted_posts, authors, posts_per_page, p.current_page);
            let mut ps: Vec<Parent> = Vec::new();
            ps.push(Parent { uri: string_of(chars_of("/en-US/blog/").as_slice()), title: spa.page_title.clone() });
            let mut ts: Vec<Translation> = Vec::new();
            ts.push(Translation { locale: spa.locale, title: spa.page_title.clone() });
            Ok(
                BuiltSpa::BlogIndex {
                    title: spa.page_title.clone(),
                    url: spa.url.clone(),
                    locale: spa.locale,
                    page_title,
                    posts,
                    pagination: p,
                    parents: ps,
                    other_translations: ts,
                },
            )
        },
        SPAData::BasicSPA(b) => {
            let mut url = spa.base_slug.clone();
            push_str(&mut url, spa.slug.as_str());
            Ok(
                BuiltSpa::Spa {
                    slug: spa.slug.clone(),
                    page_title: spa.page_title.clone(),
                    page_description: clone_opt(&spa.page_description),
                    only_follow: b.only_follow,
                    no_indexing: b.no_indexing,
                    page_not_found: false,
                    url,
                    parents,
                    other_translations: translations,
                    renderer: spa_renderer(spa.template),
                },
            )
        },
        SPAData::NotFound => {
            let mut url = spa.base_slug.clone();
            push_str(&mut url, spa.slug.as_str());
            Ok(
                BuiltSpa::Spa {
                    slug: spa.slug.clone(),
                    page_title: spa.page_title.clone(),
                    page_description: clone_opt(&spa.page_description),
                    only_follow: false,
                    no_indexing: true,
                    page_not_found: true,
                    url,
                    parents,
                    other_translations: translations,
                    renderer: SpaRenderer::SpaNotFound,
                },
            )
        },
        SPAData::HomePage => {
            let mut url = String::new();
            push_str(&mut url, "/");
            push_str(&mut url, spa.locale.as_url_str());
            push_str(&mut url, "/");
            push_str(&mut url, spa.slug.as_str());
            Ok(
                BuiltSpa::Home {
                    url,
                    page_title: spa.page_title.clone(),
                    page_description: clone_opt(&spa.page_description),
                    parents,
                    other_translations: translations,
                },
            )
        },
    }
}

/// The posts on the first `pages` pages of the blog index, one page after the other.
pub open spec fn blog_pages<T>(sorted: Seq<T>, per_page: nat, pages: nat) -> Seq<T>
    decreases pages,
{
    if pages == 0 {
        seq![]
    } else {
        blog_pages(sorted, per_page, (pages - 1) as nat) + spec_blog_window(sorted, per_page, pages)
    }
}

/// The pages of the blog index list the posts newest first, each once: its first
/// `pages` pages together hold the newest `per_page * pages` posts (all of them where
/// there are fewer), in order.
pub proof fn law_blog_pages_list_posts_once<T>(sorted: Seq<T>, per_page: nat, pages: nat)
    requires
        per_page > 0,
    ensures
        blog_pages(sorted, per_page, pages) == sorted.reverse().take(
            if per_page * pages <= sorted.len() {
                (per_page * pages) as int
            } else {
                sorted.len() as int
            },
        ),
    decreases pages,
{
    let rev = sorted.reverse();
    if pages == 0 {
        assert(rev.take(0) =~= Seq::<T>::empty());
    } else {
        law_blog_pages_list_posts_once(sorted, per_page, (pages - 1) as nat);
        let from = per_page * ((pages - 1) as nat);
        assert(per_page * pages == from + per_page) by (nonlinear_arith)
            requires
                from == per_page * ((pages - 1) as nat),
                pages > 0,
        ;
        let prev_end = if from <= sorted.len() { from as int } else { sorted.len() as int };
        let end = if per_page * pages <= sorted.len() { (per_page * pages) as int } else { sorted.len() as int };
        assert(rev.take(prev_end) + spec_blog_window(sorted, per_page, pages) =~= rev.take(end));
    }
}

} // verus!
