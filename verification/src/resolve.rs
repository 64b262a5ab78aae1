//! URLs: their locale, slug and page category, and the folders pages live in.
use vstd::prelude::*;
use crate::data::{l10n_message, L10nError};
use crate::locale::{spec_locale_from, spec_url_str, Locale, LocaleError};
use crate::page::{spa_lookup, spa_view, spec_is_generic, spec_is_spa, PageCategory, SiteIndex};
use crate::text::{
    chars_of, find_char, first_index, lowercase, push_chars, push_str, replace, replace_str,
    seq_eq, slice_of, splitn, splitn_vec, starts_with, str_eq, string_of, to_lowercase,
};

verus! {

/// Why a URL names no page.
#[derive(Debug)]
pub enum UrlError {
    InvalidUrl,
    LocaleError(LocaleError),
}

/// Why a page could not be built or found.
#[derive(Debug)]
pub enum DocError {
    PageNotFound(String, PageCategory),
    /// A template or value that cannot be rendered, with why.
    InvalidTempl(String),
    /// A curriculum page without a `#` title.
    NoH1,
    /// A label that has no translation.
    L10nError(L10nError),
    /// A slug or group name that a sidebar cannot be built for.
    InvalidSlugForX(String),
    /// A file that is not below the root it should be below.
    NoSuchPrefix(std::path::StripPrefixError),
    /// A descriptor's related at-rule that is not given.
    MustHaveAtRule,
}

/// The name of a page category, as it is debug-printed.
pub open spec fn category_name(c: PageCategory) -> Seq<char> {
    match c {
        PageCategory::Doc => "Doc"@,
        PageCategory::BlogPost => "BlogPost"@,
        PageCategory::SPA => "SPA"@,
        PageCategory::Curriculum => "Curriculum"@,
        PageCategory::ContributorSpotlight => "ContributorSpotlight"@,
        PageCategory::GenericPage => "GenericPage"@,
    }
}

impl DocError {
    /// The error as a message.
    pub fn to_string(&self) -> (r: String)
        ensures
            match self {
                DocError::PageNotFound(s, c) => r@ == "page("@ + category_name(*c) + ") not found "@ + s@,
                DocError::InvalidTempl(s) => r@ == "invalid templ: "@ + s@,
                DocError::NoH1 => r@ == "No H1 found"@,
                DocError::L10nError(e) => r@ == l10n_message(*e),
                DocError::InvalidSlugForX(s) => r@ == "Invalid slug for templ/sidebar: "@ + s@,
                DocError::NoSuchPrefix(_) => true,
                DocError::MustHaveAtRule => r@ == "At rule was empty"@,
            },
    {
        let mut out = String::new();
        match self {
            DocError::PageNotFound(s, c) => {
                push_str(&mut out, "page(");
                push_str(&mut out, match c {
                    PageCategory::Doc => "Doc",
                    PageCategory::BlogPost => "BlogPost",
                    PageCategory::SPA => "SPA",
                    PageCategory::Curriculum => "Curriculum",
                    PageCategory::ContributorSpotlight => "ContributorSpotlight",
                    PageCategory::GenericPage => "GenericPage",
                });
                push_str(&mut out, ") not found ");
                push_str(&mut out, s.as_str());
            },
            DocError::InvalidTempl(s) => {
                push_str(&mut out, "invalid templ: ");
                push_str(&mut out, s.as_str());
            },
            DocError::NoH1 => {
                push_str(&mut out, "No H1 found");
            },
            DocError::MustHaveAtRule => {
                push_str(&mut out, "At rule was empty");
            },
            DocError::L10nError(e) => {
                out = e.to_string();
            },
            DocError::InvalidSlugForX(s) => {
                push_str(&mut out, "Invalid slug for templ/sidebar: ");
                push_str(&mut out, s.as_str());
            },
            DocError::NoSuchPrefix(e) => {
                out = prefix_error_text(e);
            },
        }
        out
    }
}

/// The standard library's error for a path that is not below another.
#[verifier::external_type_specification]
#[verifier::external_body]
pub struct ExStripPrefixError(std::path::StripPrefixError);

/// The message of a `std::path::StripPrefixError` (its `Display`); nothing is stated
/// of it.
#[verifier::external_body]
fn prefix_error_text(e: &std::path::StripPrefixError) -> String {
    e.to_string()
}

/// What `std::path::Path::strip_prefix` gives for path `path` and base `base`: the path
/// that joined onto the base gives `path`, where the base's components begin it; none
/// where they do not.
pub uninterp spec fn path_strip_prefix(path: Seq<char>, base: Seq<char>) -> Option<Seq<char>>;

/// `path` below `base` (`std::path::Path::strip_prefix`), as text; the standard
/// library's error where `base` is not a prefix of it. The contract names the outcome.
#[verifier::external_body]
pub(crate) fn strip_path_prefix(path: &str, base: &str) -> (r: Result<String, std::path::StripPrefixError>)
    ensures
        match r {
            Ok(s) => path_strip_prefix(path@, base@) == Some(s@),
            Err(_) => path_strip_prefix(path@, base@) is None,
        },
{
    match std::path::Path::new(path).strip_prefix(base) {
        Ok(p) => Ok(p.to_string_lossy().into_owned()),
        Err(e) => Err(e),
    }
}

/// Why a file path could not be used.
#[derive(Debug)]
pub enum FileError {
    /// The path is not below the root it should be below.
    NoSubPath(std::path::StripPrefixError),
}

/// What a URL says about its page.
pub struct UrlMeta {
    pub folder_path: String,
    pub slug: String,
    pub locale: Locale,
    pub page_category: PageCategory,
}

/// The folder of a slug: `*`, `::`, `:` and `?` spelled out, then lower-cased.
pub open spec fn spec_folder_path(slug: Seq<char>) -> Seq<char> {
    lowercase(
        replace(
            replace(
                replace(replace(slug, "*"@, "_star_"@), "::"@, "_doublecolon_"@),
                ":"@,
                "_colon_"@,
            ),
            "?"@,
            "_question_"@,
        ),
    )
}

/// Converts a URL slug to a folder path by replacing characters that some file systems
/// do not allow in names: `*` becomes `_star_`, `::` becomes `_doublecolon_`, `:`
/// becomes `_colon_` and `?` becomes `_question_`; the result is lower-cased.
pub fn url_to_folder_path(slug: &str) -> (r: String)
    ensures
        r@ == spec_folder_path(slug@),
{
    proof {
        reveal_strlit("*");
        reveal_strlit("::");
        reveal_strlit(":");
        reveal_strlit("?");
    }
    let a = replace_str(slug, "*", "_star_");
    let b = replace_str(a.as_str(), "::", "_doublecolon_");
    let c = replace_str(b.as_str(), ":", "_colon_");
    let d = replace_str(c.as_str(), "?", "_question_");
    to_lowercase(d.as_str())
}

/// What `strip_locale_from_url` gives: the locale named by the first segment, and the
/// URL without it (or the whole URL when the segment names no locale).
pub open spec fn spec_strip_locale(url: Seq<char>) -> (Option<Locale>, Seq<char>) {
    if url.len() < 2 || url[0] != '/' {
        (None, url)
    } else {
        let i = match first_index(url.drop_first(), '/') {
            Some(j) => j + 1,
            None => url.len() as int,
        };
        let locale = spec_locale_from(url.subrange(1, i));
        (
            locale,
            if locale is None {
                url
            } else {
                url.skip(i)
            },
        )
    }
}

/// Strips the locale from a URL and returns the locale and the remaining URL.
pub fn strip_locale_from_url(url: &str) -> (r: (Option<Locale>, String))
    ensures
        r.0 == spec_strip_locale(url@).0,
        r.1@ == spec_strip_locale(url@).1,
{
    let v = chars_of(url);
    let n = v.len();
    if n < 2 || v[0] != '/' {
        return (None, url.to_owned());
    }
    let rest = slice_of(v.as_slice(), 1, n);
    assert(rest@ =~= v@.drop_first());
    let i = match find_char(rest.as_slice(), '/') {
        Some(j) => j + 1,
        None => n,
    };
    let seg = slice_of(v.as_slice(), 1, i);
    let segs = string_of(seg.as_slice());
    let locale = match Locale::from_str(segs.as_str()) {
        Ok(l) => Some(l),
        Err(_) => None,
    };
    match locale {
        None => (None, url.to_owned()),
        Some(l) => {
            let tail = slice_of(v.as_slice(), i, n);
            assert(tail@ =~= v@.skip(i as int));
            (Some(l), string_of(tail.as_slice()))
        },
    }
}

/// What `locale_from_url` gives: the locale named by the first path segment.
pub open spec fn spec_locale_from_url(url: Seq<char>) -> Option<Locale> {
    let u = if url.len() > 0 && url[0] == '/' {
        url.drop_first()
    } else {
        url
    };
    match first_index(u, '/') {
        Some(i) => spec_locale_from(u.take(i)),
        None => None,
    }
}

/// Extracts the `Locale` from a URL path whose first segment (after an optional leading
/// `/`) names one and is followed by a `/`.
pub fn locale_from_url(url: &str) -> (r: Option<Locale>)
    ensures
        r == spec_locale_from_url(url@),
{
    let v = chars_of(url);
    let n = v.len();
    let u = if n > 0 && v[0] == '/' {
        slice_of(v.as_slice(), 1, n)
    } else {
        slice_of(v.as_slice(), 0, n)
    };
    proof {
        if n > 0 && v@[0] == '/' {
            assert(u@ =~= v@.drop_first());
        } else {
            assert(u@ =~= v@);
        }
    }
    match find_char(u.as_slice(), '/') {
        Some(i) => {
            let seg = slice_of(u.as_slice(), 0, i);
            assert(seg@ =~= u@.take(i as int));
            let s = string_of(seg.as_slice());
            match Locale::from_str(s.as_str()) {
                Ok(l) => Some(l),
                Err(_) => None,
            }
        },
        None => None,
    }
}

/// What `url_with_locale` gives: the URL with its locale segment replaced by `locale`,
/// when that segment names another locale.
pub open spec fn spec_url_with_locale(url: Seq<char>, locale: Locale) -> Option<Seq<char>> {
    if url.len() > 0 && url[0] == '/' {
        let u = url.drop_first();
        let fs = match first_index(u, '/') {
            Some(i) => i,
            None => u.len() as int,
        };
        let current = spec_locale_from(u.take(fs));
        if current is None || current == Some(locale) {
            None
        } else {
            Some(seq!['/'] + spec_url_str(locale) + u.skip(fs))
        }
    } else {
        None
    }
}

/// Replaces the locale in a URL path by `locale`; `None` when the first segment names no
/// locale or already names `locale`.
pub fn url_with_locale(url: &str, locale: Locale) -> (r: Option<String>)
    ensures
        match r {
            Some(s) => spec_url_with_locale(url@, locale) == Some(s@),
            None => spec_url_with_locale(url@, locale) is None,
        },
{
    let v = chars_of(url);
    let n = v.len();
    if n > 0 && v[0] == '/' {
        let u = slice_of(v.as_slice(), 1, n);
        assert(u@ =~= v@.drop_first());
        let fs = match find_char(u.as_slice(), '/') {
            Some(i) => i,
            None => u.len(),
        };
        let seg = slice_of(u.as_slice(), 0, fs);
        assert(seg@ =~= u@.take(fs as int));
        let s = string_of(seg.as_slice());
        let current = match Locale::from_str(s.as_str()) {
            Ok(l) => Some(l),
            Err(_) => None,
        };
        match current {
            None => return None,
            Some(c) => {
                if c == locale {
                    return None;
                }
            },
        }
        let mut out = String::new();
        push_str(&mut out, "/");
        push_str(&mut out, locale.as_url_str());
        let tail = slice_of(u.as_slice(), fs, u.len());
        assert(tail@ =~= u@.skip(fs as int));
        push_chars(&mut out, tail.as_slice());
        proof {
            reveal_strlit("/");
            assert(out@ =~= seq!['/'] + spec_url_str(locale) + u@.skip(fs as int));
        }
        return Some(out);
    }
    None
}

/// The URL of the page with slug `slug` of category `typ` in `locale`; for a
/// single-page application it must exist in `locale`.
pub open spec fn spec_build_url(site: &SiteIndex, slug: Seq<char>, locale: Locale, typ: PageCategory) -> Option<
    Seq<char>,
> {
    let l = spec_url_str(locale);
    match typ {
        PageCategory::Doc => Some(seq!['/'] + l + "/docs/"@ + slug),
        PageCategory::BlogPost => Some(seq!['/'] + l + "/blog/"@ + slug + seq!['/']),
        PageCategory::SPA => match spa_lookup(spa_view(site), slug) {
            Some(e) => if e.1 && locale != Locale::EnUs {
                None
            } else {
                Some(
                    seq!['/'] + l + seq!['/'] + e.0 + (if e.2 && e.0.len() > 0 {
                        seq!['/']
                    } else {
                        Seq::<char>::empty()
                    }),
                )
            },
            None => None,
        },
        PageCategory::Curriculum => Some(seq!['/'] + l + "/curriculum/"@ + slug + seq!['/']),
        PageCategory::ContributorSpotlight => Some(seq!['/'] + l + "/community/spotlight/"@ + slug),
        PageCategory::GenericPage => Some(seq!['/'] + l + seq!['/'] + slug),
    }
}

/// Builds the URL of a page from its slug, locale and category. A single-page
/// application that the site does not offer in `locale` is `PageNotFound`.
pub fn build_url(site: &SiteIndex, slug: &str, locale: Locale, typ: PageCategory) -> (r: Result<
    String,
    DocError,
>)
    ensures
        match r {
            Ok(u) => spec_build_url(site, slug@, locale, typ) == Some(u@),
            Err(e) => spec_build_url(site, slug@, locale, typ) is None && (e matches DocError::PageNotFound(s, c)
                && s@ == slug@ && c == PageCategory::SPA),
        },
{
    proof {
        reveal_strlit("/");
    }
    let mut out = String::new();
    push_str(&mut out, "/");
    push_str(&mut out, locale.as_url_str());
    match typ {
        PageCategory::Doc => {
            push_str(&mut out, "/docs/");
            push_str(&mut out, slug);
        },
        PageCategory::BlogPost => {
            push_str(&mut out, "/blog/");
            push_str(&mut out, slug);
            push_str(&mut out, "/");
        },
        PageCategory::SPA => {
            match site.spa(slug) {
                Some(e) => {
                    if e.en_us_only && locale != Locale::EnUs {
                        return Err(DocError::PageNotFound(slug.to_owned(), PageCategory::SPA));
                    }
                    push_str(&mut out, "/");
                    push_str(&mut out, e.slug.as_str());
                    let ev = chars_of(e.slug.as_str());
                    if e.trailing_slash && ev.len() > 0 {
                        push_str(&mut out, "/");
                    }
                    proof {
                        if !(e.trailing_slash && ev@.len() > 0) {
                            assert(out@ =~= out@ + Seq::<char>::empty());
                        }
                    }
                },
                None => {
                    return Err(DocError::PageNotFound(slug.to_owned(), PageCategory::SPA));
                },
            }
        },
        PageCategory::Curriculum => {
            push_str(&mut out, "/curriculum/");
            push_str(&mut out, slug);
            push_str(&mut out, "/");
        },
        PageCategory::ContributorSpotlight => {
            push_str(&mut out, "/community/spotlight/");
            push_str(&mut out, slug);
        },
        PageCategory::GenericPage => {
            push_str(&mut out, "/");
            push_str(&mut out, slug);
        },
    }
    Ok(out)
}

/// The part of a URL before its `#` fragment.
pub open spec fn before_hash(url: Seq<char>) -> Seq<char> {
    match first_index(url, '#') {
        Some(i) => url.take(i),
        None => url,
    }
}

/// The category and slug a URL names, or why it names none. The first segment must
/// name a locale; `/docs/` URLs are documents in any locale; blog, curriculum and
/// community spotlight URLs exist in en-US only; anything else must be one of the
/// site's single-page applications or generic pages.
pub open spec fn spec_url_meta(url: Seq<char>, site: &SiteIndex) -> Result<
    (PageCategory, Seq<char>, Locale),
    Option<Seq<char>>,
> {
    let parts = splitn(before_hash(url), '/', 4);
    let first = if parts.len() > 1 {
        parts[1]
    } else {
        Seq::<char>::empty()
    };
    match spec_locale_from(first) {
        None => Err(Some(first)),
        Some(locale) => {
            let tail = if parts.len() >= 2 {
                parts.skip(2)
            } else {
                Seq::<Seq<char>>::empty()
            };
            let en = locale == Locale::EnUs;
            if tail.len() == 2 && tail[0] == "docs"@ {
                Ok((PageCategory::Doc, tail[1], locale))
            } else if en && tail.len() >= 1 && tail[0] == "blog"@ && (tail.len() == 1 || tail[1].len()
                == 0) {
                Ok((PageCategory::SPA, "blog"@, locale))
            } else if en && tail.len() == 2 && tail[0] == "blog"@ {
                Ok((PageCategory::BlogPost, tail[1], locale))
            } else if en && tail.len() == 2 && tail[0] == "curriculum"@ {
                Ok((PageCategory::Curriculum, tail[1], locale))
            } else if en && tail.len() == 2 && tail[0] == "community"@ && "spotlight"@.is_prefix_of(
                tail[1],
            ) {
                Ok((PageCategory::ContributorSpotlight, tail[1], locale))
            } else {
                let s0 = spec_strip_locale(url).1;
                let slug = if s0.len() > 0 && s0[0] == '/' {
                    s0.drop_first()
                } else {
                    s0
                };
                if spec_is_spa(site, slug, locale) {
                    Ok((PageCategory::SPA, slug, locale))
                } else if spec_is_generic(site, slug, locale) {
                    Ok((PageCategory::GenericPage, slug, locale))
                } else {
                    Err(None)
                }
            }
        },
    }
}

fn lit_eq(v: &Vec<char>, lit: &str) -> (r: bool)
    ensures
        r == (v@ == lit@),
{
    let l = chars_of(lit);
    seq_eq(v.as_slice(), l.as_slice())
}

/// Extracts the locale, slug and page category from a URL; `InvalidUrl` when it names
/// no page, `LocaleError` when its first segment names no locale.
pub fn url_meta_from(url: &str, site: &SiteIndex) -> (r: Result<UrlMeta, UrlError>)
    ensures
        match r {
            Ok(m) => spec_url_meta(url@, site) == Ok::<_, Option<Seq<char>>>(
                (m.page_category, m.slug@, m.locale),
            ) && m.folder_path@ == spec_folder_path(m.slug@),
            Err(UrlError::InvalidUrl) => spec_url_meta(url@, site) == Err::<
                (PageCategory, Seq<char>, Locale),
                Option<Seq<char>>,
            >(None),
            Err(UrlError::LocaleError(LocaleError::InvalidLocale(s))) => spec_url_meta(url@, site)
                == Err::<(PageCategory, Seq<char>, Locale), Option<Seq<char>>>(Some(s@)),
        },
{
    let v = chars_of(url);
    let n = v.len();
    let h = match find_char(v.as_slice(), '#') {
        Some(i) => i,
        None => n,
    };
    let u = slice_of(v.as_slice(), 0, h);
    proof {
        assert(u@ =~= before_hash(v@));
    }
    let parts = splitn_vec(u.as_slice(), '/', 4);
    let ghost ps = splitn(before_hash(url@), '/', 4);
    let first: Vec<char> = if parts.len() > 1 {
        assert(parts@[1]@ == ps[1]);
        parts[1].clone()
    } else {
        Vec::new()
    };
    proof {
        if parts@.len() <= 1 {
            assert(first@ =~= Seq::<char>::empty());
        }
    }
    let fs = string_of(first.as_slice());
    let locale = match Locale::from_str(fs.as_str()) {
        Ok(l) => l,
        Err(e) => return Err(UrlError::LocaleError(e)),
    };
    let en = locale == Locale::EnUs;
    let tn: usize = if parts.len() > 2 {
        parts.len() - 2
    } else {
        0
    };
    let ghost tail = if ps.len() >= 2 {
        ps.skip(2)
    } else {
        Seq::<Seq<char>>::empty()
    };
    proof {
        assert(tail.len() == tn);
        reveal_strlit("blog");
        if tn > 0 {
            assert(parts@[2]@ == tail[0]);
        }
        if tn > 1 {
            assert(parts@[3]@ == tail[1]);
        }
    }
    let mut result: Option<(PageCategory, Vec<char>)> = None;
    if tn == 2 && lit_eq(&parts[2], "docs") {
        result = Some((PageCategory::Doc, parts[3].clone()));
    } else if en && tn >= 1 && lit_eq(&parts[2], "blog") && (tn == 1 || parts[3].len() == 0) {
        result = Some((PageCategory::SPA, chars_of("blog")));
    } else if en && tn == 2 && lit_eq(&parts[2], "blog") {
        result = Some((PageCategory::BlogPost, parts[3].clone()));
    } else if en && tn == 2 && lit_eq(&parts[2], "curriculum") {
        result = Some((PageCategory::Curriculum, parts[3].clone()));
    } else if en && tn == 2 && lit_eq(&parts[2], "community") && starts_with(
        parts[3].as_slice(),
        chars_of("spotlight").as_slice(),
    ) {
        result = Some((PageCategory::ContributorSpotlight, parts[3].clone()));
    }
    let (cat, slug): (PageCategory, Vec<char>) = match result {
        Some(x) => x,
        None => {
            let (_, s0) = strip_locale_from_url(url);
            let s0v = chars_of(s0.as_str());
            let m = s0v.len();
            let slugv = if m > 0 && s0v[0] == '/' {
                slice_of(s0v.as_slice(), 1, m)
            } else {
                slice_of(s0v.as_slice(), 0, m)
            };
            proof {
                if m > 0 && s0v@[0] == '/' {
                    assert(slugv@ =~= s0v@.drop_first());
                } else {
                    assert(slugv@ =~= s0v@);
                }
            }
            let slug = string_of(slugv.as_slice());
            if site.is_spa(slug.as_str(), locale) {
                (PageCategory::SPA, slugv)
            } else if site.is_generic(slug.as_str(), locale) {
                (PageCategory::GenericPage, slugv)
            } else {
                return Err(UrlError::InvalidUrl);
            }
        },
    };
    let slug_s = string_of(slug.as_slice());
    let folder_path = url_to_folder_path(slug_s.as_str());
    Ok(UrlMeta { folder_path, slug: slug_s, locale, page_category: cat })
}

/// Changing the locale of a URL keeps the rest of it: where `url_with_locale(url, l)`
/// gives a URL, stripping its locale gives `l` and what stripping the locale of `url`
/// leaves.
pub proof fn law_url_with_locale(url: Seq<char>, l: Locale)
    requires
        spec_url_with_locale(url, l) is Some,
    ensures
        spec_strip_locale(spec_url_with_locale(url, l)->0) == (Some(l), spec_strip_locale(url).1),
{
    let u = url.drop_first();
    crate::text::lemma_first_index(u, '/');
    let fs = match first_index(u, '/') {
        Some(i) => i,
        None => u.len() as int,
    };
    let rest = u.skip(fs);
    let a = spec_url_str(l);
    let w = seq!['/'] + a + rest;
    crate::locale::lemma_url_str_no_slash(l);
    crate::locale::law_locale_spelling(l);
    assert(w == spec_url_with_locale(url, l)->0);
    // the locale segment of `url` is followed by `/` or by nothing
    let wd = w.drop_first();
    assert(wd =~= a + rest);
    if fs < u.len() {
        assert(rest[0] == '/');
        crate::text::lemma_first_index_is(wd, '/', a.len() as int);
    } else {
        assert(rest.len() == 0);
        crate::text::lemma_first_index_is(wd, '/', wd.len() as int);
    }
    let i: int = a.len() as int + 1;
    assert(w.subrange(1, i) =~= a);
    assert(w.skip(i) =~= rest);
    // and `url` itself: its locale segment is not empty
    crate::locale::lemma_locale_from_nonempty(u.take(fs));
    assert(fs > 0);
    assert(url.drop_first() == u);
    let j = fs + 1;
    assert(url.subrange(1, j) =~= u.take(fs));
    assert(url.skip(j) =~= rest);
    assert(first_index(url.drop_first(), '/') == first_index(u, '/'));
    assert(spec_locale_from(url.subrange(1, j)) is Some);
    assert(spec_strip_locale(url).1 == rest);
    crate::locale::lemma_locale_from_nonempty(a);
    assert(w.len() >= 2 && w[0] == '/');
    assert(spec_locale_from(w.subrange(1, i)) == Some(l));
    assert(spec_strip_locale(w).1 == rest);
    assert(spec_strip_locale(w).0 == Some(l));
}

} // verus!
