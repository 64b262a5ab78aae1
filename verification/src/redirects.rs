//! Redirects: reading `_redirects.txt` lines and resolving a URL to where it now lives.
use vstd::prelude::*;
use crate::locale::{spec_url_str, Locale};
use crate::page::{PageCategory, SiteIndex};
use crate::resolve::{spec_url_meta, url_meta_from, UrlMeta};
use crate::text::{
    chars_of, first_index, lowercase, push_chars, push_str, slice_of, splitn, splitn_vec,
    starts_with, str_eq, string_of, to_lowercase, find_char,
};

verus! {

/// A map between URLs; inserting a key that is present replaces its value.
pub struct UrlMap {
    entries: Vec<(String, String)>,
}

/// The keys of `e` are pairwise different.
pub open spec fn keys_unique(e: Seq<(String, String)>) -> bool {
    forall|i: int, j: int| 0 <= i < j < e.len() ==> e[i].0@ != e[j].0@
}

impl View for UrlMap {
    type V = Map<Seq<char>, Seq<char>>;

    closed spec fn view(&self) -> Map<Seq<char>, Seq<char>> {
        Map::new(
            |k: Seq<char>| exists|i: int| 0 <= i < self.entries@.len() && self.entries@[i].0@ == k,
            |k: Seq<char>|
                self.entries@[choose|i: int|
                    0 <= i < self.entries@.len() && self.entries@[i].0@ == k].1@,
        )
    }
}

impl UrlMap {
    #[verifier::type_invariant]
    spec fn inv(self) -> bool {
        keys_unique(self.entries@)
    }

    /// An empty map.
    pub fn new() -> (r: UrlMap)
        ensures
            r@ == Map::<Seq<char>, Seq<char>>::empty(),
    {
        let r = UrlMap { entries: Vec::new() };
        assert(r@ =~= Map::<Seq<char>, Seq<char>>::empty());
        r
    }

    fn index_of(&self, key: &str) -> (r: Option<usize>)
        ensures
            match r {
                Some(i) => i < self.entries@.len() && self.entries@[i as int].0@ == key@,
                None => forall|i: int| 0 <= i < self.entries@.len() ==> self.entries@[i].0@ != key@,
            },
    {
        let n = self.entries.len();
        let mut i: usize = 0;
        while i < n
            invariant
                n == self.entries@.len(),
                i <= n,
                forall|j: int| 0 <= j < i ==> self.entries@[j].0@ != key@,
            decreases n - i,
        {
            if str_eq(self.entries[i].0.as_str(), key) {
                return Some(i);
            }
            i += 1;
        }
        None
    }

    /// The value stored for `key`.
    pub fn get(&self, key: &str) -> (r: Option<&String>)
        ensures
            match r {
                Some(v) => self@.contains_key(key@) && self@[key@] == v@,
                None => !self@.contains_key(key@),
            },
    {
        proof {
            use_type_invariant(self);
        }
        match self.index_of(key) {
            Some(i) => {
                proof {
                    let c = choose|j: int|
                        0 <= j < self.entries@.len() && self.entries@[j].0@ == key@;
                    assert(c == i);
                }
                Some(&self.entries[i].1)
            },
            None => None,
        }
    }

    /// Stores `value` for `key`, replacing what was there.
    pub fn insert(&mut self, key: String, value: String)
        ensures
            final(self)@ == old(self)@.insert(key@, value@),
    {
        proof {
            use_type_invariant(&*self);
        }
        let ghost k = key@;
        let ghost v = value@;
        let ghost old_e = self.entries@;
        match self.index_of(key.as_str()) {
            Some(i) => {
                let mut entries: Vec<(String, String)> = Vec::new();
                std::mem::swap(&mut entries, &mut self.entries);
                entries.set(i, (key, value));
                let ghost e = entries@;
                assert(e == old_e.update(i as int, e[i as int]));
                assert(keys_unique(e)) by {
                    assert forall|a: int, b: int| 0 <= a < b < e.len() implies e[a].0@ != e[b].0@ by {
                        if a != i && b != i {
                            assert(e[a] == old_e[a] && e[b] == old_e[b]);
                        } else if a == i {
                            assert(e[b] == old_e[b]);
                        } else {
                            assert(e[a] == old_e[a]);
                        }
                    }
                }
                self.entries = entries;
                proof {
                    assert forall|x: Seq<char>| #[trigger] self@.contains_key(x) == old(
                        self,
                    )@.insert(k, v).contains_key(x) by {
                        if exists|j: int| 0 <= j < old_e.len() && old_e[j].0@ == x {
                            let j = choose|j: int| 0 <= j < old_e.len() && old_e[j].0@ == x;
                            if j == i {
                                assert(e[j].0@ == x);
                            } else {
                                assert(e[j] == old_e[j]);
                            }
                        }
                        if exists|j: int| 0 <= j < e.len() && e[j].0@ == x {
                            let j = choose|j: int| 0 <= j < e.len() && e[j].0@ == x;
                            if j != i {
                                assert(e[j] == old_e[j]);
                            }
                        }
                    }
                    assert forall|x: Seq<char>| #[trigger] self@.contains_key(x) implies self@[x]
                        == old(self)@.insert(k, v)[x] by {
                        let j = choose|j: int| 0 <= j < e.len() && e[j].0@ == x;
                        if x == k {
                            assert(j == i);
                        } else {
                            assert(e[j] == old_e[j]);
                            let jo = choose|jo: int| 0 <= jo < old_e.len() && old_e[jo].0@ == x;
                            assert(jo == j);
                        }
                    }
                    assert(self@ =~= old(self)@.insert(k, v));
                }
            },
            None => {
                let mut entries: Vec<(String, String)> = Vec::new();
                std::mem::swap(&mut entries, &mut self.entries);
                entries.push((key, value));
                let ghost e = entries@;
                assert(keys_unique(e)) by {
                    assert forall|a: int, b: int| 0 <= a < b < e.len() implies e[a].0@ != e[b].0@ by {
                        assert(e[a] == old_e[a]);
                        if b < old_e.len() {
                            assert(e[b] == old_e[b]);
                        }
                    }
                }
                self.entries = entries;
                proof {
                    let n = old_e.len() as int;
                    assert forall|x: Seq<char>| #[trigger] self@.contains_key(x) == old(
                        self,
                    )@.insert(k, v).contains_key(x) by {
                        if exists|j: int| 0 <= j < old_e.len() && old_e[j].0@ == x {
                            let j = choose|j: int| 0 <= j < old_e.len() && old_e[j].0@ == x;
                            assert(e[j] == old_e[j]);
                        }
                        if x == k {
                            assert(e[n].0@ == x);
                        }
                        if exists|j: int| 0 <= j < e.len() && e[j].0@ == x {
                            let j = choose|j: int| 0 <= j < e.len() && e[j].0@ == x;
                            if j < n {
                                assert(e[j] == old_e[j]);
                            }
                        }
                    }
                    assert forall|x: Seq<char>| #[trigger] self@.contains_key(x) implies self@[x]
                        == old(self)@.insert(k, v)[x] by {
                        let j = choose|j: int| 0 <= j < e.len() && e[j].0@ == x;
                        if x == k {
                            assert(j == n);
                        } else {
                            assert(e[j] == old_e[j]);
                            let jo = choose|jo: int| 0 <= jo < old_e.len() && old_e[jo].0@ == x;
                            assert(jo == j);
                        }
                    }
                    assert(self@ =~= old(self)@.insert(k, v));
                }
            },
        }
    }
}

/// What one line of a redirects file gives: comment lines (starting with `#`) and
/// lines without a tab give nothing; otherwise the lower-cased source before the first
/// tab and the target after it.
pub open spec fn spec_redirect_line(l: Seq<char>) -> Option<(Seq<char>, Seq<char>)> {
    if l.len() > 0 && l[0] == '#' {
        None
    } else {
        let p = splitn(l, '\t', 2);
        if p.len() == 2 {
            Some((lowercase(p[0]), p[1]))
        } else {
            None
        }
    }
}

/// `m` after the redirect lines `ls`, later lines replacing earlier ones.
pub open spec fn apply_redirect_lines(
    m: Map<Seq<char>, Seq<char>>,
    ls: Seq<Seq<char>>,
) -> Map<Seq<char>, Seq<char>>
    decreases ls.len(),
{
    if ls.len() == 0 {
        m
    } else {
        let before = apply_redirect_lines(m, ls.drop_last());
        match spec_redirect_line(ls.last()) {
            Some((k, v)) => before.insert(k, v),
            None => before,
        }
    }
}

/// Reads one redirects line.
pub fn parse_redirect_line(line: &str) -> (r: Option<(String, String)>)
    ensures
        match r {
            Some((k, v)) => spec_redirect_line(line@) == Some((k@, v@)),
            None => spec_redirect_line(line@) is None,
        },
{
    let v = chars_of(line);
    if v.len() > 0 && v[0] == '#' {
        return None;
    }
    let p = splitn_vec(v.as_slice(), '\t', 2);
    if p.len() == 2 {
        let from = string_of(p[0].as_slice());
        let to = string_of(p[1].as_slice());
        Some((to_lowercase(from.as_str()), to))
    } else {
        None
    }
}

/// Adds the redirects of the lines of a `_redirects.txt` file to `map`.
pub fn read_redirects(lines: &[String], map: &mut UrlMap)
    ensures
        final(map)@ == apply_redirect_lines(
            old(map)@,
            lines@.map_values(|l: String| l@),
        ),
{
    let ghost ls = lines@.map_values(|l: String| l@);
    let n = lines.len();
    let mut i: usize = 0;
    assert(ls.take(0) =~= Seq::<Seq<char>>::empty());
    while i < n
        invariant
            n == lines@.len(),
            ls == lines@.map_values(|l: String| l@),
            i <= n,
            map@ == apply_redirect_lines(old(map)@, ls.take(i as int)),
        decreases n - i,
    {
        assert(ls.take(i + 1).drop_last() =~= ls.take(i as int));
        assert(ls.take(i + 1).last() == lines@[i as int]@);
        match parse_redirect_line(lines[i].as_str()) {
            Some((k, v)) => map.insert(k, v),
            None => {},
        }
        i += 1;
    }
    assert(ls.take(n as int) =~= ls);
}

/// The redirect that an en-US document got, carried over to a translated document that
/// has none of its own.
pub open spec fn spec_en_redirect(
    url: Seq<char>,
    redirects: Map<Seq<char>, Seq<char>>,
    site: &SiteIndex,
) -> Option<Seq<char>> {
    match spec_url_meta(url, site) {
        Ok((cat, slug, locale)) => if locale == Locale::EnUs || cat != PageCategory::Doc {
            None
        } else {
            let en_url = "/en-us/docs/"@ + lowercase(slug);
            if redirects.contains_key(en_url) {
                match spec_url_meta(redirects[en_url], site) {
                    Ok((_, en_slug, _)) => Some(
                        seq!['/'] + spec_url_str(locale) + "/docs/"@ + en_slug,
                    ),
                    Err(_) => None,
                }
            } else {
                None
            }
        },
        Err(_) => None,
    }
}

/// For a non-en-US document URL, the en-US redirect of the same slug carried over to the
/// URL's locale.
pub fn en_redirect_for_locale(url: &str, redirects: &UrlMap, site: &SiteIndex) -> (r: Option<
    String,
>)
    ensures
        match r {
            Some(s) => spec_en_redirect(url@, redirects@, site) == Some(s@),
            None => spec_en_redirect(url@, redirects@, site) is None,
        },
{
    let meta = match url_meta_from(url, site) {
        Ok(m) => m,
        Err(_) => return None,
    };
    if meta.locale == Locale::EnUs || meta.page_category != PageCategory::Doc {
        return None;
    }
    let mut en_url = String::new();
    push_str(&mut en_url, "/en-us/docs/");
    let low = to_lowercase(meta.slug.as_str());
    push_str(&mut en_url, low.as_str());
    let en_redirect = match redirects.get(en_url.as_str()) {
        Some(x) => x,
        None => return None,
    };
    let en_meta = match url_meta_from(en_redirect.as_str(), site) {
        Ok(m) => m,
        Err(_) => return None,
    };
    let mut out = String::new();
    push_str(&mut out, "/");
    push_str(&mut out, meta.locale.as_url_str());
    push_str(&mut out, "/docs/");
    push_str(&mut out, en_meta.slug.as_str());
    proof {
        reveal_strlit("/");
        assert(out@ =~= seq!['/'] + spec_url_str(meta.locale) + "/docs/"@ + en_meta.slug@);
    }
    Some(out)
}

/// The canonical URL of the page that `x` names, per `pages` (which maps lower-cased
/// URLs without fragment to canonical URLs).
pub open spec fn page_url(pages: Map<Seq<char>, Seq<char>>, x: Seq<char>) -> Option<Seq<char>> {
    let key = lowercase(
        match first_index(x, '#') {
            Some(i) => x.take(i),
            None => x,
        },
    );
    if pages.contains_key(key) {
        Some(pages[key])
    } else {
        None
    }
}

/// Where `url` redirects to, keeping its fragment.
pub open spec fn spec_resolve_redirect(
    url: Seq<char>,
    redirects: Map<Seq<char>, Seq<char>>,
    pages: Map<Seq<char>, Seq<char>>,
    site: &SiteIndex,
) -> Option<Seq<char>> {
    let h = match first_index(url, '#') {
        Some(i) => i,
        None => url.len() as int,
    };
    let no_hash = url.take(h);
    let hash = url.skip(h);
    let key = lowercase(no_hash);
    let redirect = if redirects.contains_key(key) {
        let r = redirects[key];
        if r.len() > 0 && r[0] == '/' {
            match page_url(pages, r) {
                Some(pu) => if url != pu {
                    Some(pu)
                } else {
                    Some(r)
                },
                None => Some(r),
            }
        } else {
            Some(r)
        }
    } else if url.len() > 0 && url[0] == '/' {
        match page_url(pages, url) {
            Some(pu) => if url != pu {
                Some(pu)
            } else {
                spec_en_redirect(no_hash, redirects, site)
            },
            None => spec_en_redirect(no_hash, redirects, site),
        }
    } else {
        None
    };
    match redirect {
        None => None,
        Some(u) => if first_index(u, '#') is Some || hash.len() == 0 {
            Some(u)
        } else {
            Some(u + hash)
        },
    }
}

fn page_url_exec(pages: &UrlMap, x: &str) -> (r: Option<String>)
    ensures
        match r {
            Some(s) => page_url(pages@, x@) == Some(s@),
            None => page_url(pages@, x@) is None,
        },
{
    let v = chars_of(x);
    let h = match find_char(v.as_slice(), '#') {
        Some(i) => i,
        None => v.len(),
    };
    let nh = slice_of(v.as_slice(), 0, h);
    let nhs = string_of(nh.as_slice());
    let key = to_lowercase(nhs.as_str());
    proof {
        if first_index(x@, '#') is None {
            assert(nh@ =~= x@);
        }
    }
    match pages.get(key.as_str()) {
        Some(p) => Some(p.clone()),
        None => None,
    }
}

/// Resolves `url` to where it redirects, if anywhere: an explicit redirect (sent to the
/// canonical URL of its target page when that differs from `url`), else the canonical
/// URL of the page `url` names when that differs from `url`, else the en-US redirect
/// carried over to `url`'s locale. The fragment of `url` is kept unless the target has
/// one of its own.
pub fn resolve_redirect(url: &str, redirects: &UrlMap, pages: &UrlMap, site: &SiteIndex) -> (r:
    Option<String>)
    ensures
        match r {
            Some(s) => spec_resolve_redirect(url@, redirects@, pages@, site) == Some(s@),
            None => spec_resolve_redirect(url@, redirects@, pages@, site) is None,
        },
{
    let v = chars_of(url);
    let n = v.len();
    let h = match find_char(v.as_slice(), '#') {
        Some(i) => i,
        None => n,
    };
    let nh = slice_of(v.as_slice(), 0, h);
    let hash = slice_of(v.as_slice(), h, n);
    proof {
        assert(hash@ =~= v@.skip(h as int));
        assert(nh@ =~= v@.take(h as int));
    }
    let nhs = string_of(nh.as_slice());
    let key = to_lowercase(nhs.as_str());
    let redirect: Option<String> = match redirects.get(key.as_str()) {
        Some(r) => {
            let rv = chars_of(r.as_str());
            if rv.len() > 0 && rv[0] == '/' {
                match page_url_exec(pages, r.as_str()) {
                    Some(pu) => if !str_eq(url, pu.as_str()) {
                        Some(pu)
                    } else {
                        Some(r.clone())
                    },
                    None => Some(r.clone()),
                }
            } else {
                Some(r.clone())
            }
        },
        None => if n > 0 && v[0] == '/' {
            match page_url_exec(pages, url) {
                Some(pu) => if !str_eq(url, pu.as_str()) {
                    Some(pu)
                } else {
                    en_redirect_for_locale(nhs.as_str(), redirects, site)
                },
                None => en_redirect_for_locale(nhs.as_str(), redirects, site),
            }
        } else {
            None
        },
    };
    match redirect {
        None => None,
        Some(u) => {
            let uv = chars_of(u.as_str());
            if find_char(uv.as_slice(), '#').is_some() || hash.len() == 0 {
                Some(u)
            } else {
                let mut out = u;
                push_chars(&mut out, hash.as_slice());
                Some(out)
            }
        },
    }
}

/// A redirect never loses the fragment of the URL it resolves: where `url` has one,
/// so has its redirect (its own, or `url`'s).
pub proof fn law_redirect_keeps_fragment(
    url: Seq<char>,
    redirects: Map<Seq<char>, Seq<char>>,
    pages: Map<Seq<char>, Seq<char>>,
    site: &SiteIndex,
)
    requires
        first_index(url, '#') is Some,
        spec_resolve_redirect(url, redirects, pages, site) is Some,
    ensures
        first_index(spec_resolve_redirect(url, redirects, pages, site)->0, '#') is Some,
{
    crate::text::lemma_first_index(url, '#');
    let h = first_index(url, '#')->0;
    let hash = url.skip(h);
    assert(hash[0] == '#');
    let u = spec_resolve_redirect(url, redirects, pages, site)->0;
    crate::text::lemma_first_index(u, '#');
    if first_index(u, '#') is None {
        // `u` is then the target with the fragment appended
        assert(u[u.len() - hash.len()] == '#');
    }
}

/// A translated page whose en-US original moved follows it: where no redirect is stored
/// for the (lower-cased) URL without its fragment and the page it names has no other
/// canonical URL, `url` resolves exactly to the en-US redirect carried over to its
/// locale (`en_redirect_for_locale` of the URL without fragment), with `url`'s fragment
/// added where that redirect has none; in particular it resolves whenever that redirect
/// exists.
pub proof fn law_translation_follows_en_redirect(
    url: Seq<char>,
    redirects: Map<Seq<char>, Seq<char>>,
    pages: Map<Seq<char>, Seq<char>>,
    site: &SiteIndex,
)
    requires
        url.len() > 0 && url[0] == '/',
        !redirects.contains_key(lowercase(url.take(match first_index(url, '#') {
            Some(i) => i,
            None => url.len() as int,
        }))),
        page_url(pages, url) is None || page_url(pages, url) == Some(url),
    ensures
        ({
            let h = match first_index(url, '#') {
                Some(i) => i,
                None => url.len() as int,
            };
            let no_hash = url.take(h);
            let hash = url.skip(h);
            &&& spec_en_redirect(no_hash, redirects, site) is Some ==> spec_resolve_redirect(url, redirects, pages, site) is Some
            &&& spec_resolve_redirect(url, redirects, pages, site) == match spec_en_redirect(no_hash, redirects, site) {
                None => None,
                Some(u) => Some(
                    if first_index(u, '#') is Some {
                        u
                    } else {
                        u + hash
                    },
                ),
            }
        }),
{
    let h = match first_index(url, '#') {
        Some(i) => i,
        None => url.len() as int,
    };
    let hash = url.skip(h);
    if hash.len() == 0 {
        match spec_en_redirect(url.take(h), redirects, site) {
            Some(u) => {
                assert(u + hash =~= u);
            },
            None => {},
        }
    }
}

/// The en-US redirect of a translated document keeps the document's locale: for a
/// document URL in another locale than en-US, whose en-US counterpart (same slug,
/// lower-cased) redirects to a document URL, the carried-over redirect is that target's
/// slug under the URL's locale; for an en-US URL there is none.
pub proof fn law_en_redirect_keeps_locale(
    url: Seq<char>,
    redirects: Map<Seq<char>, Seq<char>>,
    site: &SiteIndex,
    slug: Seq<char>,
    locale: Locale,
)
    requires
        spec_url_meta(url, site) == Ok::<(PageCategory, Seq<char>, Locale), Option<Seq<char>>>((PageCategory::Doc, slug, locale)),
    ensures
        locale == Locale::EnUs ==> spec_en_redirect(url, redirects, site) is None,
        locale != Locale::EnUs && redirects.contains_key("/en-us/docs/"@ + lowercase(slug)) ==> (
            match spec_url_meta(redirects["/en-us/docs/"@ + lowercase(slug)], site) {
                Ok((_, en_slug, _)) => spec_en_redirect(url, redirects, site) == Some(
                    seq!['/'] + spec_url_str(locale) + "/docs/"@ + en_slug,
                ),
                Err(_) => spec_en_redirect(url, redirects, site) is None,
            }),
        locale != Locale::EnUs && !redirects.contains_key("/en-us/docs/"@ + lowercase(slug)) ==> spec_en_redirect(
            url,
            redirects,
            site,
        ) is None,
{
}

} // verus!
