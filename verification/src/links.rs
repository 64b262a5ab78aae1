//! Checking and fixing the links of a rendered page: external links open in a new tab,
//! internal links are sent through redirects, marked when they point at the current
//! page, fall back to en-US, or lose their `href` when nothing is there.
use vstd::prelude::*;
use crate::data::{l10n_json_data, spec_l10n, L10nError, L10nFiles};
use crate::locale::{spec_url_str, Locale};
use crate::numbers::{parse_i64, parse_i64_str};
use crate::page::{PageCategory, PageType, SiteIndex};
use crate::redirects::{resolve_redirect, spec_resolve_redirect, UrlMap};
use crate::resolve::{
    before_hash, spec_strip_locale, spec_url_meta, url_meta_from, UrlMeta, spec_url_with_locale, strip_locale_from_url, url_with_locale,
};
use crate::text::{
    chars_of, find_char, push_str, seq_eq, slice_of, split, split_once, split_vec, starts_with,
    str_eq, string_of, strip_prefix, first_index,
};

verus! {

/// The attributes of an element as name/value pairs, in document order.
pub open spec fn attrs_view(a: Seq<(String, String)>) -> Seq<(Seq<char>, Seq<char>)> {
    a.map_values(|p: (String, String)| (p.0@, p.1@))
}

/// Position of the first attribute named `n`.
pub open spec fn attr_index(s: Seq<(Seq<char>, Seq<char>)>, n: Seq<char>) -> Option<int>
    decreases s.len(),
{
    if s.len() == 0 {
        None
    } else if s[0].0 == n {
        Some(0)
    } else {
        match attr_index(s.drop_first(), n) {
            Some(i) => Some(i + 1),
            None => None,
        }
    }
}

/// The value of the attribute named `n`.
pub open spec fn attr_get(s: Seq<(Seq<char>, Seq<char>)>, n: Seq<char>) -> Option<Seq<char>> {
    match attr_index(s, n) {
        Some(i) => Some(s[i].1),
        None => None,
    }
}

/// The attributes with `n` set to `v`: in place where it is there, else added last.
pub open spec fn attr_set(s: Seq<(Seq<char>, Seq<char>)>, n: Seq<char>, v: Seq<char>) -> Seq<(Seq<char>, Seq<char>)> {
    match attr_index(s, n) {
        Some(i) => s.update(i, (n, v)),
        None => s.push((n, v)),
    }
}

/// The attributes without the one named `n`.
pub open spec fn attr_remove(s: Seq<(Seq<char>, Seq<char>)>, n: Seq<char>) -> Seq<(Seq<char>, Seq<char>)> {
    match attr_index(s, n) {
        Some(i) => s.remove(i),
        None => s,
    }
}

/// The facts that pin down `attr_index`.
pub proof fn lemma_attr_index(s: Seq<(Seq<char>, Seq<char>)>, n: Seq<char>)
    ensures
        match attr_index(s, n) {
            Some(i) => 0 <= i < s.len() && s[i].0 == n && forall|j: int| 0 <= j < i ==> s[j].0 != n,
            None => forall|j: int| 0 <= j < s.len() ==> s[j].0 != n,
        },
    decreases s.len(),
{
    if s.len() > 0 && s[0].0 != n {
        lemma_attr_index(s.drop_first(), n);
        assert forall|j: int| 0 < j < s.len() implies s[j] == s.drop_first()[j - 1] by {}
    }
}

/// A position with the first-occurrence property is what `attr_index` gives.
pub proof fn lemma_attr_index_is(s: Seq<(Seq<char>, Seq<char>)>, n: Seq<char>, i: int)
    requires
        0 <= i <= s.len(),
        i < s.len() ==> s[i].0 == n,
        forall|j: int| 0 <= j < i ==> s[j].0 != n,
    ensures
        attr_index(s, n) == (if i < s.len() { Some(i) } else { None::<int> }),
{
    lemma_attr_index(s, n);
}

/// Reading an attribute just set gives the value set.
pub proof fn lemma_attr_get_set(s: Seq<(Seq<char>, Seq<char>)>, n: Seq<char>, v: Seq<char>)
    ensures
        attr_get(attr_set(s, n, v), n) == Some(v),
{
    lemma_attr_index(s, n);
    let t = attr_set(s, n, v);
    match attr_index(s, n) {
        Some(i) => {
            assert forall|j: int| 0 <= j < i implies t[j].0 != n by {
                assert(t[j] == s[j]);
            }
            lemma_attr_index_is(t, n, i);
        },
        None => {
            assert forall|j: int| 0 <= j < s.len() implies t[j].0 != n by {
                assert(t[j] == s[j]);
            }
            lemma_attr_index_is(t, n, s.len() as int);
        },
    }
}

/// An HTML element as far as link checking reads and changes it: its attributes.
/// (Names occur once each, as the HTML parser leaves them.)
#[derive(Debug, Clone)]
pub struct LinkElement {
    pub attrs: Vec<(String, String)>,
}

impl View for LinkElement {
    type V = Seq<(Seq<char>, Seq<char>)>;

    open spec fn view(&self) -> Seq<(Seq<char>, Seq<char>)> {
        attrs_view(self.attrs@)
    }
}

impl LinkElement {
    fn index_of(&self, name: &str) -> (r: Option<usize>)
        ensures
            match r {
                Some(i) => attr_index(self@, name@) == Some(i as int) && i < self.attrs@.len(),
                None => attr_index(self@, name@) is None,
            },
    {
        let n = self.attrs.len();
        let mut i: usize = 0;
        while i < n
            invariant
                n == self.attrs@.len(),
                i <= n,
                forall|j: int| 0 <= j < i ==> self@[j].0 != name@,
            decreases n - i,
        {
            if str_eq(self.attrs[i].0.as_str(), name) {
                proof {
                    lemma_attr_index_is(self@, name@, i as int);
                }
                return Some(i);
            }
            i += 1;
        }
        proof {
            lemma_attr_index_is(self@, name@, n as int);
        }
        None
    }

    /// The value of the attribute `name`.
    pub fn get_attribute(&self, name: &str) -> (r: Option<String>)
        ensures
            match attr_get(self@, name@) {
                Some(v) => r matches Some(s) && s@ == v,
                None => r is None,
            },
    {
        match self.index_of(name) {
            Some(i) => Some(self.attrs[i].1.clone()),
            None => None,
        }
    }

    /// Whether the element has the attribute `name`.
    pub fn has_attribute(&self, name: &str) -> (r: bool)
        ensures
            r == attr_index(self@, name@) is Some,
    {
        self.index_of(name).is_some()
    }

    /// Sets the attribute `name` to `value` (see `attr_set`).
    pub fn set_attribute(&mut self, name: &str, value: &str)
        ensures
            final(self)@ == attr_set(old(self)@, name@, value@),
    {
        let nm = string_of(chars_of(name).as_slice());
        let val = string_of(chars_of(value).as_slice());
        match self.index_of(name) {
            Some(i) => {
                self.attrs.set(i, (nm, val));
                assert(final(self)@ =~= attr_set(old(self)@, name@, value@));
            },
            None => {
                self.attrs.push((nm, val));
                assert(final(self)@ =~= attr_set(old(self)@, name@, value@));
            },
        }
    }

    /// Removes the attribute `name` (see `attr_remove`).
    pub fn remove_attribute(&mut self, name: &str)
        ensures
            final(self)@ == attr_remove(old(self)@, name@),
    {
        match self.index_of(name) {
            Some(i) => {
                self.attrs.remove(i);
                assert(final(self)@ =~= attr_remove(old(self)@, name@));
            },
            None => {},
        }
    }
}

/// Links to these URLs are never checked.
pub open spec fn spec_ignore_link_check(url: Seq<char>) -> bool {
    ||| url == "/discord"@
    ||| url == "/en-US/blog/rss.xml"@
    ||| "/users/"@.is_prefix_of(url)
    ||| "/en-US/observatory"@.is_prefix_of(url)
    ||| "/en-US/plus"@.is_prefix_of(url)
    ||| "/en-US/play"@.is_prefix_of(url)
}

/// Whether links to `url` are left unchecked (see `spec_ignore_link_check`).
pub fn ignore_link_check(url: &str) -> (r: bool)
    ensures
        r == spec_ignore_link_check(url@),
{
    let v = chars_of(url);
    str_eq(url, "/discord") || str_eq(url, "/en-US/blog/rss.xml")
        || starts_with(v.as_slice(), chars_of("/users/").as_slice())
        || starts_with(v.as_slice(), chars_of("/en-US/observatory").as_slice())
        || starts_with(v.as_slice(), chars_of("/en-US/plus").as_slice())
        || starts_with(v.as_slice(), chars_of("/en-US/play").as_slice())
}

/// The value of the `class` attribute, empty where there is none.
pub open spec fn class_of(s: Seq<(Seq<char>, Seq<char>)>) -> Seq<char> {
    match attr_get(s, "class"@) {
        Some(c) => c,
        None => ""@,
    }
}

/// `class` with the class `c` added after a space (no space where `class` is empty).
pub open spec fn with_class(class: Seq<char>, c: Seq<char>) -> Seq<char> {
    if class.len() == 0 {
        c
    } else {
        class + " "@ + c
    }
}

/// Whether `c` is one of the space-separated classes of `class`.
pub open spec fn has_class(class: Seq<char>, c: Seq<char>) -> bool {
    split(class, ' ').contains(c)
}

/// The attributes with the class `c` added unless it is there already.
pub open spec fn add_class(s: Seq<(Seq<char>, Seq<char>)>, c: Seq<char>) -> Seq<(Seq<char>, Seq<char>)> {
    if has_class(class_of(s), c) {
        s
    } else {
        attr_set(s, "class"@, with_class(class_of(s), c))
    }
}

fn class_value(el: &LinkElement) -> (r: String)
    ensures
        r@ == class_of(el@),
{
    match el.get_attribute("class") {
        Some(c) => c,
        None => string_of(chars_of("").as_slice()),
    }
}

fn class_with(class: &str, c: &str) -> (r: String)
    ensures
        r@ == with_class(class@, c@),
{
    let mut out = string_of(chars_of(class).as_slice());
    if chars_of(class).len() > 0 {
        push_str(&mut out, " ");
    }
    push_str(&mut out, c);
    out
}

fn has_class_exec(class: &str, c: &str) -> (r: bool)
    ensures
        r == has_class(class@, c@),
{
    let cls = chars_of(class);
    let parts = split_vec(cls.as_slice(), ' ');
    let cv = chars_of(c);
    let n = parts.len();
    let mut i: usize = 0;
    while i < n
        invariant
            n == parts@.len(),
            cv@ == c@,
            n == split(class@, ' ').len(),
            forall|j: int| 0 <= j < n ==> #[trigger] parts@[j]@ == split(class@, ' ')[j],
            i <= n,
            forall|j: int| 0 <= j < i ==> split(class@, ' ')[j] != c@,
        decreases n - i,
    {
        let piece = &parts[i];
        assert(piece@ == split(class@, ' ')[i as int]);
        if seq_eq(piece.as_slice(), cv.as_slice()) {
            assert(split(class@, ' ')[i as int] == c@);
            return true;
        }
        i += 1;
    }
    false
}

/// Adds the class `c` to the element unless it has it already.
pub fn add_class_exec(el: &mut LinkElement, c: &str)
    ensures
        final(el)@ == add_class(old(el)@, c@),
{
    let class = class_value(el);
    if !has_class_exec(class.as_str(), c) {
        let nc = class_with(class.as_str(), c);
        el.set_attribute("class", nc.as_str());
    }
}

/// An external link gets the class `external` and, unless it has a target, opens in a
/// new tab.
pub open spec fn spec_external_link(s: Seq<(Seq<char>, Seq<char>)>) -> Seq<(Seq<char>, Seq<char>)> {
    let a = add_class(s, "external"@);
    if attr_index(a, "target"@) is Some {
        a
    } else {
        attr_set(a, "target"@, "_blank"@)
    }
}

/// Marks an external link (see `spec_external_link`).
pub fn handle_extenal_link(el: &mut LinkElement)
    ensures
        final(el)@ == spec_external_link(old(el)@),
{
    add_class_exec(el, "external");
    if !el.has_attribute("target") {
        el.set_attribute("target", "_blank");
    }
}

/// The origin of the site's own absolute links.
pub open spec fn mdn_origin() -> Seq<char> {
    "https://developer.mozilla.org"@
}

/// The two forms of a link's `href` that checking uses: the one it reports (the origin
/// stripped for curriculum pages) and the one it resolves (the origin stripped, an
/// empty rest read as `/`).
pub open spec fn spec_link_hrefs(original: Seq<char>, curriculum: bool) -> (Seq<char>, Seq<char>) {
    let o = if curriculum {
        match strip_prefix(original, mdn_origin()) {
            Some(h) => h,
            None => original,
        }
    } else {
        original
    };
    let h = match strip_prefix(o, mdn_origin()) {
        Some(x) => if x.len() == 0 {
            "/"@
        } else {
            x
        },
        None => o,
    };
    (o, h)
}

/// Where `u` redirects to, or `u` itself.
pub open spec fn resolve_or(
    u: Seq<char>,
    redirects: Map<Seq<char>, Seq<char>>,
    pages: Map<Seq<char>, Seq<char>>,
    site: &SiteIndex,
) -> Seq<char> {
    match spec_resolve_redirect(u, redirects, pages, site) {
        Some(r) => r,
        None => u,
    }
}

/// The page a link stands on, as link checking reads it.
#[derive(Debug, Clone)]
pub struct LinkPage {
    pub page_type: PageType,
    pub locale: Locale,
    pub url: String,
    /// Lines of front matter before the content.
    pub fm_offset: usize,
}

/// An internal link as checking resolves it.
#[derive(Debug, Clone)]
pub struct LinkPlan {
    /// The `href` as the link is reported.
    pub original_href: String,
    /// The `href` that is resolved.
    pub href: String,
    /// The locale the `href` names, if any.
    pub href_locale: Option<Locale>,
    /// Where the link goes: the `href` (in the page's locale where it names none)
    /// through the redirects.
    pub resolved: String,
}

/// How an internal link resolves (see `LinkPlan`): none where it names no locale and
/// its target is never checked.
pub open spec fn spec_link_plan(
    original: Seq<char>,
    page_type: PageType,
    locale: Locale,
    redirects: Map<Seq<char>, Seq<char>>,
    pages: Map<Seq<char>, Seq<char>>,
    site: &SiteIndex,
) -> Option<(Seq<char>, Seq<char>, Option<Locale>, Seq<char>)> {
    let (o, h) = spec_link_hrefs(original, page_type == PageType::Curriculum);
    let loc = spec_strip_locale(h).0;
    if loc is None && spec_ignore_link_check(before_hash(h)) {
        None
    } else {
        let prefixed = if loc is None {
            "/"@ + spec_url_str(locale) + h
        } else {
            h
        };
        Some((o, h, loc, resolve_or(prefixed, redirects, pages, site)))
    }
}

fn strip_origin(v: &Vec<char>) -> (r: Option<Vec<char>>)
    ensures
        match strip_prefix(v@, mdn_origin()) {
            Some(x) => r matches Some(w) && w@ == x,
            None => r is None,
        },
{
    let origin = chars_of("https://developer.mozilla.org");
    if starts_with(v.as_slice(), origin.as_slice()) {
        let w = slice_of(v.as_slice(), origin.len(), v.len());
        assert(w@ =~= v@.skip(origin@.len() as int));
        Some(w)
    } else {
        None
    }
}

fn before_hash_exec(v: &Vec<char>) -> (r: String)
    ensures
        r@ == before_hash(v@),
{
    let h = match find_char(v.as_slice(), '#') {
        Some(i) => i,
        None => v.len(),
    };
    let w = slice_of(v.as_slice(), 0, h);
    proof {
        if first_index(v@, '#') is None {
            assert(w@ =~= v@);
        }
    }
    string_of(w.as_slice())
}

/// Resolves an internal link (see `spec_link_plan`).
pub fn internal_link_plan(
    original_href: &str,
    page: &LinkPage,
    redirects: &UrlMap,
    pages: &UrlMap,
    site: &SiteIndex,
) -> (r: Option<LinkPlan>)
    ensures
        match spec_link_plan(original_href@, page.page_type, page.locale, redirects@, pages@, site) {
            Some((o, h, loc, res)) => r matches Some(p) && p.original_href@ == o && p.href@ == h
                && p.href_locale == loc && p.resolved@ == res,
            None => r is None,
        },
{
    let v = chars_of(original_href);
    let o: Vec<char> = if page.page_type == PageType::Curriculum {
        match strip_origin(&v) {
            Some(w) => w,
            None => v,
        }
    } else {
        v
    };
    let h: Vec<char> = match strip_origin(&o) {
        Some(x) => if x.len() == 0 {
            chars_of("/")
        } else {
            x
        },
        None => slice_of(o.as_slice(), 0, o.len()),
    };
    proof {
        reveal_strlit("/");
        if strip_prefix(o@, mdn_origin()) is None {
            assert(h@ =~= o@);
        }
    }
    let hs = string_of(h.as_slice());
    let (loc, _) = strip_locale_from_url(hs.as_str());
    let no_hash = before_hash_exec(&h);
    if loc.is_none() && ignore_link_check(no_hash.as_str()) {
        return None;
    }
    let prefixed: String = match loc {
        None => {
            let mut p = String::new();
            push_str(&mut p, "/");
            push_str(&mut p, page.locale.as_url_str());
            push_str(&mut p, hs.as_str());
            p
        },
        Some(_) => string_of(h.as_slice()),
    };
    let resolved = match resolve_redirect(prefixed.as_str(), redirects, pages, site) {
        Some(r) => r,
        None => prefixed,
    };
    Some(LinkPlan { original_href: string_of(o.as_slice()), href: hs, href_locale: loc, resolved })
}

/// Where a link goes once a missing target falls back to en-US, and whether it fell
/// back: a target that does not exist, is checked, and whose link names no en-US
/// locale is replaced by its en-US version (through the redirects, where it has one).
pub open spec fn spec_fallback(
    h: Seq<char>,
    loc: Option<Locale>,
    resolved: Seq<char>,
    target_exists: bool,
    redirects: Map<Seq<char>, Seq<char>>,
    pages: Map<Seq<char>, Seq<char>>,
    site: &SiteIndex,
) -> (Seq<char>, bool) {
    if !target_exists && !spec_ignore_link_check(h) && loc != Some(Locale::EnUs) {
        match spec_url_with_locale(resolved, Locale::EnUs) {
            Some(en) => (resolve_or(en, redirects, pages, site), true),
            None => (resolved, true),
        }
    } else {
        (resolved, false)
    }
}

/// Falls back to en-US where the target of `plan` does not exist (see `spec_fallback`).
pub fn en_us_fallback(
    plan: &LinkPlan,
    target_exists: bool,
    redirects: &UrlMap,
    pages: &UrlMap,
    site: &SiteIndex,
) -> (r: (String, bool))
    ensures
        r.0@ == spec_fallback(plan.href@, plan.href_locale, plan.resolved@, target_exists, redirects@, pages@, site).0,
        r.1 == spec_fallback(plan.href@, plan.href_locale, plan.resolved@, target_exists, redirects@, pages@, site).1,
{
    let en_us_locale = match plan.href_locale {
        Some(Locale::EnUs) => true,
        _ => false,
    };
    if !target_exists && !ignore_link_check(plan.href.as_str()) && !en_us_locale {
        match url_with_locale(plan.resolved.as_str(), Locale::EnUs) {
            Some(en) => {
                let r = match resolve_redirect(en.as_str(), redirects, pages, site) {
                    Some(x) => x,
                    None => en,
                };
                (r, true)
            },
            None => (plan.resolved.clone(), true),
        }
    } else {
        (plan.resolved.clone(), false)
    }
}

/// A link reported as redirected: where its element starts in the source (when it
/// records that), the link as written and where it now goes.
#[derive(Debug, Clone)]
pub struct RedirectedLink {
    pub line: Option<i64>,
    pub col: Option<i64>,
    pub url: String,
    pub redirect: String,
}

/// The line of a `data-sourcepos` start as reported: the line read as an `i64` and
/// moved down by the front-matter offset (by the line less one where the offset is
/// beyond `i64`), `-1` where it does not read.
pub open spec fn spec_reported_line(l: Seq<char>, fm_offset: usize) -> int {
    match parse_i64(l) {
        Some(v) => v + if fm_offset <= i64::MAX {
            fm_offset as int
        } else {
            v - 1
        },
        None => -1,
    }
}

/// The start line and column of the element's `data-sourcepos` (`line:col-...`), where
/// it has one of that shape.
pub open spec fn sourcepos_start(s: Seq<(Seq<char>, Seq<char>)>) -> Option<(Seq<char>, Seq<char>)> {
    match attr_get(s, "data-sourcepos"@) {
        Some(pos) => match split_once(pos, '-') {
            Some((start, _)) => split_once(start, ':'),
            None => None,
        },
        None => None,
    }
}

/// Reporting the line of a `data-sourcepos` value stays within `i64`.
pub open spec fn pos_line_fits(pos: Option<Seq<char>>, fm_offset: usize) -> bool {
    match pos {
        Some(p) => match split_once(p, '-') {
            Some((start, _)) => match split_once(start, ':') {
                Some((l, _)) => match parse_i64(l) {
                    Some(v) => v > i64::MIN && i64::MIN <= spec_reported_line(l, fm_offset) <= i64::MAX,
                    None => true,
                },
                None => true,
            },
            None => true,
        },
        None => true,
    }
}

/// Reporting the line of the element's source position stays within `i64`.
pub open spec fn line_fits(s: Seq<(Seq<char>, Seq<char>)>, fm_offset: usize) -> bool {
    pos_line_fits(attr_get(s, "data-sourcepos"@), fm_offset)
}

/// Where a redirected link with `data-sourcepos` value `pos` is reported: at its start
/// (line and column, `0` for a column that does not read) where the value has the shape
/// `line:col-...`; without a position where there is none; not at all where the value
/// is malformed.
pub open spec fn spec_report_position_of(pos: Option<Seq<char>>, fm_offset: usize) -> Option<(Option<i64>, Option<i64>)> {
    match pos {
        Some(p) => match split_once(p, '-') {
            Some((start, _)) => match split_once(start, ':') {
                Some((l, c)) => Some((
                    Some(spec_reported_line(l, fm_offset) as i64),
                    Some(
                        match parse_i64(c) {
                            Some(v) => v,
                            None => 0i64,
                        },
                    ),
                )),
                None => None,
            },
            None => None,
        },
        None => Some((None, None)),
    }
}

/// Where a redirected link is reported, by the element's `data-sourcepos`.
pub open spec fn spec_report_position(s: Seq<(Seq<char>, Seq<char>)>, fm_offset: usize) -> Option<(Option<i64>, Option<i64>)> {
    spec_report_position_of(attr_get(s, "data-sourcepos"@), fm_offset)
}

/// The element marked as the current page where the link leads to it.
pub open spec fn spec_mark_current(s: Seq<(Seq<char>, Seq<char>)>, resolved: Seq<char>, page_url: Seq<char>) -> Seq<(Seq<char>, Seq<char>)> {
    if before_hash(resolved) == page_url {
        attr_set(s, "aria-current"@, "page"@)
    } else {
        s
    }
}

/// A link to a page that is not there: the class `page-not-created`, its `href` kept as
/// `data-href`, and no `href`.
pub open spec fn spec_not_created(s: Seq<(Seq<char>, Seq<char>)>) -> Seq<(Seq<char>, Seq<char>)> {
    let s1 = attr_set(s, "class"@, with_class(class_of(s), "page-not-created"@));
    let s2 = match attr_get(s1, "href"@) {
        Some(x) => attr_set(s1, "data-href"@, x),
        None => s1,
    };
    attr_remove(s2, "href"@)
}

/// The `href` a checked link ends with: its target, without locale where the link was
/// written without one.
pub open spec fn link_target(loc: Option<Locale>, resolved: Seq<char>) -> Seq<char> {
    if loc is None {
        spec_strip_locale(resolved).1
    } else {
        resolved
    }
}

/// The element after checking a link whose target is `resolved` (before the fallback:
/// `first`), with `title` as the tooltip of a missing page.
pub open spec fn spec_link_edits(
    s: Seq<(Seq<char>, Seq<char>)>,
    first: Seq<char>,
    page_url: Seq<char>,
    missing: bool,
    fell_back: bool,
    title: Seq<char>,
    original: Seq<char>,
    target: Seq<char>,
) -> Seq<(Seq<char>, Seq<char>)> {
    let s1 = spec_mark_current(s, first, page_url);
    let s2 = if missing {
        attr_set(spec_not_created(s1), "title"@, title)
    } else if fell_back {
        add_class(s1, "only-in-en-us"@)
    } else {
        s1
    };
    let s3 = if original != target && !missing {
        attr_set(s2, "href"@, target)
    } else {
        s2
    };
    if missing {
        attr_remove(s3, "href"@)
    } else {
        s3
    }
}

/// The tooltip of a link to a missing page.
pub open spec fn missing_title(files: Seq<(String, Vec<(String, Vec<(String, String)>)>)>, locale: Locale) -> Result<Seq<char>, Option<Seq<char>>> {
    spec_l10n(files, "Common"@, "summary"@, locale)
}

fn i64_of_usize(n: usize) -> (r: Option<i64>)
    ensures
        match r {
            Some(v) => n <= i64::MAX && v == n,
            None => n > i64::MAX,
        },
{
    if (n as u64) <= 9223372036854775807u64 {
        Some(n as i64)
    } else {
        None
    }
}

fn report_position(pos: &Option<String>, fm_offset: usize) -> (r: Option<(Option<i64>, Option<i64>)>)
    requires
        pos_line_fits(
            match pos {
                Some(p) => Some(p@),
                None => None,
            },
            fm_offset,
        ),
    ensures
        r == spec_report_position_of(
            match pos {
                Some(p) => Some(p@),
                None => None,
            },
            fm_offset,
        ),
{
    match pos {
        None => Some((None, None)),
        Some(p) => {
            let v = chars_of(p.as_str());
            match find_char(v.as_slice(), '-') {
                None => None,
                Some(i) => {
                    let start = slice_of(v.as_slice(), 0, i);
                    match find_char(start.as_slice(), ':') {
                        None => None,
                        Some(j) => {
                            let l = string_of(slice_of(start.as_slice(), 0, j).as_slice());
                            let c = string_of(slice_of(start.as_slice(), j + 1, start.len()).as_slice());
                            proof {
                                assert(start@ == v@.take(i as int));
                                assert(v@.take(i as int).take(j as int) =~= l@);
                                assert(v@.take(i as int).skip(j + 1) =~= c@);
                            }
                            let line: i64 = match parse_i64_str(l.as_str()) {
                                Some(x) => match i64_of_usize(fm_offset) {
                                    Some(off) => x + off,
                                    None => x + (x - 1),
                                },
                                None => -1,
                            };
                            let col: i64 = match parse_i64_str(c.as_str()) {
                                Some(x) => x,
                                None => 0,
                            };
                            Some((Some(line), Some(col)))
                        },
                    }
                },
            }
        },
    }
}

/// What checking an internal link gives, once the plan, the fallback and whether the
/// final target exists are known: the element's attributes afterwards, and the report
/// (`Ok(None)` where the link was not redirected) or the error of the missing-page
/// tooltip.
pub open spec fn spec_fix_outcome(
    s: Seq<(Seq<char>, Seq<char>)>,
    original: Seq<char>,
    h: Seq<char>,
    loc: Option<Locale>,
    first: Seq<char>,
    target: Seq<char>,
    fell_back: bool,
    target_exists: bool,
    page_url: Seq<char>,
    locale: Locale,
    fm_offset: usize,
    files: Seq<(String, Vec<(String, Vec<(String, String)>)>)>,
    s_after: Seq<(Seq<char>, Seq<char>)>,
    r: Result<Option<RedirectedLink>, L10nError>,
) -> bool {
    let missing = !target_exists && !spec_ignore_link_check(h);
    let t = link_target(loc, target);
    let title = if missing {
        missing_title(files, locale)
    } else {
        Ok(""@)
    };
    match title {
        Ok(tt) => {
            &&& s_after == spec_link_edits(s, first, page_url, missing, fell_back, tt, original, t)
            &&& r matches Ok(w)
            &&& if original != t {
                match spec_report_position(s, fm_offset) {
                    Some((line, col)) => w matches Some(x) && x.line == line && x.col == col && x.url@ == original
                        && x.redirect@ == t,
                    None => w is None,
                }
            } else {
                w is None
            }
        },
        Err(e) => {
            &&& s_after == spec_not_created(spec_mark_current(s, first, page_url))
            &&& match e {
                Some(k) => r matches Err(L10nError::InvalidKey(x)) && x@ == k,
                None => r matches Err(L10nError::NoEnUs),
            }
        },
    }
}

/// Applies the outcome of checking an internal link to its element: marks a link to the
/// current page, marks a link to a missing page (and drops its `href`) or one that fell
/// back to en-US, and points a redirected link at its target, reporting it (see
/// `spec_fix_outcome`).
pub fn fix_internal_link(
    el: &mut LinkElement,
    plan: &LinkPlan,
    target: &str,
    fell_back: bool,
    target_exists: bool,
    page: &LinkPage,
    files: &L10nFiles,
) -> (r: Result<Option<RedirectedLink>, L10nError>)
    requires
        line_fits(old(el)@, page.fm_offset),
    ensures
        spec_fix_outcome(
            old(el)@,
            plan.original_href@,
            plan.href@,
            plan.href_locale,
            plan.resolved@,
            target@,
            fell_back,
            target_exists,
            page.url@,
            page.locale,
            page.fm_offset,
            files@,
            final(el)@,
            r,
        ),
{
    let pos = el.get_attribute("data-sourcepos");
    let first_no_hash = before_hash_exec(&chars_of(plan.resolved.as_str()));
    if str_eq(first_no_hash.as_str(), page.url.as_str()) {
        el.set_attribute("aria-current", "page");
    }
    let ghost s1 = el@;
    let missing = !target_exists && !ignore_link_check(plan.href.as_str());
    let mut title = String::new();
    if missing {
        let class = class_value(el);
        let nc = class_with(class.as_str(), "page-not-created");
        el.set_attribute("class", nc.as_str());
        match el.get_attribute("href") {
            Some(h) => el.set_attribute("data-href", h.as_str()),
            None => {},
        }
        el.remove_attribute("href");
        match l10n_json_data("Common", "summary", page.locale, files) {
            Ok(t) => title = t,
            Err(e) => return Err(e),
        }
        el.set_attribute("title", title.as_str());
    } else if fell_back {
        add_class_exec(el, "only-in-en-us");
    }
    let t: String = match plan.href_locale {
        None => strip_locale_from_url(target).1,
        Some(_) => string_of(chars_of(target).as_slice()),
    };
    let mut warning: Option<RedirectedLink> = None;
    if !str_eq(plan.original_href.as_str(), t.as_str()) {
        match report_position(&pos, page.fm_offset) {
            Some((line, col)) => {
                warning = Some(RedirectedLink { line, col, url: plan.original_href.clone(), redirect: t.clone() });
            },
            None => {},
        }
        if !missing {
            el.set_attribute("href", t.as_str());
        }
    }
    if missing {
        el.remove_attribute("href");
    }
    proof {
        reveal_strlit("");
        if !missing {
            assert(title@ =~= ""@);
        }
    }
    Ok(warning)
}

/// Sets the element's `data-flaw` to the number of the issue reported about it.
pub fn mark_flaw(el: &mut LinkElement, ic: i64)
    ensures
        final(el)@ == attr_set(old(el)@, "data-flaw"@, crate::numbers::int_repr(ic as int)),
{
    let n = crate::numbers::i64_to_string(ic);
    el.set_attribute("data-flaw", n.as_str());
}

/// What checking the internal link `original` does, whatever `page_exists` answers:
/// nothing where the link is not checked; else, for the answers it gave about the
/// target and about the target after the en-US fallback, what `spec_fix_outcome` says.
pub open spec fn spec_internal_link<F: Fn(&str) -> bool>(
    original: Seq<char>,
    s: Seq<(Seq<char>, Seq<char>)>,
    page: LinkPage,
    redirects: Map<Seq<char>, Seq<char>>,
    pages: Map<Seq<char>, Seq<char>>,
    site: &SiteIndex,
    files: Seq<(String, Vec<(String, Vec<(String, String)>)>)>,
    page_exists: F,
    s_after: Seq<(Seq<char>, Seq<char>)>,
    r: Result<Option<RedirectedLink>, L10nError>,
) -> bool {
    match spec_link_plan(original, page.page_type, page.locale, redirects, pages, site) {
        None => s_after == s && r matches Ok(None),
        Some((o, h, loc, first)) => exists|e1: bool, e2: bool, u1: &str, u2: &str|
            #![trigger call_ensures(page_exists, (u1,), e1), call_ensures(page_exists, (u2,), e2)]
            {
                let fb = spec_fallback(h, loc, first, e1, redirects, pages, site);
                &&& u1@ == before_hash(first)
                &&& call_ensures(page_exists, (u1,), e1)
                &&& u2@ == before_hash(fb.0)
                &&& call_ensures(page_exists, (u2,), e2)
                &&& spec_fix_outcome(
                    s,
                    o,
                    h,
                    loc,
                    first,
                    fb.0,
                    fb.1,
                    e2,
                    page.url@,
                    page.locale,
                    page.fm_offset,
                    files,
                    s_after,
                    r,
                )
            },
    }
}

/// Checks an internal link and fixes its element (see `spec_internal_link`);
/// `page_exists` tells whether a page is published at a URL without fragment. Marking
/// the element with the number of a reported redirect (`mark_flaw`) is left to the
/// caller, which numbers the issues.
pub fn handle_internal_link<F: Fn(&str) -> bool>(
    original_href: &str,
    el: &mut LinkElement,
    page: &LinkPage,
    redirects: &UrlMap,
    pages: &UrlMap,
    site: &SiteIndex,
    files: &L10nFiles,
    page_exists: F,
) -> (r: Result<Option<RedirectedLink>, L10nError>)
    requires
        forall|u: &str| call_requires(page_exists, (u,)),
        line_fits(old(el)@, page.fm_offset),
    ensures
        spec_internal_link(original_href@, old(el)@, *page, redirects@, pages@, site, files@, page_exists, final(el)@, r),
{
    match internal_link_plan(original_href, page, redirects, pages, site) {
        None => Ok(None),
        Some(plan) => {
            let u1 = before_hash_exec(&chars_of(plan.resolved.as_str()));
            let a1: &str = u1.as_str();
            let e1 = page_exists(a1);
            let (target, fell_back) = en_us_fallback(&plan, e1, redirects, pages, site);
            let u2 = before_hash_exec(&chars_of(target.as_str()));
            let a2: &str = u2.as_str();
            let e2 = page_exists(a2);
            let r = fix_internal_link(el, &plan, target.as_str(), fell_back, e2, page, files);
            proof {
                let fb = spec_fallback(plan.href@, plan.href_locale, plan.resolved@, e1, redirects@, pages@, site);
                assert(fb.0 == target@ && fb.1 == fell_back);
                assert(call_ensures(page_exists, (a1,), e1));
                assert(call_ensures(page_exists, (a2,), e2));
            }
            r
        },
    }
}

/// Whether a link is internal: site-relative, or absolute on the site's origin.
pub open spec fn is_internal_href(href: Seq<char>) -> bool {
    "/"@.is_prefix_of(href) || mdn_origin().is_prefix_of(href)
}

/// Whether a link is external: `http:` or `https:` elsewhere.
pub open spec fn is_external_href(href: Seq<char>) -> bool {
    "http:"@.is_prefix_of(href) || "https:"@.is_prefix_of(href)
}

/// Checks and fixes the link of an element with an `href`: internal links as
/// `handle_internal_link` does, external ones as `handle_extenal_link` does, others not
/// at all.
pub fn check_and_fix_link<F: Fn(&str) -> bool>(
    el: &mut LinkElement,
    page: &LinkPage,
    redirects: &UrlMap,
    pages: &UrlMap,
    site: &SiteIndex,
    files: &L10nFiles,
    page_exists: F,
) -> (r: Result<Option<RedirectedLink>, L10nError>)
    requires
        attr_index(old(el)@, "href"@) is Some,
        forall|u: &str| call_requires(page_exists, (u,)),
        line_fits(old(el)@, page.fm_offset),
    ensures
        ({
            let href = attr_get(old(el)@, "href"@)->0;
            if is_internal_href(href) {
                spec_internal_link(href, old(el)@, *page, redirects@, pages@, site, files@, page_exists, final(el)@, r)
            } else if is_external_href(href) {
                final(el)@ == spec_external_link(old(el)@) && r matches Ok(None)
            } else {
                final(el)@ == old(el)@ && r matches Ok(None)
            }
        }),
{
    let href = match el.get_attribute("href") {
        Some(h) => h,
        None => return Ok(None),
    };
    let v = chars_of(href.as_str());
    if starts_with(v.as_slice(), chars_of("/").as_slice()) || starts_with(v.as_slice(), chars_of("https://developer.mozilla.org").as_slice()) {
        handle_internal_link(href.as_str(), el, page, redirects, pages, site, files, page_exists)
    } else if starts_with(v.as_slice(), chars_of("http:").as_slice()) || starts_with(v.as_slice(), chars_of("https:").as_slice()) {
        handle_extenal_link(el);
        Ok(None)
    } else {
        Ok(None)
    }
}

/// Which content roots are configured: where one is not, its pages count as existing.
#[derive(Debug, Clone, Copy)]
pub struct ContentRoots {
    pub blog: bool,
    pub curriculum: bool,
    pub contributor_spotlight: bool,
    pub generic_content: bool,
}

/// A page of category `c` counts as existing without reading it, its root not being
/// configured.
pub open spec fn assumed_present(c: PageCategory, roots: ContentRoots) -> bool {
    match c {
        PageCategory::BlogPost => !roots.blog,
        PageCategory::Curriculum => !roots.curriculum,
        PageCategory::ContributorSpotlight => !roots.contributor_spotlight,
        PageCategory::GenericPage => !roots.generic_content,
        _ => false,
    }
}

/// Whether a page is published at `url`, `read_page` telling whether the page there can
/// be read: never for a URL that names no page, always where the page's content root
/// is not configured, else what `read_page` answers.
pub fn page_exists<F: Fn(&str) -> bool>(url: &str, site: &SiteIndex, roots: &ContentRoots, read_page: F) -> (r: bool)
    requires
        call_requires(read_page, (url,)),
    ensures
        match spec_url_meta(url@, site) {
            Ok((c, _, _)) => if assumed_present(c, *roots) {
                r
            } else {
                call_ensures(read_page, (url,), r)
            },
            Err(_) => !r,
        },
{
    match url_meta_from(url, site) {
        Ok(meta) => {
            let present = match meta.page_category {
                PageCategory::BlogPost => !roots.blog,
                PageCategory::Curriculum => !roots.curriculum,
                PageCategory::ContributorSpotlight => !roots.contributor_spotlight,
                PageCategory::GenericPage => !roots.generic_content,
                _ => false,
            };
            if present {
                true
            } else {
                read_page(url)
            }
        },
        Err(_) => false,
    }
}

/// No two attributes share a name.
pub open spec fn names_unique(s: Seq<(Seq<char>, Seq<char>)>) -> bool {
    forall|i: int, j: int| 0 <= i < j < s.len() ==> s[i].0 != s[j].0
}

/// Setting one attribute leaves the others as they were.
pub proof fn lemma_attr_set_other(s: Seq<(Seq<char>, Seq<char>)>, m: Seq<char>, v: Seq<char>, n: Seq<char>)
    requires
        m != n,
    ensures
        attr_get(attr_set(s, m, v), n) == attr_get(s, n),
        attr_index(attr_set(s, m, v), n) is Some == attr_index(s, n) is Some,
{
    lemma_attr_index(s, n);
    lemma_attr_index(s, m);
    let t = attr_set(s, m, v);
    assert(forall|j: int| 0 <= j < s.len() ==> t[j].0 == s[j].0 && (t[j].0 == n ==> t[j] == s[j]));
    match attr_index(s, n) {
        Some(i) => {
            lemma_attr_index_is(t, n, i);
        },
        None => {
            if attr_index(s, m) is None {
                assert(t[s.len() as int].0 == m);
            }
            lemma_attr_index_is(t, n, t.len() as int);
        },
    }
}

/// Setting an attribute keeps the names unique.
pub proof fn lemma_attr_set_unique(s: Seq<(Seq<char>, Seq<char>)>, m: Seq<char>, v: Seq<char>)
    requires
        names_unique(s),
    ensures
        names_unique(attr_set(s, m, v)),
{
    lemma_attr_index(s, m);
    let t = attr_set(s, m, v);
    assert forall|i: int, j: int| 0 <= i < j < t.len() implies t[i].0 != t[j].0 by {
        if j < s.len() {
            assert(t[i].0 == s[i].0 && t[j].0 == s[j].0);
        } else {
            assert(t[i].0 == s[i].0);
        }
    }
}

/// Where names are unique, removing an attribute leaves none of that name, and the
/// others as they were.
pub proof fn lemma_attr_remove_unique(s: Seq<(Seq<char>, Seq<char>)>, n: Seq<char>, m: Seq<char>)
    requires
        names_unique(s),
    ensures
        attr_index(attr_remove(s, n), n) is None,
        names_unique(attr_remove(s, n)),
        m != n ==> attr_get(attr_remove(s, n), m) == attr_get(s, m),
{
    lemma_attr_index(s, n);
    lemma_attr_index(s, m);
    let t = attr_remove(s, n);
    match attr_index(s, n) {
        Some(i) => {
            assert forall|j: int| 0 <= j < t.len() implies t[j].0 != n by {
                if j < i {
                    assert(t[j] == s[j]);
                } else {
                    assert(t[j] == s[j + 1]);
                }
            }
            lemma_attr_index_is(t, n, t.len() as int);
            assert forall|a: int, b: int| 0 <= a < b < t.len() implies t[a].0 != t[b].0 by {
                let a1 = if a < i { a } else { a + 1 };
                let b1 = if b < i { b } else { b + 1 };
                assert(t[a] == s[a1] && t[b] == s[b1]);
            }
            if m != n {
                match attr_index(s, m) {
                    Some(k) => {
                        let k1 = if k < i { k } else { k - 1 };
                        assert(t[k1] == s[k]);
                        assert forall|j: int| 0 <= j < k1 implies t[j].0 != m by {
                            if j < i {
                                assert(t[j] == s[j]);
                            } else {
                                assert(t[j] == s[j + 1]);
                            }
                        }
                        lemma_attr_index_is(t, m, k1);
                    },
                    None => {
                        assert forall|j: int| 0 <= j < t.len() implies t[j].0 != m by {
                            if j < i {
                                assert(t[j] == s[j]);
                            } else {
                                assert(t[j] == s[j + 1]);
                            }
                        }
                        lemma_attr_index_is(t, m, t.len() as int);
                    },
                }
            }
        },
        None => {},
    }
}

/// A checked link whose target page does not exist (and is not exempt from checking)
/// loses its `href`, keeping where it pointed as `data-href`, however the tooltip
/// lookup went.
pub proof fn law_missing_page_loses_href(
    s: Seq<(Seq<char>, Seq<char>)>,
    original: Seq<char>,
    h: Seq<char>,
    loc: Option<Locale>,
    first: Seq<char>,
    target: Seq<char>,
    fell_back: bool,
    page_url: Seq<char>,
    locale: Locale,
    fm_offset: usize,
    files: Seq<(String, Vec<(String, Vec<(String, String)>)>)>,
    s_after: Seq<(Seq<char>, Seq<char>)>,
    r: Result<Option<RedirectedLink>, L10nError>,
)
    requires
        names_unique(s),
        attr_index(s, "href"@) is Some,
        !spec_ignore_link_check(h),
        spec_fix_outcome(s, original, h, loc, first, target, fell_back, false, page_url, locale, fm_offset, files, s_after, r),
    ensures
        attr_index(s_after, "href"@) is None,
        attr_get(s_after, "data-href"@) == attr_get(s, "href"@),
{
    reveal_strlit("aria-current");
    reveal_strlit("href");
    reveal_strlit("class");
    reveal_strlit("data-href");
    reveal_strlit("title");
    assert("aria-current"@[0] != "href"@[0] && "aria-current"@[0] != "data-href"@[0]);
    assert("class"@[0] != "href"@[0] && "class"@[0] != "data-href"@[0]);
    assert("data-href"@[0] != "href"@[0] && "title"@[0] != "href"@[0] && "title"@[0] != "data-href"@[0]);
    let s1 = spec_mark_current(s, first, page_url);
    if before_hash(first) == page_url {
        lemma_attr_set_other(s, "aria-current"@, "page"@, "href"@);
        lemma_attr_set_unique(s, "aria-current"@, "page"@);
    }
    let c1 = attr_set(s1, "class"@, with_class(class_of(s1), "page-not-created"@));
    lemma_attr_set_other(s1, "class"@, with_class(class_of(s1), "page-not-created"@), "href"@);
    lemma_attr_set_unique(s1, "class"@, with_class(class_of(s1), "page-not-created"@));
    let c2 = match attr_get(c1, "href"@) {
        Some(x) => attr_set(c1, "data-href"@, x),
        None => c1,
    };
    match attr_get(c1, "href"@) {
        Some(x) => {
            lemma_attr_set_other(c1, "data-href"@, x, "href"@);
            lemma_attr_set_unique(c1, "data-href"@, x);
            lemma_attr_get_set(c1, "data-href"@, x);
        },
        None => {},
    }
    let c3 = attr_remove(c2, "href"@);
    lemma_attr_remove_unique(c2, "href"@, "data-href"@);
    assert(c3 == spec_not_created(s1));
    match missing_title(files, locale) {
        Ok(tt) => {
            lemma_attr_set_other(c3, "title"@, tt, "href"@);
            lemma_attr_set_other(c3, "title"@, tt, "data-href"@);
            let c4 = attr_set(c3, "title"@, tt);
            lemma_attr_index(c4, "href"@);
            assert(attr_remove(c4, "href"@) == c4);
        },
        Err(_) => {},
    }
    lemma_attr_index(s, "href"@);
}

/// Only real redirects are reported: a reported link is reported as written and with a
/// target other than itself, and the link ends pointing at that target unless its page
/// is missing.
pub proof fn law_reported_links_are_redirects(
    s: Seq<(Seq<char>, Seq<char>)>,
    original: Seq<char>,
    h: Seq<char>,
    loc: Option<Locale>,
    first: Seq<char>,
    target: Seq<char>,
    fell_back: bool,
    target_exists: bool,
    page_url: Seq<char>,
    locale: Locale,
    fm_offset: usize,
    files: Seq<(String, Vec<(String, Vec<(String, String)>)>)>,
    s_after: Seq<(Seq<char>, Seq<char>)>,
    x: RedirectedLink,
)
    requires
        spec_fix_outcome(s, original, h, loc, first, target, fell_back, target_exists, page_url, locale, fm_offset, files, s_after, Ok(Some(x))),
    ensures
        x.url@ == original,
        x.redirect@ != original,
        x.redirect@ == link_target(loc, target),
        target_exists || spec_ignore_link_check(h) ==> attr_get(s_after, "href"@) == Some(x.redirect@),
{
    if target_exists || spec_ignore_link_check(h) {
        let t = link_target(loc, target);
        let s1 = spec_mark_current(s, first, page_url);
        let s2 = if fell_back { add_class(s1, "only-in-en-us"@) } else { s1 };
        lemma_attr_get_set(s2, "href"@, t);
    }
}

/// An issue with a link that a template wrote by hand.
#[derive(Debug, Clone)]
pub enum TemplLinkIssue {
    /// The link redirects to its own URL in another case.
    IllCased { url: String, redirect: String },
    /// The link redirects elsewhere.
    Redirected { url: String, redirect: String },
    /// Nothing is there.
    Broken { url: String },
}

/// What checking a hand-written link of a template gives: for an internal link not
/// yet tagged `data-templ-link`, an issue where its URL (without fragment) redirects
/// (ill-cased where it redirects to itself but for ASCII case), an issue where the page
/// it leads to is checked and does not exist (`exists` being whether it does), and the
/// tag; nothing for other links.
pub open spec fn spec_templ_link(
    s: Seq<(Seq<char>, Seq<char>)>,
    redirect: Option<Seq<char>>,
    exists: bool,
    s_after: Seq<(Seq<char>, Seq<char>)>,
    issues: Seq<TemplLinkIssue>,
) -> bool {
    match attr_get(s, "href"@) {
        Some(href) => if attr_index(s, "data-templ-link"@) is None && "/"@.is_prefix_of(href) {
            let no_hash = before_hash(href);
            let target = match redirect {
                Some(r) => r,
                None => no_hash,
            };
            let first = match redirect {
                Some(r) => if crate::text::ascii_lowercase(no_hash) == crate::text::ascii_lowercase(r) {
                    seq![0int]
                } else {
                    seq![1int]
                },
                None => seq![],
            };
            let broken = !spec_ignore_link_check(target) && !exists;
            &&& s_after == attr_set(s, "data-templ-link"@, ""@)
            &&& issues.len() == first.len() + if broken { 1int } else { 0int }
            &&& first.len() == 1 ==> match issues[0] {
                TemplLinkIssue::IllCased { url, redirect: x } => first[0] == 0 && url@ == href && redirect == Some(x@),
                TemplLinkIssue::Redirected { url, redirect: x } => first[0] == 1 && url@ == href && redirect == Some(x@),
                TemplLinkIssue::Broken { .. } => false,
            }
            &&& broken ==> (issues.last() matches TemplLinkIssue::Broken { url } && url@ == href)
        } else {
            s_after == s && issues.len() == 0
        },
        None => s_after == s && issues.len() == 0,
    }
}

/// Checks a link that a template wrote by hand (see `spec_templ_link`): `page_exists` tells
/// whether a page is there (with en-US fallback) and is asked about the link's target
/// only where the target is checked. The redirect is where its URL without fragment
/// leads through `redirects` and `pages`.
pub fn check_templ_link<F: Fn(&str) -> bool>(
    el: &mut LinkElement,
    redirects: &UrlMap,
    pages: &UrlMap,
    site: &SiteIndex,
    page_exists: F,
) -> (r: Vec<TemplLinkIssue>)
    requires
        forall|u: &str| call_requires(page_exists, (u,)),
    ensures
        ({
            let href = match attr_get(old(el)@, "href"@) {
                Some(h) => h,
                None => ""@,
            };
            let redirect = spec_resolve_redirect(before_hash(href), redirects@, pages@, site);
            let target = match redirect {
                Some(x) => x,
                None => before_hash(href),
            };
            let checked = attr_get(old(el)@, "href"@) is Some && attr_index(old(el)@, "data-templ-link"@) is None
                && "/"@.is_prefix_of(href) && !spec_ignore_link_check(target);
            &&& checked ==> exists|u: &str, e: bool|
                #![trigger call_ensures(page_exists, (u,), e)]
                u@ == target && call_ensures(page_exists, (u,), e) && spec_templ_link(old(el)@, redirect, e, final(el)@, r@)
            &&& !checked ==> spec_templ_link(old(el)@, redirect, false, final(el)@, r@)
        }),
{
    let mut issues: Vec<TemplLinkIssue> = Vec::new();
    let ghost hrefv = match attr_get(el@, "href"@) {
        Some(h) => h,
        None => ""@,
    };
    let ghost rs = spec_resolve_redirect(before_hash(hrefv), redirects@, pages@, site);
    let href = match el.get_attribute("href") {
        Some(h) => h,
        None => {
            assert(spec_templ_link(old(el)@, rs, false, el@, issues@));
            return issues;
        },
    };
    let hv = chars_of(href.as_str());
    if el.has_attribute("data-templ-link") || !starts_with(hv.as_slice(), chars_of("/").as_slice()) {
        assert(spec_templ_link(old(el)@, rs, false, el@, issues@));
        return issues;
    }
    let no_hash = before_hash_exec(&hv);
    let redirect = resolve_redirect(no_hash.as_str(), redirects, pages, site);
    match &redirect {
        Some(r) => {
            let a = crate::text::to_ascii_lowercase(no_hash.as_str());
            let b = crate::text::to_ascii_lowercase(r.as_str());
            if str_eq(a.as_str(), b.as_str()) {
                issues.push(TemplLinkIssue::IllCased { url: href.clone(), redirect: r.clone() });
            } else {
                issues.push(TemplLinkIssue::Redirected { url: href.clone(), redirect: r.clone() });
            }
        },
        None => {},
    }
    let target: String = match &redirect {
        Some(r) => r.clone(),
        None => no_hash.clone(),
    };
    let mut found = true;
    if !ignore_link_check(target.as_str()) {
        let t: &str = target.as_str();
        found = page_exists(t);
        assert(call_ensures(page_exists, (t,), found));
        if !found {
            issues.push(TemplLinkIssue::Broken { url: href.clone() });
        }
    }
    el.set_attribute("data-templ-link", "");
    proof {
        reveal_strlit("");
        assert(spec_templ_link(old(el)@, crate::sections::opt_view(redirect), found, el@, issues@));
    }
    issues
}

} // verus!
