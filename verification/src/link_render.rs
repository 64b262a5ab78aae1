//! Rendering links to pages: the `<a>` element of an internal link with its class,
//! title, code wrapping and status badges, links written through the page they point
//! to (falling back to a plain tagged link where there is none), and the list items of
//! sub-page listings. Texts go through `html_escape`.
use vstd::prelude::*;
use crate::apiref::opt_str;
use crate::data::{l10n_json_data, spec_l10n, L10nFiles};
use crate::locale::{spec_url_str, Locale};
use crate::page::PageType;
use crate::resolve::{locale_from_url, spec_locale_from_url, DocError};
use crate::page::PageRef;
use crate::sidebar::RenderPiece;
use crate::site::FeatureStatus;
use crate::text::{
    chars_of, ends_with, find_char, first_index, last_index, push_str, rfind_char, slice_of,
    split_once, starts_with, string_of, strip_suffix,
};
use crate::webext::l10n_error_is;

verus! {

/// What `html_escape::encode_safe` writes for `c`: `&`, `<`, `>`, `"`, `'` and `/` as
/// entities, any other character as it is.
pub open spec fn safe_char(c: char) -> Seq<char> {
    if c == '&' {
        "&amp;"@
    } else if c == '<' {
        "&lt;"@
    } else if c == '>' {
        "&gt;"@
    } else if c == '"' {
        "&quot;"@
    } else if c == '\'' {
        "&#x27;"@
    } else if c == '/' {
        "&#x2F;"@
    } else {
        seq![c]
    }
}

/// `html_escape::encode_safe` of `s`.
#[verifier::opaque]
pub open spec fn spec_encode_safe(s: Seq<char>) -> Seq<char>
    decreases s.len(),
{
    if s.len() == 0 {
        seq![]
    } else {
        safe_char(s[0]) + spec_encode_safe(s.drop_first())
    }
}

/// What `html_escape::encode_quoted_attribute` writes for `c`: `&`, `<`, `>`, `"` and
/// `'` as entities, any other character as it is.
pub open spec fn quoted_char(c: char) -> Seq<char> {
    if c == '&' {
        "&amp;"@
    } else if c == '<' {
        "&lt;"@
    } else if c == '>' {
        "&gt;"@
    } else if c == '"' {
        "&quot;"@
    } else if c == '\'' {
        "&#x27;"@
    } else {
        seq![c]
    }
}

/// `html_escape::encode_quoted_attribute` of `s`.
#[verifier::opaque]
pub open spec fn spec_encode_quoted(s: Seq<char>) -> Seq<char>
    decreases s.len(),
{
    if s.len() == 0 {
        seq![]
    } else {
        quoted_char(s[0]) + spec_encode_quoted(s.drop_first())
    }
}

/// What `html_escape::decode_html_entities` gives for `s`: its HTML entities decoded.
pub uninterp spec fn html_decoded(s: Seq<char>) -> Seq<char>;

/// Escapes `s` for HTML text and attributes (`html_escape::encode_safe`): `&`, `<`, `>`,
/// `"`, `'` and `/` become entities. The crate escapes these ASCII bytes one by one and
/// copies every other byte.
#[verifier::external_body]
fn encode_safe(s: &str) -> (r: String)
    ensures
        r@ == spec_encode_safe(s@),
{
    html_escape::encode_safe(s).into_owned()
}

/// Escapes `s` for a quoted attribute (`html_escape::encode_quoted_attribute`): `&`,
/// `<`, `>`, `"` and `'` become entities. The crate escapes these ASCII bytes one by one
/// and copies every other byte.
#[verifier::external_body]
fn encode_quoted_attribute(s: &str) -> (r: String)
    ensures
        r@ == spec_encode_quoted(s@),
{
    html_escape::encode_quoted_attribute(s).into_owned()
}

/// Decodes the HTML entities of `s` (`html_escape::decode_html_entities`). The contract
/// names the outcome; the entity table is the crate's.
#[verifier::external_body]
fn decode_html_entities(s: &str) -> (r: String)
    ensures
        r@ == html_decoded(s@),
{
    html_escape::decode_html_entities(s).into_owned()
}

/// A page as a link shows it.
#[derive(Debug, Clone)]
pub struct LinkTarget {
    pub url: String,
    pub title: String,
    pub short_title: Option<String>,
    pub locale: Locale,
    pub page_type: PageType,
    /// The statuses of its front matter.
    pub status: Vec<FeatureStatus>,
}

/// The HTML of the status badges, in the locale of the links being rendered.
#[derive(Debug, Clone)]
pub struct BadgeHtml {
    pub experimental: String,
    pub non_standard: String,
    pub deprecated: String,
}

/// How an internal link is shown: the statuses whose badges follow it, whether its text
/// is code, and whether it is marked as a link to the en-US page.
#[derive(Debug, Clone)]
pub struct LinkModifier {
    pub badges: Vec<FeatureStatus>,
    pub code: bool,
    pub only_en_us: bool,
}

/// What a link written through its page shows: its text in code, the page's status
/// badges, and whether a missing page is reported.
#[derive(Debug, Clone, Copy)]
pub struct LinkFlags {
    pub code: bool,
    pub with_badges: bool,
    pub report: bool,
}

/// The text of the page's title (its short title where it has one).
pub open spec fn title_of(p: LinkTarget) -> Seq<char> {
    match p.short_title {
        Some(s) => s@,
        None => p.title@,
    }
}

/// The badges of `statuses`: experimental, then non-standard, then deprecated, each
/// where its status is among them.
pub open spec fn status_badges(statuses: Seq<FeatureStatus>, b: BadgeHtml) -> Seq<char> {
    (if statuses.contains(FeatureStatus::Experimental) {
        b.experimental@
    } else {
        seq![]
    }) + (if statuses.contains(FeatureStatus::NonStandard) {
        b.non_standard@
    } else {
        seq![]
    }) + (if statuses.contains(FeatureStatus::Deprecated) {
        b.deprecated@
    } else {
        seq![]
    })
}

/// `s` where `b`, else nothing.
pub open spec fn when(b: bool, s: Seq<char>) -> Seq<char> {
    if b {
        s
    } else {
        seq![]
    }
}

/// The HTML of an internal link to `url` (`anchor` being the anchor id where there is
/// one): its title attribute escaped, the en-US class where `only_en_us`, the
/// `data-templ-link` mark where `checked`, its content in `<code>` where `code`, and
/// the badges of `statuses`.
pub open spec fn internal_link_html(
    url: Seq<char>,
    anchor: Option<Seq<char>>,
    content: Seq<char>,
    title: Option<Seq<char>>,
    statuses: Seq<FeatureStatus>,
    code: bool,
    only_en_us: bool,
    checked: bool,
    b: BadgeHtml,
) -> Seq<char> {
    link_head(url, anchor, title, only_en_us, checked) + link_body(content, statuses, code, b)
}

/// The opening tag of an internal link (see `internal_link_html`).
pub open spec fn link_head(url: Seq<char>, anchor: Option<Seq<char>>, title: Option<Seq<char>>, only_en_us: bool, checked: bool) -> Seq<char> {
    "<a href=\""@ + url + match anchor {
        Some(a) => "#"@ + a,
        None => seq![],
    } + "\""@ + match title {
        Some(t) => " title=\""@ + spec_encode_quoted(t) + "\""@,
        None => seq![],
    } + when(only_en_us, " class=\"only-in-en-us\""@) + when(checked, " data-templ-link"@) + ">"@
}

/// The content, badges and closing tag of an internal link (see `internal_link_html`).
pub open spec fn link_body(content: Seq<char>, statuses: Seq<FeatureStatus>, code: bool, b: BadgeHtml) -> Seq<char> {
    when(code, "<code>"@) + content + when(code, "</code>"@) + status_badges(statuses, b) + "</a>"@
}

/// `after` is `before` followed by the internal link of `internal_link_html`, where the
/// anchor, if any, is what `anchorize` gives for it.
pub open spec fn rendered_internal<A: Fn(&str) -> String>(
    anchorize: A,
    before: Seq<char>,
    after: Seq<char>,
    url: Seq<char>,
    anchor: Option<Seq<char>>,
    content: Seq<char>,
    title: Option<Seq<char>>,
    statuses: Seq<FeatureStatus>,
    code: bool,
    only_en_us: bool,
    checked: bool,
    b: BadgeHtml,
) -> bool {
    match anchor {
        None => after == before + internal_link_html(url, None, content, title, statuses, code, only_en_us, checked, b),
        Some(a) => exists|q: &str, x: String|
            #![trigger call_ensures(anchorize, (q,), x)]
            {
                &&& q@ == a
                &&& call_ensures(anchorize, (q,), x)
                &&& after == before + internal_link_html(url, Some(x@), content, title, statuses, code, only_en_us, checked, b)
            },
    }
}

fn contains_status(v: &Vec<FeatureStatus>, s: FeatureStatus) -> (r: bool)
    ensures
        r == v@.contains(s),
{
    let n = v.len();
    let mut i: usize = 0;
    while i < n
        invariant
            n == v@.len(),
            i <= n,
            forall|j: int| 0 <= j < i ==> v@[j] != s,
        decreases n - i,
    {
        if v[i] == s {
            assert(v@[i as int] == s);
            return true;
        }
        i += 1;
    }
    false
}

/// Writes an internal link to `out` (see `internal_link_html`); `anchorize` turns the
/// anchor into the id it links to, and `badges` are the badges in the links' locale.
pub fn render_internal_link<A: Fn(&str) -> String>(
    out: &mut String,
    url: &str,
    anchor: Option<&str>,
    content: &str,
    title: Option<&str>,
    modifier: &LinkModifier,
    checked: bool,
    badges: &BadgeHtml,
    anchorize: A,
) -> (r: Result<(), DocError>)
    requires
        forall|s: &str| call_requires(anchorize, (s,)),
    ensures
        r is Ok,
        rendered_internal(
            anchorize,
            old(out)@,
            final(out)@,
            url@,
            opt_str(anchor),
            content@,
            opt_str(title),
            modifier.badges@,
            modifier.code,
            modifier.only_en_us,
            checked,
            *badges,
        ),
{
    let ghost start = out@;
    let ghost mut anchor_id: Option<Seq<char>> = None;
    match anchor {
        Some(a) => {
            let x = anchorize(a);
            proof {
                anchor_id = Some(x@);
            }
            write_link_head(out, url, Some(x.as_str()), title, modifier.only_en_us, checked);
            assert(call_ensures(anchorize, (a,), x));
        },
        None => {
            write_link_head(out, url, None, title, modifier.only_en_us, checked);
        },
    }
    let ghost mid = out@;
    write_link_body(out, content, modifier, badges);
    assert(out@ =~= start + internal_link_html(
        url@,
        anchor_id,
        content@,
        opt_str(title),
        modifier.badges@,
        modifier.code,
        modifier.only_en_us,
        checked,
        *badges,
    ));
    Ok(())
}

fn push_when(out: &mut String, b: bool, t: &str)
    ensures
        final(out)@ == old(out)@ + when(b, t@),
{
    if b {
        push_str(out, t);
    } else {
        assert(out@ =~= out@ + when(b, t@));
    }
}

/// Appends `pre`, `t` and `post` where there is a `t`.
fn push_opt(out: &mut String, pre: &str, t: Option<&str>, post: &str)
    ensures
        final(out)@ == old(out)@ + match opt_str(t) {
            Some(x) => pre@ + x + post@,
            None => seq![],
        },
{
    match t {
        Some(x) => {
            let ghost s0 = out@;
            push_str(out, pre);
            push_str(out, x);
            push_str(out, post);
            assert(out@ =~= s0 + (pre@ + x@ + post@));
        },
        None => {
            assert(out@ =~= out@ + Seq::<char>::empty());
        },
    }
}

#[verifier::spinoff_prover]
#[verifier::rlimit(30)]
fn write_link_head(out: &mut String, url: &str, anchor_id: Option<&str>, title: Option<&str>, only_en_us: bool, checked: bool)
    ensures
        final(out)@ == old(out)@ + link_head(url@, opt_str(anchor_id), opt_str(title), only_en_us, checked),
{
    let ghost start = out@;
    let ghost pa = match opt_str(anchor_id) {
        Some(a) => "#"@ + a,
        None => seq![],
    };
    let ghost pt = match opt_str(title) {
        Some(t) => " title=\""@ + spec_encode_quoted(t) + "\""@,
        None => seq![],
    };
    push_str(out, "<a href=\"");
    push_str(out, url);
    let ghost s1 = out@;
    match anchor_id {
        Some(a) => {
            push_str(out, "#");
            push_str(out, a);
        },
        None => {},
    }
    assert(out@ =~= s1 + pa);
    push_str(out, "\"");
    let ghost s2 = out@;
    match title {
        Some(t) => {
            push_str(out, " title=\"");
            push_str(out, encode_quoted_attribute(t).as_str());
            push_str(out, "\"");
        },
        None => {},
    }
    assert(out@ =~= s2 + pt);
    let ghost s3 = out@;
    push_when(out, only_en_us, " class=\"only-in-en-us\"");
    push_when(out, checked, " data-templ-link");
    push_str(out, ">");
    let ghost head = "<a href=\""@ + url@ + pa + "\""@ + pt + when(only_en_us, " class=\"only-in-en-us\""@) + when(checked, " data-templ-link"@) + ">"@;
    assert(head == link_head(url@, opt_str(anchor_id), opt_str(title), only_en_us, checked));
    assert(s2 =~= start + ("<a href=\""@ + url@ + pa + "\""@));
    assert(s3 =~= start + ("<a href=\""@ + url@ + pa + "\""@ + pt));
    assert(out@ =~= start + head);
}

fn write_link_body(out: &mut String, content: &str, modifier: &LinkModifier, badges: &BadgeHtml)
    ensures
        final(out)@ == old(out)@ + link_body(content@, modifier.badges@, modifier.code, *badges),
{
    let ghost start = out@;
    if modifier.code {
        push_str(out, "<code>");
    }
    push_str(out, content);
    if modifier.code {
        push_str(out, "</code>");
    }
    let ghost s1 = out@;
    if contains_status(&modifier.badges, FeatureStatus::Experimental) {
        push_str(out, badges.experimental.as_str());
    }
    if contains_status(&modifier.badges, FeatureStatus::NonStandard) {
        push_str(out, badges.non_standard.as_str());
    }
    if contains_status(&modifier.badges, FeatureStatus::Deprecated) {
        push_str(out, badges.deprecated.as_str());
    }
    assert(out@ =~= s1 + status_badges(modifier.badges@, *badges));
    push_str(out, "</a>");
    assert(out@ =~= start + link_body(content@, modifier.badges@, modifier.code, *badges));
}

/// The link text of a page: its title, entities decoded and then escaped.
pub open spec fn page_content(p: LinkTarget) -> Seq<char> {
    spec_encode_safe(html_decoded(title_of(p)))
}

fn page_content_exec(p: &LinkTarget) -> (r: String)
    ensures
        r@ == page_content(*p),
{
    let t = match &p.short_title {
        Some(s) => s.as_str(),
        None => p.title.as_str(),
    };
    let decoded = decode_html_entities(t);
    encode_safe(decoded.as_str())
}

/// The anchor id for a link that has no anchor; it is never asked for.
fn no_anchor(s: &str) -> (r: String) {
    String::new()
}

/// Writes a checked link to `page` (its URL, its title as `page_content` gives it),
/// shown as `modifier` says.
pub fn render_link_from_page(out: &mut String, page: &LinkTarget, modifier: &LinkModifier, badges: &BadgeHtml) -> (r: Result<(), DocError>)
    ensures
        r is Ok,
        final(out)@ == old(out)@ + internal_link_html(
            page.url@,
            None,
            page_content(*page),
            None,
            modifier.badges@,
            modifier.code,
            modifier.only_en_us,
            true,
            *badges,
        ),
{
    let content = page_content_exec(page);
    render_internal_link(out, page.url.as_str(), None, content.as_str(), None, modifier, true, badges, no_anchor)
}


/// The URL that link `link` stands for in `locale`: a path without a locale is taken
/// below `/<locale>/docs`, anything else as it is.
pub open spec fn via_page_url(link: Seq<char>, locale: Locale) -> Seq<char> {
    if link.len() > 0 && link[0] == '/' && spec_locale_from_url(link) is None {
        "/"@ + spec_url_str(locale) + "/docs/"@ + link.drop_first()
    } else {
        link
    }
}

/// A URL without its `#` anchor.
pub open spec fn url_part(u: Seq<char>) -> Seq<char> {
    match split_once(u, '#') {
        Some((a, _)) => a,
        None => u,
    }
}

/// The anchor of a URL, after its first `#` (empty where there is none).
pub open spec fn anchor_part(u: Seq<char>) -> Seq<char> {
    match split_once(u, '#') {
        Some((_, b)) => b,
        None => seq![],
    }
}

/// The last segment of a path, a final `/` dropped first.
pub open spec fn last_segment(u: Seq<char>) -> Seq<char> {
    let c = match strip_suffix(u, "/"@) {
        Some(x) => x,
        None => u,
    };
    match last_index(c, '/') {
        Some(i) => c.skip(i + 1),
        None => c,
    }
}

/// The text of a link to a page that is not there: the given content, entities decoded
/// and escaped; else the last segment of a path; else the escaped URL.
pub open spec fn fallback_content(url: Seq<char>, content: Option<Seq<char>>) -> Seq<char> {
    match content {
        Some(c) => spec_encode_safe(html_decoded(c)),
        None => if url.len() > 0 && url[0] == '/' {
            last_segment(url)
        } else {
            spec_encode_safe(url)
        },
    }
}

/// A tagged link to `url` where no page could be found for it (see `fallback_content`).
pub open spec fn fallback_html(url: Seq<char>, content: Option<Seq<char>>, title: Option<Seq<char>>, code: bool) -> Seq<char> {
    "<a data-templ-link href=\""@ + url + match title {
        Some(t) => "\" title=\""@ + spec_encode_quoted(t),
        None => seq![],
    } + "\">"@ + when(code, "<code>"@) + fallback_content(url, content) + when(code, "</code>"@) + "</a>"@
}

/// What writing link `link` through its page appends (`before` to `after`): for a path,
/// `get_page` is asked for the page at its URL (see `via_page_url`, `url_part`); where
/// there is one, a checked internal link to the page's URL with the link's anchor, the
/// given content or else the page's (`page_content`), the page's badges where they are
/// wanted, marked as en-US where the page is en-US and the locale is not. Where there
/// is none, or the link is no path, the fallback link of `fallback_html`.
pub open spec fn spec_link_via_page<P: Fn(&str, bool) -> Option<LinkTarget>, A: Fn(&str) -> String>(
    get_page: P,
    anchorize: A,
    before: Seq<char>,
    after: Seq<char>,
    link: Seq<char>,
    locale: Locale,
    content: Option<Seq<char>>,
    title: Option<Seq<char>>,
    flags: LinkFlags,
    b: BadgeHtml,
) -> bool {
    let u = via_page_url(link, locale);
    if link.len() > 0 && link[0] == '/' {
        exists|q: &str, res: Option<LinkTarget>|
            #![trigger call_ensures(get_page, (q, flags.report), res)]
            {
                &&& q@ == url_part(u)
                &&& call_ensures(get_page, (q, flags.report), res)
                &&& match res {
                    Some(page) => rendered_internal(
                        anchorize,
                        before,
                        after,
                        page.url@,
                        if anchor_part(u).len() == 0 {
                            None
                        } else {
                            Some(anchor_part(u))
                        },
                        match content {
                            Some(c) => c,
                            None => page_content(page),
                        },
                        title,
                        if flags.with_badges {
                            page.status@
                        } else {
                            seq![]
                        },
                        flags.code,
                        page.locale == Locale::EnUs && locale != Locale::EnUs,
                        true,
                        b,
                    ),
                    None => after == before + fallback_html(u, content, title, flags.code),
                }
            }
    } else {
        after == before + fallback_html(u, content, title, flags.code)
    }
}

fn copy_statuses(v: &Vec<FeatureStatus>) -> (r: Vec<FeatureStatus>)
    ensures
        r@ == v@,
{
    let mut r: Vec<FeatureStatus> = Vec::new();
    let n = v.len();
    let mut i: usize = 0;
    while i < n
        invariant
            n == v@.len(),
            i <= n,
            r@ == v@.take(i as int),
        decreases n - i,
    {
        r.push(v[i]);
        assert(r@ =~= v@.take(i + 1));
        i += 1;
    }
    assert(v@.take(n as int) =~= v@);
    r
}

fn via_page_url_exec(link: &str, locale: Locale) -> (r: String)
    ensures
        r@ == via_page_url(link@, locale),
{
    let v = chars_of(link);
    if v.len() > 0 && v[0] == '/' && locale_from_url(link).is_none() {
        let mut u = String::new();
        push_str(&mut u, "/");
        push_str(&mut u, locale.as_url_str());
        push_str(&mut u, "/docs/");
        let rest = slice_of(v.as_slice(), 1, v.len());
        assert(rest@ =~= link@.drop_first());
        push_str(&mut u, string_of(rest.as_slice()).as_str());
        u
    } else {
        string_of(v.as_slice())
    }
}

fn split_anchor(u: &str) -> (r: (String, String))
    ensures
        r.0@ == url_part(u@),
        r.1@ == anchor_part(u@),
{
    let v = chars_of(u);
    match find_char(v.as_slice(), '#') {
        Some(i) => {
            assert(i < v.len());
            let a = slice_of(v.as_slice(), 0, i);
            let b = slice_of(v.as_slice(), i + 1, v.len());
            assert(a@ =~= u@.take(i as int));
            assert(b@ =~= u@.skip(i + 1));
            (string_of(a.as_slice()), string_of(b.as_slice()))
        },
        None => (string_of(v.as_slice()), String::new()),
    }
}

fn last_segment_exec(u: &str) -> (r: String)
    ensures
        r@ == last_segment(u@),
{
    proof {
        reveal_strlit("/");
    }
    let v = chars_of(u);
    let slash = chars_of("/");
    let c = if ends_with(v.as_slice(), slash.as_slice()) {
        let c = slice_of(v.as_slice(), 0, v.len() - 1);
        assert(c@ =~= u@.take(u@.len() - 1));
        c
    } else {
        v
    };
    match rfind_char(c.as_slice(), '/') {
        Some(i) => {
            assert(i < c.len());
            let s = slice_of(c.as_slice(), i + 1, c.len());
            assert(s@ =~= c@.skip(i + 1));
            string_of(s.as_slice())
        },
        None => string_of(c.as_slice()),
    }
}

fn write_fallback(out: &mut String, url: &str, content: Option<&str>, title: Option<&str>, code: bool)
    ensures
        final(out)@ == old(out)@ + fallback_html(url@, opt_str(content), opt_str(title), code),
{
    let ghost start = out@;
    let text = match content {
        Some(c) => {
            let d = decode_html_entities(c);
            encode_safe(d.as_str())
        },
        None => {
            let v = chars_of(url);
            if v.len() > 0 && v[0] == '/' {
                last_segment_exec(url)
            } else {
                encode_safe(url)
            }
        },
    };
    assert(text@ == fallback_content(url@, opt_str(content)));
    let et: Option<String> = match title {
        Some(t) => Some(encode_quoted_attribute(t)),
        None => None,
    };
    let ets: Option<&str> = match &et {
        Some(e) => Some(e.as_str()),
        None => None,
    };
    push_str(out, "<a data-templ-link href=\"");
    push_str(out, url);
    push_opt(out, "\" title=\"", ets, "");
    push_str(out, "\">");
    push_when(out, code, "<code>");
    push_str(out, text.as_str());
    push_when(out, code, "</code>");
    push_str(out, "</a>");
    proof {
        reveal_strlit("");
    }
    assert(out@ =~= start + fallback_html(url@, opt_str(content), opt_str(title), code));
}

/// Writes link `link` through the page it points to (see `spec_link_via_page`):
/// `get_page` finds the page at a URL (reporting a missing one where its flag says
/// so), `anchorize` turns an anchor into the id it links to, and `badges` are the
/// badges in `locale`.
pub fn render_link_via_page<P: Fn(&str, bool) -> Option<LinkTarget>, A: Fn(&str) -> String>(
    out: &mut String,
    link: &str,
    locale: Locale,
    content: Option<&str>,
    title: Option<&str>,
    flags: LinkFlags,
    badges: &BadgeHtml,
    get_page: P,
    anchorize: A,
) -> (r: Result<(), DocError>)
    requires
        forall|s: &str, b: bool| call_requires(get_page, (s, b)),
        forall|s: &str| call_requires(anchorize, (s,)),
    ensures
        r is Ok,
        spec_link_via_page(get_page, anchorize, old(out)@, final(out)@, link@, locale, opt_str(content), opt_str(title), flags, *badges),
{
    let url = via_page_url_exec(link, locale);
    let lv = chars_of(link);
    if lv.len() > 0 && lv[0] == '/' {
        let (path, anchor) = split_anchor(url.as_str());
        let q = path.as_str();
        let res = get_page(q, flags.report);
        let ghost gres = res;
        match res {
            Some(page) => {
                let text = match content {
                    Some(c) => string_of(chars_of(c).as_slice()),
                    None => page_content_exec(&page),
                };
                let statuses = if flags.with_badges {
                    copy_statuses(&page.status)
                } else {
                    Vec::new()
                };
                let modifier = LinkModifier {
                    badges: statuses,
                    code: flags.code,
                    only_en_us: page.locale == Locale::EnUs && locale != Locale::EnUs,
                };
                let a = if anchor.as_str().is_empty() { None } else { Some(anchor.as_str()) };
                proof {
                    if anchor@.len() > 0 {
                        assert(anchor@ =~= anchor_part(url@));
                    }
                }
                let r = render_internal_link(out, page.url.as_str(), a, text.as_str(), title, &modifier, true, badges, anchorize);
                assert(call_ensures(get_page, (q, flags.report), gres));
                return r;
            },
            None => {
                write_fallback(out, url.as_str(), content, title, flags.code);
                assert(call_ensures(get_page, (q, flags.report), gres));
                return Ok(());
            },
        }
    }
    write_fallback(out, url.as_str(), content, title, flags.code);
    Ok(())
}


/// `ans` is what the page `page` is in `locale`: the page itself in en-US, else what
/// `locale_page` answers for its URL.
pub open spec fn locale_answer<F: Fn(&str, Locale) -> Result<LinkTarget, DocError>>(
    locale_page: F,
    page: LinkTarget,
    locale: Locale,
    ans: Result<LinkTarget, DocError>,
) -> bool {
    if locale == Locale::EnUs {
        ans == Ok::<LinkTarget, DocError>(page)
    } else {
        exists|q: &str| #![trigger call_ensures(locale_page, (q, locale), ans)] q@ == page.url@ && call_ensures(locale_page, (q, locale), ans)
    }
}

/// The list item of `page`, `lp` being the page in `locale`: a checked link to `lp`
/// titled by its escaped title, with `page`'s badges, marked as en-US where `lp` is in
/// another locale than `locale`; closed where `closed`.
pub open spec fn li_html(page: LinkTarget, lp: LinkTarget, locale: Locale, code: bool, closed: bool, b: BadgeHtml) -> Seq<char> {
    "<li>"@ + internal_link_html(
        lp.url@,
        None,
        spec_encode_safe(title_of(lp)),
        None,
        page.status@,
        code,
        lp.locale != locale,
        true,
        b,
    ) + when(closed, "</li>"@)
}

/// Writes the list item of `page` in `locale` (see `li_html`); `locale_page` reads the
/// page in another locale than en-US, and its error is returned with nothing written.
pub fn write_li_with_badges<F: Fn(&str, Locale) -> Result<LinkTarget, DocError>>(
    out: &mut String,
    page: &LinkTarget,
    locale: Locale,
    code: bool,
    closed: bool,
    badges: &BadgeHtml,
    locale_page: &F,
) -> (r: Result<(), DocError>)
    requires
        forall|s: &str, l: Locale| call_requires(*locale_page, (s, l)),
    ensures
        exists|ans: Result<LinkTarget, DocError>|
            {
                &&& locale_answer(*locale_page, *page, locale, ans)
                &&& match ans {
                    Ok(lp) => r is Ok && final(out)@ == old(out)@ + li_html(*page, lp, locale, code, closed, *badges),
                    Err(e) => r == Err::<(), DocError>(e) && final(out)@ == old(out)@,
                }
            },
{
    if locale == Locale::EnUs {
        write_li_for(out, page, page, locale, code, closed, badges);
        assert(locale_answer(*locale_page, *page, locale, Ok::<LinkTarget, DocError>(*page)));
        return Ok(());
    }
    let q = page.url.as_str();
    let res = locale_page(q, locale);
    let ghost gres = res;
    assert(call_ensures(*locale_page, (q, locale), gres));
    assert(locale_answer(*locale_page, *page, locale, gres));
    match res {
        Ok(lp) => {
            write_li_for(out, page, &lp, locale, code, closed, badges);
            Ok(())
        },
        Err(e) => Err(e),
    }
}

fn write_li_for(out: &mut String, page: &LinkTarget, lp: &LinkTarget, locale: Locale, code: bool, closed: bool, badges: &BadgeHtml)
    ensures
        final(out)@ == old(out)@ + li_html(*page, *lp, locale, code, closed, *badges),
{
    let ghost start = out@;
    let t = match &lp.short_title {
        Some(s) => s.as_str(),
        None => lp.title.as_str(),
    };
    let content = encode_safe(t);
    let modifier = LinkModifier { badges: copy_statuses(&page.status), code, only_en_us: lp.locale != locale };
    push_str(out, "<li>");
    let _ = render_internal_link(out, lp.url.as_str(), None, content.as_str(), None, &modifier, true, badges, no_anchor);
    push_when(out, closed, "</li>");
    assert(out@ =~= start + li_html(*page, *lp, locale, code, closed, *badges));
}

/// The list item of the parent page `page` in a listing: a checked link to it with the
/// label `label`, its badges, marked as en-US where it is in another locale than
/// `locale`.
pub open spec fn parent_li_html(page: LinkTarget, label: Seq<char>, locale: Locale, b: BadgeHtml) -> Seq<char> {
    "<li>"@ + internal_link_html(page.url@, None, label, None, page.status@, false, page.locale != locale, true, b) + "</li>"@
}

/// Writes the list item of the parent page `page` (see `parent_li_html`), its label the
/// translation of the template label `overview` in `files`; the translation error is
/// returned with nothing written.
pub fn write_parent_li(out: &mut String, page: &LinkTarget, locale: Locale, files: &L10nFiles, badges: &BadgeHtml) -> (r: Result<(), DocError>)
    ensures
        match spec_l10n(files@, "Template"@, "overview"@, locale) {
            Ok(label) => r is Ok && final(out)@ == old(out)@ + parent_li_html(*page, label, locale, *badges),
            Err(x) => r matches Err(DocError::L10nError(e)) && l10n_error_is(e, x) && final(out)@ == old(out)@,
        },
{
    let label = match l10n_json_data("Template", "overview", locale, files) {
        Ok(l) => l,
        Err(e) => return Err(DocError::L10nError(e)),
    };
    let ghost start = out@;
    let modifier = LinkModifier { badges: copy_statuses(&page.status), code: false, only_en_us: page.locale != locale };
    push_str(out, "<li>");
    let _ = render_internal_link(out, page.url.as_str(), None, label.as_str(), None, &modifier, true, badges, no_anchor);
    push_str(out, "</li>");
    assert(out@ =~= start + parent_li_html(*page, label@, locale, *badges));
    Ok(())
}

/// The pages of `pages` whose type is among `types` (all of them where there are none).
pub open spec fn of_types(pages: Seq<LinkTarget>, types: Seq<PageType>) -> Seq<LinkTarget> {
    pages.filter(|p: LinkTarget| types.len() == 0 || types.contains(p.page_type))
}

/// The closed list items of `pages`, `lps` being each page in the locale.
pub open spec fn lis_html(pages: Seq<LinkTarget>, lps: Seq<LinkTarget>, locale: Locale, code: bool, b: BadgeHtml) -> Seq<char>
    decreases pages.len(),
{
    if pages.len() == 0 || lps.len() != pages.len() {
        seq![]
    } else {
        lis_html(pages.drop_last(), lps.drop_last(), locale, code, b) + li_html(pages.last(), lps.last(), locale, code, true, b)
    }
}

/// `after` is `before` followed by the closed list items of `pages` in order, each page
/// read in the locale as `locale_page` answers; where an answer is an error, the items
/// before it are written and that error is `r`.
pub open spec fn lis_written<F: Fn(&str, Locale) -> Result<LinkTarget, DocError>>(
    locale_page: F,
    pages: Seq<LinkTarget>,
    locale: Locale,
    code: bool,
    b: BadgeHtml,
    before: Seq<char>,
    after: Seq<char>,
    r: Result<(), DocError>,
) -> bool {
    exists|lps: Seq<LinkTarget>|
        #![trigger lis_html(pages.take(lps.len() as int), lps, locale, code, b)]
        {
            &&& lps.len() <= pages.len()
            &&& forall|j: int| 0 <= j < lps.len() ==> locale_answer(locale_page, #[trigger] pages[j], locale, Ok::<LinkTarget, DocError>(lps[j]))
            &&& after == before + lis_html(pages.take(lps.len() as int), lps, locale, code, b)
            &&& match r {
                Ok(_) => lps.len() == pages.len(),
                Err(e) => lps.len() < pages.len() && locale_answer(locale_page, pages[lps.len() as int], locale, Err::<LinkTarget, DocError>(e)),
            }
        }
}

fn type_matches(types: &[PageType], t: PageType) -> (r: bool)
    ensures
        r == (types@.len() == 0 || types@.contains(t)),
{
    if types.len() == 0 {
        return true;
    }
    let n = types.len();
    let mut i: usize = 0;
    while i < n
        invariant
            n == types@.len(),
            i <= n,
            forall|j: int| 0 <= j < i ==> types@[j] != t,
        decreases n - i,
    {
        if types[i] == t {
            assert(types@[i as int] == t);
            return true;
        }
        i += 1;
    }
    false
}

/// The pages in listing order: as given, or last first.
pub open spec fn in_order(pages: Seq<LinkTarget>, reverse: bool) -> Seq<LinkTarget> {
    if reverse {
        pages.reverse()
    } else {
        pages
    }
}

/// Writes the closed list items of `pages` (last first where `reverse`) whose type is
/// among `page_types`.
fn write_lis<F: Fn(&str, Locale) -> Result<LinkTarget, DocError>>(
    out: &mut String,
    pages: &Vec<LinkTarget>,
    reverse: bool,
    page_types: &[PageType],
    locale: Locale,
    code: bool,
    badges: &BadgeHtml,
    locale_page: &F,
) -> (r: Result<(), DocError>)
    requires
        forall|s: &str, l: Locale| call_requires(*locale_page, (s, l)),
    ensures
        lis_written(*locale_page, of_types(in_order(pages@, reverse), page_types@), locale, code, *badges, old(out)@, final(out)@, r),
{
    let ghost start = out@;
    let ghost all = in_order(pages@, reverse);
    let ghost keep = |p: LinkTarget| page_types@.len() == 0 || page_types@.contains(p.page_type);
    assert(keep =~= (|p: LinkTarget| page_types@.len() == 0 || page_types@.contains(p.page_type)));
    let ghost mut lps: Seq<LinkTarget> = seq![];
    let n = pages.len();
    let mut i: usize = 0;
    assert(all.take(0) =~= Seq::<LinkTarget>::empty());
    proof {
        reveal(Seq::filter);
        assert(all.take(0).filter(keep) =~= Seq::<LinkTarget>::empty());
        assert(out@ =~= start + lis_html(Seq::<LinkTarget>::empty(), lps, locale, code, *badges));
    }
    while i < n
        invariant
            start == old(out)@,
            n == pages@.len(),
            all == in_order(pages@, reverse),
            all.len() == n,
            keep == (|p: LinkTarget| page_types@.len() == 0 || page_types@.contains(p.page_type)),
            i <= n,
            lps.len() == all.take(i as int).filter(keep).len(),
            forall|j: int| 0 <= j < lps.len() ==> locale_answer(*locale_page, #[trigger] all.take(i as int).filter(keep)[j], locale, Ok::<LinkTarget, DocError>(lps[j])),
            out@ == start + lis_html(all.take(i as int).filter(keep), lps, locale, code, *badges),
            forall|s: &str, l: Locale| call_requires(*locale_page, (s, l)),
        decreases n - i,
    {
        let k = if reverse { n - 1 - i } else { i };
        assert(pages@[k as int] == all[i as int]);
        let page = &pages[k];
        if type_matches(page_types, page.page_type) {
            let ghost before = out@;
            let res = write_li_with_badges(out, page, locale, code, true, badges, locale_page);
            let ghost ans = choose|ans: Result<LinkTarget, DocError>|
                {
                    &&& locale_answer(*locale_page, all[i as int], locale, ans)
                    &&& match ans {
                        Ok(lp) => res is Ok && out@ == before + li_html(all[i as int], lp, locale, code, true, *badges),
                        Err(e) => res == Err::<(), DocError>(e) && out@ == before,
                    }
                };
            match res {
                Ok(_) => {
                    proof {
                        let lp = ans->Ok_0;
                        lemma_lis_push(*locale_page, all, keep, i as int, lps, lp, locale, code, *badges, start, before, out@);
                        lps = lps.push(lp);
                    }
                },
                Err(e) => {
                    proof {
                        assert(ans == Err::<LinkTarget, DocError>(e));
                        lemma_lis_err(*locale_page, all, keep, i as int, lps, e, locale, code, *badges, start, out@);
                        assert(all.filter(keep) == of_types(in_order(pages@, reverse), page_types@));
                        assert(lis_written(*locale_page, of_types(in_order(pages@, reverse), page_types@), locale, code, *badges, start, out@, Err::<(), DocError>(e)));
                    }
                    return Err(e);
                },
            }
        } else {
            proof {
                lemma_lis_skip(all, keep, i as int);
            }
        }
        i += 1;
    }
    proof {
        assert(all.take(n as int) =~= all);
        let whole = all.filter(keep);
        assert(whole.take(lps.len() as int) =~= whole);
        assert(out@ == start + lis_html(whole.take(lps.len() as int), lps, locale, code, *badges));
        assert(whole == of_types(in_order(pages@, reverse), page_types@));
    }
    Ok(())
}

proof fn lemma_take_filter_step(all: Seq<LinkTarget>, keep: spec_fn(LinkTarget) -> bool, i: int)
    requires
        0 <= i < all.len(),
    ensures
        all.take(i + 1).filter(keep) == if keep(all[i]) {
            all.take(i).filter(keep).push(all[i])
        } else {
            all.take(i).filter(keep)
        },
{
    reveal(Seq::filter);
    assert(all.take(i + 1).drop_last() =~= all.take(i));
    assert(all.take(i + 1).last() == all[i]);
}

proof fn lemma_lis_skip(all: Seq<LinkTarget>, keep: spec_fn(LinkTarget) -> bool, i: int)
    requires
        0 <= i < all.len(),
        !keep(all[i]),
    ensures
        all.take(i + 1).filter(keep) == all.take(i).filter(keep),
{
    lemma_take_filter_step(all, keep, i);
}

proof fn lemma_lis_push<F: Fn(&str, Locale) -> Result<LinkTarget, DocError>>(
    f: F,
    all: Seq<LinkTarget>,
    keep: spec_fn(LinkTarget) -> bool,
    i: int,
    lps: Seq<LinkTarget>,
    lp: LinkTarget,
    locale: Locale,
    code: bool,
    b: BadgeHtml,
    start: Seq<char>,
    before: Seq<char>,
    after: Seq<char>,
)
    requires
        0 <= i < all.len(),
        keep(all[i]),
        lps.len() == all.take(i).filter(keep).len(),
        forall|j: int| 0 <= j < lps.len() ==> locale_answer(f, #[trigger] all.take(i).filter(keep)[j], locale, Ok::<LinkTarget, DocError>(lps[j])),
        before == start + lis_html(all.take(i).filter(keep), lps, locale, code, b),
        locale_answer(f, all[i], locale, Ok::<LinkTarget, DocError>(lp)),
        after == before + li_html(all[i], lp, locale, code, true, b),
    ensures
        lps.push(lp).len() == all.take(i + 1).filter(keep).len(),
        forall|j: int| 0 <= j < lps.push(lp).len() ==> locale_answer(f, #[trigger] all.take(i + 1).filter(keep)[j], locale, Ok::<LinkTarget, DocError>(lps.push(lp)[j])),
        after == start + lis_html(all.take(i + 1).filter(keep), lps.push(lp), locale, code, b),
{
    lemma_take_filter_step(all, keep, i);
    let done = all.take(i).filter(keep);
    let now = all.take(i + 1).filter(keep);
    let nl = lps.push(lp);
    assert(nl.drop_last() =~= lps);
    assert(now.drop_last() =~= done);
    assert forall|j: int| 0 <= j < nl.len() implies locale_answer(f, #[trigger] now[j], locale, Ok::<LinkTarget, DocError>(nl[j])) by {
        if j < lps.len() {
            assert(now[j] == done[j]);
        }
    }
}

proof fn lemma_lis_err<F: Fn(&str, Locale) -> Result<LinkTarget, DocError>>(
    f: F,
    all: Seq<LinkTarget>,
    keep: spec_fn(LinkTarget) -> bool,
    i: int,
    lps: Seq<LinkTarget>,
    e: DocError,
    locale: Locale,
    code: bool,
    b: BadgeHtml,
    start: Seq<char>,
    out: Seq<char>,
)
    requires
        0 <= i < all.len(),
        keep(all[i]),
        lps.len() == all.take(i).filter(keep).len(),
        forall|j: int| 0 <= j < lps.len() ==> locale_answer(f, #[trigger] all.take(i).filter(keep)[j], locale, Ok::<LinkTarget, DocError>(lps[j])),
        out == start + lis_html(all.take(i).filter(keep), lps, locale, code, b),
        locale_answer(f, all[i], locale, Err::<LinkTarget, DocError>(e)),
    ensures
        lis_written(f, all.filter(keep), locale, code, b, start, out, Err::<(), DocError>(e)),
{
    lemma_filter_prefix(all, keep, i, all.len() as int);
    let done = all.take(i).filter(keep);
    let whole = all.filter(keep);
    assert(whole.take(lps.len() as int) =~= done);
    assert(whole[lps.len() as int] == all[i]);
    assert forall|j: int| 0 <= j < lps.len() implies locale_answer(f, #[trigger] whole[j], locale, Ok::<LinkTarget, DocError>(lps[j])) by {
        assert(whole[j] == done[j]);
    }
    assert(out == start + lis_html(whole.take(lps.len() as int), lps, locale, code, b));
}

proof fn lemma_filter_prefix(s: Seq<LinkTarget>, keep: spec_fn(LinkTarget) -> bool, i: int, n: int)
    requires
        0 <= i < n,
        n == s.len(),
        keep(s[i]),
    ensures
        s.filter(keep).take(s.take(i).filter(keep).len() as int) == s.take(i).filter(keep),
        s.filter(keep).len() > s.take(i).filter(keep).len(),
        s.filter(keep)[s.take(i).filter(keep).len() as int] == s[i],
    decreases n - i,
{
    reveal(Seq::filter);
    if i + 1 == n {
        assert(s.drop_last() =~= s.take(i));
        assert(s.filter(keep) == s.take(i).filter(keep).push(s[i]));
        assert(s.filter(keep).take(s.take(i).filter(keep).len() as int) =~= s.take(i).filter(keep));
    } else {
        let t = s.drop_last();
        assert(t.take(i) =~= s.take(i));
        assert(t[i] == s[i]);
        lemma_filter_prefix(t, keep, i, n - 1);
        let k = s.take(i).filter(keep).len() as int;
        if keep(s.last()) {
            assert(s.filter(keep) == t.filter(keep).push(s.last()));
            assert(s.filter(keep).take(k) =~= t.filter(keep).take(k));
        } else {
            assert(s.filter(keep) == t.filter(keep));
        }
    }
}

/// Writes the listing of sub-pages `sub_pages` (the pages below the listed page, in
/// order, as the sorter gave them) in `locale`: the item of `parent` (see
/// `write_parent_li`) where it is given, then the closed items of the sub-pages whose
/// type is among `page_types` (see `lis_written`).
pub fn list_sub_pages_flattened_internal<F: Fn(&str, Locale) -> Result<LinkTarget, DocError>>(
    out: &mut String,
    sub_pages: &Vec<LinkTarget>,
    parent: Option<&LinkTarget>,
    locale: Locale,
    page_types: &[PageType],
    code: bool,
    files: &L10nFiles,
    badges: &BadgeHtml,
    locale_page: &F,
) -> (r: Result<(), DocError>)
    requires
        forall|s: &str, l: Locale| call_requires(*locale_page, (s, l)),
    ensures
        match parent {
            None => lis_written(*locale_page, of_types(in_order(sub_pages@, false), page_types@), locale, code, *badges, old(out)@, final(out)@, r),
            Some(p) => match spec_l10n(files@, "Template"@, "overview"@, locale) {
                Ok(label) => lis_written(
                    *locale_page,
                    of_types(in_order(sub_pages@, false), page_types@),
                    locale,
                    code,
                    *badges,
                    old(out)@ + parent_li_html(*p, label, locale, *badges),
                    final(out)@,
                    r,
                ),
                Err(x) => r matches Err(DocError::L10nError(e)) && l10n_error_is(e, x) && final(out)@ == old(out)@,
            },
        },
{
    match parent {
        Some(p) => {
            match write_parent_li(out, p, locale, files, badges) {
                Ok(_) => {},
                Err(e) => return Err(e),
            }
        },
        None => {},
    }
    write_lis(out, sub_pages, false, page_types, locale, code, badges, locale_page)
}

/// Writes the closed items of the direct sub-pages `sub_pages` whose type is among
/// `page_types`, last first.
pub fn list_sub_pages_reverse_internal<F: Fn(&str, Locale) -> Result<LinkTarget, DocError>>(
    out: &mut String,
    sub_pages: &Vec<LinkTarget>,
    locale: Locale,
    page_types: &[PageType],
    code: bool,
    badges: &BadgeHtml,
    locale_page: &F,
) -> (r: Result<(), DocError>)
    requires
        forall|s: &str, l: Locale| call_requires(*locale_page, (s, l)),
    ensures
        lis_written(*locale_page, of_types(in_order(sub_pages@, true), page_types@), locale, code, *badges, old(out)@, final(out)@, r),
{
    write_lis(out, sub_pages, true, page_types, locale, code, badges, locale_page)
}


/// The text of an optional string.
pub open spec fn opt_text(o: Option<String>) -> Option<Seq<char>> {
    match o {
        Some(s) => Some(s@),
        None => None,
    }
}

/// Rendering `piece` in `locale` turns `before` into `after` with outcome `r`: literal
/// HTML is appended; a link through its page is written as `render_link_via_page` does
/// (its looked-up title as content, with badges, missing pages reported), with the
/// badges `badges` gives for the locale; a link to a page as `render_link_from_page`
/// does for what `link_page` gives for it, with the badges of that page's locale; a
/// listing of sub-pages or of the WebExtension API is the HTML `list_html` gives, or
/// its error with nothing written.
pub open spec fn piece_ok<
    P: Fn(&str, bool) -> Option<LinkTarget>,
    A: Fn(&str) -> String,
    T: Fn(&PageRef) -> LinkTarget,
    B: Fn(Locale) -> BadgeHtml,
    L: Fn(&RenderPiece) -> Result<String, DocError>,
>(
    piece: RenderPiece,
    locale: Locale,
    get_page: P,
    anchorize: A,
    link_page: T,
    badges: B,
    list_html: L,
    before: Seq<char>,
    after: Seq<char>,
    r: Result<(), DocError>,
) -> bool {
    match piece {
        RenderPiece::Html(h) => r is Ok && after == before + h@,
        RenderPiece::LinkViaPage { link, title, code } => r is Ok && exists|bh: BadgeHtml|
            #![trigger call_ensures(badges, (locale,), bh)]
            call_ensures(badges, (locale,), bh) && spec_link_via_page(
                get_page,
                anchorize,
                before,
                after,
                link@,
                locale,
                opt_text(title),
                None,
                LinkFlags { code, with_badges: true, report: true },
                bh,
            ),
        RenderPiece::LinkFromPage { page, code, only_en_us } => r is Ok && exists|t: LinkTarget, bh: BadgeHtml|
            #![trigger call_ensures(link_page, (&page,), t), call_ensures(badges, (t.locale,), bh)]
            {
                &&& call_ensures(link_page, (&page,), t)
                &&& call_ensures(badges, (t.locale,), bh)
                &&& after == before + internal_link_html(t.url@, None, page_content(t), None, t.status@, code, only_en_us, true, bh)
            },
        _ => exists|res: Result<String, DocError>|
            #![trigger call_ensures(list_html, (&piece,), res)]
            {
                &&& call_ensures(list_html, (&piece,), res)
                &&& match res {
                    Ok(h) => r is Ok && after == before + h@,
                    Err(e) => r == Err::<(), DocError>(e) && after == before,
                }
            },
    }
}

/// Renders one piece of a sidebar (see `piece_ok`).
pub fn render_piece<
    P: Fn(&str, bool) -> Option<LinkTarget>,
    A: Fn(&str) -> String,
    T: Fn(&PageRef) -> LinkTarget,
    B: Fn(Locale) -> BadgeHtml,
    L: Fn(&RenderPiece) -> Result<String, DocError>,
>(
    out: &mut String,
    piece: &RenderPiece,
    locale: Locale,
    get_page: &P,
    anchorize: &A,
    link_page: &T,
    badges: &B,
    list_html: &L,
) -> (r: Result<(), DocError>)
    requires
        forall|s: &str, b: bool| call_requires(*get_page, (s, b)),
        forall|s: &str| call_requires(*anchorize, (s,)),
        forall|p: &PageRef| call_requires(*link_page, (p,)),
        forall|l: Locale| call_requires(*badges, (l,)),
        forall|p: &RenderPiece| call_requires(*list_html, (p,)),
    ensures
        piece_ok(*piece, locale, *get_page, *anchorize, *link_page, *badges, *list_html, old(out)@, final(out)@, r),
{
    match piece {
        RenderPiece::Html(h) => {
            push_str(out, h.as_str());
            Ok(())
        },
        RenderPiece::LinkViaPage { link, title, code } => {
            let bh = badges(locale);
            let t: Option<&str> = match title {
                Some(t) => Some(t.as_str()),
                None => None,
            };
            let flags = LinkFlags { code: *code, with_badges: true, report: true };
            let r = render_link_via_page(out, link.as_str(), locale, t, None, flags, &bh, get_page, anchorize);
            assert(call_ensures(*badges, (locale,), bh));
            r
        },
        RenderPiece::LinkFromPage { page, code, only_en_us } => {
            let t = link_page(page);
            let bh = badges(t.locale);
            let m = LinkModifier { badges: copy_statuses(&t.status), code: *code, only_en_us: *only_en_us };
            let r = render_link_from_page(out, &t, &m, &bh);
            assert(call_ensures(*link_page, (page,), t));
            assert(call_ensures(*badges, (t.locale,), bh));
            r
        },
        _ => {
            let res = list_html(piece);
            let ghost gres = res;
            assert(call_ensures(*list_html, (piece,), gres));
            match res {
                Ok(h) => {
                    push_str(out, h.as_str());
                    Ok(())
                },
                Err(e) => Err(e),
            }
        },
    }
}


/// A sequence of outputs, one after each rendered piece.
pub open spec fn trace(mids: Seq<Seq<char>>) -> bool {
    mids.len() >= 1
}

/// Rendering `pieces` one after the other turns `before` into `after` with outcome `r`
/// (see `piece_ok`): the outputs `mids` step from piece to piece; on an error, the
/// pieces before the failing one are rendered and its error is `r`.
pub open spec fn pieces_rendered<
    P: Fn(&str, bool) -> Option<LinkTarget>,
    A: Fn(&str) -> String,
    T: Fn(&PageRef) -> LinkTarget,
    B: Fn(Locale) -> BadgeHtml,
    L: Fn(&RenderPiece) -> Result<String, DocError>,
>(
    pieces: Seq<RenderPiece>,
    locale: Locale,
    get_page: P,
    anchorize: A,
    link_page: T,
    badges: B,
    list_html: L,
    before: Seq<char>,
    after: Seq<char>,
    r: Result<(), DocError>,
) -> bool {
    exists|mids: Seq<Seq<char>>|
        #![trigger trace(mids)]
        {
            &&& trace(mids)
            &&& mids.len() <= pieces.len() + 1
            &&& mids[0] == before
            &&& mids.last() == after
            &&& forall|j: int| 0 <= j < mids.len() - 1 ==> piece_ok(#[trigger] pieces[j], locale, get_page, anchorize, link_page, badges, list_html, mids[j], mids[j + 1], Ok(()))
            &&& match r {
                Ok(_) => mids.len() == pieces.len() + 1,
                Err(e) => mids.len() <= pieces.len() && piece_ok(
                    pieces[mids.len() - 1],
                    locale,
                    get_page,
                    anchorize,
                    link_page,
                    badges,
                    list_html,
                    after,
                    after,
                    Err::<(), DocError>(e),
                ),
            }
        }
}

/// Renders the pieces of a sidebar into HTML (see `pieces_rendered`), the links with
/// the site's pages as the closures give them.
pub fn render_pieces<
    P: Fn(&str, bool) -> Option<LinkTarget>,
    A: Fn(&str) -> String,
    T: Fn(&PageRef) -> LinkTarget,
    B: Fn(Locale) -> BadgeHtml,
    L: Fn(&RenderPiece) -> Result<String, DocError>,
>(
    pieces: &Vec<RenderPiece>,
    locale: Locale,
    get_page: &P,
    anchorize: &A,
    link_page: &T,
    badges: &B,
    list_html: &L,
) -> (r: Result<String, DocError>)
    requires
        forall|s: &str, b: bool| call_requires(*get_page, (s, b)),
        forall|s: &str| call_requires(*anchorize, (s,)),
        forall|p: &PageRef| call_requires(*link_page, (p,)),
        forall|l: Locale| call_requires(*badges, (l,)),
        forall|p: &RenderPiece| call_requires(*list_html, (p,)),
    ensures
        match r {
            Ok(h) => pieces_rendered(pieces@, locale, *get_page, *anchorize, *link_page, *badges, *list_html, seq![], h@, Ok(())),
            Err(e) => exists|partial: Seq<char>| pieces_rendered(pieces@, locale, *get_page, *anchorize, *link_page, *badges, *list_html, seq![], partial, Err::<(), DocError>(e)),
        },
{
    let mut out = String::new();
    let ghost mut mids: Seq<Seq<char>> = seq![out@];
    let n = pieces.len();
    let mut i: usize = 0;
    while i < n
        invariant
            n == pieces@.len(),
            i <= n,
            mids.len() == i + 1,
            mids[0] == Seq::<char>::empty(),
            mids.last() == out@,
            forall|j: int| 0 <= j < i ==> piece_ok(#[trigger] pieces@[j], locale, *get_page, *anchorize, *link_page, *badges, *list_html, mids[j], mids[j + 1], Ok(())),
            forall|s: &str, b: bool| call_requires(*get_page, (s, b)),
            forall|s: &str| call_requires(*anchorize, (s,)),
            forall|p: &PageRef| call_requires(*link_page, (p,)),
            forall|l: Locale| call_requires(*badges, (l,)),
            forall|p: &RenderPiece| call_requires(*list_html, (p,)),
        decreases n - i,
    {
        let ghost before = out@;
        let res = render_piece(&mut out, &pieces[i], locale, get_page, anchorize, link_page, badges, list_html);
        match res {
            Ok(()) => {
                proof {
                    let nm = mids.push(out@);
                    assert forall|j: int| 0 <= j < i + 1 implies piece_ok(#[trigger] pieces@[j], locale, *get_page, *anchorize, *link_page, *badges, *list_html, nm[j], nm[j + 1], Ok(())) by {
                        if j < i {
                            assert(nm[j] == mids[j] && nm[j + 1] == mids[j + 1]);
                        }
                    }
                    mids = nm;
                }
            },
            Err(e) => {
                proof {
                    assert(piece_ok(pieces@[i as int], locale, *get_page, *anchorize, *link_page, *badges, *list_html, before, out@, Err::<(), DocError>(e)));
                    assert(out@ == before) by {
                        match pieces@[i as int] {
                            RenderPiece::Html(_) => {},
                            RenderPiece::LinkViaPage { .. } => {},
                            RenderPiece::LinkFromPage { .. } => {},
                            _ => {},
                        }
                    }
                    assert(trace(mids));
                    assert(pieces_rendered(pieces@, locale, *get_page, *anchorize, *link_page, *badges, *list_html, seq![], out@, Err::<(), DocError>(e)));
                }
                return Err(e);
            },
        }
        i += 1;
    }
    proof {
        assert(trace(mids));
    }
    Ok(out)
}

} // verus!
