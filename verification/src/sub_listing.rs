//! The nested listing of the sub-pages of a page: each sub-page's item, with the
//! listing of its own sub-pages nested below it, down to a depth; and the listing of
//! sub-pages grouped by the prefixes of their titles.
use vstd::prelude::*;
use crate::data::{spec_l10n, L10nFiles};
use crate::link_render::{
    li_html, lis_html, lis_written, locale_answer, parent_li_html, write_li_with_badges, write_parent_li, BadgeHtml, LinkTarget,
};
use crate::subpages::{group_sub_pages, groups_ok, targets};
use crate::locale::Locale;
use crate::page::PageType;
use crate::resolve::DocError;
use crate::text::push_str;
use crate::webext::l10n_error_is;

verus! {

/// `f` answers alike for equal arguments (the sub-pages of a page do not change while
/// the listing is written).
pub open spec fn sub_pages_functional<S: Fn(&str, Option<usize>) -> Result<Vec<LinkTarget>, DocError>>(f: S) -> bool {
    forall|q1: &str, q2: &str, d: Option<usize>, r1: Result<Vec<LinkTarget>, DocError>, r2: Result<Vec<LinkTarget>, DocError>|
        #![trigger call_ensures(f, (q1, d), r1), call_ensures(f, (q2, d), r2)]
        q1@ == q2@ && call_ensures(f, (q1, d), r1) && call_ensures(f, (q2, d), r2) ==> r1 == r2
}

/// `g` answers alike for equal arguments (a page in a locale does not change while the
/// listing is written).
pub open spec fn locale_page_functional<G: Fn(&str, Locale) -> Result<LinkTarget, DocError>>(g: G) -> bool {
    forall|q1: &str, q2: &str, l: Locale, r1: Result<LinkTarget, DocError>, r2: Result<LinkTarget, DocError>|
        #![trigger call_ensures(g, (q1, l), r1), call_ensures(g, (q2, l), r2)]
        q1@ == q2@ && call_ensures(g, (q1, l), r1) && call_ensures(g, (q2, l), r2) ==> r1 == r2
}

/// What `f` answers for the sub-pages of the page at `url` down to depth `d`.
pub open spec fn sub_answer<S: Fn(&str, Option<usize>) -> Result<Vec<LinkTarget>, DocError>>(f: S, url: Seq<char>, d: Option<usize>) -> Result<Vec<LinkTarget>, DocError> {
    (choose|q: &str, r: Result<Vec<LinkTarget>, DocError>| #![trigger call_ensures(f, (q, d), r)] q@ == url && call_ensures(f, (q, d), r)).1
}

/// What `g` answers for the page at `url` in `locale`.
pub open spec fn loc_answer<G: Fn(&str, Locale) -> Result<LinkTarget, DocError>>(g: G, url: Seq<char>, locale: Locale) -> Result<LinkTarget, DocError> {
    (choose|q: &str, r: Result<LinkTarget, DocError>| #![trigger call_ensures(g, (q, locale), r)] q@ == url && call_ensures(g, (q, locale), r)).1
}

proof fn lemma_sub_answer<S: Fn(&str, Option<usize>) -> Result<Vec<LinkTarget>, DocError>>(f: S, q: &str, d: Option<usize>, res: Result<Vec<LinkTarget>, DocError>)
    requires
        sub_pages_functional(f),
        call_ensures(f, (q, d), res),
    ensures
        res == sub_answer(f, q@, d),
{
    assert(call_ensures(f, (q, d), res));
    let (q2, r) = choose|q2: &str, r: Result<Vec<LinkTarget>, DocError>| #![trigger call_ensures(f, (q2, d), r)] q2@ == q@ && call_ensures(f, (q2, d), r);
    assert(call_ensures(f, (q2, d), r));
}

proof fn lemma_loc_answer<G: Fn(&str, Locale) -> Result<LinkTarget, DocError>>(g: G, page: LinkTarget, locale: Locale, ans: Result<LinkTarget, DocError>)
    requires
        locale_page_functional(g),
        locale != Locale::EnUs,
        locale_answer(g, page, locale, ans),
    ensures
        ans == loc_answer(g, page.url@, locale),
{
    let q = choose|q: &str| #![trigger call_ensures(g, (q, locale), ans)] q@ == page.url@ && call_ensures(g, (q, locale), ans);
    assert(call_ensures(g, (q, locale), ans));
    let (q2, r) = choose|q2: &str, r: Result<LinkTarget, DocError>| #![trigger call_ensures(g, (q2, locale), r)] q2@ == page.url@ && call_ensures(g, (q2, locale), r);
    assert(call_ensures(g, (q2, locale), r));
}

/// The item of `page` as a nested listing writes it, closed where `closed`, `lp` being
/// the page read in the locale (the page itself in en-US): its HTML, or the error of
/// reading the page in the locale.
pub open spec fn li_out<G: Fn(&str, Locale) -> Result<LinkTarget, DocError>>(
    g: G,
    page: LinkTarget,
    locale: Locale,
    code: bool,
    closed: bool,
    b: BadgeHtml,
) -> Result<Seq<char>, Stop> {
    if locale == Locale::EnUs {
        Ok(li_html(page, page, locale, code, closed, b))
    } else {
        match loc_answer(g, page.url@, locale) {
            Ok(lp) => Ok(li_html(page, lp, locale, code, closed, b)),
            Err(e) => Err(Stop::Doc(e)),
        }
    }
}

/// The page's type is among `types` (any type where there are none).
pub open spec fn type_listed(types: Seq<PageType>, p: LinkTarget) -> bool {
    types.len() == 0 || types.contains(p.page_type)
}

/// One less of a depth (a depth of 0 staying 0); no depth staying none.
pub open spec fn less_depth(depth: Option<usize>) -> Option<usize> {
    match depth {
        Some(d) => Some(if d > 0 {
            (d - 1) as usize
        } else {
            0
        }),
        None => None,
    }
}

/// What stopped a listing: an error, or the translation of a label that is missing (see
/// `l10n_error_is`).
pub enum Stop {
    Doc(DocError),
    L10n(Option<Seq<char>>),
}

/// `err` is the error that `s` describes.
pub open spec fn stopped_with(err: DocError, s: Stop) -> bool {
    match s {
        Stop::Doc(e) => err == e,
        Stop::L10n(x) => err matches DocError::L10nError(e) && l10n_error_is(e, x),
    }
}

/// `t` after `h`, carrying the error of `rest`; nothing where `rest` is nothing.
pub open spec fn then_out(h: Seq<char>, rest: Option<(Seq<char>, Option<Stop>)>) -> Option<(Seq<char>, Option<Stop>)> {
    match rest {
        Some((t, e)) => Some((h + t, e)),
        None => None,
    }
}

/// The start of the nested listing of the page at `url`: its direct sub-pages (as `f`
/// answers) and, where `include_parent`, the parent's item (the page read in the
/// locale, labelled `overview`); or what stopped it.
pub open spec fn head_out<S: Fn(&str, Option<usize>) -> Result<Vec<LinkTarget>, DocError>, G: Fn(&str, Locale) -> Result<LinkTarget, DocError>>(
    f: S,
    g: G,
    url: Seq<char>,
    locale: Locale,
    include_parent: bool,
    files: Seq<(String, Vec<(String, Vec<(String, String)>)>)>,
    b: BadgeHtml,
) -> Result<(Vec<LinkTarget>, Seq<char>), Stop> {
    match sub_answer(f, url, Some(1usize)) {
        Err(e) => Err(Stop::Doc(e)),
        Ok(pages) => if include_parent {
            match loc_answer(g, url, locale) {
                Err(e) => Err(Stop::Doc(e)),
                Ok(pp) => match spec_l10n(files, "Template"@, "overview"@, locale) {
                    Err(x) => Err(Stop::L10n(x)),
                    Ok(label) => Ok((pages, parent_li_html(pp, label, locale, b))),
                },
            }
        } else {
            Ok((pages, seq![]))
        },
    }
}

/// The start of the item of page `p`: its sub-pages down to `d2` (as `f` answers) and,
/// where its type is listed, its item, closed where it has no sub-pages; or what
/// stopped it.
pub open spec fn item_head<S: Fn(&str, Option<usize>) -> Result<Vec<LinkTarget>, DocError>, G: Fn(&str, Locale) -> Result<LinkTarget, DocError>>(
    f: S,
    g: G,
    p: LinkTarget,
    locale: Locale,
    d2: Option<usize>,
    types: Seq<PageType>,
    code: bool,
    b: BadgeHtml,
) -> Result<(Vec<LinkTarget>, Seq<char>), Stop> {
    match sub_answer(f, p.url@, d2) {
        Err(e) => Err(Stop::Doc(e)),
        Ok(subsub) => if type_listed(types, p) {
            match li_out(g, p, locale, code, subsub@.len() == 0, b) {
                Ok(h) => Ok((subsub, h)),
                Err(s) => Err(s),
            }
        } else {
            Ok((subsub, seq![]))
        },
    }
}

/// The nested listing `sub` wrapped in `<ol>` where it is not empty.
pub open spec fn wrapped(sub: Seq<char>) -> Seq<char> {
    if sub.len() > 0 {
        "<ol>"@ + sub + "</ol>"@
    } else {
        seq![]
    }
}

/// What the nested listing of the page at `url` writes, with `fuel` bounding how deep
/// it may go (none where that is not enough): nothing at depth 0; else its start (see
/// `head_out`), then the items of the sub-pages one depth less deep (see `items_out`);
/// with the error that stopped it, if any, after what was written before it.
pub open spec fn nested_out<S: Fn(&str, Option<usize>) -> Result<Vec<LinkTarget>, DocError>, G: Fn(&str, Locale) -> Result<LinkTarget, DocError>>(
    f: S,
    g: G,
    url: Seq<char>,
    locale: Locale,
    depth: Option<usize>,
    types: Seq<PageType>,
    code: bool,
    include_parent: bool,
    files: Seq<(String, Vec<(String, Vec<(String, String)>)>)>,
    b: BadgeHtml,
    fuel: nat,
) -> Option<(Seq<char>, Option<Stop>)>
    decreases fuel, 2nat, 0nat,
{
    if depth == Some(0usize) {
        Some((seq![], None))
    } else {
        match head_out(f, g, url, locale, include_parent, files, b) {
            Err(s) => Some((seq![], Some(s))),
            Ok((pages, pre)) => then_out(
                pre,
                items_out(f, g, pages@, locale, less_depth(depth), types, code, include_parent, files, b, fuel),
            ),
        }
    }
}

/// The item of page `p` from its start `ih` (see `item_head`) and its own nested
/// listing `nres`: where it has sub-pages, its start, then its nested listing wrapped in
/// `<ol>` (see `wrapped`) and `</li>` where its type is listed.
pub open spec fn item_from(ih: Result<(Vec<LinkTarget>, Seq<char>), Stop>, nres: Option<(Seq<char>, Option<Stop>)>, types: Seq<PageType>, p: LinkTarget) -> Option<(Seq<char>, Option<Stop>)> {
    match ih {
        Err(s) => Some((seq![], Some(s))),
        Ok((subsub, h)) => if subsub@.len() == 0 {
            Some((h, None))
        } else {
            match nres {
                None => None,
                Some((sub, Some(s))) => Some((h, Some(s))),
                Some((sub, None)) => Some((h + wrapped(sub) + when_listed(types, p), None)),
            }
        },
    }
}

/// What the item of page `p` in a nested listing writes (see `item_from`), its own
/// nested listing going one depth less deep than the listing it stands in.
pub open spec fn item_out<S: Fn(&str, Option<usize>) -> Result<Vec<LinkTarget>, DocError>, G: Fn(&str, Locale) -> Result<LinkTarget, DocError>>(
    f: S,
    g: G,
    p: LinkTarget,
    locale: Locale,
    d2: Option<usize>,
    types: Seq<PageType>,
    code: bool,
    include_parent: bool,
    files: Seq<(String, Vec<(String, Vec<(String, String)>)>)>,
    b: BadgeHtml,
    fuel: nat,
) -> Option<(Seq<char>, Option<Stop>)>
    decreases fuel, 0nat, 0nat,
{
    item_from(
        item_head(f, g, p, locale, d2, types, code, b),
        if fuel == 0 {
            None
        } else {
            nested_out(f, g, p.url@, locale, d2, types, code, include_parent, files, b, (fuel - 1) as nat)
        },
        types,
        p,
    )
}

/// `</li>` where the type of `p` is listed.
pub open spec fn when_listed(types: Seq<PageType>, p: LinkTarget) -> Seq<char> {
    if type_listed(types, p) {
        "</li>"@
    } else {
        seq![]
    }
}

/// What the items of `pages` in a nested listing write, one after the other (see
/// `item_out`), up to the first error.
pub open spec fn items_out<S: Fn(&str, Option<usize>) -> Result<Vec<LinkTarget>, DocError>, G: Fn(&str, Locale) -> Result<LinkTarget, DocError>>(
    f: S,
    g: G,
    pages: Seq<LinkTarget>,
    locale: Locale,
    d2: Option<usize>,
    types: Seq<PageType>,
    code: bool,
    include_parent: bool,
    files: Seq<(String, Vec<(String, Vec<(String, String)>)>)>,
    b: BadgeHtml,
    fuel: nat,
) -> Option<(Seq<char>, Option<Stop>)>
    decreases fuel, 1nat, pages.len(),
{
    if pages.len() == 0 {
        Some((seq![], None))
    } else {
        match item_out(f, g, pages[0], locale, d2, types, code, include_parent, files, b, fuel) {
            None => None,
            Some((h, Some(e))) => Some((h, Some(e))),
            Some((h, None)) => then_out(h, items_out(f, g, pages.drop_first(), locale, d2, types, code, include_parent, files, b, fuel)),
        }
    }
}

/// `out` and `r` are what the listing `res` says: its text appended, its error returned.
pub open spec fn outcome(before: Seq<char>, after: Seq<char>, r: Result<(), DocError>, res: (Seq<char>, Option<Stop>)) -> bool {
    &&& after == before + res.0
    &&& match res.1 {
        None => r is Ok,
        Some(s) => r matches Err(err) && stopped_with(err, s),
    }
}

proof fn lemma_outcome_after(before: Seq<char>, h: Seq<char>, after: Seq<char>, r: Result<(), DocError>, rest: (Seq<char>, Option<Stop>))
    requires
        outcome(before + h, after, r, rest),
    ensures
        outcome(before, after, r, (h + rest.0, rest.1)),
{
    assert(before + h + rest.0 =~= before + (h + rest.0));
}

fn type_listed_exec(types: &[PageType], t: PageType) -> (r: bool)
    ensures
        r == (types@.len() == 0 || types@.contains(t)),
{
    if types.len() == 0 {
        return true;
    }
    let n = types.len();
    let mut i: usize = 0;
    while i < n
        invariant
            n == types@.len(),
            i <= n,
            forall|j: int| 0 <= j < i ==> types@[j] != t,
        decreases n - i,
    {
        if types[i] == t {
            assert(types@[i as int] == t);
            return true;
        }
        i += 1;
    }
    false
}

fn write_head<S: Fn(&str, Option<usize>) -> Result<Vec<LinkTarget>, DocError>, G: Fn(&str, Locale) -> Result<LinkTarget, DocError>>(
    out: &mut String,
    url: &str,
    locale: Locale,
    include_parent: bool,
    files: &L10nFiles,
    badges: &BadgeHtml,
    sub_pages: &S,
    locale_page: &G,
) -> (r: Result<Vec<LinkTarget>, DocError>)
    requires
        forall|s: &str, d: Option<usize>| call_requires(*sub_pages, (s, d)),
        forall|s: &str, l: Locale| call_requires(*locale_page, (s, l)),
        sub_pages_functional(*sub_pages),
        locale_page_functional(*locale_page),
    ensures
        match head_out(*sub_pages, *locale_page, url@, locale, include_parent, files@, *badges) {
            Ok((pages, pre)) => r == Ok::<Vec<LinkTarget>, DocError>(pages) && final(out)@ == old(out)@ + pre,
            Err(s) => r matches Err(err) && stopped_with(err, s) && final(out)@ == old(out)@,
        },
{
    let res = sub_pages(url, Some(1usize));
    proof {
        lemma_sub_answer(*sub_pages, url, Some(1usize), res);
    }
    let pages = match res {
        Ok(p) => p,
        Err(e) => {
            return Err(e);
        },
    };
    if include_parent {
        let pres = locale_page(url, locale);
        proof {
            assert(call_ensures(*locale_page, (url, locale), pres));
            let (q2, r0) = choose|q2: &str, r: Result<LinkTarget, DocError>| #![trigger call_ensures(*locale_page, (q2, locale), r)] q2@ == url@ && call_ensures(*locale_page, (q2, locale), r);
            assert(call_ensures(*locale_page, (q2, locale), r0));
            assert(pres == loc_answer(*locale_page, url@, locale));
        }
        let pp = match pres {
            Ok(p) => p,
            Err(e) => {
                return Err(e);
            },
        };
        match write_parent_li(out, &pp, locale, files, badges) {
            Ok(_) => {},
            Err(e) => {
                return Err(e);
            },
        }
    } else {
        assert(old(out)@ + Seq::<char>::empty() =~= out@);
    }
    Ok(pages)
}

fn write_nested<S: Fn(&str, Option<usize>) -> Result<Vec<LinkTarget>, DocError>, G: Fn(&str, Locale) -> Result<LinkTarget, DocError>>(
    out: &mut String,
    url: &str,
    locale: Locale,
    depth: Option<usize>,
    page_types: &[PageType],
    code: bool,
    include_parent: bool,
    files: &L10nFiles,
    badges: &BadgeHtml,
    sub_pages: &S,
    locale_page: &G,
    Ghost(fuel): Ghost<nat>,
) -> (r: Result<(), DocError>)
    requires
        forall|s: &str, d: Option<usize>| call_requires(*sub_pages, (s, d)),
        forall|s: &str, l: Locale| call_requires(*locale_page, (s, l)),
        sub_pages_functional(*sub_pages),
        locale_page_functional(*locale_page),
        nested_out(*sub_pages, *locale_page, url@, locale, depth, page_types@, code, include_parent, files@, *badges, fuel) is Some,
    ensures
        outcome(
            old(out)@,
            final(out)@,
            r,
            nested_out(*sub_pages, *locale_page, url@, locale, depth, page_types@, code, include_parent, files@, *badges, fuel)->0,
        ),
    decreases fuel, 2nat, 0nat,
{
    let ghost start = out@;
    if depth == Some(0usize) {
        assert(start + Seq::<char>::empty() =~= out@);
        return Ok(());
    }
    let ghost hd = head_out(*sub_pages, *locale_page, url@, locale, include_parent, files@, *badges);
    let pages = match write_head(out, url, locale, include_parent, files, badges, sub_pages, locale_page) {
        Ok(p) => p,
        Err(e) => {
            assert(start + Seq::<char>::empty() =~= out@);
            return Err(e);
        },
    };
    let ghost pre = hd->Ok_0.1;
    let d2 = match depth {
        Some(d) => Some(if d > 0 { d - 1 } else { 0 }),
        None => None,
    };
    assert(d2 == less_depth(depth));
    assert(pages@.skip(0) =~= pages@);
    let r = write_items(out, &pages, 0, locale, d2, page_types, code, include_parent, files, badges, sub_pages, locale_page, Ghost(fuel));
    proof {
        let items = items_out(*sub_pages, *locale_page, pages@, locale, d2, page_types@, code, include_parent, files@, *badges, fuel);
        lemma_outcome_after(start, pre, out@, r, items->0);
    }
    r
}

fn write_item_head<S: Fn(&str, Option<usize>) -> Result<Vec<LinkTarget>, DocError>, G: Fn(&str, Locale) -> Result<LinkTarget, DocError>>(
    out: &mut String,
    p: &LinkTarget,
    locale: Locale,
    d2: Option<usize>,
    page_types: &[PageType],
    code: bool,
    badges: &BadgeHtml,
    sub_pages: &S,
    locale_page: &G,
) -> (r: Result<Vec<LinkTarget>, DocError>)
    requires
        forall|s: &str, d: Option<usize>| call_requires(*sub_pages, (s, d)),
        forall|s: &str, l: Locale| call_requires(*locale_page, (s, l)),
        sub_pages_functional(*sub_pages),
        locale_page_functional(*locale_page),
    ensures
        match item_head(*sub_pages, *locale_page, *p, locale, d2, page_types@, code, *badges) {
            Ok((subsub, h)) => r == Ok::<Vec<LinkTarget>, DocError>(subsub) && final(out)@ == old(out)@ + h,
            Err(s) => r matches Err(err) && stopped_with(err, s) && final(out)@ == old(out)@,
        },
{
    let ghost start = out@;
    let listed = type_listed_exec(page_types, p.page_type);
    let pu = p.url.as_str();
    let res = sub_pages(pu, d2);
    proof {
        lemma_sub_answer(*sub_pages, pu, d2, res);
    }
    let subsub = match res {
        Ok(v) => v,
        Err(e) => {
            return Err(e);
        },
    };
    let closed = subsub.len() == 0;
    if listed {
        let lr = write_li_with_badges(out, p, locale, code, closed, badges, locale_page);
        proof {
            let ans = choose|ans: Result<LinkTarget, DocError>|
                {
                    &&& locale_answer(*locale_page, *p, locale, ans)
                    &&& match ans {
                        Ok(lp) => lr is Ok && out@ == start + li_html(*p, lp, locale, code, closed, *badges),
                        Err(e) => lr == Err::<(), DocError>(e) && out@ == start,
                    }
                };
            if locale != Locale::EnUs {
                lemma_loc_answer(*locale_page, *p, locale, ans);
            }
        }
        match lr {
            Ok(_) => {},
            Err(e) => {
                return Err(e);
            },
        }
    } else {
        assert(start + Seq::<char>::empty() =~= out@);
    }
    Ok(subsub)
}

fn write_item<S: Fn(&str, Option<usize>) -> Result<Vec<LinkTarget>, DocError>, G: Fn(&str, Locale) -> Result<LinkTarget, DocError>>(
    out: &mut String,
    p: &LinkTarget,
    locale: Locale,
    d2: Option<usize>,
    page_types: &[PageType],
    code: bool,
    include_parent: bool,
    files: &L10nFiles,
    badges: &BadgeHtml,
    sub_pages: &S,
    locale_page: &G,
    Ghost(fuel): Ghost<nat>,
) -> (r: Result<(), DocError>)
    requires
        forall|s: &str, d: Option<usize>| call_requires(*sub_pages, (s, d)),
        forall|s: &str, l: Locale| call_requires(*locale_page, (s, l)),
        sub_pages_functional(*sub_pages),
        locale_page_functional(*locale_page),
        item_out(*sub_pages, *locale_page, *p, locale, d2, page_types@, code, include_parent, files@, *badges, fuel) is Some,
    ensures
        outcome(
            old(out)@,
            final(out)@,
            r,
            item_out(*sub_pages, *locale_page, *p, locale, d2, page_types@, code, include_parent, files@, *badges, fuel)->0,
        ),
    decreases fuel, 0nat, 0nat,
{
    let ghost start = out@;
    let ghost ih = item_head(*sub_pages, *locale_page, *p, locale, d2, page_types@, code, *badges);
    let subsub = match write_item_head(out, p, locale, d2, page_types, code, badges, sub_pages, locale_page) {
        Ok(v) => v,
        Err(e) => {
            assert(start + Seq::<char>::empty() =~= out@);
            return Err(e);
        },
    };
    let ghost h = ih->Ok_0.1;
    let ghost nres = if fuel == 0 {
        None
    } else {
        nested_out(*sub_pages, *locale_page, p.url@, locale, d2, page_types@, code, include_parent, files@, *badges, (fuel - 1) as nat)
    };
    assert(item_out(*sub_pages, *locale_page, *p, locale, d2, page_types@, code, include_parent, files@, *badges, fuel) == item_from(ih, nres, page_types@, *p));
    assert(ih == Ok::<(Vec<LinkTarget>, Seq<char>), Stop>((subsub, h)));
    if subsub.len() == 0 {
        assert(start + h =~= out@);
        return Ok(());
    }
    assert(nres is Some);
    assert(fuel > 0);
    assert(nested_out(*sub_pages, *locale_page, p.url@, locale, d2, page_types@, code, include_parent, files@, *badges, (fuel - 1) as nat) is Some);
    let ghost hh = out@;
    let r = write_item_sub(out, p, locale, d2, page_types, code, include_parent, files, badges, sub_pages, locale_page, Ghost((fuel - 1) as nat));
    proof {
        lemma_item_tail(ih, nres, page_types@, *p, start, hh, out@, r);
    }
    r
}

proof fn lemma_item_tail(
    ih: Result<(Vec<LinkTarget>, Seq<char>), Stop>,
    nres: Option<(Seq<char>, Option<Stop>)>,
    types: Seq<PageType>,
    p: LinkTarget,
    start: Seq<char>,
    mid: Seq<char>,
    after: Seq<char>,
    r: Result<(), DocError>,
)
    requires
        ih matches Ok((subsub, h)) && subsub@.len() > 0 && mid == start + h,
        match nres {
            Some((sub, Some(s))) => r matches Err(err) && stopped_with(err, s) && after == mid,
            Some((sub, None)) => r is Ok && after == mid + wrapped(sub) + when_listed(types, p),
            None => false,
        },
    ensures
        outcome(start, after, r, item_from(ih, nres, types, p)->0),
{
    match nres {
        Some((sub, None)) => {
            assert(after =~= start + (ih->Ok_0.1 + wrapped(sub) + when_listed(types, p)));
        },
        _ => {},
    }
}

fn write_item_sub<S: Fn(&str, Option<usize>) -> Result<Vec<LinkTarget>, DocError>, G: Fn(&str, Locale) -> Result<LinkTarget, DocError>>(
    out: &mut String,
    p: &LinkTarget,
    locale: Locale,
    d2: Option<usize>,
    page_types: &[PageType],
    code: bool,
    include_parent: bool,
    files: &L10nFiles,
    badges: &BadgeHtml,
    sub_pages: &S,
    locale_page: &G,
    Ghost(fuel): Ghost<nat>,
) -> (r: Result<(), DocError>)
    requires
        forall|s: &str, d: Option<usize>| call_requires(*sub_pages, (s, d)),
        forall|s: &str, l: Locale| call_requires(*locale_page, (s, l)),
        sub_pages_functional(*sub_pages),
        locale_page_functional(*locale_page),
        nested_out(*sub_pages, *locale_page, p.url@, locale, d2, page_types@, code, include_parent, files@, *badges, fuel) is Some,
    ensures
        match nested_out(*sub_pages, *locale_page, p.url@, locale, d2, page_types@, code, include_parent, files@, *badges, fuel) {
            Some((sub, Some(s))) => r matches Err(err) && stopped_with(err, s) && final(out)@ == old(out)@,
            Some((sub, None)) => r is Ok && final(out)@ == old(out)@ + wrapped(sub) + when_listed(page_types@, *p),
            None => false,
        },
    decreases fuel, 3nat, 0nat,
{
    let mut sub_out = String::new();
    let sr = write_nested(&mut sub_out, p.url.as_str(), locale, d2, page_types, code, include_parent, files, badges, sub_pages, locale_page, Ghost(fuel));
    assert(sub_out@ =~= Seq::<char>::empty() + sub_out@);
    match sr {
        Ok(_) => {},
        Err(e) => {
            return Err(e);
        },
    }
    let ghost start = out@;
    if !sub_out.as_str().is_empty() {
        push_str(out, "<ol>");
        push_str(out, sub_out.as_str());
        push_str(out, "</ol>");
    }
    let ghost w = out@;
    assert(w =~= start + wrapped(sub_out@));
    let listed = type_listed_exec(page_types, p.page_type);
    if listed {
        push_str(out, "</li>");
    }
    assert(out@ =~= start + wrapped(sub_out@) + when_listed(page_types@, *p));
    Ok(())
}

fn write_items<S: Fn(&str, Option<usize>) -> Result<Vec<LinkTarget>, DocError>, G: Fn(&str, Locale) -> Result<LinkTarget, DocError>>(
    out: &mut String,
    pages: &Vec<LinkTarget>,
    i: usize,
    locale: Locale,
    d2: Option<usize>,
    page_types: &[PageType],
    code: bool,
    include_parent: bool,
    files: &L10nFiles,
    badges: &BadgeHtml,
    sub_pages: &S,
    locale_page: &G,
    Ghost(fuel): Ghost<nat>,
) -> (r: Result<(), DocError>)
    requires
        i <= pages@.len(),
        forall|s: &str, d: Option<usize>| call_requires(*sub_pages, (s, d)),
        forall|s: &str, l: Locale| call_requires(*locale_page, (s, l)),
        sub_pages_functional(*sub_pages),
        locale_page_functional(*locale_page),
        items_out(*sub_pages, *locale_page, pages@.skip(i as int), locale, d2, page_types@, code, include_parent, files@, *badges, fuel) is Some,
    ensures
        outcome(
            old(out)@,
            final(out)@,
            r,
            items_out(*sub_pages, *locale_page, pages@.skip(i as int), locale, d2, page_types@, code, include_parent, files@, *badges, fuel)->0,
        ),
    decreases fuel, 1nat, pages@.len() - i,
{
    let ghost ps = pages@.skip(i as int);
    let ghost start = out@;
    if i == pages.len() {
        assert(ps.len() == 0);
        assert(start + Seq::<char>::empty() =~= out@);
        return Ok(());
    }
    assert(ps[0] == pages@[i as int]);
    assert(ps.drop_first() =~= pages@.skip(i + 1));
    let ghost it = item_out(*sub_pages, *locale_page, pages@[i as int], locale, d2, page_types@, code, include_parent, files@, *badges, fuel)->0;
    match write_item(out, &pages[i], locale, d2, page_types, code, include_parent, files, badges, sub_pages, locale_page, Ghost(fuel)) {
        Ok(_) => {},
        Err(e) => {
            return Err(e);
        },
    }
    assert(it.1 is None);
    let ghost mid = out@;
    let ghost rest = items_out(*sub_pages, *locale_page, pages@.skip(i + 1), locale, d2, page_types@, code, include_parent, files@, *badges, fuel);
    assert(items_out(*sub_pages, *locale_page, ps, locale, d2, page_types@, code, include_parent, files@, *badges, fuel) == then_out(it.0, rest));
    let r = write_items(out, pages, i + 1, locale, d2, page_types, code, include_parent, files, badges, sub_pages, locale_page, Ghost(fuel));
    proof {
        lemma_outcome_after(start, it.0, out@, r, rest->0);
    }
    r
}

/// Writes the nested listing of the sub-pages of the page at `url` in `locale`, down to
/// `depth` (see `nested_out`): `sub_pages` reads the sub-pages of a page down to a depth
/// (sorted as the listing wants them), `locale_page` reads a page in a locale; both
/// answer alike for equal arguments, and the listing ends (some fuel is enough).
pub fn list_sub_pages_nested_internal<S: Fn(&str, Option<usize>) -> Result<Vec<LinkTarget>, DocError>, G: Fn(&str, Locale) -> Result<LinkTarget, DocError>>(
    out: &mut String,
    url: &str,
    locale: Locale,
    depth: Option<usize>,
    page_types: &[PageType],
    code: bool,
    include_parent: bool,
    files: &L10nFiles,
    badges: &BadgeHtml,
    sub_pages: &S,
    locale_page: &G,
) -> (r: Result<(), DocError>)
    requires
        forall|s: &str, d: Option<usize>| call_requires(*sub_pages, (s, d)),
        forall|s: &str, l: Locale| call_requires(*locale_page, (s, l)),
        sub_pages_functional(*sub_pages),
        locale_page_functional(*locale_page),
        exists|fuel: nat| #[trigger] nested_out(*sub_pages, *locale_page, url@, locale, depth, page_types@, code, include_parent, files@, *badges, fuel) is Some,
    ensures
        exists|fuel: nat|
            {
                &&& #[trigger] nested_out(*sub_pages, *locale_page, url@, locale, depth, page_types@, code, include_parent, files@, *badges, fuel) is Some
                &&& outcome(
                    old(out)@,
                    final(out)@,
                    r,
                    nested_out(*sub_pages, *locale_page, url@, locale, depth, page_types@, code, include_parent, files@, *badges, fuel)->0,
                )
            },
{
    let ghost fuel = choose|fuel: nat| #[trigger] nested_out(*sub_pages, *locale_page, url@, locale, depth, page_types@, code, include_parent, files@, *badges, fuel) is Some;
    write_nested(out, url, locale, depth, page_types, code, include_parent, files, badges, sub_pages, locale_page, Ghost(fuel))
}

/// The HTML that opens a group of `n` items under `key`: a toggle headed by the key and
/// `-*` where there are more than two, nothing else.
pub open spec fn group_open(key: Seq<char>, n: nat) -> Seq<char> {
    if n > 2 {
        "<li class=\"toggle\"><details><summary>"@ + key + "-*</summary><ol>"@
    } else {
        seq![]
    }
}

/// The HTML that closes a group of `n` items (see `group_open`).
pub open spec fn group_close(n: nat) -> Seq<char> {
    if n > 2 {
        "</ol></details></li>"@
    } else {
        seq![]
    }
}

/// The groups with their keys and pages as plain values.
pub open spec fn group_views(groups: Seq<(String, Vec<&LinkTarget>)>) -> Seq<(Seq<char>, Seq<LinkTarget>)> {
    groups.map_values(|g: (String, Vec<&LinkTarget>)| (g.0@, targets(g.1@)))
}

/// `after` is `before` followed by the groups, one after the other: each opened (see
/// `group_open`), its pages' closed items (see `lis_written`), closed (see
/// `group_close`); where reading a page in the locale fails, what was written up to it
/// and that error.
pub open spec fn groups_written<F: Fn(&str, Locale) -> Result<LinkTarget, DocError>>(
    locale_page: F,
    groups: Seq<(Seq<char>, Seq<LinkTarget>)>,
    locale: Locale,
    code: bool,
    b: BadgeHtml,
    before: Seq<char>,
    after: Seq<char>,
    r: Result<(), DocError>,
) -> bool
    decreases groups.len(),
{
    if groups.len() == 0 {
        after == before && r is Ok
    } else {
        let k = groups[0].0;
        let ps = groups[0].1;
        exists|mid: Seq<char>, r1: Result<(), DocError>|
            #![trigger lis_written(locale_page, ps, locale, code, b, before + group_open(k, ps.len()), mid, r1)]
            {
                &&& lis_written(locale_page, ps, locale, code, b, before + group_open(k, ps.len()), mid, r1)
                &&& match r1 {
                    Err(e) => r == Err::<(), DocError>(e) && after == mid,
                    Ok(_) => groups_written(locale_page, groups.drop_first(), locale, code, b, mid + group_close(ps.len()), after, r),
                }
            }
    }
}

fn write_ref_lis<F: Fn(&str, Locale) -> Result<LinkTarget, DocError>>(
    out: &mut String,
    items: &Vec<&LinkTarget>,
    locale: Locale,
    code: bool,
    badges: &BadgeHtml,
    locale_page: &F,
) -> (r: Result<(), DocError>)
    requires
        forall|s: &str, l: Locale| call_requires(*locale_page, (s, l)),
    ensures
        lis_written(*locale_page, targets(items@), locale, code, *badges, old(out)@, final(out)@, r),
{
    let ghost start = out@;
    let ghost ts = targets(items@);
    let ghost mut lps: Seq<LinkTarget> = seq![];
    let n = items.len();
    let mut i: usize = 0;
    assert(ts.take(0) =~= Seq::<LinkTarget>::empty());
    while i < n
        invariant
            start == old(out)@,
            n == items@.len(),
            ts == targets(items@),
            ts.len() == n,
            i <= n,
            lps.len() == i,
            forall|j: int| 0 <= j < i ==> locale_answer(*locale_page, #[trigger] ts[j], locale, Ok::<LinkTarget, DocError>(lps[j])),
            out@ == start + lis_html(ts.take(i as int), lps, locale, code, *badges),
            forall|s: &str, l: Locale| call_requires(*locale_page, (s, l)),
        decreases n - i,
    {
        let page: &LinkTarget = items[i];
        assert(*page == ts[i as int]);
        let ghost before = out@;
        let res = write_li_with_badges(out, page, locale, code, true, badges, locale_page);
        let ghost ans = choose|ans: Result<LinkTarget, DocError>|
            {
                &&& locale_answer(*locale_page, ts[i as int], locale, ans)
                &&& match ans {
                    Ok(lp) => res is Ok && out@ == before + li_html(ts[i as int], lp, locale, code, true, *badges),
                    Err(e) => res == Err::<(), DocError>(e) && out@ == before,
                }
            };
        match res {
            Ok(_) => {
                proof {
                    let lp = ans->Ok_0;
                    let nl = lps.push(lp);
                    assert(nl.drop_last() =~= lps);
                    assert(ts.take(i + 1).drop_last() =~= ts.take(i as int));
                    assert(ts.take(i + 1).last() == ts[i as int]);
                    assert(out@ =~= start + lis_html(ts.take(i + 1), nl, locale, code, *badges));
                    lps = nl;
                }
            },
            Err(e) => {
                proof {
                    assert(ans == Err::<LinkTarget, DocError>(e));
                    assert(ts.take(lps.len() as int) == ts.take(i as int));
                    assert(lis_written(*locale_page, ts, locale, code, *badges, start, out@, Err::<(), DocError>(e)));
                }
                return Err(e);
            },
        }
        i += 1;
    }
    assert(ts.take(n as int) =~= ts);
    assert(ts.take(lps.len() as int) == ts);
    Ok(())
}

fn write_groups<F: Fn(&str, Locale) -> Result<LinkTarget, DocError>>(
    out: &mut String,
    groups: &Vec<(String, Vec<&LinkTarget>)>,
    i: usize,
    locale: Locale,
    code: bool,
    badges: &BadgeHtml,
    locale_page: &F,
) -> (r: Result<(), DocError>)
    requires
        i <= groups@.len(),
        forall|s: &str, l: Locale| call_requires(*locale_page, (s, l)),
    ensures
        groups_written(*locale_page, group_views(groups@).skip(i as int), locale, code, *badges, old(out)@, final(out)@, r),
    decreases groups@.len() - i,
{
    let ghost gs = group_views(groups@).skip(i as int);
    let ghost start = out@;
    if i == groups.len() {
        assert(gs.len() == 0);
        return Ok(());
    }
    let ghost k = gs[0].0;
    let ghost ps = gs[0].1;
    assert(k == groups@[i as int].0@ && ps == targets(groups@[i as int].1@));
    let many = groups[i].1.len() > 2;
    if many {
        push_str(out, "<li class=\"toggle\"><details><summary>");
        push_str(out, groups[i].0.as_str());
        push_str(out, "-*</summary><ol>");
    }
    assert(out@ =~= start + group_open(k, ps.len()));
    let lr = write_ref_lis(out, &groups[i].1, locale, code, badges, locale_page);
    let ghost mid = out@;
    match lr {
        Ok(_) => {},
        Err(e) => {
            return Err(e);
        },
    }
    if many {
        push_str(out, "</ol></details></li>");
    }
    assert(out@ =~= mid + group_close(ps.len()));
    assert(gs.drop_first() =~= group_views(groups@).skip(i + 1));
    let r = write_groups(out, groups, i + 1, locale, code, badges, locale_page);
    assert(lis_written(*locale_page, ps, locale, code, *badges, start + group_open(k, ps.len()), mid, lr));
    r
}

/// Writes the listing of sub-pages `sub_pages` grouped by the prefixes of their titles
/// (see `groups_ok`; the pages of types `page_types`, all where none are given), in
/// `locale`: the item of `parent` (see `write_parent_li`) where it is given, then the
/// groups (see `groups_written`).
pub fn list_sub_pages_flattened_grouped_internal<F: Fn(&str, Locale) -> Result<LinkTarget, DocError>>(
    out: &mut String,
    sub_pages: &Vec<LinkTarget>,
    parent: Option<&LinkTarget>,
    locale: Locale,
    page_types: &[PageType],
    code: bool,
    files: &L10nFiles,
    badges: &BadgeHtml,
    locale_page: &F,
) -> (r: Result<(), DocError>)
    requires
        forall|s: &str, l: Locale| call_requires(*locale_page, (s, l)),
    ensures
        exists|gs: Seq<(String, Vec<&LinkTarget>)>|
            {
                &&& #[trigger] groups_ok(sub_pages@, page_types@, gs)
                &&& match parent {
                    None => groups_written(*locale_page, group_views(gs), locale, code, *badges, old(out)@, final(out)@, r),
                    Some(p) => match spec_l10n(files@, "Template"@, "overview"@, locale) {
                        Ok(label) => groups_written(
                            *locale_page,
                            group_views(gs),
                            locale,
                            code,
                            *badges,
                            old(out)@ + parent_li_html(*p, label, locale, *badges),
                            final(out)@,
                            r,
                        ),
                        Err(x) => r matches Err(DocError::L10nError(e)) && l10n_error_is(e, x) && final(out)@ == old(out)@,
                    },
                }
            },
{
    let groups = group_sub_pages(sub_pages.as_slice(), page_types);
    match parent {
        Some(p) => {
            match write_parent_li(out, p, locale, files, badges) {
                Ok(_) => {},
                Err(e) => {
                    assert(groups_ok(sub_pages@, page_types@, groups@));
                    return Err(e);
                },
            }
        },
        None => {},
    }
    assert(group_views(groups@).skip(0) =~= group_views(groups@));
    let r = write_groups(out, &groups, 0, locale, code, badges, locale_page);
    assert(groups_ok(sub_pages@, page_types@, groups@));
    r
}

} // verus!
