//! The breadcrumbs of a page (the pages above it, by its URL) and the title of its HTML
//! document.
use vstd::prelude::*;
use crate::json::Parent;
use crate::resolve::DocError;
use crate::text::{
    chars_of, ends_with, reversed, last_index, lemma_last_index, push_str, rfind_char, slice_of, str_eq,
    string_of,
};
use crate::title::{root_doc_url, spec_root_doc_url, spec_transform_title, transform_title};

verus! {

/// `s` without the slashes at its end.
pub open spec fn trim_end_slash(s: Seq<char>) -> Seq<char>
    decreases s.len(),
{
    if s.len() > 0 && s.last() == '/' {
        trim_end_slash(s.drop_last())
    } else {
        s
    }
}

pub proof fn lemma_trim_end_slash(s: Seq<char>)
    ensures
        trim_end_slash(s).len() <= s.len(),
        trim_end_slash(s) == s.take(trim_end_slash(s).len() as int),
        trim_end_slash(s).len() > 0 ==> trim_end_slash(s).last() != '/',
    decreases s.len(),
{
    if s.len() > 0 && s.last() == '/' {
        lemma_trim_end_slash(s.drop_last());
        assert(s.drop_last().take(trim_end_slash(s).len() as int) =~= s.take(trim_end_slash(s).len() as int));
    } else {
        assert(s.take(s.len() as int) =~= s);
    }
}

/// The URL one level above `url`: up to its last `/` before any trailing ones (that `/`
/// kept where URLs end in a slash); none where there is no such `/`.
pub open spec fn parent_url(url: Seq<char>, trailing_slash: bool) -> Option<Seq<char>> {
    let t = trim_end_slash(url);
    match last_index(t, '/') {
        Some(i) => Some(
            url.take(
                if trailing_slash {
                    i + 1
                } else {
                    i
                },
            ),
        ),
        None => None,
    }
}

pub proof fn lemma_parent_url_shorter(url: Seq<char>, trailing_slash: bool)
    ensures
        parent_url(url, trailing_slash) matches Some(p) ==> p.len() < url.len(),
{
    let t = trim_end_slash(url);
    lemma_trim_end_slash(url);
    lemma_last_index(t, '/');
}

/// The URLs above `url`, nearest first, up to (not including) the first that ends in
/// `base_slug`.
pub open spec fn spec_parent_urls(url: Seq<char>, trailing_slash: bool, base_slug: Seq<char>) -> Seq<Seq<char>>
    decreases url.len(),
{
    match parent_url(url, trailing_slash) {
        Some(p) => if base_slug.is_suffix_of(p) {
            seq![]
        } else {
            proof {
                lemma_parent_url_shorter(url, trailing_slash);
            }
            seq![p] + spec_parent_urls(p, trailing_slash, base_slug)
        },
        None => seq![],
    }
}

fn parent_url_exec(url: &Vec<char>, trailing_slash: bool) -> (r: Option<Vec<char>>)
    ensures
        match parent_url(url@, trailing_slash) {
            Some(p) => r matches Some(v) && v@ == p,
            None => r is None,
        },
{
    let mut t: usize = url.len();
    assert(url@.take(t as int) =~= url@);
    while t > 0 && url[t - 1] == '/'
        invariant
            t <= url@.len(),
            trim_end_slash(url@) == trim_end_slash(url@.take(t as int)),
        decreases t,
    {
        assert(url@.take(t as int).drop_last() =~= url@.take(t - 1));
        t -= 1;
    }
    let tv = slice_of(url.as_slice(), 0, t);
    assert(tv@ == url@.take(t as int));
    assert(trim_end_slash(tv@) == tv@);
    match rfind_char(tv.as_slice(), '/') {
        Some(i) => {
            let end = if trailing_slash { i + 1 } else { i };
            Some(slice_of(url.as_slice(), 0, end))
        },
        None => None,
    }
}

/// The URLs above `url`, nearest first (see `spec_parent_urls`).
pub fn parent_urls(url: &str, trailing_slash: bool, base_slug: &str) -> (r: Vec<String>)
    ensures
        r@.map_values(|s: String| s@) == spec_parent_urls(url@, trailing_slash, base_slug@),
{
    let mut r: Vec<String> = Vec::new();
    let mut cur = chars_of(url);
    let base = chars_of(base_slug);
    let ghost start = url@;
    assert(r@.map_values(|s: String| s@) + spec_parent_urls(cur@, trailing_slash, base_slug@) =~= spec_parent_urls(start, trailing_slash, base_slug@));
    loop
        invariant
            base@ == base_slug@,
            start == url@,
            r@.map_values(|s: String| s@) + spec_parent_urls(cur@, trailing_slash, base_slug@) == spec_parent_urls(start, trailing_slash, base_slug@),
        decreases cur@.len(),
    {
        proof {
            lemma_parent_url_shorter(cur@, trailing_slash);
        }
        match parent_url_exec(&cur, trailing_slash) {
            Some(p) => {
                if ends_with(p.as_slice(), base.as_slice()) {
                    assert(spec_parent_urls(cur@, trailing_slash, base_slug@) =~= seq![]);
                    assert(r@.map_values(|s: String| s@) =~= r@.map_values(|s: String| s@) + seq![]);
                    return r;
                }
                let ghost before = r@.map_values(|s: String| s@);
                r.push(string_of(p.as_slice()));
                assert(r@.map_values(|s: String| s@) =~= before.push(p@));
                assert(before + (seq![p@] + spec_parent_urls(p@, trailing_slash, base_slug@)) =~= before.push(p@)
                    + spec_parent_urls(p@, trailing_slash, base_slug@));
                cur = p;
            },
            None => {
                assert(r@.map_values(|s: String| s@) =~= r@.map_values(|s: String| s@) + seq![]);
                return r;
            },
        }
    }
}

/// A page as a breadcrumb shows it: its URL, title and short title.
#[derive(Debug, Clone)]
pub struct TitledPage {
    pub url: String,
    pub title: String,
    pub short_title: Option<String>,
}

/// The breadcrumb of a page: its URL, and its short title, else its title as the
/// breadcrumbs shorten it.
pub open spec fn crumb(p: TitledPage) -> (Seq<char>, Seq<char>) {
    (
        p.url@,
        match p.short_title {
            Some(s) => s@,
            None => spec_transform_title(p.title@),
        },
    )
}

/// The breadcrumbs of the pages that were found, in order.
pub open spec fn found_crumbs(found: Seq<Option<TitledPage>>) -> Seq<(Seq<char>, Seq<char>)>
    decreases found.len(),
{
    if found.len() == 0 {
        seq![]
    } else {
        found_crumbs(found.drop_last()) + match found.last() {
            Some(p) => seq![crumb(p)],
            None => seq![],
        }
    }
}

fn crumb_of(p: &TitledPage) -> (r: Parent)
    ensures
        (r.uri@, r.title@) == crumb(*p),
{
    let title = match &p.short_title {
        Some(s) => s.clone(),
        None => string_of(chars_of(transform_title(p.title.as_str())).as_slice()),
    };
    Parent { uri: p.url.clone(), title }
}

/// The breadcrumbs of `doc`, root first: the pages found above it (`found`, one entry
/// for each URL of `parent_urls`, nearest first, none where no page is there), then
/// `doc` itself.
pub fn parents(doc: &TitledPage, found: &[Option<TitledPage>]) -> (r: Vec<Parent>)
    ensures
        r@.map_values(|p: Parent| (p.uri@, p.title@)) == (seq![crumb(*doc)] + found_crumbs(found@)).reverse(),
{
    let mut fwd: Vec<Parent> = Vec::new();
    fwd.push(crumb_of(doc));
    let n = found.len();
    let mut i: usize = 0;
    assert(found@.take(0) =~= Seq::<Option<TitledPage>>::empty());
    assert(fwd@.map_values(|p: Parent| (p.uri@, p.title@)) =~= seq![crumb(*doc)] + found_crumbs(found@.take(0)));
    while i < n
        invariant
            n == found@.len(),
            i <= n,
            fwd@.map_values(|p: Parent| (p.uri@, p.title@)) == seq![crumb(*doc)] + found_crumbs(found@.take(i as int)),
        decreases n - i,
    {
        assert(found@.take(i + 1).drop_last() =~= found@.take(i as int));
        assert(found@.take(i + 1).last() == found@[i as int]);
        let ghost before = fwd@.map_values(|p: Parent| (p.uri@, p.title@));
        match &found[i] {
            Some(p) => {
                fwd.push(crumb_of(p));
                assert(fwd@.map_values(|p: Parent| (p.uri@, p.title@)) =~= before.push(crumb(*p)));
                assert(seq![crumb(*doc)] + found_crumbs(found@.take(i + 1)) =~= (seq![crumb(*doc)] + found_crumbs(found@.take(i as int))).push(crumb(*p)));
            },
            None => {
                assert(seq![crumb(*doc)] + found_crumbs(found@.take(i + 1)) =~= seq![crumb(*doc)] + found_crumbs(found@.take(i as int)));
            },
        }
        i += 1;
    }
    assert(found@.take(n as int) =~= found@);
    let ghost all = fwd@;
    let r = reversed(fwd);
    assert(r@.map_values(|p: Parent| (p.uri@, p.title@)) =~= all.map_values(|p: Parent| (p.uri@, p.title@)).reverse());
    r
}

/// The title of a page's HTML document: its title, then ` - ` and the short title (else
/// title) of the root document of its section where it has one, then ` | ` and its
/// title suffix where one is asked for and it has one.
pub open spec fn spec_page_title(title: Seq<char>, root: Option<TitledPage>, suffix: Option<Seq<char>>, with_suffix: bool) -> Seq<char> {
    title + match root {
        Some(p) => " - "@ + match p.short_title {
            Some(s) => s@,
            None => p.title@,
        },
        None => ""@,
    } + if with_suffix && suffix is Some {
        " | "@ + suffix->0
    } else {
        ""@
    }
}

/// The title of the HTML document of `doc` (see `spec_page_title`). `lookup_root` reads
/// the root document of its section, at the URL `root_doc_url` gives; it is called only
/// where there is such a URL other than the page's own, and its error is returned.
pub fn page_title<F: FnOnce(&str) -> Result<TitledPage, DocError>>(
    doc: &TitledPage,
    title_suffix: Option<&str>,
    with_suffix: bool,
    lookup_root: F,
) -> (r: Result<String, DocError>)
    requires
        forall|u: &str| call_requires(lookup_root, (u,)),
    ensures
        ({
            let suffix = match title_suffix {
                Some(s) => Some(s@),
                None => None,
            };
            match spec_root_doc_url(doc.url@) {
                Some(root) if root != doc.url@ => exists|u: &str, res: Result<TitledPage, DocError>|
                    #![trigger call_ensures(lookup_root, (u,), res)]
                    {
                        &&& u@ == root
                        &&& call_ensures(lookup_root, (u,), res)
                        &&& match res {
                            Ok(p) => r matches Ok(t) && t@ == spec_page_title(doc.title@, Some(p), suffix, with_suffix),
                            Err(e) => r == Err::<String, DocError>(e),
                        }
                    },
                _ => r matches Ok(t) && t@ == spec_page_title(doc.title@, None, suffix, with_suffix),
            }
        }),
{
    let mut out = String::new();
    push_str(&mut out, doc.title.as_str());
    let ghost root_page: Option<TitledPage> = None;
    match root_doc_url(doc.url.as_str()) {
        Some(root_url) => {
            if !str_eq(root_url, doc.url.as_str()) {
                let res = lookup_root(root_url);
                let ghost gres = res;
                match res {
                    Ok(root_doc) => {
                        push_str(&mut out, " - ");
                        match &root_doc.short_title {
                            Some(st) => push_str(&mut out, st.as_str()),
                            None => push_str(&mut out, root_doc.title.as_str()),
                        }
                        proof {
                            root_page = Some(root_doc);
                        }
                    },
                    Err(e) => {
                        assert(call_ensures(lookup_root, (root_url,), gres));
                        return Err(e);
                    },
                }
                assert(call_ensures(lookup_root, (root_url,), gres));
            }
        },
        None => {},
    }
    if with_suffix {
        match title_suffix {
            Some(suffix) => {
                push_str(&mut out, " | ");
                push_str(&mut out, suffix);
            },
            None => {},
        }
    }
    proof {
        reveal_strlit("");
        let suffix = match title_suffix {
            Some(s) => Some(s@),
            None => None,
        };
        assert(out@ =~= spec_page_title(doc.title@, root_page, suffix, with_suffix));
    }
    Ok(out)
}

/// The number of pages that were found.
pub open spec fn found_count(found: Seq<Option<TitledPage>>) -> nat
    decreases found.len(),
{
    if found.len() == 0 {
        0
    } else {
        found_count(found.drop_last()) + if found.last() is Some {
            1nat
        } else {
            0nat
        }
    }
}

/// The breadcrumbs of a page end with the page itself, and hold one crumb for each page
/// found above it besides.
pub proof fn law_breadcrumbs_end_with_the_page(doc: TitledPage, found: Seq<Option<TitledPage>>)
    ensures
        ({
            let p = (seq![crumb(doc)] + found_crumbs(found)).reverse();
            &&& p.len() == 1 + found_count(found)
            &&& p.last() == crumb(doc)
        }),
    decreases found.len(),
{
    if found.len() > 0 {
        law_breadcrumbs_end_with_the_page(doc, found.drop_last());
    }
    let q = seq![crumb(doc)] + found_crumbs(found);
    assert(q.reverse().last() == q[0]);
}

} // verus!
