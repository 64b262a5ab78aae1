//! Small pieces of HTML handling: live-sample code, link flags, section types, links of
//! the Web API sidebar, and trimming a paragraph off a rendered summary.
use vstd::prelude::*;
use crate::text::{
    chars_of, find_str, push_str, replace, replace_str, slice_of, split_once_str, string_of,
    strip_prefix, strip_suffix, starts_with, ends_with,
};

verus! {

/// The code of a live sample.
#[derive(Debug, Default, Clone)]
pub struct Code {
    pub css: String,
    pub html: String,
    pub js: String,
    pub src: Option<String>,
    pub id: String,
}

/// How a link is rendered: in code font, with status badges, reporting issues.
#[derive(Clone, Copy, Debug)]
pub struct LinkFlags {
    pub code: bool,
    pub with_badges: bool,
    pub report: bool,
}

/// The kind of a section of a built document.
#[derive(Debug, Clone, Copy, PartialEq, Eq, Structural)]
pub enum BuildSectionType {
    Prose,
    Compat,
    Specification,
    Unknown,
}

/// A link of the Web API sidebar: its title and target.
#[derive(Debug)]
pub struct APILink {
    pub title: Option<String>,
    pub link: String,
}

/// The link to a Web API member `s` (`Interface.member()` style): `()` dropped and `.`
/// as `/`.
pub open spec fn api_link(s: Seq<char>) -> Seq<char> {
    "/Web/API/"@ + replace(replace(s, "()"@, ""@), "."@, "/"@)
}

/// The link to event `ev` (written `Interface: name`).
pub open spec fn event_link(ev: Seq<char>) -> Option<Seq<char>> {
    match split_once_str(ev, ": "@) {
        Some((interface, event)) => Some("/Web/API/"@ + interface + "/"@ + event + "_event"@),
        None => None,
    }
}

impl APILink {
    /// The link to Web API member `s`, titled `s`.
    pub fn from(s: &str) -> (r: Option<APILink>)
        ensures
            r matches Some(l) && l.title matches Some(t) && t@ == s@ && l.link@ == api_link(s@),
    {
        proof {
            reveal_strlit("()");
            reveal_strlit(".");
        }
        let a = replace_str(s, "()", "");
        let b = replace_str(a.as_str(), ".", "/");
        let mut link = String::new();
        push_str(&mut link, "/Web/API/");
        push_str(&mut link, b.as_str());
        Some(APILink { title: Some(string_of(chars_of(s).as_slice())), link })
    }

    /// The link to event `ev` (`Interface: name`), titled `ev`; none where `ev` has no
    /// `: `.
    pub fn from_event(ev: &str) -> (r: Option<APILink>)
        ensures
            match event_link(ev@) {
                Some(l) => r matches Some(x) && x.title matches Some(t) && t@ == ev@ && x.link@ == l,
                None => r is None,
            },
    {
        let v = chars_of(ev);
        let sep = chars_of(": ");
        proof {
            reveal_strlit(": ");
        }
        assert(sep@.len() == 2);
        let vn = v.len();
        match find_str(v.as_slice(), sep.as_slice()) {
            Some(i) => {
                let interface = slice_of(v.as_slice(), 0, i);
                let event = slice_of(v.as_slice(), i + 2, v.len());
                assert(interface@ =~= v@.take(i as int));
                assert(event@ =~= v@.skip(i + 2));
                let mut link = String::new();
                push_str(&mut link, "/Web/API/");
                push_str(&mut link, string_of(interface.as_slice()).as_str());
                push_str(&mut link, "/");
                push_str(&mut link, string_of(event.as_slice()).as_str());
                push_str(&mut link, "_event");
                Some(APILink { link, title: Some(string_of(v.as_slice())) })
            },
            None => None,
        }
    }
}

/// Unicode white space, as `char::is_whitespace` tells it.
pub open spec fn is_whitespace(c: char) -> bool {
    let u = c as u32;
    (0x09 <= u && u <= 0x0D) || u == 0x20 || u == 0x85 || u == 0xA0 || u == 0x1680 || (0x2000 <= u
        && u <= 0x200A) || u == 0x2028 || u == 0x2029 || u == 0x202F || u == 0x205F || u == 0x3000
}

fn is_whitespace_exec(c: char) -> (r: bool)
    ensures
        r == is_whitespace(c),
{
    let u = c as u32;
    (0x09 <= u && u <= 0x0D) || u == 0x20 || u == 0x85 || u == 0xA0 || u == 0x1680 || (0x2000 <= u
        && u <= 0x200A) || u == 0x2028 || u == 0x2029 || u == 0x202F || u == 0x205F || u == 0x3000
}

/// The number of white-space characters `s` starts with.
pub open spec fn leading_ws(s: Seq<char>) -> nat
    decreases s.len(),
{
    if s.len() > 0 && is_whitespace(s[0]) {
        1 + leading_ws(s.drop_first())
    } else {
        0
    }
}

/// The number of white-space characters `s` ends with.
pub open spec fn trailing_ws(s: Seq<char>) -> nat
    decreases s.len(),
{
    if s.len() > 0 && is_whitespace(s.last()) {
        1 + trailing_ws(s.drop_last())
    } else {
        0
    }
}

/// `s` without white space at either end (`str::trim`).
pub open spec fn trim(s: Seq<char>) -> Seq<char> {
    let a = s.skip(leading_ws(s) as int);
    a.take(a.len() - trailing_ws(a))
}

proof fn lemma_leading_ws(s: Seq<char>)
    ensures
        leading_ws(s) <= s.len(),
        forall|k: int| 0 <= k < leading_ws(s) ==> is_whitespace(#[trigger] s[k]),
        leading_ws(s) < s.len() ==> !is_whitespace(s[leading_ws(s) as int]),
    decreases s.len(),
{
    if s.len() > 0 && is_whitespace(s[0]) {
        lemma_leading_ws(s.drop_first());
        assert forall|k: int| 0 <= k < leading_ws(s) implies is_whitespace(#[trigger] s[k]) by {
            if k > 0 {
                assert(s[k] == s.drop_first()[k - 1]);
            }
        }
    }
}

proof fn lemma_trailing_ws(s: Seq<char>)
    ensures
        trailing_ws(s) <= s.len(),
    decreases s.len(),
{
    if s.len() > 0 && is_whitespace(s.last()) {
        lemma_trailing_ws(s.drop_last());
    }
}

pub(crate) fn trim_exec(v: &Vec<char>) -> (r: Vec<char>)
    ensures
        r@ == trim(v@),
{
    let n = v.len();
    let mut i: usize = 0;
    assert(v@.skip(0) =~= v@);
    while i < n && is_whitespace_exec(v[i as usize])
        invariant
            n == v@.len(),
            i <= n,
            leading_ws(v@) == i + leading_ws(v@.skip(i as int)),
        decreases n - i,
    {
        assert(v@.skip(i as int).drop_first() =~= v@.skip(i + 1));
        assert(v@.skip(i as int)[0] == v@[i as int]);
        i += 1;
    }
    proof {
        if i < n {
            assert(v@.skip(i as int)[0] == v@[i as int]);
        }
    }
    let a = slice_of(v.as_slice(), i, n);
    assert(a@ =~= v@.skip(leading_ws(v@) as int));
    let m = a.len();
    let mut j: usize = m;
    assert(a@.take(m as int) =~= a@);
    while j > 0 && is_whitespace_exec(a[j - 1])
        invariant
            m == a@.len(),
            j <= m,
            trailing_ws(a@) == (m - j) + trailing_ws(a@.take(j as int)),
        decreases j,
    {
        assert(a@.take(j as int).drop_last() =~= a@.take(j - 1));
        assert(a@.take(j as int).last() == a@[j - 1]);
        j -= 1;
    }
    proof {
        if j > 0 {
            assert(a@.take(j as int).last() == a@[j - 1]);
        }
    }
    let r = slice_of(a.as_slice(), 0, j);
    assert(r@ =~= a@.take(j as int));
    r
}

/// What `strip_paragraph_unckecked` gives: the trimmed input without a leading `<p>`
/// (else the input as it is), then trimmed again without a trailing `</p>` (else as it
/// was).
pub open spec fn spec_strip_paragraph(input: Seq<char>) -> Seq<char> {
    let out = match strip_prefix(trim(input), "<p>"@) {
        Some(o) => o,
        None => input,
    };
    match strip_suffix(trim(out), "</p>"@) {
        Some(o) => o,
        None => out,
    }
}

/// Takes a `<p>` element off a rendered summary in good faith: it does not check that the
/// paragraph is the root, so `<p>foo</p>bar` gives invalid HTML.
pub fn strip_paragraph_unckecked(input: &str) -> (r: String)
    ensures
        r@ == spec_strip_paragraph(input@),
{
    let v = chars_of(input);
    let t = trim_exec(&v);
    let p_open = chars_of("<p>");
    let p_close = chars_of("</p>");
    let out: Vec<char> = if starts_with(t.as_slice(), p_open.as_slice()) {
        let o = slice_of(t.as_slice(), p_open.len(), t.len());
        assert(o@ =~= t@.skip(p_open@.len() as int));
        o
    } else {
        v
    };
    let t2 = trim_exec(&out);
    if ends_with(t2.as_slice(), p_close.as_slice()) {
        let o = slice_of(t2.as_slice(), 0, t2.len() - p_close.len());
        assert(o@ =~= t2@.take(t2@.len() - p_close@.len()));
        string_of(o.as_slice())
    } else {
        string_of(out.as_slice())
    }
}

} // verus!
