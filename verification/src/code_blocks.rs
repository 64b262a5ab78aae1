//! Gathering the code of live samples: the CSS, HTML and JavaScript of the `pre`
//! elements of a sample, each kind joined by newlines, with the elements taken marked
//! by the sample's class; and which headings bound a sample's section.
use vstd::prelude::*;
use crate::curriculum_sidebar::{chars_lt, chars_lt_exec};
use crate::html::Code;
use crate::text::{chars_of, push_str, str_eq};

verus! {

/// A `pre` element as gathering reads it: its classes, its text, and its place in the
/// gathering pass's table of nodes.
#[derive(Debug, Clone)]
pub struct CodePre {
    pub classes: Vec<String>,
    pub text: String,
    pub node: usize,
}

/// Code gathered for a live sample, with the `pre` elements it was taken from.
#[derive(Debug, Clone)]
pub struct CodeInternal {
    pub css: String,
    pub html: String,
    pub js: String,
    pub src: Option<String>,
    pub node_ids: Vec<usize>,
    pub id: String,
}

/// Gathered code as values: CSS, HTML, JavaScript, the nodes taken, the source and the
/// id.
pub struct CodeView {
    pub css: Seq<char>,
    pub html: Seq<char>,
    pub js: Seq<char>,
    pub nodes: Seq<usize>,
    pub src: Option<Seq<char>>,
    pub id: Seq<char>,
}

/// The view of gathered code.
pub open spec fn code_view(c: CodeInternal) -> CodeView {
    CodeView {
        css: c.css@,
        html: c.html@,
        js: c.js@,
        nodes: c.node_ids@,
        src: match c.src {
            Some(s) => Some(s@),
            None => None,
        },
        id: c.id@,
    }
}

/// Nothing gathered yet.
pub open spec fn empty_code() -> CodeView {
    CodeView { css: seq![], html: seq![], js: seq![], nodes: seq![], src: None, id: seq![] }
}

/// A kind of code of a live sample.
#[derive(Debug, Clone, Copy, PartialEq, Eq, Structural)]
pub enum CodeKind {
    Css,
    Js,
    Html,
}

/// The kind of code of a `pre` element: that of its first class among `css`, `js` and
/// `html`, none where it has none of them.
pub open spec fn kind_of(classes: Seq<Seq<char>>) -> Option<CodeKind>
    decreases classes.len(),
{
    if classes.len() == 0 {
        None
    } else if classes[0] == "css"@ {
        Some(CodeKind::Css)
    } else if classes[0] == "js"@ {
        Some(CodeKind::Js)
    } else if classes[0] == "html"@ {
        Some(CodeKind::Html)
    } else {
        kind_of(classes.drop_first())
    }
}

/// `text` added to the code `acc`, on a line of its own where `acc` is not empty.
pub open spec fn add_text(acc: Seq<char>, text: Seq<char>) -> Seq<char> {
    acc + (if acc.len() > 0 { seq!['\n'] } else { seq![] }) + text
}

/// The code with the `pre` element of classes `classes`, text `text` at `node` added:
/// its text to the code of its kind and its node to the nodes taken; unchanged where it
/// is of no kind.
pub open spec fn add_pre(a: CodeView, classes: Seq<Seq<char>>, text: Seq<char>, node: usize) -> CodeView {
    match kind_of(classes) {
        Some(CodeKind::Css) => CodeView { css: add_text(a.css, text), nodes: a.nodes.push(node), ..a },
        Some(CodeKind::Js) => CodeView { js: add_text(a.js, text), nodes: a.nodes.push(node), ..a },
        Some(CodeKind::Html) => CodeView { html: add_text(a.html, text), nodes: a.nodes.push(node), ..a },
        None => a,
    }
}

/// The classes of a `pre` element as values.
pub open spec fn class_views(p: CodePre) -> Seq<Seq<char>> {
    p.classes@.map_values(|c: String| c@)
}

/// The code gathered from `pres`, one after the other, onto `code`: `code` itself where
/// there are none; else what the first ones give (nothing gathered where that is
/// none) with the last one added.
pub open spec fn gathered(code: Option<CodeView>, pres: Seq<CodePre>) -> Option<CodeView>
    decreases pres.len(),
{
    if pres.len() == 0 {
        code
    } else {
        let a = match gathered(code, pres.drop_last()) {
            Some(a) => a,
            None => empty_code(),
        };
        Some(add_pre(a, class_views(pres.last()), pres.last().text@, pres.last().node))
    }
}

/// The view of optional gathered code.
pub open spec fn opt_code_view(c: Option<CodeInternal>) -> Option<CodeView> {
    match c {
        Some(x) => Some(code_view(x)),
        None => None,
    }
}

fn kind_exec(classes: &Vec<String>) -> (r: Option<CodeKind>)
    ensures
        r == kind_of(classes@.map_values(|c: String| c@)),
{
    let ghost cs = classes@.map_values(|c: String| c@);
    let n = classes.len();
    let mut i: usize = 0;
    assert(cs.skip(0) =~= cs);
    proof {
        reveal_strlit("css");
        reveal_strlit("js");
        reveal_strlit("html");
    }
    while i < n
        invariant
            n == classes@.len(),
            cs == classes@.map_values(|c: String| c@),
            i <= n,
            kind_of(cs.skip(i as int)) == kind_of(cs),
        decreases n - i,
    {
        let c = classes[i].as_str();
        assert(cs.skip(i as int)[0] == c@);
        assert(cs.skip(i as int).drop_first() =~= cs.skip(i + 1));
        if str_eq(c, "css") {
            return Some(CodeKind::Css);
        }
        if str_eq(c, "js") {
            return Some(CodeKind::Js);
        }
        if str_eq(c, "html") {
            return Some(CodeKind::Html);
        }
        i += 1;
    }
    assert(cs.skip(n as int).len() == 0);
    None
}

fn add_text_exec(acc: &mut String, text: &str)
    ensures
        final(acc)@ == add_text(old(acc)@, text@),
{
    let empty = str_eq(acc.as_str(), "");
    proof {
        reveal_strlit("");
        if old(acc)@.len() == 0 {
            assert(old(acc)@ =~= ""@);
        }
    }
    if !empty {
        push_str(acc, "\n");
        proof {
            reveal_strlit("\n");
        }
    }
    push_str(acc, text);
    assert(acc@ =~= add_text(old(acc)@, text@));
}

/// Gathers the code of `pres` onto `code` (see `gathered`).
pub fn code_by_query(pres: &[CodePre], code: Option<CodeInternal>) -> (r: Option<CodeInternal>)
    ensures
        opt_code_view(r) == gathered(opt_code_view(code), pres@),
{
    let n = pres.len();
    if n == 0 {
        return code;
    }
    let mut acc = match code {
        Some(c) => c,
        None => CodeInternal { css: String::new(), html: String::new(), js: String::new(), src: None, node_ids: Vec::new(), id: String::new() },
    };
    let ghost start = opt_code_view(code);
    let mut i: usize = 0;
    assert(pres@.take(0) =~= Seq::<CodePre>::empty());
    assert(code_view(acc) == match gathered(start, pres@.take(0)) {
        Some(a) => a,
        None => empty_code(),
    });
    while i < n
        invariant
            n == pres@.len(),
            n > 0,
            i <= n,
            code_view(acc) == match gathered(start, pres@.take(i as int)) {
                Some(a) => a,
                None => empty_code(),
            },
            i > 0 ==> gathered(start, pres@.take(i as int)) is Some,
        decreases n - i,
    {
        let p = &pres[i];
        assert(pres@.take(i + 1).drop_last() =~= pres@.take(i as int));
        assert(pres@.take(i + 1).last() == pres@[i as int]);
        let ghost before = code_view(acc);
        match kind_exec(&p.classes) {
            Some(CodeKind::Css) => {
                add_text_exec(&mut acc.css, p.text.as_str());
                acc.node_ids.push(p.node);
            },
            Some(CodeKind::Js) => {
                add_text_exec(&mut acc.js, p.text.as_str());
                acc.node_ids.push(p.node);
            },
            Some(CodeKind::Html) => {
                add_text_exec(&mut acc.html, p.text.as_str());
                acc.node_ids.push(p.node);
            },
            None => {},
        }
        assert(code_view(acc) == add_pre(before, class_views(*p), p.text@, p.node));
        i += 1;
    }
    assert(pres@.take(n as int) =~= pres@);
    Some(acc)
}

/// The class of a `pre` element taken into a live sample: its class, a space where it
/// has one, and `live-sample---` with the sample's id.
pub fn live_sample_class(class: Option<&str>, id: &str) -> (r: String)
    ensures
        r@ == match class {
            Some(c) => c@,
            None => seq![],
        } + (match class {
            Some(c) => if c@.len() > 0 {
                " "@
            } else {
                seq![]
            },
            None => seq![],
        }) + "live-sample---"@ + id@,
{
    let mut out = String::new();
    proof {
        reveal_strlit("");
        reveal_strlit(" ");
    }
    let ghost head = match class {
        Some(c) => c@,
        None => seq![],
    } + (match class {
        Some(c) => if c@.len() > 0 {
            " "@
        } else {
            seq![]
        },
        None => seq![],
    });
    match class {
        Some(c) => {
            push_str(&mut out, c);
            if !str_eq(c, "") {
                proof {
                    if c@.len() == 0 {
                        assert(c@ =~= ""@);
                    }
                }
                push_str(&mut out, " ");
            } else {
                assert(c@ =~= ""@);
            }
        },
        None => {},
    }
    assert(out@ =~= head);
    push_str(&mut out, "live-sample---");
    push_str(&mut out, id);
    assert(out@ =~= head + "live-sample---"@ + id@);
    out
}

/// The code of a live sample as it is listed.
pub fn to_code(c: CodeInternal) -> (r: Code)
    ensures
        r.css == c.css,
        r.html == c.html,
        r.js == c.js,
        r.src == c.src,
        r.id == c.id,
{
    Code { css: c.css, html: c.html, js: c.js, src: c.src, id: c.id }
}

/// A heading: `h1` to `h6`.
pub open spec fn spec_is_heading(name: Seq<char>) -> bool {
    name == "h1"@ || name == "h2"@ || name == "h3"@ || name == "h4"@ || name == "h5"@ || name == "h6"@
}

/// A major heading: `h1` to `h3`.
pub open spec fn spec_is_major_heading(name: Seq<char>) -> bool {
    name == "h1"@ || name == "h2"@ || name == "h3"@
}

/// Whether an element named `name` is a heading (see `spec_is_heading`).
pub fn is_heading(name: &str) -> (r: bool)
    ensures
        r == spec_is_heading(name@),
{
    str_eq(name, "h1") || str_eq(name, "h2") || str_eq(name, "h3") || str_eq(name, "h4") || str_eq(name, "h5")
        || str_eq(name, "h6")
}

/// Whether an element named `name` is a major heading (see `spec_is_major_heading`).
pub fn is_major_heading(name: &str) -> (r: bool)
    ensures
        r == spec_is_major_heading(name@),
{
    str_eq(name, "h1") || str_eq(name, "h2") || str_eq(name, "h3")
}

/// Whether an element named `name` ends the section of a heading named `h`: it is a
/// heading whose name does not come after `h`.
pub fn ends_section(name: &str, h: &str) -> (r: bool)
    ensures
        r == (spec_is_heading(name@) && !chars_lt(h@, name@)),
{
    is_heading(name) && !chars_lt_exec(&chars_of(h), &chars_of(name))
}

/// Whether an element named `name` is the heading of the section that holds a heading
/// named `h`: a major heading whose name comes before `h`.
pub fn is_parent_heading(name: &str, h: &str) -> (r: bool)
    ensures
        r == (spec_is_major_heading(name@) && chars_lt(name@, h@)),
{
    is_major_heading(name) && chars_lt_exec(&chars_of(name), &chars_of(h))
}

} // verus!
