//! Page titles: backtick code spans, short titles for well-known sections, and the URL
//! of the document a page's title refers back to.
use vstd::prelude::*;
use crate::text::{
    chars_of, push_char, push_chars, push_str, replace, replace_vec, seq_eq, slice_of, split,
    split_vec, str_eq,
};

verus! {

/// How a title is rendered.
#[derive(Clone, Copy, Debug, PartialEq, Eq, Structural)]
pub enum TitleFormat {
    Plain,
    Html,
}

/// The HTML text escape of one character: `&`, `<` and `>` become entities.
pub open spec fn escape_char(c: char) -> Seq<char> {
    if c == '&' {
        "&amp;"@
    } else if c == '<' {
        "&lt;"@
    } else if c == '>' {
        "&gt;"@
    } else {
        seq![c]
    }
}

/// The HTML text escape of `s`.
pub open spec fn escape_text(s: Seq<char>) -> Seq<char>
    decreases s.len(),
{
    if s.len() == 0 {
        seq![]
    } else {
        escape_char(s[0]) + escape_text(s.drop_first())
    }
}

/// The placeholder that stands for an escaped backtick while splitting.
pub open spec fn placeholder() -> char {
    '\u{FFFE}'
}

/// The output for piece `i` of `n` pieces between backticks.
pub open spec fn backtick_piece(p: Seq<char>, i: int, n: int, html: bool) -> Seq<char> {
    let odd = i % 2 == 1;
    let last = i == n - 1;
    let s = replace(p, seq![placeholder()], seq!['`']);
    let pre = if odd && last {
        seq!['`']
    } else {
        seq![]
    };
    pre + if html {
        if odd && !last {
            "<code>"@ + escape_text(s) + "</code>"@
        } else {
            escape_text(s)
        }
    } else {
        s
    }
}

/// The output for the first `k` pieces.
pub open spec fn backtick_pieces(parts: Seq<Seq<char>>, k: int, html: bool) -> Seq<char>
    decreases k,
{
    if k <= 0 {
        seq![]
    } else {
        backtick_pieces(parts, k - 1, html) + backtick_piece(
            parts[k - 1],
            k - 1,
            parts.len() as int,
            html,
        )
    }
}

/// What `process_backticks` gives: text between matched backticks is code (wrapped in
/// `<code>` in HTML), an unmatched backtick stays, `\`` is a literal backtick, and in
/// HTML everything is text-escaped.
pub open spec fn spec_process_backticks(title: Seq<char>, html: bool) -> Seq<char> {
    let normalized = replace(title, "\\`"@, seq![placeholder()]);
    let parts = split(normalized, '`');
    backtick_pieces(parts, parts.len() as int, html)
}

/// Escapes `&`, `<` and `>` for use as HTML text (`html_escape::encode_text`).
#[verifier::external_body]
fn encode_text(s: &[char]) -> (r: Vec<char>)
    ensures
        r@ == escape_text(s@),
{
    let t: String = s.iter().collect();
    html_escape::encode_text(&t).chars().collect()
}

/// Renders backtick code spans in a title, as plain text or as HTML.
pub fn process_backticks(title: &str, format: TitleFormat) -> (out: String)
    ensures
        out@ == spec_process_backticks(title@, format == TitleFormat::Html),
{
    let html = match format {
        TitleFormat::Html => true,
        TitleFormat::Plain => false,
    };
    let mut out = String::new();
    let tv = chars_of(title);
    let esc = chars_of("\\`");
    let ph: Vec<char> = vec!['\u{FFFE}'];
    let bt: Vec<char> = vec!['`'];
    proof {
        assert(ph@ =~= seq![placeholder()]);
        assert(bt@ =~= seq!['`']);
    }
    proof {
        reveal_strlit("\\`");
    }
    let normalized = replace_vec(tv.as_slice(), esc.as_slice(), ph.as_slice());
    let parts = split_vec(normalized.as_slice(), '`');
    let ghost ps = split(normalized@, '`');
    let n = parts.len();
    let mut i: usize = 0;
    while i < n
        invariant
            n == parts@.len(),
            n == ps.len(),
            i <= n,
            forall|j: int| 0 <= j < n ==> #[trigger] parts@[j]@ == ps[j],
            out@ == backtick_pieces(ps, i as int, html),
            ph@ == seq![placeholder()],
            bt@ == seq!['`'],
        decreases n - i,
    {
        let is_odd = i % 2 == 1;
        let is_last = i == n - 1;
        let is_unmatched = is_odd && is_last;
        let is_code = is_odd && !is_last;
        assert(parts@[i as int]@ == ps[i as int]);
        let s = replace_vec(parts[i].as_slice(), ph.as_slice(), bt.as_slice());
        let ghost before = out@;
        if is_unmatched {
            push_char(&mut out, '`');
        }
        let ghost with_pre = out@;
        if html {
            if is_code {
                push_str(&mut out, "<code>");
            }
            let e = encode_text(s.as_slice());
            push_chars(&mut out, e.as_slice());
            if is_code {
                push_str(&mut out, "</code>");
            }
        } else {
            push_chars(&mut out, s.as_slice());
        }
        proof {
            let pre = if is_unmatched {
                seq!['`']
            } else {
                Seq::<char>::empty()
            };
            assert(with_pre =~= before + pre);
            let piece = backtick_piece(ps[i as int], i as int, n as int, html);
            assert(out@ =~= before + piece);
        }
        i += 1;
    }
    out
}

/// Short titles for a few well-known section roots.
pub open spec fn spec_transform_title(t: Seq<char>) -> Seq<char> {
    if t == "Web technology for developers"@ {
        "References"@
    } else if t == "Learn web development"@ {
        "Learn"@
    } else if t == "HTML: HyperText Markup Language"@ {
        "HTML"@
    } else if t == "CSS: Cascading Style Sheets"@ {
        "CSS"@
    } else if t == "Graphics on the Web"@ {
        "Graphics"@
    } else if t == "HTML elements reference"@ {
        "Elements"@
    } else if t == "JavaScript reference"@ {
        "Reference"@
    } else if t == "JavaScript Guide"@ {
        "Guide"@
    } else if t == "Structuring the web with HTML"@ {
        "HTML"@
    } else if t == "Learn to style HTML using CSS"@ {
        "CSS"@
    } else if t == "Web forms — Working with user data"@ {
        "Forms"@
    } else {
        t
    }
}

/// The short title used for a section root, or the title itself.
pub fn transform_title(title: &str) -> (r: &str)
    ensures
        r@ == spec_transform_title(title@),
{
    if str_eq(title, "Web technology for developers") {
        "References"
    } else if str_eq(title, "Learn web development") {
        "Learn"
    } else if str_eq(title, "HTML: HyperText Markup Language") {
        "HTML"
    } else if str_eq(title, "CSS: Cascading Style Sheets") {
        "CSS"
    } else if str_eq(title, "Graphics on the Web") {
        "Graphics"
    } else if str_eq(title, "HTML elements reference") {
        "Elements"
    } else if str_eq(title, "JavaScript reference") {
        "Reference"
    } else if str_eq(title, "JavaScript Guide") {
        "Guide"
    } else if str_eq(title, "Structuring the web with HTML") {
        "HTML"
    } else if str_eq(title, "Learn to style HTML using CSS") {
        "CSS"
    } else if str_eq(title, "Web forms — Working with user data") {
        "Forms"
    } else {
        title
    }
}

/// Positions of the `/` characters of `s`, in order.
pub open spec fn slash_positions(s: Seq<char>) -> Seq<int>
    decreases s.len(),
{
    if s.len() == 0 {
        seq![]
    } else if s.last() == '/' {
        slash_positions(s.drop_last()).push(s.len() - 1)
    } else {
        slash_positions(s.drop_last())
    }
}

/// The path segment that follows slash number `k` (up to the next slash or the end).
pub open spec fn seg(s: Seq<char>, ps: Seq<int>, k: int) -> Seq<char> {
    s.subrange(
        ps[k] + 1,
        if k + 1 < ps.len() {
            ps[k + 1]
        } else {
            s.len() as int
        },
    )
}

/// `s` cut before slash number `k`, or all of `s` when there is no such slash.
pub open spec fn cut(s: Seq<char>, ps: Seq<int>, k: int) -> Seq<char> {
    s.take(
        if k < ps.len() {
            ps[k]
        } else {
            s.len() as int
        },
    )
}

pub open spec fn is_base_seg(x: Seq<char>) -> bool {
    x == "Guides"@ || x == "Reference"@
}

/// The last slash before slash number `k` whose segment is `Guides` or `Reference`.
pub open spec fn last_base(s: Seq<char>, ps: Seq<int>, k: int) -> Option<int>
    decreases k,
{
    if k <= 0 {
        None
    } else if is_base_seg(seg(s, ps, k - 1)) {
        Some(k - 1)
    } else {
        last_base(s, ps, k - 1)
    }
}

/// The URL of the document whose title a page's title is suffixed with.
pub open spec fn spec_root_doc_url(s: Seq<char>) -> Option<Seq<char>> {
    let ps = slash_positions(s);
    let n = ps.len() as int;
    if n < 3 {
        None
    } else if seg(s, ps, 1) == "blog"@ || seg(s, ps, 1) == "curriculum"@ {
        None
    } else if seg(s, ps, 1) == "docs"@ && seg(s, ps, 2) == "Web"@ {
        match last_base(s, ps, n) {
            Some(j) => Some(s.take(ps[j])),
            None => Some(cut(s, ps, 4)),
        }
    } else if seg(s, ps, 1) == "docs"@ && (seg(s, ps, 2) == "conflicting"@ || seg(s, ps, 2)
        == "orphaned"@) {
        None
    } else {
        Some(cut(s, ps, 3))
    }
}

proof fn lemma_slash_positions(s: Seq<char>)
    ensures
        forall|k: int|
            0 <= k < slash_positions(s).len() ==> 0 <= #[trigger] slash_positions(s)[k] < s.len()
                && s[slash_positions(s)[k]] == '/',
        forall|j: int, k: int|
            0 <= j < k < slash_positions(s).len() ==> slash_positions(s)[j] < slash_positions(
                s,
            )[k],
    decreases s.len(),
{
    if s.len() > 0 {
        let t = s.drop_last();
        lemma_slash_positions(t);
        let pt = slash_positions(t);
        assert forall|k: int| 0 <= k < pt.len() implies s[#[trigger] pt[k]] == '/' by {
            assert(s[pt[k]] == t[pt[k]]);
        }
    }
}

fn slashes_of(v: &[char]) -> (r: Vec<usize>)
    ensures
        r@.len() == slash_positions(v@).len(),
        forall|k: int| 0 <= k < r@.len() ==> r@[k] as int == #[trigger] slash_positions(v@)[k],
{
    let mut r: Vec<usize> = Vec::new();
    let n = v.len();
    let mut i: usize = 0;
    assert(v@.take(0) =~= Seq::<char>::empty());
    while i < n
        invariant
            n == v@.len(),
            i <= n,
            r@.len() == slash_positions(v@.take(i as int)).len(),
            forall|k: int|
                0 <= k < r@.len() ==> r@[k] as int == #[trigger] slash_positions(
                    v@.take(i as int),
                )[k],
        decreases n - i,
    {
        assert(v@.take(i + 1).drop_last() =~= v@.take(i as int));
        if v[i] == '/' {
            r.push(i);
        }
        i += 1;
    }
    assert(v@.take(n as int) =~= v@);
    r
}

fn seg_exec(v: &[char], ps: &Vec<usize>, k: usize) -> (r: Vec<char>)
    requires
        ps@.len() == slash_positions(v@).len(),
        forall|j: int| 0 <= j < ps@.len() ==> ps@[j] as int == #[trigger] slash_positions(v@)[j],
        k < ps@.len(),
    ensures
        r@ == seg(v@, slash_positions(v@), k as int),
{
    proof {
        lemma_slash_positions(v@);
        assert(ps@[k as int] as int == slash_positions(v@)[k as int]);
        if k + 1 < ps@.len() {
            assert(ps@[k + 1] as int == slash_positions(v@)[k + 1]);
        }
    }
    let end = if k < ps.len() - 1 {
        ps[k + 1]
    } else {
        v.len()
    };
    slice_of(v, ps[k] + 1, end)
}

fn seg_is(v: &[char], ps: &Vec<usize>, k: usize, lit: &str) -> (r: bool)
    requires
        ps@.len() == slash_positions(v@).len(),
        forall|j: int| 0 <= j < ps@.len() ==> ps@[j] as int == #[trigger] slash_positions(v@)[j],
        k < ps@.len(),
    ensures
        r == (seg(v@, slash_positions(v@), k as int) == lit@),
{
    let s = seg_exec(v, ps, k);
    let l = chars_of(lit);
    seq_eq(s.as_slice(), l.as_slice())
}

fn find_last_base(vs: &[char], ps: &Vec<usize>) -> (r: Option<usize>)
    requires
        ps@.len() == slash_positions(vs@).len(),
        forall|j: int| 0 <= j < ps@.len() ==> ps@[j] as int == #[trigger] slash_positions(vs@)[j],
    ensures
        match r {
            Some(j) => last_base(vs@, slash_positions(vs@), ps@.len() as int) == Some(j as int)
                && j < ps@.len(),
            None => last_base(vs@, slash_positions(vs@), ps@.len() as int) is None,
        },
{
    let ghost sp = slash_positions(vs@);
    let n = ps.len();
    let mut k = n;
    while k > 0
        invariant
            k <= n,
            n == ps@.len(),
            ps@.len() == sp.len(),
            sp == slash_positions(vs@),
            forall|j: int| 0 <= j < ps@.len() ==> ps@[j] as int == #[trigger] sp[j],
            last_base(vs@, sp, n as int) == last_base(vs@, sp, k as int),
        decreases k,
    {
        let g = seg_is(vs, ps, k - 1, "Guides");
        let rf = seg_is(vs, ps, k - 1, "Reference");
        if g || rf {
            assert(is_base_seg(seg(vs@, sp, k - 1)));
            return Some(k - 1);
        }
        k -= 1;
    }
    None
}

/// The URL of the document whose title is appended to a page's title, if any:
/// under `/docs/Web/` the closest `Guides` or `Reference` parent (else the first four
/// segments), elsewhere the first three segments; nothing for blog, curriculum,
/// conflicting and orphaned pages.
pub fn root_doc_url(url: &str) -> (r: Option<&str>)
    ensures
        match r {
            Some(u) => spec_root_doc_url(url@) == Some(u@),
            None => spec_root_doc_url(url@) is None,
        },
{
    let v = chars_of(url);
    let vs = v.as_slice();
    let ps = slashes_of(vs);
    let ghost sp = slash_positions(v@);
    proof {
        lemma_slash_positions(v@);
    }
    let n = ps.len();
    if n < 3 {
        return None;
    }
    if seg_is(vs, &ps, 1, "blog") || seg_is(vs, &ps, 1, "curriculum") {
        return None;
    }
    let docs = seg_is(vs, &ps, 1, "docs");
    if docs && seg_is(vs, &ps, 2, "Web") {
        match find_last_base(vs, &ps) {
            Some(j) => {
                proof {
                    assert(ps@[j as int] as int == sp[j as int]);
                }
                return Some(url.substring_char(0, ps[j]));
            },
            None => {},
        }
        let end = if 4 < n {
            ps[4]
        } else {
            v.len()
        };
        proof {
            if 4 < n {
                assert(ps@[4] as int == sp[4]);
            }
        }
        return Some(url.substring_char(0, end));
    }
    if docs && (seg_is(vs, &ps, 2, "conflicting") || seg_is(vs, &ps, 2, "orphaned")) {
        return None;
    }
    let end = if 3 < n {
        ps[3]
    } else {
        v.len()
    };
    proof {
        if 3 < n {
            assert(ps@[3] as int == sp[3]);
        }
    }
    Some(url.substring_char(0, end))
}

} // verus!
