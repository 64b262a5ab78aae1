//! The decisions of the last rewriting pass over a rendered page: unique, lower-cased
//! ids; code examples framed with their language; relative curriculum links made
//! absolute. The HTML rewriter hands each element it selects to these functions.
use vstd::prelude::*;
use crate::css_info::{ascii_words, ascii_words_exec};
use crate::ids::{candidate, next_free_id, pick_counter, start_of, IdSet};
use crate::links::{attr_get, attr_set, LinkElement};
use crate::text::{
    chars_of, find_str, first_match, lowercase, push_str, seq_eq, split_once, str_eq, string_of,
    to_lowercase, find_char, slice_of,
};

verus! {

/// `p` occurs in `s` (`str::contains`).
pub open spec fn str_contains(s: Seq<char>, p: Seq<char>) -> bool {
    p.len() == 0 || first_match(s, p) is Some
}

fn contains_exec(s: &str, p: &str) -> (r: bool)
    ensures
        r == str_contains(s@, p@),
{
    let pv = chars_of(p);
    if pv.len() == 0 {
        return true;
    }
    find_str(chars_of(s).as_slice(), pv.as_slice()).is_some()
}

/// What happens to an element with an `id` and to the ids of the page: an id holding
/// `delim_start` (a template not yet expanded) marks the element with
/// `data-update-id`; else the id is lower-cased and, where that is taken, replaced by
/// the first free `prefix_n` (see `start_of` and `pick_counter`) unless none is free
/// below 666, in which case it stays as it was; the id given is recorded.
pub open spec fn spec_rewrite_id(
    s: Seq<(Seq<char>, Seq<char>)>,
    ids: Set<Seq<char>>,
    delim_start: Seq<char>,
) -> (Seq<(Seq<char>, Seq<char>)>, Set<Seq<char>>) {
    match attr_get(s, "id"@) {
        None => (s, ids),
        Some(id) => if str_contains(id, delim_start) {
            (attr_set(s, "data-update-id"@, ""@), ids)
        } else {
            let l = lowercase(id);
            if ids.contains(l) {
                let (p, k) = start_of(l);
                let c = pick_counter(ids, p, k);
                if c < 666 && !ids.contains(candidate(p, c)) {
                    (attr_set(s, "id"@, candidate(p, c)), ids.insert(candidate(p, c)))
                } else {
                    (s, ids)
                }
            } else {
                (attr_set(s, "id"@, l), ids.insert(l))
            }
        },
    }
}

/// Counting on from a taken id's counter stays within `i64`.
pub open spec fn rewrite_id_fits(s: Seq<(Seq<char>, Seq<char>)>, ids: Set<Seq<char>>, delim_start: Seq<char>) -> bool {
    match attr_get(s, "id"@) {
        Some(id) => !str_contains(id, delim_start) && ids.contains(lowercase(id)) ==> start_of(lowercase(id)).1 <= i64::MAX,
        None => true,
    }
}

/// Rewrites the `id` of an element (see `spec_rewrite_id`).
pub fn rewrite_id(el: &mut LinkElement, ids: &mut IdSet, delim_start: &str)
    requires
        rewrite_id_fits(old(el)@, old(ids)@, delim_start@),
    ensures
        (final(el)@, final(ids)@) == spec_rewrite_id(old(el)@, old(ids)@, delim_start@),
{
    let id = match el.get_attribute("id") {
        Some(id) => id,
        None => return,
    };
    if contains_exec(id.as_str(), delim_start) {
        el.set_attribute("data-update-id", "");
        return;
    }
    let l = to_lowercase(id.as_str());
    if ids.contains(l.as_str()) {
        let (cand, count) = next_free_id(ids, l.as_str());
        if count < 666 && !ids.contains(cand.as_str()) {
            el.set_attribute("id", cand.as_str());
            ids.insert(cand);
        }
    } else {
        el.set_attribute("id", l.as_str());
        ids.insert(l);
    }
}

/// The class of a `pre` element that is not yet `notranslate`: its class (empty where
/// it has none) and ` notranslate`.
pub fn notranslate_class(el: &mut LinkElement)
    ensures
        final(el)@ == attr_set(
            old(el)@,
            "class"@,
            match attr_get(old(el)@, "class"@) {
                Some(c) => c,
                None => ""@,
            } + " notranslate"@,
        ),
{
    let mut class = match el.get_attribute("class") {
        Some(c) => c,
        None => String::new(),
    };
    push_str(&mut class, " notranslate");
    proof {
        reveal_strlit("");
    }
    el.set_attribute("class", class.as_str());
}

/// Images and frames load lazily: an element without a `loading` attribute gets
/// `loading="lazy"`; one that has it keeps it.
pub fn lazy_loading(el: &mut LinkElement)
    ensures
        final(el)@ == if attr_get(old(el)@, "loading"@) is None {
            attr_set(old(el)@, "loading"@, "lazy"@)
        } else {
            old(el)@
        },
{
    if el.get_attribute("loading").is_none() {
        el.set_attribute("loading", "lazy");
    }
}

/// The bold prefix put at the start of the first paragraph of a warning or note card,
/// `prefix` being the card's word in the page's locale.
pub fn notecard_prefix(prefix: &str) -> (r: String)
    ensures
        r@ == "<strong>"@ + prefix@ + "</strong>"@,
{
    let mut out = String::new();
    push_str(&mut out, "<strong>");
    push_str(&mut out, prefix);
    push_str(&mut out, "</strong>");
    proof {
        reveal_strlit("");
    }
    assert(out@ =~= "<strong>"@ + prefix@ + "</strong>"@);
    out
}

/// The frame put around a table or a block of math so that it scrolls on its own: the
/// HTML before it and after it.
pub fn table_container() -> (r: (String, String))
    ensures
        r.0@ == "<figure class=\"table-container\">"@,
        r.1@ == "</figure>"@,
{
    (string_of(chars_of("<figure class=\"table-container\">").as_slice()), string_of(chars_of("</figure>").as_slice()))
}

/// How a code example (`pre` with a `brush:` class) is framed: whether its content is
/// wrapped in `<code>`, the HTML put before it and whether `</div>` follows it.
#[derive(Debug, Clone)]
pub struct CodeFrame {
    pub wrap_code: bool,
    pub before: Option<String>,
    pub close_after: bool,
}

/// The language of a code example: the class word after `brush:`, empty where there is
/// none.
pub open spec fn brush_name(words: Seq<Seq<char>>) -> Seq<char>
    decreases words.len(),
{
    if words.len() == 0 {
        ""@
    } else if words[0] == "brush:"@ {
        if words.len() > 1 {
            words[1]
        } else {
            ""@
        }
    } else {
        brush_name(words.drop_first())
    }
}

/// The header of a code example in `name`.
pub open spec fn example_header(name: Seq<char>) -> Seq<char> {
    "<div class=\"code-example\"><div class='example-header'><span class=\"language-name\">"@ + name
        + "</span></div>"@
}

/// How a code example with class `class` is framed: a named language other than
/// `plain` wraps the content in `<code>`; a hidden example (class word `hidden`) gets a
/// bare `code-example` frame, a named one a frame with a header naming the language,
/// any other none.
pub open spec fn spec_code_frame(class: Seq<char>) -> (bool, Option<Seq<char>>, bool) {
    let words = ascii_words(class);
    let name = brush_name(words);
    let named = name.len() > 0 && name != "plain"@;
    if words.contains("hidden"@) {
        (named, Some("<div class=\"code-example\">"@), true)
    } else if named {
        (named, Some(example_header(name)), true)
    } else {
        (named, None, false)
    }
}

/// Frames a code example by its class (see `spec_code_frame`; no class reads as empty).
pub fn code_frame(class: Option<&str>) -> (r: CodeFrame)
    ensures
        ({
            let f = spec_code_frame(
                match class {
                    Some(c) => c@,
                    None => ""@,
                },
            );
            &&& r.wrap_code == f.0
            &&& match f.1 {
                Some(b) => r.before matches Some(x) && x@ == b,
                None => r.before is None,
            }
            &&& r.close_after == f.2
        }),
{
    proof {
        reveal_strlit("");
    }
    let cv = match class {
        Some(c) => chars_of(c),
        None => chars_of(""),
    };
    let words = ascii_words_exec(&cv);
    let n = words.len();
    let brush = chars_of("brush:");
    let hidden_word = chars_of("hidden");
    let mut hidden = false;
    let mut name: Vec<char> = Vec::new();
    let mut found = false;
    let mut i: usize = 0;
    let ghost ws = ascii_words(cv@);
    assert(ws.skip(0) =~= ws);
    while i < n
        invariant
            n == words@.len(),
            n == ws.len(),
            ws == ascii_words(cv@),
            forall|q: int| 0 <= q < n ==> #[trigger] words@[q]@ == ws[q],
            brush@ == "brush:"@,
            hidden_word@ == "hidden"@,
            i <= n,
            hidden == exists|q: int| 0 <= q < i && ws[q] == "hidden"@,
            !found ==> brush_name(ws) == brush_name(ws.skip(i as int)),
            !found ==> name@.len() == 0,
            found ==> name@ == brush_name(ws),
        decreases n - i,
    {
        assert(ws.skip(i as int).drop_first() =~= ws.skip(i + 1));
        assert(ws.skip(i as int)[0] == ws[i as int]);
        if seq_eq(words[i].as_slice(), hidden_word.as_slice()) {
            hidden = true;
        }
        if !found && seq_eq(words[i].as_slice(), brush.as_slice()) {
            found = true;
            if i + 1 < n {
                assert(ws.skip(i as int)[1] == ws[i + 1]);
                name = slice_of(words[i + 1].as_slice(), 0, words[i + 1].len());
                assert(name@ =~= ws[i + 1]);
            } else {
                proof {
                    reveal_strlit("");
                }
                assert(name@ =~= ""@);
            }
        }
        i += 1;
    }
    proof {
        reveal_strlit("");
        if !found {
            assert(ws.skip(n as int) =~= Seq::<Seq<char>>::empty());
            assert(name@ =~= ""@);
        }
        assert(hidden == ws.contains("hidden"@));
    }
    let named = name.len() > 0 && !seq_eq(name.as_slice(), chars_of("plain").as_slice());
    if hidden {
        CodeFrame { wrap_code: named, before: Some(string_of(chars_of("<div class=\"code-example\">").as_slice())), close_after: true }
    } else if named {
        let mut b = String::new();
        push_str(&mut b, "<div class=\"code-example\"><div class='example-header'><span class=\"language-name\">");
        let ns = string_of(name.as_slice());
        push_str(&mut b, ns.as_str());
        push_str(&mut b, "</span></div>");
        CodeFrame { wrap_code: named, before: Some(b), close_after: true }
    } else {
        CodeFrame { wrap_code: named, before: None, close_after: false }
    }
}

/// A chunk of the text of a code example: the example's first chunk loses a leading
/// newline; after it the example's text goes on until the chunk that ends the text node.
pub open spec fn spec_brush_text(chunk: Seq<char>, in_pre: bool, last: bool) -> (Seq<char>, bool) {
    (
        if !in_pre && chunk.len() > 0 && chunk[0] == '\n' {
            chunk.drop_first()
        } else {
            chunk
        },
        !last,
    )
}

/// Trims the first empty line of a code example (see `spec_brush_text`): returns the
/// chunk and whether the example's text goes on.
pub fn brush_text(chunk: &str, in_pre: bool, last: bool) -> (r: (String, bool))
    ensures
        r.0@ == spec_brush_text(chunk@, in_pre, last).0,
        r.1 == spec_brush_text(chunk@, in_pre, last).1,
{
    let v = chars_of(chunk);
    if !in_pre && v.len() > 0 && v[0] == '\n' {
        let w = slice_of(v.as_slice(), 1, v.len());
        assert(w@ =~= v@.drop_first());
        (string_of(w.as_slice()), !last)
    } else {
        (string_of(v.as_slice()), !last)
    }
}

/// Where a relative curriculum link points: at the URL of the page in the file it
/// names (its part before `#`), the fragment kept; unchanged where no page is there.
pub open spec fn spec_curriculum_href(href: Seq<char>, target: Option<Seq<char>>) -> Option<Seq<char>> {
    match target {
        Some(url) => Some(
            match split_once(href, '#') {
                Some((_, frag)) => url + "#"@ + frag,
                None => url,
            },
        ),
        None => None,
    }
}

/// The file part of a relative curriculum link: before its `#`.
pub open spec fn curriculum_file_part(href: Seq<char>) -> Seq<char> {
    match split_once(href, '#') {
        Some((file, _)) => file,
        None => href,
    }
}

/// Points a relative curriculum link at the page it names. `page_url` gives the URL of
/// the curriculum page in a file relative to the current one, where there is one.
pub fn fix_curriculum_link<F: FnOnce(&str) -> Option<String>>(el: &mut LinkElement, page_url: F)
    requires
        forall|u: &str| call_requires(page_url, (u,)),
    ensures
        ({
            let href = match attr_get(old(el)@, "href"@) {
                Some(h) => h,
                None => ""@,
            };
            exists|u: &str, res: Option<String>|
                #![trigger call_ensures(page_url, (u,), res)]
                {
                    &&& u@ == curriculum_file_part(href)
                    &&& call_ensures(page_url, (u,), res)
                    &&& match spec_curriculum_href(
                        href,
                        match res {
                            Some(x) => Some(x@),
                            None => None,
                        },
                    ) {
                        Some(h) => final(el)@ == attr_set(old(el)@, "href"@, h),
                        None => final(el)@ == old(el)@,
                    }
                }
        }),
{
    proof {
        reveal_strlit("");
    }
    let href = match el.get_attribute("href") {
        Some(h) => h,
        None => String::new(),
    };
    let v = chars_of(href.as_str());
    let (file, frag): (String, Option<String>) = match find_char(v.as_slice(), '#') {
        Some(i) => {
            assert(i < v.len());
            let a = slice_of(v.as_slice(), 0, i);
            let b = slice_of(v.as_slice(), i + 1, v.len());
            assert(a@ =~= v@.take(i as int));
            assert(b@ =~= v@.skip(i + 1));
            (string_of(a.as_slice()), Some(string_of(b.as_slice())))
        },
        None => (string_of(v.as_slice()), None),
    };
    let fr: &str = file.as_str();
    let res = page_url(fr);
    let ghost gres = res;
    match res {
        Some(url) => {
            let mut h = url;
            match frag {
                Some(f) => {
                    push_str(&mut h, "#");
                    push_str(&mut h, f.as_str());
                },
                None => {},
            }
            el.set_attribute("href", h.as_str());
        },
        None => {},
    }
    assert(call_ensures(page_url, (fr,), gres));
}

/// Rewriting ids keeps them unique: an element whose id holds no template either keeps
/// its attributes and leaves the used ids as they were (where no free id was found), or
/// ends with an id that was not used on the page before and is now recorded as used.
pub proof fn law_rewritten_id_is_fresh(s: Seq<(Seq<char>, Seq<char>)>, ids: Set<Seq<char>>, delim_start: Seq<char>)
    ensures
        ({
            let (s2, ids2) = spec_rewrite_id(s, ids, delim_start);
            match attr_get(s, "id"@) {
                Some(id) => !str_contains(id, delim_start) ==> ((s2 == s && ids2 == ids) || (attr_get(s2, "id"@) matches Some(n)
                    && !ids.contains(n) && ids2 == ids.insert(n))),
                None => s2 == s && ids2 == ids,
            }
        }),
{
    match attr_get(s, "id"@) {
        Some(id) => {
            crate::links::lemma_attr_get_set(s, "id"@, lowercase(id));
            let (p, k) = start_of(lowercase(id));
            crate::links::lemma_attr_get_set(s, "id"@, candidate(p, pick_counter(ids, p, k)));
        },
        None => {},
    }
}

} // verus!
