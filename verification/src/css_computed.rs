//! The cells of the information box of a CSS property: each row's value as the
//! property's data gives it, its keywords translated, rendered where it holds macros,
//! and the values of other properties it refers to looked up in turn.
use vstd::prelude::*;
use crate::css_info::{
    ascii_words, ascii_words_exec, get_css_l10n_for_locale, remove_me_replace_placeholder, spec_css_l10n,
    spec_replace_placeholders, CssL10n,
};
use crate::data::{kv_get, kv_get_exec, l10n_json_data, spec_l10n, L10nFiles};
use crate::locale::{spec_url_str, Locale};
use crate::resolve::DocError;
use crate::sub_listing::{stopped_with, Stop};
use crate::text::{chars_of, find_str, first_match, push_str, slice_of, str_eq, string_of};
use crate::apiref::opt_str;

verus! {

/// A value inside a field of a property's data that is read as text.
#[derive(Debug, Clone)]
pub enum CssLeaf {
    /// `null`.
    Null,
    Str(String),
    /// Any other JSON value.
    Other,
}

/// A field of a CSS property's data.
#[derive(Debug, Clone)]
pub enum CssValue {
    /// Missing or `null`.
    Null,
    Bool(bool),
    /// A number, as JSON writes it.
    Number(String),
    Str(String),
    /// An array, by its elements.
    Array(Vec<CssLeaf>),
    /// An object, by its entries.
    Object(Vec<(String, CssLeaf)>),
}

/// The data of a CSS property: its fields (none where it is not an object).
#[derive(Debug, Clone)]
pub struct CssPropertyData {
    pub fields: Vec<(String, CssValue)>,
}

/// `f` answers alike for equal arguments.
pub open spec fn answers_alike<T, F: Fn(&str) -> T>(f: F) -> bool {
    forall|q1: &str, q2: &str, r1: T, r2: T|
        #![trigger call_ensures(f, (q1,), r1), call_ensures(f, (q2,), r2)]
        q1@ == q2@ && call_ensures(f, (q1,), r1) && call_ensures(f, (q2,), r2) ==> r1 == r2
}

/// What `f` answers for `q`.
pub open spec fn answer<T, F: Fn(&str) -> T>(f: F, q: Seq<char>) -> T {
    (choose|s: &str, r: T| #![trigger call_ensures(f, (s,), r)] s@ == q && call_ensures(f, (s,), r)).1
}

proof fn lemma_answer<T, F: Fn(&str) -> T>(f: F, q: &str, r: T)
    requires
        answers_alike(f),
        call_ensures(f, (q,), r),
    ensures
        r == answer(f, q@),
{
    assert(call_ensures(f, (q,), r));
    let (q2, r2) = choose|s: &str, r2: T| #![trigger call_ensures(f, (s,), r2)] s@ == q@ && call_ensures(f, (s,), r2);
    assert(call_ensures(f, (q2,), r2));
}

/// The field `key` of a property's data (`null` where it has none).
pub open spec fn field(fields: Seq<(String, CssValue)>, key: Seq<char>) -> CssValue {
    match kv_get(fields, key) {
        Some(v) => v,
        None => CssValue::Null,
    }
}

/// The parts joined with `sep` between them.
pub open spec fn join(parts: Seq<Seq<char>>, sep: Seq<char>) -> Seq<char>
    decreases parts.len(),
{
    if parts.len() == 0 {
        seq![]
    } else if parts.len() == 1 {
        parts[0]
    } else {
        join(parts.drop_last(), sep) + sep + parts.last()
    }
}

/// The pieces of `s` between occurrences of `", "` (`str::split`).
pub open spec fn split_comma(s: Seq<char>) -> Seq<Seq<char>>
    decreases s.len(),
{
    match first_match(s, ", "@) {
        Some(i) => if 0 <= i && i + 2 <= s.len() {
            seq![s.take(i)] + split_comma(s.skip(i + 2))
        } else {
            seq![s]
        },
        None => seq![s],
    }
}

/// The texts listed as an enumeration: separated by the list separator, the last two by
/// the word for "and".
pub open spec fn enumeration(ts: Seq<Seq<char>>, sep: Seq<char>, and: Seq<char>) -> Seq<char>
    decreases ts.len(),
{
    if ts.len() == 0 {
        seq![]
    } else if ts.len() == 1 {
        ts[0]
    } else if ts.len() == 2 {
        ts[0] + and + ts[1]
    } else {
        ts[0] + sep + enumeration(ts.drop_first(), sep, and)
    }
}

/// The texts among the leaves.
pub open spec fn leaf_texts(ls: Seq<CssLeaf>) -> Seq<Seq<char>>
    decreases ls.len(),
{
    if ls.len() == 0 {
        seq![]
    } else {
        leaf_texts(ls.drop_last()) + match ls.last() {
            CssLeaf::Str(s) => seq![s@],
            _ => seq![],
        }
    }
}

/// The elements a property also applies to, as listed: its texts but `::placeholder`
/// and empty ones.
pub open spec fn also_elements(ls: Seq<CssLeaf>) -> Seq<Seq<char>> {
    leaf_texts(ls).filter(|e: Seq<char>| e != "::placeholder"@ && e.len() > 0)
}

/// The rendered `output` of the row `property`, with what else the property applies to
/// where the row is `appliesto` and the data lists such elements: each as `xref` links
/// it, in an enumeration, put in the translated sentence for both.
pub open spec fn with_also_applies_to<X: Fn(&str) -> String>(
    output: Seq<char>,
    property: Seq<char>,
    fields: Seq<(String, CssValue)>,
    locale: Locale,
    l10n: Seq<(String, Vec<(String, String)>)>,
    xref: X,
) -> Seq<char> {
    if property != "appliesto"@ {
        output
    } else {
        match field(fields, "alsoAppliesTo"@) {
            CssValue::Array(ls) => {
                let els = also_elements(ls@);
                if els.len() == 0 {
                    output
                } else {
                    spec_replace_placeholders(
                        spec_css_l10n(l10n, "applyingToMultiple"@, locale),
                        seq![
                            output,
                            enumeration(
                                els.map_values(|e: Seq<char>| answer(xref, e)@),
                                spec_css_l10n(l10n, "listSeparator"@, locale),
                                spec_css_l10n(l10n, "andInEnumeration"@, locale),
                            )
                        ],
                    )
                }
            },
            _ => output,
        }
    }
}

/// An animation type as shown: its translation, the length filled in for `lpc`.
pub open spec fn animation_word(w: Seq<char>, locale: Locale, l10n: Seq<(String, Vec<(String, String)>)>) -> Seq<char> {
    if w == "lpc"@ {
        spec_replace_placeholders(spec_css_l10n(l10n, w, locale), seq![spec_css_l10n(l10n, "length"@, locale)])
    } else {
        spec_css_l10n(l10n, w, locale)
    }
}

/// The initial values that are translated rather than shown as code.
pub open spec fn initial_l10n_value(s: Seq<char>) -> bool {
    ||| s == "\"\""@
    ||| s == "\". \""@
    ||| s == "autoForSmartphoneBrowsersSupportingInflation"@
    ||| s == "dependsOnUserAgent"@
    ||| s == "noPracticalInitialValue"@
    ||| s == "noneButOverriddenInUserAgentCSS"@
    ||| s == "seeProse"@
    ||| s == "startOrNamelessValueIfLTRRightIfRTL"@
    ||| s == "zoomForTheTopLevelNoneForTheRest"@
}

/// The text of an object's entry for `locale`, the en-US one where it has none (or
/// `null`); none where that is not a string.
pub open spec fn object_text(entries: Seq<(String, CssLeaf)>, locale: Locale) -> Option<Seq<char>> {
    match kv_get(entries, spec_url_str(locale)) {
        Some(CssLeaf::Str(s)) => Some(s@),
        Some(CssLeaf::Other) => None,
        _ => if locale != Locale::EnUs {
            match kv_get(entries, "en-US"@) {
                Some(CssLeaf::Str(s)) => Some(s@),
                _ => None,
            }
        } else {
            None
        },
    }
}

/// `text` as `render` renders it, or its error.
pub open spec fn rendered<R: Fn(&str) -> Result<String, DocError>>(render: R, text: Seq<char>) -> Result<Seq<char>, Stop> {
    match answer(render, text) {
        Ok(s) => Ok(s@),
        Err(e) => Err(Stop::Doc(e)),
    }
}

/// The mark of a missing value: the translation of `missing` in red.
pub open spec fn missing_out(files: Seq<(String, Vec<(String, Vec<(String, String)>)>)>, locale: Locale) -> Result<Seq<char>, Stop> {
    match spec_l10n(files, "CSS"@, "missing"@, locale) {
        Ok(m) => Ok("<span style=\"color:red;\">"@ + m + "</span>"@),
        Err(x) => Err(Stop::L10n(x)),
    }
}

/// The rendered text, or the error, of `r` with `t` after it.
pub open spec fn then_text(r: Result<Seq<char>, Stop>, t: Seq<char>) -> Result<Seq<char>, Stop> {
    match r {
        Ok(s) => Ok(s + t),
        Err(e) => Err(e),
    }
}

/// The cell of the row `property` for a property with data `fields` (see the cases
/// below), with `fuel` bounding how deep the lookups of other properties go (none where
/// that is not enough, or where a value is a lone quote, which cannot be read as a
/// reference).
pub open spec fn computed<R: Fn(&str) -> Result<String, DocError>, X: Fn(&str) -> String, P: Fn(&str) -> Option<CssPropertyData>>(
    fields: Seq<(String, CssValue)>,
    property: Seq<char>,
    at_rule: Option<Seq<char>>,
    locale: Locale,
    l10n: Seq<(String, Vec<(String, String)>)>,
    files: Seq<(String, Vec<(String, Vec<(String, String)>)>)>,
    render: R,
    xref: X,
    lookup: P,
    fuel: nat,
) -> Option<Result<Seq<char>, Stop>>
    decreases fuel, 1nat, 0nat,
{
    if property == "relatedAtRule"@ {
        match at_rule {
            None => Some(Err(Stop::Doc(DocError::MustHaveAtRule))),
            Some(a) => Some(Ok("<a href=\"/"@ + spec_url_str(locale) + "/docs/Web/CSS/"@ + a + "\"><code>"@ + a + "</code></a>"@)),
        }
    } else {
        match field(fields, property) {
            CssValue::Null => Some(Ok(seq![])),
            CssValue::Bool(b) => Some(Ok(spec_css_l10n(l10n, if b { "yes"@ } else { "no"@ }, locale))),
            CssValue::Number(n) => Some(Ok(n@)),
            CssValue::Str(s) => if property == "animationType"@ {
                let words = ascii_words(s@).map_values(|w: Seq<char>| animation_word(w, locale, l10n));
                Some(rendered(render, with_also_applies_to(join(words, spec_css_l10n(l10n, "listSeparator"@, locale)), property, fields, locale, l10n, xref)))
            } else if s@.len() > 0 && s@[0] == '\'' && s@.last() == '\'' {
                if s@.len() < 2 {
                    None
                } else {
                    match answer(lookup, s@.subrange(1, s@.len() - 1)) {
                        None => Some(Ok(seq![])),
                        Some(d) => if fuel == 0 {
                            None
                        } else {
                            computed(d.fields@, property, at_rule, locale, l10n, files, render, xref, lookup, (fuel - 1) as nat)
                        },
                    }
                }
            } else if property == "initial"@ && !initial_l10n_value(s@) {
                Some(Ok("<code>"@ + s@ + "</code>"@))
            } else {
                let keywords = split_comma(s@).map_values(|k: Seq<char>| spec_css_l10n(l10n, k, locale));
                Some(rendered(render, with_also_applies_to(join(keywords, ", "@), property, fields, locale, l10n, xref)))
            },
            CssValue::Array(ls) => match longhands(leaf_texts(ls@), property, at_rule, locale, l10n, files, render, xref, lookup, fuel) {
                None => None,
                Some(Err(e)) => Some(Err(e)),
                Some(Ok(items)) => Some(rendered(
                    render,
                    with_also_applies_to(
                        spec_css_l10n(l10n, "asLonghands"@, locale) + "<br /><ul>"@ + items + "</ul>"@,
                        property,
                        fields,
                        locale,
                        l10n,
                        xref,
                    ),
                )),
            },
            CssValue::Object(entries) => match object_text(entries@, locale) {
                Some(t) => Some(rendered(render, with_also_applies_to(t, property, fields, locale, l10n, xref))),
                None => Some(missing_out(files, locale)),
            },
        }
    }
}

/// The items of the longhands `lhs` of a shorthand: each links the longhand and shows
/// its own cell of the row (from its data as `lookup` finds it, the mark of a missing
/// value where it finds none); up to the first error.
pub open spec fn longhands<R: Fn(&str) -> Result<String, DocError>, X: Fn(&str) -> String, P: Fn(&str) -> Option<CssPropertyData>>(
    lhs: Seq<Seq<char>>,
    property: Seq<char>,
    at_rule: Option<Seq<char>>,
    locale: Locale,
    l10n: Seq<(String, Vec<(String, String)>)>,
    files: Seq<(String, Vec<(String, Vec<(String, String)>)>)>,
    render: R,
    xref: X,
    lookup: P,
    fuel: nat,
) -> Option<Result<Seq<char>, Stop>>
    decreases fuel, 0nat, lhs.len(),
{
    if lhs.len() == 0 {
        Some(Ok(seq![]))
    } else {
        match longhands(lhs.drop_last(), property, at_rule, locale, l10n, files, render, xref, lookup, fuel) {
            None => None,
            Some(Err(e)) => Some(Err(e)),
            Some(Ok(before)) => {
                let lh = lhs.last();
                let cell = match answer(lookup, lh) {
                    None => Some(missing_out(files, locale)),
                    Some(d) => if fuel == 0 {
                        None
                    } else {
                        computed(d.fields@, property, at_rule, locale, l10n, files, render, xref, lookup, (fuel - 1) as nat)
                    },
                };
                match cell {
                    None => None,
                    Some(Err(e)) => Some(Err(e)),
                    Some(Ok(c)) => Some(Ok(before + "<li>{{cssxref(\""@ + lh + "\")}}: "@ + c + "</li>"@)),
                }
            },
        }
    }
}

/// The views of strings.
pub open spec fn texts(v: Seq<String>) -> Seq<Seq<char>> {
    v.map_values(|s: String| s@)
}

fn join_exec(parts: &Vec<String>, sep: &str) -> (r: String)
    ensures
        r@ == join(texts(parts@), sep@),
{
    let mut out = String::new();
    let n = parts.len();
    let mut i: usize = 0;
    let ghost all = texts(parts@);
    assert(all.take(0) =~= Seq::<Seq<char>>::empty());
    while i < n
        invariant
            n == parts@.len(),
            all == texts(parts@),
            i <= n,
            out@ == join(all.take(i as int), sep@),
        decreases n - i,
    {
        let ghost before = out@;
        if i > 0 {
            push_str(&mut out, sep);
        }
        push_str(&mut out, parts[i].as_str());
        assert(all.take(i + 1).drop_last() =~= all.take(i as int));
        assert(all.take(i + 1).last() == parts@[i as int]@);
        if i == 0 {
            assert(all.take(1) =~= seq![parts@[0]@]);
            assert(out@ =~= parts@[0]@);
        } else {
            assert(out@ =~= before + sep@ + parts@[i as int]@);
        }
        i += 1;
    }
    assert(all.take(n as int) =~= all);
    out
}

fn split_comma_exec(s: &str) -> (r: Vec<String>)
    ensures
        texts(r@) == split_comma(s@),
{
    let v = chars_of(s);
    let sep = chars_of(", ");
    proof {
        reveal_strlit(", ");
    }
    assert(sep@.len() == 2);
    let mut out: Vec<String> = Vec::new();
    let mut rest = v;
    assert(texts(out@) + split_comma(rest@) =~= split_comma(s@));
    loop
        invariant
            sep@ == ", "@,
            sep@.len() == 2,
            texts(out@) + split_comma(rest@) == split_comma(s@),
        decreases rest@.len(),
    {
        match find_str(rest.as_slice(), sep.as_slice()) {
            Some(i) => {
                let rl = rest.len();
                assert(i + 2 <= rl);
                let head = slice_of(rest.as_slice(), 0, i);
                let tail = slice_of(rest.as_slice(), i + 2, rl);
                assert(head@ =~= rest@.take(i as int));
                assert(tail@ =~= rest@.skip(i + 2));
                let ghost old_out = out@;
                out.push(string_of(head.as_slice()));
                assert(texts(out@) =~= texts(old_out).push(head@));
                assert(split_comma(rest@) == seq![rest@.take(i as int)] + split_comma(rest@.skip(i + 2)));
                assert(texts(out@) + split_comma(tail@) =~= texts(old_out) + split_comma(rest@));
                rest = tail;
            },
            None => {
                let ghost old_out = out@;
                out.push(string_of(rest.as_slice()));
                assert(texts(out@) =~= texts(old_out) + split_comma(rest@));
                return out;
            },
        }
    }
}

fn enumeration_exec(ts: &Vec<String>, i: usize, sep: &str, and: &str) -> (r: String)
    requires
        i <= ts@.len(),
    ensures
        r@ == enumeration(texts(ts@).skip(i as int), sep@, and@),
    decreases ts@.len() - i,
{
    let n = ts.len();
    let ghost rest = texts(ts@).skip(i as int);
    let mut out = String::new();
    if i == n {
        assert(rest.len() == 0);
        return out;
    }
    assert(rest[0] == ts@[i as int]@);
    push_str(&mut out, ts[i].as_str());
    if n - i == 1 {
        return out;
    }
    assert(rest[1] == ts@[i + 1]@);
    if n - i == 2 {
        push_str(&mut out, and);
        push_str(&mut out, ts[i + 1].as_str());
        return out;
    }
    push_str(&mut out, sep);
    let tail = enumeration_exec(ts, i + 1, sep, and);
    assert(rest.drop_first() =~= texts(ts@).skip(i + 1));
    push_str(&mut out, tail.as_str());
    out
}

fn leaf_texts_exec(ls: &Vec<CssLeaf>) -> (r: Vec<String>)
    ensures
        texts(r@) == leaf_texts(ls@),
{
    let mut out: Vec<String> = Vec::new();
    let n = ls.len();
    let mut i: usize = 0;
    assert(ls@.take(0) =~= Seq::<CssLeaf>::empty());
    assert(texts(out@) =~= Seq::<Seq<char>>::empty());
    while i < n
        invariant
            n == ls@.len(),
            i <= n,
            texts(out@) == leaf_texts(ls@.take(i as int)),
        decreases n - i,
    {
        assert(ls@.take(i + 1).drop_last() =~= ls@.take(i as int));
        assert(ls@.take(i + 1).last() == ls@[i as int]);
        let ghost old_out = out@;
        match &ls[i] {
            CssLeaf::Str(s) => {
                out.push(string_of(chars_of(s.as_str()).as_slice()));
                assert(texts(out@) =~= texts(old_out) + seq![s@]);
            },
            _ => {
                assert(texts(out@) =~= texts(old_out) + Seq::<Seq<char>>::empty());
            },
        }
        i += 1;
    }
    assert(ls@.take(n as int) =~= ls@);
    out
}

fn also_elements_exec(ls: &Vec<CssLeaf>) -> (r: Vec<String>)
    ensures
        texts(r@) == also_elements(ls@),
{
    let all = leaf_texts_exec(ls);
    let ghost keep = |e: Seq<char>| e != "::placeholder"@ && e.len() > 0;
    let mut out: Vec<String> = Vec::new();
    let n = all.len();
    let mut i: usize = 0;
    let ghost ts = texts(all@);
    proof {
        reveal(Seq::filter);
        assert(ts.take(0) =~= Seq::<Seq<char>>::empty());
        assert(ts.take(0).filter(keep) =~= Seq::<Seq<char>>::empty());
    }
    assert(texts(out@) =~= ts.take(0).filter(keep));
    while i < n
        invariant
            n == all@.len(),
            ts == texts(all@),
            keep == (|e: Seq<char>| e != "::placeholder"@ && e.len() > 0),
            i <= n,
            texts(out@) == ts.take(i as int).filter(keep),
        decreases n - i,
    {
        proof {
            reveal(Seq::filter);
            assert(ts.take(i + 1).drop_last() =~= ts.take(i as int));
            assert(ts.take(i + 1).last() == all@[i as int]@);
        }
        let ghost old_out = out@;
        let e = &all[i];
        proof {
            reveal_strlit("::placeholder");
            reveal_strlit("");
        }
        assert(ts[i as int] == e@);
        proof {
            if e@.len() == 0 {
                assert(e@ =~= ""@);
            }
        }
        if !str_eq(e.as_str(), "::placeholder") && !str_eq(e.as_str(), "") {
            assert(e@.len() > 0);
            assert(keep(e@));
            out.push(string_of(chars_of(e.as_str()).as_slice()));
            assert(texts(out@) =~= texts(old_out).push(e@));
            assert(ts.take(i + 1).filter(keep) == ts.take(i as int).filter(keep).push(e@));
        } else {
            assert(e@.len() == 0 ==> e@ =~= ""@);
            assert(!keep(e@));
            assert(ts.take(i + 1).filter(keep) == ts.take(i as int).filter(keep));
        }
        i += 1;
    }
    assert(ts.take(n as int) =~= ts);
    out
}

fn copy_str(s: &str) -> (r: String)
    ensures
        r@ == s@,
{
    string_of(chars_of(s).as_slice())
}

fn with_also_applies_to_exec<X: Fn(&str) -> String>(
    output: &str,
    property: &str,
    fields: &Vec<(String, CssValue)>,
    locale: Locale,
    l10n: &CssL10n,
    xref: &X,
) -> (r: String)
    requires
        forall|s: &str| call_requires(*xref, (s,)),
        answers_alike(*xref),
    ensures
        r@ == with_also_applies_to(output@, property@, fields@, locale, l10n@, *xref),
{
    proof {
        reveal_strlit("appliesto");
        reveal_strlit("alsoAppliesTo");
    }
    if !str_eq(property, "appliesto") {
        return copy_str(output);
    }
    match kv_get_exec(fields.as_slice(), "alsoAppliesTo") {
        Some(CssValue::Array(ls)) => {
            let els = also_elements_exec(ls);
            if els.len() == 0 {
                return copy_str(output);
            }
            let ghost es = texts(els@);
            let mut links: Vec<String> = Vec::new();
            let n = els.len();
            let mut i: usize = 0;
            assert(texts(links@) =~= es.take(0).map_values(|e: Seq<char>| answer(*xref, e)@));
            while i < n
                invariant
                    n == els@.len(),
                    es == texts(els@),
                    i <= n,
                    texts(links@) == es.take(i as int).map_values(|e: Seq<char>| answer(*xref, e)@),
                    forall|s: &str| call_requires(*xref, (s,)),
                    answers_alike(*xref),
                decreases n - i,
            {
                let q = els[i].as_str();
                let link = xref(q);
                proof {
                    lemma_answer(*xref, q, link);
                }
                let ghost old_links = links@;
                assert(es[i as int] == els@[i as int]@);
                assert(q@ == es[i as int]);
                let ghost lv = answer(*xref, es[i as int])@;
                assert(link@ == lv);
                links.push(link);
                assert(texts(links@) =~= texts(old_links).push(lv));
                assert(es.take(i + 1).map_values(|e: Seq<char>| answer(*xref, e)@) =~= es.take(i as int).map_values(|e: Seq<char>| answer(*xref, e)@).push(lv));
                i += 1;
            }
            assert(es.take(n as int) =~= es);
            let sep = get_css_l10n_for_locale("listSeparator", locale, l10n);
            let and = get_css_l10n_for_locale("andInEnumeration", locale, l10n);
            let listed = enumeration_exec(&links, 0, sep.as_str(), and.as_str());
            assert(texts(links@).skip(0) =~= texts(links@));
            let sentence = get_css_l10n_for_locale("applyingToMultiple", locale, l10n);
            let reps: [&str; 2] = [output, listed.as_str()];
            let r = remove_me_replace_placeholder(sentence.as_str(), &reps);
            assert(reps@.map_values(|x: &str| x@) =~= seq![output@, listed@]);
            r
        },
        _ => copy_str(output),
    }
}

fn object_text_exec(entries: &Vec<(String, CssLeaf)>, locale: Locale) -> (r: Option<String>)
    ensures
        match object_text(entries@, locale) {
            Some(t) => r matches Some(s) && s@ == t,
            None => r is None,
        },
{
    match kv_get_exec(entries.as_slice(), locale.as_url_str()) {
        Some(CssLeaf::Str(s)) => Some(copy_str(s.as_str())),
        Some(CssLeaf::Other) => None,
        _ => {
            if locale != Locale::EnUs {
                proof {
                    reveal_strlit("en-US");
                }
                match kv_get_exec(entries.as_slice(), "en-US") {
                    Some(CssLeaf::Str(s)) => Some(copy_str(s.as_str())),
                    _ => None,
                }
            } else {
                None
            }
        },
    }
}

fn initial_l10n_exec(s: &str) -> (r: bool)
    ensures
        r == initial_l10n_value(s@),
{
    str_eq(s, "\"\"") || str_eq(s, "\". \"") || str_eq(s, "autoForSmartphoneBrowsersSupportingInflation")
        || str_eq(s, "dependsOnUserAgent") || str_eq(s, "noPracticalInitialValue")
        || str_eq(s, "noneButOverriddenInUserAgentCSS") || str_eq(s, "seeProse")
        || str_eq(s, "startOrNamelessValueIfLTRRightIfRTL") || str_eq(s, "zoomForTheTopLevelNoneForTheRest")
}

/// `r` is the cell or the error that `res` says.
pub open spec fn cell_is(r: Result<String, DocError>, res: Result<Seq<char>, Stop>) -> bool {
    match res {
        Ok(t) => r matches Ok(s) && s@ == t,
        Err(st) => r matches Err(e) && stopped_with(e, st),
    }
}

fn render_exec<R: Fn(&str) -> Result<String, DocError>>(render: &R, text: &str) -> (r: Result<String, DocError>)
    requires
        forall|s: &str| call_requires(*render, (s,)),
        answers_alike(*render),
    ensures
        cell_is(r, rendered(*render, text@)),
{
    let res = render(text);
    proof {
        lemma_answer(*render, text, res);
    }
    res
}

fn missing_exec(files: &L10nFiles, locale: Locale) -> (r: Result<String, DocError>)
    ensures
        cell_is(r, missing_out(files@, locale)),
{
    match l10n_json_data("CSS", "missing", locale, files) {
        Ok(m) => {
            let mut out = String::new();
            push_str(&mut out, "<span style=\"color:red;\">");
            push_str(&mut out, m.as_str());
            push_str(&mut out, "</span>");
            Ok(out)
        },
        Err(e) => Err(DocError::L10nError(e)),
    }
}

proof fn lemma_longhands_mono<R: Fn(&str) -> Result<String, DocError>, X: Fn(&str) -> String, P: Fn(&str) -> Option<CssPropertyData>>(
    ts: Seq<Seq<char>>,
    i: int,
    j: int,
    property: Seq<char>,
    at_rule: Option<Seq<char>>,
    locale: Locale,
    l10n: Seq<(String, Vec<(String, String)>)>,
    files: Seq<(String, Vec<(String, Vec<(String, String)>)>)>,
    render: R,
    xref: X,
    lookup: P,
    fuel: nat,
)
    requires
        0 <= i <= j <= ts.len(),
    ensures
        longhands(ts.take(i), property, at_rule, locale, l10n, files, render, xref, lookup, fuel) is None
            ==> longhands(ts.take(j), property, at_rule, locale, l10n, files, render, xref, lookup, fuel) is None,
        longhands(ts.take(i), property, at_rule, locale, l10n, files, render, xref, lookup, fuel) matches Some(Err(_))
            ==> longhands(ts.take(j), property, at_rule, locale, l10n, files, render, xref, lookup, fuel)
                == longhands(ts.take(i), property, at_rule, locale, l10n, files, render, xref, lookup, fuel),
    decreases j - i,
{
    if i < j {
        lemma_longhands_mono(ts, i, j - 1, property, at_rule, locale, l10n, files, render, xref, lookup, fuel);
        assert(ts.take(j).drop_last() =~= ts.take(j - 1));
    }
}

fn animation_words(s: &str, locale: Locale, l10n: &CssL10n) -> (r: Vec<String>)
    ensures
        texts(r@) == ascii_words(s@).map_values(|w: Seq<char>| animation_word(w, locale, l10n@)),
{
    let v = chars_of(s);
    let words = ascii_words_exec(&v);
    let ghost ws = ascii_words(s@);
    let mut out: Vec<String> = Vec::new();
    let n = words.len();
    let mut i: usize = 0;
    assert(texts(out@) =~= ws.take(0).map_values(|w: Seq<char>| animation_word(w, locale, l10n@)));
    while i < n
        invariant
            n == words@.len(),
            ws == ascii_words(s@),
            n == ws.len(),
            forall|q: int| 0 <= q < n ==> #[trigger] words@[q]@ == ws[q],
            i <= n,
            texts(out@) == ws.take(i as int).map_values(|w: Seq<char>| animation_word(w, locale, l10n@)),
        decreases n - i,
    {
        let w = string_of(words[i].as_slice());
        assert(w@ == ws[i as int]);
        proof {
            reveal_strlit("lpc");
        }
        let shown = if str_eq(w.as_str(), "lpc") {
            let t = get_css_l10n_for_locale(w.as_str(), locale, l10n);
            let len = get_css_l10n_for_locale("length", locale, l10n);
            let reps: [&str; 1] = [len.as_str()];
            let r = remove_me_replace_placeholder(t.as_str(), &reps);
            assert(reps@.map_values(|x: &str| x@) =~= seq![len@]);
            r
        } else {
            get_css_l10n_for_locale(w.as_str(), locale, l10n)
        };
        let ghost old_out = out@;
        out.push(shown);
        assert(texts(out@) =~= texts(old_out).push(animation_word(ws[i as int], locale, l10n@)));
        assert(ws.take(i + 1).map_values(|w: Seq<char>| animation_word(w, locale, l10n@))
            =~= ws.take(i as int).map_values(|w: Seq<char>| animation_word(w, locale, l10n@)).push(animation_word(ws[i as int], locale, l10n@)));
        i += 1;
    }
    assert(ws.take(n as int) =~= ws);
    out
}

fn keyword_texts(s: &str, locale: Locale, l10n: &CssL10n) -> (r: Vec<String>)
    ensures
        texts(r@) == split_comma(s@).map_values(|k: Seq<char>| spec_css_l10n(l10n@, k, locale)),
{
    let ks = split_comma_exec(s);
    let ghost kv = texts(ks@);
    let mut out: Vec<String> = Vec::new();
    let n = ks.len();
    let mut i: usize = 0;
    assert(texts(out@) =~= kv.take(0).map_values(|k: Seq<char>| spec_css_l10n(l10n@, k, locale)));
    while i < n
        invariant
            n == ks@.len(),
            kv == texts(ks@),
            i <= n,
            texts(out@) == kv.take(i as int).map_values(|k: Seq<char>| spec_css_l10n(l10n@, k, locale)),
        decreases n - i,
    {
        let t = get_css_l10n_for_locale(ks[i].as_str(), locale, l10n);
        assert(kv[i as int] == ks@[i as int]@);
        let ghost old_out = out@;
        out.push(t);
        assert(texts(out@) =~= texts(old_out).push(spec_css_l10n(l10n@, kv[i as int], locale)));
        assert(kv.take(i + 1).map_values(|k: Seq<char>| spec_css_l10n(l10n@, k, locale))
            =~= kv.take(i as int).map_values(|k: Seq<char>| spec_css_l10n(l10n@, k, locale)).push(spec_css_l10n(l10n@, kv[i as int], locale)));
        i += 1;
    }
    assert(kv.take(n as int) =~= kv);
    out
}

fn write_cell<R: Fn(&str) -> Result<String, DocError>, X: Fn(&str) -> String, P: Fn(&str) -> Option<CssPropertyData>>(
    fields: &Vec<(String, CssValue)>,
    property: &str,
    at_rule: Option<&str>,
    locale: Locale,
    l10n: &CssL10n,
    files: &L10nFiles,
    render: &R,
    xref: &X,
    lookup: &P,
    Ghost(fuel): Ghost<nat>,
) -> (r: Result<String, DocError>)
    requires
        forall|s: &str| call_requires(*render, (s,)),
        forall|s: &str| call_requires(*xref, (s,)),
        forall|s: &str| call_requires(*lookup, (s,)),
        answers_alike(*render),
        answers_alike(*xref),
        answers_alike(*lookup),
        computed(fields@, property@, opt_str(at_rule), locale, l10n@, files@, *render, *xref, *lookup, fuel) is Some,
    ensures
        cell_is(r, computed(fields@, property@, opt_str(at_rule), locale, l10n@, files@, *render, *xref, *lookup, fuel)->0),
    decreases fuel, 1nat, 0nat,
{
    proof {
        reveal_strlit("relatedAtRule");
        reveal_strlit("animationType");
        reveal_strlit("initial");
        reveal_strlit("yes");
        reveal_strlit("no");
    }
    if str_eq(property, "relatedAtRule") {
        return match at_rule {
            None => Err(DocError::MustHaveAtRule),
            Some(a) => {
                let mut out = String::new();
                push_str(&mut out, "<a href=\"/");
                push_str(&mut out, locale.as_url_str());
                push_str(&mut out, "/docs/Web/CSS/");
                push_str(&mut out, a);
                push_str(&mut out, "\"><code>");
                push_str(&mut out, a);
                push_str(&mut out, "</code></a>");
                Ok(out)
            },
        };
    }
    let v = match kv_get_exec(fields.as_slice(), property) {
        None => {
            return Ok(String::new());
        },
        Some(v) => v,
    };
    match v {
        CssValue::Null => Ok(String::new()),
        CssValue::Bool(b) => Ok(get_css_l10n_for_locale(if *b { "yes" } else { "no" }, locale, l10n)),
        CssValue::Number(n) => Ok(copy_str(n.as_str())),
        CssValue::Str(s) => {
            let sv = chars_of(s.as_str());
            if str_eq(property, "animationType") {
                let words = animation_words(s.as_str(), locale, l10n);
                let sep = get_css_l10n_for_locale("listSeparator", locale, l10n);
                let joined = join_exec(&words, sep.as_str());
                let text = with_also_applies_to_exec(joined.as_str(), property, fields, locale, l10n, xref);
                render_exec(render, text.as_str())
            } else if sv.len() > 0 && sv[0] == '\'' && sv[sv.len() - 1] == '\'' {
                if sv.len() < 2 {
                    assert(false);
                    return Ok(String::new());
                }
                let name = string_of(slice_of(sv.as_slice(), 1, sv.len() - 1).as_slice());
                assert(name@ =~= s@.subrange(1, s@.len() - 1));
                let nq = name.as_str();
                let d = lookup(nq);
                proof {
                    lemma_answer(*lookup, nq, d);
                }
                match d {
                    None => Ok(String::new()),
                    Some(data) => write_cell(&data.fields, property, at_rule, locale, l10n, files, render, xref, lookup, Ghost((fuel - 1) as nat)),
                }
            } else if str_eq(property, "initial") && !initial_l10n_exec(s.as_str()) {
                let mut out = String::new();
                push_str(&mut out, "<code>");
                push_str(&mut out, s.as_str());
                push_str(&mut out, "</code>");
                Ok(out)
            } else {
                let kws = keyword_texts(s.as_str(), locale, l10n);
                let joined = join_exec(&kws, ", ");
                proof {
                    reveal_strlit(", ");
                }
                let text = with_also_applies_to_exec(joined.as_str(), property, fields, locale, l10n, xref);
                render_exec(render, text.as_str())
            }
        },
        CssValue::Array(ls) => {
            let lhs = leaf_texts_exec(ls);
            let items = match write_longhands(&lhs, property, at_rule, locale, l10n, files, render, xref, lookup, Ghost(fuel)) {
                Ok(t) => t,
                Err(e) => {
                    return Err(e);
                },
            };
            let mut tmp = get_css_l10n_for_locale("asLonghands", locale, l10n);
            push_str(&mut tmp, "<br /><ul>");
            push_str(&mut tmp, items.as_str());
            push_str(&mut tmp, "</ul>");
            let text = with_also_applies_to_exec(tmp.as_str(), property, fields, locale, l10n, xref);
            render_exec(render, text.as_str())
        },
        CssValue::Object(entries) => match object_text_exec(entries, locale) {
            Some(t) => {
                let text = with_also_applies_to_exec(t.as_str(), property, fields, locale, l10n, xref);
                render_exec(render, text.as_str())
            },
            None => missing_exec(files, locale),
        },
    }
}

fn write_longhands<R: Fn(&str) -> Result<String, DocError>, X: Fn(&str) -> String, P: Fn(&str) -> Option<CssPropertyData>>(
    lhs: &Vec<String>,
    property: &str,
    at_rule: Option<&str>,
    locale: Locale,
    l10n: &CssL10n,
    files: &L10nFiles,
    render: &R,
    xref: &X,
    lookup: &P,
    Ghost(fuel): Ghost<nat>,
) -> (r: Result<String, DocError>)
    requires
        forall|s: &str| call_requires(*render, (s,)),
        forall|s: &str| call_requires(*xref, (s,)),
        forall|s: &str| call_requires(*lookup, (s,)),
        answers_alike(*render),
        answers_alike(*xref),
        answers_alike(*lookup),
        longhands(texts(lhs@), property@, opt_str(at_rule), locale, l10n@, files@, *render, *xref, *lookup, fuel) is Some,
    ensures
        cell_is(r, longhands(texts(lhs@), property@, opt_str(at_rule), locale, l10n@, files@, *render, *xref, *lookup, fuel)->0),
    decreases fuel, 0nat, 0nat,
{
    let ghost ts = texts(lhs@);
    let ghost whole = longhands(ts, property@, opt_str(at_rule), locale, l10n@, files@, *render, *xref, *lookup, fuel);
    let mut acc = String::new();
    let n = lhs.len();
    let mut i: usize = 0;
    assert(ts.take(0) =~= Seq::<Seq<char>>::empty());
    assert(ts.take(n as int) =~= ts);
    while i < n
        invariant
            n == lhs@.len(),
            ts == texts(lhs@),
            ts.take(n as int) == ts,
            i <= n,
            whole == longhands(ts, property@, opt_str(at_rule), locale, l10n@, files@, *render, *xref, *lookup, fuel),
            whole is Some,
            longhands(ts.take(i as int), property@, opt_str(at_rule), locale, l10n@, files@, *render, *xref, *lookup, fuel)
                == Some::<Result<Seq<char>, Stop>>(Ok(acc@)),
            forall|s: &str| call_requires(*render, (s,)),
            forall|s: &str| call_requires(*xref, (s,)),
            forall|s: &str| call_requires(*lookup, (s,)),
            answers_alike(*render),
            answers_alike(*xref),
            answers_alike(*lookup),
        decreases n - i,
    {
        proof {
            lemma_longhands_mono(ts, i + 1, n as int, property@, opt_str(at_rule), locale, l10n@, files@, *render, *xref, *lookup, fuel);
            assert(ts.take(i + 1).drop_last() =~= ts.take(i as int));
            assert(ts.take(i + 1).last() == ts[i as int]);
        }
        let lh = lhs[i].as_str();
        assert(lh@ == ts[i as int]);
        let d = lookup(lh);
        proof {
            lemma_answer(*lookup, lh, d);
        }
        let cell = match d {
            None => missing_exec(files, locale),
            Some(data) => write_cell(&data.fields, property, at_rule, locale, l10n, files, render, xref, lookup, Ghost((fuel - 1) as nat)),
        };
        match cell {
            Ok(c) => {
                push_str(&mut acc, "<li>{{cssxref(\"");
                push_str(&mut acc, lh);
                push_str(&mut acc, "\")}}: ");
                push_str(&mut acc, c.as_str());
                push_str(&mut acc, "</li>");
            },
            Err(e) => {
                return Err(e);
            },
        }
        i += 1;
    }
    Ok(acc)
}

/// Writes the mark of a missing value (see `missing_out`); the translation error is
/// returned with nothing written.
pub fn write_missing(out: &mut String, locale: Locale, files: &L10nFiles) -> (r: Result<(), DocError>)
    ensures
        match missing_out(files@, locale) {
            Ok(t) => r is Ok && final(out)@ == old(out)@ + t,
            Err(st) => r matches Err(e) && stopped_with(e, st) && final(out)@ == old(out)@,
        },
{
    match missing_exec(files, locale) {
        Ok(m) => {
            push_str(out, m.as_str());
            Ok(())
        },
        Err(e) => Err(e),
    }
}

/// Writes the cell of the row `property` of the information box of a CSS property with
/// data `data` (see `computed`): `render_ref` renders the macros of a text,
/// `xref` links an element the property also applies to (or gives the text of the error
/// of linking it), `lookup_property` finds the data of another property (none where it
/// has none); each answers alike for equal arguments, and the lookups end (some fuel is
/// enough). On an error nothing is written.
pub fn write_computed_output<R: Fn(&str) -> Result<String, DocError>, X: Fn(&str) -> String, P: Fn(&str) -> Option<CssPropertyData>>(
    out: &mut String,
    locale: Locale,
    data: &CssPropertyData,
    property: &str,
    at_rule: Option<&str>,
    l10n: &CssL10n,
    files: &L10nFiles,
    render_ref: &R,
    xref: &X,
    lookup_property: &P,
) -> (r: Result<(), DocError>)
    requires
        forall|s: &str| call_requires(*render_ref, (s,)),
        forall|s: &str| call_requires(*xref, (s,)),
        forall|s: &str| call_requires(*lookup_property, (s,)),
        answers_alike(*render_ref),
        answers_alike(*xref),
        answers_alike(*lookup_property),
        exists|fuel: nat|
            #[trigger] computed(data.fields@, property@, opt_str(at_rule), locale, l10n@, files@, *render_ref, *xref, *lookup_property, fuel) is Some,
    ensures
        exists|fuel: nat|
            {
                &&& #[trigger] computed(data.fields@, property@, opt_str(at_rule), locale, l10n@, files@, *render_ref, *xref, *lookup_property, fuel) is Some
                &&& match computed(data.fields@, property@, opt_str(at_rule), locale, l10n@, files@, *render_ref, *xref, *lookup_property, fuel)->0 {
                    Ok(t) => r is Ok && final(out)@ == old(out)@ + t,
                    Err(st) => r matches Err(e) && stopped_with(e, st) && final(out)@ == old(out)@,
                }
            },
{
    let ghost fuel = choose|fuel: nat|
        #[trigger] computed(data.fields@, property@, opt_str(at_rule), locale, l10n@, files@, *render_ref, *xref, *lookup_property, fuel) is Some;
    match write_cell(&data.fields, property, at_rule, locale, l10n, files, render_ref, xref, lookup_property, Ghost(fuel)) {
        Ok(t) => {
            push_str(out, t.as_str());
            Ok(())
        },
        Err(e) => Err(e),
    }
}

} // verus!
