//! Which values of the CSS formal definitions are grammar (shown as they are) rather
//! than prose (translated), and placeholders in translated prose.
use vstd::prelude::*;
use crate::data::L10nError;
use crate::locale::{spec_url_str, Locale};
use crate::resolve::DocError;
use crate::text::{
    push_str, string_of,
    chars_of, is_ascii_alphabetic, is_ascii_alphanumeric, is_ascii_digit, is_ascii_hexdigit,
    replace, replace_str, str_eq,
};

verus! {

/// Whether `c` has the Unicode `Alphabetic` property (`char::is_alphabetic`).
pub uninterp spec fn alphabetic(c: char) -> bool;

/// Asks the standard library whether `c` has the Unicode `Alphabetic` property
/// (`char::is_alphabetic`); the contract names the answer.
#[verifier::external_body]
fn is_alphabetic(c: char) -> (r: bool)
    ensures
        r == alphabetic(c),
{
    c.is_alphabetic()
}

/// `s` with `$1$` replaced by the first replacement and `$2$` by the second (each left as
/// it is where there is no such replacement).
pub open spec fn spec_replace_placeholders(s: Seq<char>, replacements: Seq<Seq<char>>) -> Seq<char> {
    let first = if replacements.len() > 0 { replacements[0] } else { "$1$"@ };
    let second = if replacements.len() > 1 { replacements[1] } else { "$2$"@ };
    replace(replace(s, "$1$"@, first), "$2$"@, second)
}

/// Replaces the placeholders `$1$` and `$2$` of translated prose.
pub fn remove_me_replace_placeholder(s: &str, replacements: &[&str]) -> (r: String)
    ensures
        r@ == spec_replace_placeholders(s@, replacements@.map_values(|x: &str| x@)),
{
    proof {
        reveal_strlit("$1$");
        reveal_strlit("$2$");
    }
    let first: &str = if replacements.len() > 0 { replacements[0] } else { "$1$" };
    let second: &str = if replacements.len() > 1 { replacements[1] } else { "$2$" };
    let a = replace_str(s, "$1$", first);
    replace_str(a.as_str(), "$2$", second)
}

/// `s` is a run of ASCII digits.
pub open spec fn all_digits(s: Seq<char>) -> bool {
    forall|k: int| 0 <= k < s.len() ==> is_ascii_digit(#[trigger] s[k])
}

/// `s` is `word` in any case (ASCII letters).
pub open spec fn eq_ignore_case(s: Seq<char>, word: Seq<char>) -> bool {
    s.len() == word.len() && forall|k: int| 0 <= k < s.len() ==> crate::text::ascii_lower(#[trigger] s[k]) == word[k]
}

/// An unsigned decimal number as `f64::from_str` reads it: digits with at most one `.`
/// and at least one digit, then an optional exponent (`e` or `E`, a sign, digits).
pub open spec fn is_decimal(s: Seq<char>) -> bool {
    exists|m: int, e: int| 0 <= m <= e <= s.len() && #[trigger] decimal_split(s, m, e)
}

/// `s` is a mantissa `s[..e]` (digits, possibly a `.` at position `m`) and an exponent
/// `s[e..]`.
pub open spec fn decimal_split(s: Seq<char>, m: int, e: int) -> bool {
    let mant = s.take(e);
    let exp = s.skip(e);
    &&& (if m < e && mant[m] == '.' {
        all_digits(mant.take(m)) && all_digits(mant.skip(m + 1)) && mant.len() > 1
    } else {
        m == e && all_digits(mant) && mant.len() > 0
    })
    &&& (exp.len() == 0 || (exp.len() > 0 && (exp[0] == 'e' || exp[0] == 'E') && {
        let rest = exp.drop_first();
        let digits = if rest.len() > 0 && (rest[0] == '+' || rest[0] == '-') { rest.drop_first() } else { rest };
        digits.len() > 0 && all_digits(digits)
    }))
}

/// `s` is accepted by `f64::from_str`: an optional sign, then `inf`, `infinity`, `nan`
/// (in any case) or a decimal number.
pub open spec fn parses_as_f64(s: Seq<char>) -> bool {
    let body = if s.len() > 0 && (s[0] == '+' || s[0] == '-') { s.drop_first() } else { s };
    eq_ignore_case(body, "inf"@) || eq_ignore_case(body, "infinity"@) || eq_ignore_case(body, "nan"@)
        || is_decimal(body)
}

fn eq_ignore_case_exec(s: &[char], word: &str) -> (r: bool)
    requires
        forall|k: int| 0 <= k < word@.len() ==> crate::text::is_ascii_lowercase(#[trigger] word@[k]),
    ensures
        r == eq_ignore_case(s@, word@),
{
    let w = chars_of(word);
    if s.len() != w.len() {
        return false;
    }
    let n = s.len();
    let mut i: usize = 0;
    while i < n
        invariant
            n == s@.len(),
            n == w@.len(),
            w@ == word@,
            i <= n,
            forall|k: int| 0 <= k < i ==> crate::text::ascii_lower(#[trigger] s@[k]) == w@[k],
        decreases n - i,
    {
        let c = s[i];
        let l = if 'A' <= c && c <= 'Z' { crate::text::char_from_u32_lower(c) } else { c };
        if l != w[i] {
            return false;
        }
        i += 1;
    }
    true
}

fn all_digits_from(s: &[char], from: usize, to: usize) -> (r: bool)
    requires
        from <= to <= s@.len(),
    ensures
        r == all_digits(s@.subrange(from as int, to as int)),
{
    let mut i = from;
    while i < to
        invariant
            from <= i <= to,
            to <= s@.len(),
            forall|k: int| from <= k < i ==> is_ascii_digit(#[trigger] s@[k]),
        decreases to - i,
    {
        if !('0' <= s[i] && s[i] <= '9') {
            assert(!is_ascii_digit(s@.subrange(from as int, to as int)[i - from]));
            return false;
        }
        i += 1;
    }
    assert forall|k: int| 0 <= k < to - from implies is_ascii_digit(#[trigger] s@.subrange(from as int, to as int)[k]) by {
        assert(s@.subrange(from as int, to as int)[k] == s@[from + k]);
    }
    true
}

fn is_decimal_exec(s: &[char]) -> (r: bool)
    ensures
        r == is_decimal(s@),
{
    let n = s.len();
    // the exponent starts at the first `e` or `E`, the mantissa's `.` at the first `.`
    let mut e: usize = 0;
    while e < n && s[e] != 'e' && s[e] != 'E'
        invariant
            e <= n,
            n == s@.len(),
            forall|k: int| 0 <= k < e ==> s@[k] != 'e' && s@[k] != 'E',
        decreases n - e,
    {
        e += 1;
    }
    let mut m: usize = 0;
    while m < e && s[m] != '.'
        invariant
            m <= e,
            e <= n,
            n == s@.len(),
            forall|k: int| 0 <= k < m ==> s@[k] != '.',
        decreases e - m,
    {
        m += 1;
    }
    let mant_ok = if m < e {
        all_digits_from(s, 0, m) && all_digits_from(s, m + 1, e) && e > 1
    } else {
        all_digits_from(s, 0, e) && e > 0
    };
    let exp_ok = if e == n {
        true
    } else {
        let mut d = e + 1;
        if d < n && (s[d] == '+' || s[d] == '-') {
            d = d + 1;
        }
        d < n && all_digits_from(s, d, n)
    };
    let r = mant_ok && exp_ok;
    proof {
        let mant = s@.take(e as int);
        let exp = s@.skip(e as int);
        assert(mant.take(m as int) =~= s@.subrange(0, m as int));
        if m < e {
            assert(mant.skip(m + 1) =~= s@.subrange(m + 1, e as int));
        }
        assert(mant =~= s@.subrange(0, e as int));
        if e < n {
            let rest = exp.drop_first();
            assert(rest =~= s@.subrange(e + 1, n as int));
            if rest.len() > 0 && (rest[0] == '+' || rest[0] == '-') {
                assert(rest.drop_first() =~= s@.subrange(e + 2, n as int));
            }
        }
        if r {
            assert(decimal_split(s@, m as int, e as int));
        } else {
            assert forall|m2: int, e2: int| 0 <= m2 <= e2 <= s@.len() implies !#[trigger] decimal_split(s@, m2, e2) by {
                if decimal_split(s@, m2, e2) {
                    lemma_decimal_split_unique(s@, m as int, e as int, m2, e2);
                }
            }
        }
    }
    r
}

/// A split of a decimal number is the one at the first `.` and the first `e`/`E`.
proof fn lemma_decimal_split_unique(s: Seq<char>, m: int, e: int, m2: int, e2: int)
    requires
        0 <= m <= e <= s.len(),
        forall|k: int| 0 <= k < e ==> s[k] != 'e' && s[k] != 'E',
        e < s.len() ==> s[e] == 'e' || s[e] == 'E',
        forall|k: int| 0 <= k < m ==> s[k] != '.',
        m < e ==> s[m] == '.',
        0 <= m2 <= e2 <= s.len(),
        decimal_split(s, m2, e2),
    ensures
        decimal_split(s, m, e),
{
    let mant2 = s.take(e2);
    let exp2 = s.skip(e2);
    // the mantissa holds no `e`, so the exponent starts at the first one
    if e2 < e {
        assert(exp2[0] == s[e2]);
    }
    if e2 > e {
        assert(mant2[e] == s[e]);
        if m2 < e2 && mant2[m2] == '.' {
            if e < m2 {
                assert(mant2.take(m2)[e] == s[e]);
            } else {
                assert(mant2.skip(m2 + 1)[e - m2 - 1] == s[e]);
            }
        } else {
            assert(mant2[e] == s[e]);
        }
    }
    assert(e2 == e);
    // the mantissa holds at most one `.`, at the first one
    if m2 < e2 && mant2[m2] == '.' {
        if m < m2 {
            assert(mant2.take(m2)[m] == s[m]);
        }
        assert(m2 == m);
    } else {
        if m < e {
            assert(mant2[m] == s[m]);
        }
        assert(m == e);
    }
}

/// Whether `s` is accepted by `f64::from_str` (see `parses_as_f64`).
fn parses_as_f64_exec(s: &[char]) -> (r: bool)
    ensures
        r == parses_as_f64(s@),
{
    let body: Vec<char> = if s.len() > 0 && (s[0] == '+' || s[0] == '-') {
        let b = crate::text::slice_of(s, 1, s.len());
        assert(b@ =~= s@.drop_first());
        b
    } else {
        crate::text::slice_of(s, 0, s.len())
    };
    assert(s@.subrange(0, s@.len() as int) =~= s@);
    proof {
        reveal_strlit("inf");
        reveal_strlit("infinity");
        reveal_strlit("nan");
    }
    eq_ignore_case_exec(body.as_slice(), "inf") || eq_ignore_case_exec(body.as_slice(), "infinity")
        || eq_ignore_case_exec(body.as_slice(), "nan") || is_decimal_exec(body.as_slice())
}

/// The position of the first ASCII letter of `s`, or its length.
pub open spec fn first_alpha(s: Seq<char>) -> int
    decreases s.len(),
{
    if s.len() == 0 {
        0
    } else if is_ascii_alphabetic(s[0]) {
        0
    } else {
        1 + first_alpha(s.drop_first())
    }
}

/// The value without a final `%`.
pub open spec fn without_percent(value: Seq<char>) -> Seq<char> {
    if value.len() > 0 && value.last() == '%' { value.drop_last() } else { value }
}

/// A CSS number with an optional unit, or a percentage: the value without a final `%`
/// parses as a number, or splits at its first ASCII letter into a number and a unit of
/// ASCII letters.
pub open spec fn spec_is_css_numeric_token(value: Seq<char>) -> bool {
    let v = without_percent(value);
    let k = first_alpha(v);
    parses_as_f64(v) || (k > 0 && parses_as_f64(v.take(k)) && forall|j: int| k <= j < v.len() ==> is_ascii_alphabetic(#[trigger] v[j]))
}

proof fn lemma_first_alpha(s: Seq<char>)
    ensures
        0 <= first_alpha(s) <= s.len(),
        forall|j: int| 0 <= j < first_alpha(s) ==> !is_ascii_alphabetic(#[trigger] s[j]),
        first_alpha(s) < s.len() ==> is_ascii_alphabetic(s[first_alpha(s)]),
    decreases s.len(),
{
    if s.len() > 0 && !is_ascii_alphabetic(s[0]) {
        lemma_first_alpha(s.drop_first());
        assert forall|j: int| 0 <= j < first_alpha(s) implies !is_ascii_alphabetic(#[trigger] s[j]) by {
            if j > 0 {
                assert(s[j] == s.drop_first()[j - 1]);
            }
        }
    }
}

/// Whether `value` is a CSS number, dimension or percentage (see
/// `spec_is_css_numeric_token`).
pub fn is_css_numeric_token(value: &str) -> (r: bool)
    ensures
        r == spec_is_css_numeric_token(value@),
{
    let w = chars_of(value);
    let n = w.len();
    let v: Vec<char> = if n > 0 && w[n - 1] == '%' {
        let t = crate::text::slice_of(w.as_slice(), 0, n - 1);
        assert(t@ =~= w@.drop_last());
        t
    } else {
        w
    };
    assert(v@ == without_percent(value@));
    if parses_as_f64_exec(v.as_slice()) {
        return true;
    }
    let m = v.len();
    let mut k: usize = 0;
    proof {
        lemma_first_alpha(v@);
    }
    while k < m && !(('a' <= v[k] && v[k] <= 'z') || ('A' <= v[k] && v[k] <= 'Z'))
        invariant
            m == v@.len(),
            k <= first_alpha(v@),
            0 <= first_alpha(v@) <= m,
            forall|j: int| 0 <= j < first_alpha(v@) ==> !is_ascii_alphabetic(#[trigger] v@[j]),
            first_alpha(v@) < m ==> is_ascii_alphabetic(v@[first_alpha(v@)]),
        decreases m - k,
    {
        k += 1;
    }
    assert(k == first_alpha(v@));
    if k == 0 {
        return false;
    }
    let num = crate::text::slice_of(v.as_slice(), 0, k);
    assert(num@ =~= v@.take(k as int));
    if !parses_as_f64_exec(num.as_slice()) {
        return false;
    }
    let mut j = k;
    while j < m
        invariant
            k <= j <= m,
            m == v@.len(),
            v@ == without_percent(value@),
            k == first_alpha(v@),
            k > 0,
            parses_as_f64(v@.take(k as int)),
            !parses_as_f64(v@),
            forall|q: int| k <= q < j ==> is_ascii_alphabetic(#[trigger] v@[q]),
        decreases m - j,
    {
        if !(('a' <= v[j] && v[j] <= 'z') || ('A' <= v[j] && v[j] <= 'Z')) {
            assert(!is_ascii_alphabetic(v@[j as int]));
            assert(v@[j as int] == v@[j as int]);
            return false;
        }
        j += 1;
    }
    true
}

/// A unicode range: `U+` and then at least one hex digit, `-` or `?`.
pub open spec fn spec_is_unicode_range(value: Seq<char>) -> bool {
    "U+"@.is_prefix_of(value) && value.len() > 2 && forall|k: int| 2 <= k < value.len() ==> {
        let c = #[trigger] value[k];
        is_ascii_hexdigit(c) || c == '-' || c == '?'
    }
}

/// Whether `value` is a unicode range (see `spec_is_unicode_range`).
pub fn is_unicode_range(value: &str) -> (r: bool)
    ensures
        r == spec_is_unicode_range(value@),
{
    proof {
        reveal_strlit("U+");
    }
    let v = chars_of(value);
    let n = v.len();
    proof {
        if "U+"@.is_prefix_of(value@) {
            assert(value@.subrange(0, 2)[0] == value@[0]);
            assert(value@.subrange(0, 2)[1] == value@[1]);
        }
    }
    if n < 2 || v[0] != 'U' || v[1] != '+' {
        return false;
    }
    assert("U+"@ =~= value@.subrange(0, 2));
    if n == 2 {
        return false;
    }
    let mut i: usize = 2;
    while i < n
        invariant
            2 <= i <= n,
            n == v@.len(),
            v@ == value@,
            forall|k: int| 2 <= k < i ==> {
                let c = #[trigger] v@[k];
                is_ascii_hexdigit(c) || c == '-' || c == '?'
            },
        decreases n - i,
    {
        let c = v[i];
        let ok = ('0' <= c && c <= '9') || ('a' <= c && c <= 'f') || ('A' <= c && c <= 'F') || c == '-' || c == '?';
        if !ok {
            assert(!(is_ascii_hexdigit(value@[i as int]) || value@[i as int] == '-' || value@[i as int] == '?'));
            return false;
        }
        i += 1;
    }
    true
}

/// A CSS type: `<name>` with a non-empty name of ASCII letters, digits, `-`, `(` and `)`.
pub open spec fn spec_is_css_type_token(value: Seq<char>) -> bool {
    value.len() > 2 && value[0] == '<' && value.last() == '>' && forall|k: int| 1 <= k < value.len() - 1 ==> {
        let c = #[trigger] value[k];
        is_ascii_alphanumeric(c) || c == '-' || c == '(' || c == ')'
    }
}

/// Whether `value` is a CSS type (see `spec_is_css_type_token`).
pub fn is_css_type_token(value: &str) -> (r: bool)
    ensures
        r == spec_is_css_type_token(value@),
{
    let v = chars_of(value);
    let n = v.len();
    if n <= 2 || v[0] != '<' || v[n - 1] != '>' {
        return false;
    }
    let mut i: usize = 1;
    while i < n - 1
        invariant
            1 <= i <= n - 1,
            n == v@.len(),
            v@ == value@,
            n > 2,
            forall|k: int| 1 <= k < i ==> {
                let c = #[trigger] v@[k];
                is_ascii_alphanumeric(c) || c == '-' || c == '(' || c == ')'
            },
        decreases n - i,
    {
        let c = v[i];
        let ok = ('0' <= c && c <= '9') || ('a' <= c && c <= 'z') || ('A' <= c && c <= 'Z') || c == '-' || c == '(' || c == ')';
        if !ok {
            assert(!(is_ascii_alphanumeric(value@[i as int]) || value@[i as int] == '-' || value@[i as int] == '(' || value@[i as int] == ')'));
            return false;
        }
        i += 1;
    }
    true
}

/// A token of CSS grammar: no alphabetic character at all, a number, `auto`, a unicode
/// range, or a type.
pub open spec fn spec_is_css_grammar_token(value: Seq<char>) -> bool {
    (forall|k: int| 0 <= k < value.len() ==> !alphabetic(#[trigger] value[k]))
        || spec_is_css_numeric_token(value) || value == "auto"@ || spec_is_unicode_range(value)
        || spec_is_css_type_token(value)
}

/// Whether `value` is a token of CSS grammar (see `spec_is_css_grammar_token`).
pub fn is_css_grammar_token(value: &str) -> (r: bool)
    ensures
        r == spec_is_css_grammar_token(value@),
{
    let v = chars_of(value);
    let n = v.len();
    let mut i: usize = 0;
    let mut none_alpha = true;
    while i < n && none_alpha
        invariant
            n == v@.len(),
            i <= n,
            none_alpha == forall|k: int| 0 <= k < i ==> !alphabetic(#[trigger] v@[k]),
        decreases n - i,
    {
        if is_alphabetic(v[i]) {
            none_alpha = false;
        }
        i += 1;
    }
    proof {
        if !none_alpha {
            assert(!(forall|k: int| 0 <= k < v@.len() ==> !alphabetic(#[trigger] v@[k])));
        }
    }
    none_alpha || is_css_numeric_token(value) || str_eq(value, "auto") || is_unicode_range(value)
        || is_css_type_token(value)
}

/// ASCII white space (`u8::is_ascii_whitespace`): space, tab, line feed, form feed,
/// carriage return.
pub open spec fn is_ascii_ws(c: char) -> bool {
    c == ' ' || c == '\t' || c == '\n' || c == '\x0C' || c == '\r'
}

/// The pieces of `s` between runs of ASCII white space, none empty
/// (`str::split_ascii_whitespace`).
pub open spec fn ascii_words(s: Seq<char>) -> Seq<Seq<char>>
    decreases s.len(),
{
    if s.len() == 0 {
        seq![]
    } else {
        let init = ascii_words(s.drop_last());
        if is_ascii_ws(s.last()) {
            init
        } else if s.len() >= 2 && !is_ascii_ws(s[s.len() - 2]) {
            init.drop_last().push(init.last().push(s.last()))
        } else {
            init.push(seq![s.last()])
        }
    }
}

/// The keywords of CSS grammar that would otherwise read as prose.
pub open spec fn grammar_keywords() -> Seq<Seq<char>> {
    seq!["anchor-visible"@, "decimal"@, "relative-colorimetric"@, "symbolic"@, "true"@, "upright"@]
}

/// A value of CSS grammar (shown as it is, not translated): one of the grammar keywords,
/// or a non-empty value whose words are all grammar tokens.
pub open spec fn spec_is_css_grammar_value(value: Seq<char>) -> bool {
    grammar_keywords().contains(value) || (value.len() > 0 && forall|k: int| 0 <= k < ascii_words(value).len() ==> spec_is_css_grammar_token(#[trigger] ascii_words(value)[k]))
}

proof fn lemma_ascii_words_nonempty_last(s: Seq<char>)
    ensures
        s.len() > 0 && !is_ascii_ws(s.last()) ==> ascii_words(s).len() > 0,
    decreases s.len(),
{
    if s.len() >= 2 {
        lemma_ascii_words_nonempty_last(s.drop_last());
        assert(s.drop_last().last() == s[s.len() - 2]);
    }
}

/// Whether `value` is a value of CSS grammar (see `spec_is_css_grammar_value`).
pub fn is_css_grammar_value(value: &str) -> (r: bool)
    ensures
        r == spec_is_css_grammar_value(value@),
{
    proof {
        reveal_strlit("anchor-visible");
    }
    let keywords: [&str; 6] = CSS_GRAMMAR_KEYWORDS;
    let mut i: usize = 0;
    while i < 6
        invariant
            i <= 6,
            forall|j: int| 0 <= j < i ==> keywords@[j]@ != value@,
            keywords@.map_values(|k: &str| k@) == grammar_keywords(),
        decreases 6 - i,
    {
        if str_eq(keywords[i], value) {
            assert(grammar_keywords()[i as int] == value@);
            return true;
        }
        i += 1;
    }
    assert(!grammar_keywords().contains(value@)) by {
        if grammar_keywords().contains(value@) {
            let j = choose|j: int| 0 <= j < 6 && grammar_keywords()[j] == value@;
            assert(keywords@[j]@ == value@);
        }
    }
    let v = chars_of(value);
    let n = v.len();
    if n == 0 {
        return false;
    }
    let words = ascii_words_exec(&v);
    let m = words.len();
    let mut w: usize = 0;
    while w < m
        invariant
            m == words@.len(),
            v@ == value@,
            value@.len() > 0,
            !grammar_keywords().contains(value@),
            m == ascii_words(v@).len(),
            forall|q: int| 0 <= q < m ==> #[trigger] words@[q]@ == ascii_words(v@)[q],
            w <= m,
            forall|q: int| 0 <= q < w ==> spec_is_css_grammar_token(#[trigger] ascii_words(v@)[q]),
        decreases m - w,
    {
        let word = crate::text::string_of(words[w].as_slice());
        if !is_css_grammar_token(word.as_str()) {
            assert(!spec_is_css_grammar_token(ascii_words(value@)[w as int]));
            return false;
        }
        w += 1;
    }
    true
}

pub(crate) fn ascii_words_exec(v: &Vec<char>) -> (r: Vec<Vec<char>>)
    ensures
        r@.len() == ascii_words(v@).len(),
        forall|q: int| 0 <= q < r@.len() ==> #[trigger] r@[q]@ == ascii_words(v@)[q],
{
    let n = v.len();
    let mut words: Vec<Vec<char>> = Vec::new();
    let mut k: usize = 0;
    assert(v@.take(0) =~= Seq::<char>::empty());
    while k < n
        invariant
            n == v@.len(),
            k <= n,
            words@.len() == ascii_words(v@.take(k as int)).len(),
            forall|q: int| 0 <= q < words@.len() ==> #[trigger] words@[q]@ == ascii_words(v@.take(k as int))[q],
            k > 0 && !is_ascii_ws(v@[k - 1]) ==> words@.len() > 0,
        decreases n - k,
    {
        let ghost pre = v@.take(k as int);
        let ghost cur = v@.take(k + 1);
        assert(cur.drop_last() =~= pre);
        assert(cur.last() == v@[k as int]);
        let c = v[k];
        let ws = c == ' ' || c == '\t' || c == '\n' || c == '\x0C' || c == '\r';
        if ws {
        } else if k >= 1 && !(v[k - 1] == ' ' || v[k - 1] == '\t' || v[k - 1] == '\n' || v[k - 1] == '\x0C' || v[k - 1] == '\r') {
            assert(cur[cur.len() - 2] == v@[k - 1]);
            let ghost old_words = words@;
            let last_i = words.len() - 1;
            let mut last = words.remove(last_i);
            last.push(c);
            words.push(last);
            proof {
                let ws_spec = ascii_words(pre);
                assert forall|q: int| 0 <= q < words@.len() implies #[trigger] words@[q]@ == ascii_words(cur)[q] by {
                    if q < words@.len() - 1 {
                        assert(words@[q] == old_words[q]);
                    }
                }
            }
        } else {
            let mut nw: Vec<char> = Vec::new();
            nw.push(c);
            let ghost old_words = words@;
            words.push(nw);
            proof {
                if k >= 1 {
                    assert(cur[cur.len() - 2] == v@[k - 1]);
                }
                assert(nw@ =~= seq![c]);
                assert forall|q: int| 0 <= q < words@.len() implies #[trigger] words@[q]@ == ascii_words(cur)[q] by {
                    if q < words@.len() - 1 {
                        assert(words@[q] == old_words[q]);
                    }
                }
            }
        }
        k += 1;
    }
    assert(v@.take(n as int) =~= v@);
    words
}

/// The keywords of CSS grammar that would otherwise read as prose.
pub const CSS_GRAMMAR_KEYWORDS: [&'static str; 6] = ["anchor-visible", "decimal", "relative-colorimetric", "symbolic", "true", "upright"];

/// The value of a CSS formal definition as it is shown in `locale`: grammar as it is,
/// prose as `lookup` translates it; a missing translation is an error.
pub fn css_l10n_for_value_from<F>(value: &str, locale: Locale, lookup: F) -> (r: Result<String, DocError>)
    where
        F: FnOnce(&str, Locale) -> Result<String, L10nError>,
    requires
        !spec_is_css_grammar_value(value@) ==> call_requires(lookup, (value, locale)),
    ensures
        spec_is_css_grammar_value(value@) ==> (r matches Ok(v) && v@ == value@),
        !spec_is_css_grammar_value(value@) ==> exists|res: Result<String, L10nError>| {
            &&& call_ensures(lookup, (value, locale), res)
            &&& match res {
                Ok(t) => r matches Ok(v) && v@ == t@,
                Err(e) => r matches Err(DocError::InvalidTempl(m)) && m@ == "Missing CSS formal-definition localization for "@
                    + value@ + ": "@ + crate::data::l10n_message(e),
            }
        },
{
    if is_css_grammar_value(value) {
        return Ok(string_of(chars_of(value).as_slice()));
    }
    let res = lookup(value, locale);
    match &res {
        Ok(t) => Ok(t.clone()),
        Err(e) => {
            let mut m = String::new();
            push_str(&mut m, "Missing CSS formal-definition localization for ");
            push_str(&mut m, value);
            push_str(&mut m, ": ");
            let em = e.to_string();
            push_str(&mut m, em.as_str());
            Err(DocError::InvalidTempl(m))
        },
    }
}

/// The `percentages` field of a CSS property's data.
#[derive(Debug, Clone)]
pub enum PercentagesField {
    /// Missing or `null`.
    Null,
    /// A string.
    Text(String),
    /// Any other JSON value.
    Other,
}

/// What the information box of a CSS property reads of the property's data.
#[derive(Debug, Clone)]
pub struct CssInfoData {
    /// The data is a JSON object.
    pub is_object: bool,
    /// Its `inherited` field is there and not `null`.
    pub has_inherited: bool,
    pub percentages: PercentagesField,
    /// Its `stacking` field is `true`.
    pub stacking: bool,
}

/// A row of the information box of a CSS property.
#[derive(Debug, Clone, Copy, PartialEq, Eq, Structural)]
pub enum CssInfoRow {
    RelatedAtRule,
    Initial,
    AppliesTo,
    Inherited,
    Percentages,
    Computed,
    AnimationType,
    Stacking,
}

/// The key of a row in the rendered box.
pub open spec fn row_key(r: CssInfoRow) -> Seq<char> {
    match r {
        CssInfoRow::RelatedAtRule => "relatedAtRule"@,
        CssInfoRow::Initial => "initial"@,
        CssInfoRow::AppliesTo => "appliesto"@,
        CssInfoRow::Inherited => "inherited"@,
        CssInfoRow::Percentages => "percentages"@,
        CssInfoRow::Computed => "computed"@,
        CssInfoRow::AnimationType => "animationType"@,
        CssInfoRow::Stacking => "stacking"@,
    }
}

impl CssInfoRow {
    /// The key of the row in the rendered box.
    pub fn key(&self) -> (r: &'static str)
        ensures
            r@ == row_key(*self),
    {
        match self {
            CssInfoRow::RelatedAtRule => "relatedAtRule",
            CssInfoRow::Initial => "initial",
            CssInfoRow::AppliesTo => "appliesto",
            CssInfoRow::Inherited => "inherited",
            CssInfoRow::Percentages => "percentages",
            CssInfoRow::Computed => "computed",
            CssInfoRow::AnimationType => "animationType",
            CssInfoRow::Stacking => "stacking",
        }
    }
}

/// The rows of the information box of a CSS property (of an at-rule's descriptor where
/// `at_rule`): none for data that is not an object; else the related at-rule (for a
/// descriptor), the initial value, what it applies to (for a property), whether it is
/// inherited (where that is given), percentages (where given and not `no`), the
/// computed value, the animation type (for a property) and the stacking context (where
/// it creates one).
pub open spec fn spec_css_info_rows(at_rule: bool, d: CssInfoData) -> Seq<CssInfoRow> {
    if !d.is_object {
        seq![]
    } else {
        (if at_rule { seq![CssInfoRow::RelatedAtRule] } else { seq![] }) + seq![CssInfoRow::Initial]
            + (if !at_rule { seq![CssInfoRow::AppliesTo] } else { seq![] })
            + (if d.has_inherited { seq![CssInfoRow::Inherited] } else { seq![] })
            + (match d.percentages {
                PercentagesField::Null => seq![],
                PercentagesField::Text(t) => if t@ == "no"@ { seq![] } else { seq![CssInfoRow::Percentages] },
                PercentagesField::Other => seq![CssInfoRow::Percentages],
            })
            + seq![CssInfoRow::Computed]
            + (if !at_rule { seq![CssInfoRow::AnimationType] } else { seq![] })
            + (if d.stacking { seq![CssInfoRow::Stacking] } else { seq![] })
    }
}

/// The rows of the information box of a CSS property (see `spec_css_info_rows`).
pub fn css_info_properties(at_rule: bool, data: &CssInfoData) -> (r: Vec<CssInfoRow>)
    ensures
        r@ == spec_css_info_rows(at_rule, *data),
{
    let mut out: Vec<CssInfoRow> = Vec::new();
    if !data.is_object {
        assert(out@ =~= spec_css_info_rows(at_rule, *data));
        return out;
    }
    if at_rule {
        out.push(CssInfoRow::RelatedAtRule);
    }
    out.push(CssInfoRow::Initial);
    if !at_rule {
        out.push(CssInfoRow::AppliesTo);
    }
    if data.has_inherited {
        out.push(CssInfoRow::Inherited);
    }
    let pct = match &data.percentages {
        PercentagesField::Null => false,
        PercentagesField::Text(t) => !str_eq(t.as_str(), "no"),
        PercentagesField::Other => true,
    };
    if pct {
        out.push(CssInfoRow::Percentages);
    }
    out.push(CssInfoRow::Computed);
    if !at_rule {
        out.push(CssInfoRow::AnimationType);
    }
    if data.stacking {
        out.push(CssInfoRow::Stacking);
    }
    assert(out@ =~= spec_css_info_rows(at_rule, *data));
    out
}

/// The translations of the labels of the CSS information box: for each key, the text
/// per locale (by its URL spelling).
pub type CssL10n = Vec<(String, Vec<(String, String)>)>;

/// The text of a label for `locale` among its translations: the one for `locale`, else
/// the en-US one.
pub open spec fn spec_for_locale(lookup: Seq<(String, String)>, locale: Locale) -> Option<Seq<char>> {
    match crate::data::kv_get(lookup, spec_url_str(locale)) {
        Some(v) => Some(v@),
        None => if locale != Locale::EnUs {
            match crate::data::kv_get(lookup, "en-US"@) {
                Some(v) => Some(v@),
                None => None,
            }
        } else {
            None
        },
    }
}

/// The label `key` of the CSS information box in `locale`: its translation (see
/// `spec_for_locale`), else the key itself.
pub open spec fn spec_css_l10n(l10n: Seq<(String, Vec<(String, String)>)>, key: Seq<char>, locale: Locale) -> Seq<char> {
    match crate::data::kv_get(l10n, key) {
        Some(data) => match spec_for_locale(data@, locale) {
            Some(v) => v,
            None => key,
        },
        None => key,
    }
}

/// The label `key` of the CSS information box in `locale` (see `spec_css_l10n`).
pub fn get_css_l10n_for_locale(key: &str, locale: Locale, l10n: &CssL10n) -> (r: String)
    ensures
        r@ == spec_css_l10n(l10n@, key@, locale),
{
    match crate::data::kv_get_exec(l10n.as_slice(), key) {
        Some(data) => match crate::data::kv_get_exec(data.as_slice(), locale.as_url_str()) {
            Some(v) => v.clone(),
            None => {
                if locale != Locale::EnUs {
                    match crate::data::kv_get_exec(data.as_slice(), "en-US") {
                        Some(v) => v.clone(),
                        None => string_of(chars_of(key).as_slice()),
                    }
                } else {
                    string_of(chars_of(key).as_slice())
                }
            },
        },
        None => string_of(chars_of(key).as_slice()),
    }
}

} // verus!
