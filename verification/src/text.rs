//! Character-level string helpers and the sequence model they are specified against.
//!
//! Strings are modelled by their view, a `Seq<char>`. The spec functions here say what
//! searching, splitting and replacing give on such sequences; the executable helpers
//! compute the same on `Vec<char>` and `String`.
use vstd::prelude::*;

verus! {

/// The character sequences of a list of strings.
pub open spec fn views(v: Seq<String>) -> Seq<Seq<char>> {
    v.map_values(|s: String| s@)
}

/// Position of the first occurrence of `c` in `s`.
pub open spec fn first_index(s: Seq<char>, c: char) -> Option<int>
    decreases s.len(),
{
    if s.len() == 0 {
        None
    } else if s[0] == c {
        Some(0)
    } else {
        match first_index(s.drop_first(), c) {
            Some(i) => Some(i + 1),
            None => None,
        }
    }
}

/// Position of the last occurrence of `c` in `s`.
pub open spec fn last_index(s: Seq<char>, c: char) -> Option<int>
    decreases s.len(),
{
    if s.len() == 0 {
        None
    } else if s.last() == c {
        Some(s.len() - 1)
    } else {
        last_index(s.drop_last(), c)
    }
}

/// Whether `p` occurs in `s` starting at position `i`.
pub open spec fn matches_at(s: Seq<char>, p: Seq<char>, i: int) -> bool {
    0 <= i && i + p.len() <= s.len() && s.subrange(i, i + p.len()) == p
}

/// Position of the first occurrence of the non-empty pattern `p` in `s`.
pub open spec fn first_match(s: Seq<char>, p: Seq<char>) -> Option<int>
    decreases s.len(),
{
    if s.len() < p.len() || p.len() == 0 {
        None
    } else if p.is_prefix_of(s) {
        Some(0)
    } else {
        match first_match(s.drop_first(), p) {
            Some(i) => Some(i + 1),
            None => None,
        }
    }
}

/// `s` with every non-overlapping occurrence of the non-empty pattern `p`, scanned from
/// the left, replaced by `r`.
pub open spec fn replace(s: Seq<char>, p: Seq<char>, r: Seq<char>) -> Seq<char>
    decreases s.len(),
{
    if p.len() == 0 || s.len() == 0 {
        s
    } else if p.is_prefix_of(s) {
        r + replace(s.skip(p.len() as int), p, r)
    } else {
        seq![s[0]] + replace(s.drop_first(), p, r)
    }
}

/// The pieces of `s` between occurrences of `c` (as `str::split` with a char).
pub open spec fn split(s: Seq<char>, c: char) -> Seq<Seq<char>>
    decreases s.len(),
{
    match first_index(s, c) {
        None => seq![s],
        Some(i) => {
            proof {
                lemma_first_index(s, c);
            }
            seq![s.take(i)] + split(s.skip(i + 1), c)
        },
    }
}

/// `split_once` on a char: the pieces before and after the first `c`.
pub open spec fn split_once(s: Seq<char>, c: char) -> Option<(Seq<char>, Seq<char>)> {
    match first_index(s, c) {
        Some(i) => Some((s.take(i), s.skip(i + 1))),
        None => None,
    }
}

/// `rsplit_once` on a char: the pieces before and after the last `c`.
pub open spec fn rsplit_once(s: Seq<char>, c: char) -> Option<(Seq<char>, Seq<char>)> {
    match last_index(s, c) {
        Some(i) => Some((s.take(i), s.skip(i + 1))),
        None => None,
    }
}

/// `split_once` on a non-empty string pattern.
pub open spec fn split_once_str(s: Seq<char>, p: Seq<char>) -> Option<(Seq<char>, Seq<char>)> {
    match first_match(s, p) {
        Some(i) => Some((s.take(i), s.skip(i + p.len()))),
        None => None,
    }
}

/// `strip_prefix`: the rest of `s` when it starts with `p`.
pub open spec fn strip_prefix(s: Seq<char>, p: Seq<char>) -> Option<Seq<char>> {
    if p.is_prefix_of(s) {
        Some(s.skip(p.len() as int))
    } else {
        None
    }
}

/// `strip_suffix`: the front of `s` when it ends with `p`.
pub open spec fn strip_suffix(s: Seq<char>, p: Seq<char>) -> Option<Seq<char>> {
    if p.is_suffix_of(s) {
        Some(s.take(s.len() - p.len()))
    } else {
        None
    }
}

pub open spec fn is_ascii_digit(c: char) -> bool {
    '0' <= c && c <= '9'
}

pub open spec fn is_ascii_lowercase(c: char) -> bool {
    'a' <= c && c <= 'z'
}

pub open spec fn is_ascii_uppercase(c: char) -> bool {
    'A' <= c && c <= 'Z'
}

pub open spec fn is_ascii_alphabetic(c: char) -> bool {
    is_ascii_lowercase(c) || is_ascii_uppercase(c)
}

pub open spec fn is_ascii_alphanumeric(c: char) -> bool {
    is_ascii_alphabetic(c) || is_ascii_digit(c)
}

pub open spec fn is_ascii_hexdigit(c: char) -> bool {
    is_ascii_digit(c) || ('a' <= c && c <= 'f') || ('A' <= c && c <= 'F')
}

/// ASCII lower-casing of one character.
pub open spec fn ascii_lower(c: char) -> char {
    if is_ascii_uppercase(c) {
        (((c as u8) + 32) as u8) as char
    } else {
        c
    }
}

/// `to_ascii_lowercase` on a whole string.
pub open spec fn ascii_lowercase(s: Seq<char>) -> Seq<char> {
    s.map_values(|c: char| ascii_lower(c))
}

/// `str::splitn` with a char: at most `n` pieces, the last holding the rest.
pub open spec fn splitn(s: Seq<char>, c: char, n: int) -> Seq<Seq<char>>
    decreases n,
{
    if n <= 1 {
        seq![s]
    } else {
        match first_index(s, c) {
            None => seq![s],
            Some(i) => seq![s.take(i)] + splitn(s.skip(i + 1), c, n - 1),
        }
    }
}

/// What `str::to_lowercase` gives: Unicode lower-casing, which may change lengths.
pub uninterp spec fn lowercase(s: Seq<char>) -> Seq<char>;

/// The facts that pin down `first_index`.
pub proof fn lemma_first_index(s: Seq<char>, c: char)
    ensures
        match first_index(s, c) {
            Some(i) => 0 <= i < s.len() && s[i] == c && forall|j: int| 0 <= j < i ==> s[j] != c,
            None => forall|j: int| 0 <= j < s.len() ==> s[j] != c,
        },
    decreases s.len(),
{
    if s.len() > 0 && s[0] != c {
        lemma_first_index(s.drop_first(), c);
        match first_index(s.drop_first(), c) {
            Some(i) => {
                assert forall|j: int| 0 <= j < i + 1 implies s[j] != c by {
                    if j > 0 {
                        assert(s[j] == s.drop_first()[j - 1]);
                    }
                }
            },
            None => {
                assert forall|j: int| 0 <= j < s.len() implies s[j] != c by {
                    if j > 0 {
                        assert(s[j] == s.drop_first()[j - 1]);
                    }
                }
            },
        }
    }
}

/// A position with the first-occurrence property is what `first_index` gives.
pub proof fn lemma_first_index_is(s: Seq<char>, c: char, i: int)
    requires
        0 <= i <= s.len(),
        i < s.len() ==> s[i] == c,
        forall|j: int| 0 <= j < i ==> s[j] != c,
    ensures
        first_index(s, c) == (if i < s.len() { Some(i) } else { None::<int> }),
{
    lemma_first_index(s, c);
}

/// The facts that pin down `last_index`.
pub proof fn lemma_last_index(s: Seq<char>, c: char)
    ensures
        match last_index(s, c) {
            Some(i) => 0 <= i < s.len() && s[i] == c && forall|j: int| i < j < s.len() ==> s[j]
                != c,
            None => forall|j: int| 0 <= j < s.len() ==> s[j] != c,
        },
    decreases s.len(),
{
    if s.len() > 0 && s.last() != c {
        lemma_last_index(s.drop_last(), c);
        assert forall|j: int| 0 <= j < s.len() - 1 implies s[j] == s.drop_last()[j] by {}
    }
}

/// The facts that pin down `first_match`.
pub proof fn lemma_first_match(s: Seq<char>, p: Seq<char>)
    requires
        p.len() > 0,
    ensures
        match first_match(s, p) {
            Some(i) => matches_at(s, p, i) && forall|j: int| 0 <= j < i ==> !matches_at(s, p, j),
            None => forall|j: int| !matches_at(s, p, j),
        },
    decreases s.len(),
{
    if s.len() < p.len() {
    } else if p.is_prefix_of(s) {
        assert(s.subrange(0, p.len() as int) =~= p);
    } else {
        assert(!matches_at(s, p, 0)) by {
            if matches_at(s, p, 0) {
                assert forall|k: int| 0 <= k < p.len() implies p[k] == s[k] by {
                    assert(s.subrange(0, p.len() as int)[k] == s[k]);
                }
            }
        }
        lemma_first_match(s.drop_first(), p);
        assert forall|j: int| 1 <= j implies matches_at(s, p, j) == matches_at(
            s.drop_first(),
            p,
            j - 1,
        ) by {
            if j + p.len() <= s.len() {
                assert(s.subrange(j, j + p.len()) =~= s.drop_first().subrange(
                    j - 1,
                    j - 1 + p.len(),
                ));
            }
        }
        match first_match(s.drop_first(), p) {
            Some(i) => {
                assert(matches_at(s, p, i + 1));
                assert forall|j: int| 0 <= j < i + 1 implies !matches_at(s, p, j) by {
                    if j > 0 {
                        assert(!matches_at(s.drop_first(), p, j - 1));
                    }
                }
            },
            None => {
                assert forall|j: int| !matches_at(s, p, j) by {
                    if j > 0 {
                        assert(!matches_at(s.drop_first(), p, j - 1));
                    }
                }
            },
        }
    }
}

/// A position with the first-match property is what `first_match` gives.
pub proof fn lemma_first_match_is(s: Seq<char>, p: Seq<char>, i: int)
    requires
        p.len() > 0,
        matches_at(s, p, i),
        forall|j: int| 0 <= j < i ==> !matches_at(s, p, j),
    ensures
        first_match(s, p) == Some(i),
{
    lemma_first_match(s, p);
    match first_match(s, p) {
        Some(k) => {
            if k < i {
                assert(!matches_at(s, p, k));
            }
            if k > i {
                assert(!matches_at(s, p, i));
            }
        },
        None => {
            assert(!matches_at(s, p, i));
        },
    }
}

/// No match anywhere means `first_match` gives nothing.
pub proof fn lemma_first_match_none(s: Seq<char>, p: Seq<char>)
    requires
        p.len() > 0,
        forall|j: int| 0 <= j ==> !matches_at(s, p, j),
    ensures
        first_match(s, p) is None,
{
    lemma_first_match(s, p);
    if let Some(k) = first_match(s, p) {
        assert(matches_at(s, p, k));
    }
}

/// Appends one character to a `String` (`String::push`).
#[verifier::external_body]
pub(crate) fn push_char(s: &mut String, c: char)
    ensures
        final(s)@ == old(s)@.push(c),
{
    s.push(c);
}

/// The characters of `s`, in order.
pub fn chars_of(s: &str) -> (v: Vec<char>)
    ensures
        v@ == s@,
{
    let mut v: Vec<char> = Vec::new();
    for c in it: s.chars()
        invariant
            v@ == it.seq().take(it.index() as int),
    {
        v.push(c);
    }
    v
}

/// A `String` holding the characters `v`.
pub fn string_of(v: &[char]) -> (s: String)
    ensures
        s@ == v@,
{
    let mut s = String::new();
    let n = v.len();
    let mut i: usize = 0;
    while i < n
        invariant
            n == v@.len(),
            i <= n,
            s@ == v@.take(i as int),
        decreases n - i,
    {
        push_char(&mut s, v[i]);
        assert(v@.take(i as int).push(v@[i as int]) =~= v@.take(i + 1));
        i += 1;
    }
    assert(v@.take(n as int) =~= v@);
    s
}

/// Appends the characters `v` to `out`.
pub fn push_chars(out: &mut String, v: &[char])
    ensures
        final(out)@ == old(out)@ + v@,
{
    let n = v.len();
    let mut i: usize = 0;
    while i < n
        invariant
            n == v@.len(),
            i <= n,
            out@ == old(out)@ + v@.take(i as int),
        decreases n - i,
    {
        push_char(out, v[i]);
        assert(v@.take(i as int).push(v@[i as int]) =~= v@.take(i + 1));
        assert(old(out)@ + v@.take(i as int).push(v@[i as int]) =~= (old(out)@ + v@.take(
            i as int,
        )).push(v@[i as int]));
        i += 1;
    }
    assert(v@.take(n as int) =~= v@);
}

/// Appends the string `t` to `out`.
pub fn push_str(out: &mut String, t: &str)
    ensures
        final(out)@ == old(out)@ + t@,
{
    let v = chars_of(t);
    push_chars(out, v.as_slice());
}

/// Element-wise equality of two character slices.
pub fn seq_eq(a: &[char], b: &[char]) -> (r: bool)
    ensures
        r == (a@ == b@),
{
    if a.len() != b.len() {
        return false;
    }
    let n = a.len();
    let mut i: usize = 0;
    while i < n
        invariant
            n == a@.len(),
            n == b@.len(),
            i <= n,
            forall|j: int| 0 <= j < i ==> a@[j] == b@[j],
        decreases n - i,
    {
        if a[i] != b[i] {
            return false;
        }
        i += 1;
    }
    assert(a@ =~= b@);
    true
}

/// Equality of two strings by their characters.
pub fn str_eq(a: &str, b: &str) -> (r: bool)
    ensures
        r == (a@ == b@),
{
    let va = chars_of(a);
    let vb = chars_of(b);
    seq_eq(va.as_slice(), vb.as_slice())
}

/// The characters `v[from..to]`.
pub fn slice_of(v: &[char], from: usize, to: usize) -> (r: Vec<char>)
    requires
        from <= to <= v@.len(),
    ensures
        r@ == v@.subrange(from as int, to as int),
{
    let mut r: Vec<char> = Vec::new();
    let mut i = from;
    while i < to
        invariant
            from <= i <= to <= v@.len(),
            r@ == v@.subrange(from as int, i as int),
        decreases to - i,
    {
        r.push(v[i]);
        assert(v@.subrange(from as int, i as int).push(v@[i as int]) =~= v@.subrange(
            from as int,
            i + 1,
        ));
        i += 1;
    }
    r
}

/// Whether `v` starts with `p`.
pub fn starts_with(v: &[char], p: &[char]) -> (r: bool)
    ensures
        r == p@.is_prefix_of(v@),
{
    if p.len() > v.len() {
        return false;
    }
    let n = p.len();
    let mut i: usize = 0;
    while i < n
        invariant
            n == p@.len(),
            n <= v@.len(),
            i <= n,
            forall|j: int| 0 <= j < i ==> v@[j] == p@[j],
        decreases n - i,
    {
        if v[i] != p[i] {
            assert(v@.take(n as int)[i as int] != p@[i as int]);
            return false;
        }
        i += 1;
    }
    assert(v@.take(n as int) =~= p@);
    true
}

/// Whether `v` ends with `p`.
pub fn ends_with(v: &[char], p: &[char]) -> (r: bool)
    ensures
        r == p@.is_suffix_of(v@),
{
    if p.len() > v.len() {
        return false;
    }
    let n = p.len();
    let off = v.len() - n;
    let mut i: usize = 0;
    while i < n
        invariant
            n == p@.len(),
            off + n == v@.len(),
            v@.len() <= usize::MAX,
            i <= n,
            forall|j: int| 0 <= j < i ==> v@[off + j] == p@[j],
        decreases n - i,
    {
        if v[off + i] != p[i] {
            assert(v@.subrange(off as int, v@.len() as int)[i as int] != p@[i as int]);
            return false;
        }
        i += 1;
    }
    assert(v@.subrange(off as int, v@.len() as int) =~= p@);
    true
}

/// Whether `p` occurs in `v` at position `i`.
pub fn matches_at_exec(v: &[char], p: &[char], i: usize) -> (r: bool)
    ensures
        r == matches_at(v@, p@, i as int),
{
    if i > v.len() || p.len() > v.len() - i {
        return false;
    }
    let n = p.len();
    let mut k: usize = 0;
    while k < n
        invariant
            n == p@.len(),
            i + n <= v@.len(),
            v@.len() <= usize::MAX,
            k <= n,
            forall|j: int| 0 <= j < k ==> v@[i + j] == p@[j],
        decreases n - k,
    {
        if v[i + k] != p[k] {
            assert(v@.subrange(i as int, i + n)[k as int] != p@[k as int]);
            return false;
        }
        k += 1;
    }
    assert(v@.subrange(i as int, i + n) =~= p@);
    true
}

/// The first position of `c` in `v`.
pub fn find_char(v: &[char], c: char) -> (r: Option<usize>)
    ensures
        match r {
            Some(i) => first_index(v@, c) == Some(i as int) && i < v@.len() && v@[i as int] == c,
            None => first_index(v@, c) is None,
        },
{
    let n = v.len();
    let mut i: usize = 0;
    while i < n
        invariant
            n == v@.len(),
            i <= n,
            forall|j: int| 0 <= j < i ==> v@[j] != c,
        decreases n - i,
    {
        if v[i] == c {
            proof {
                lemma_first_index_is(v@, c, i as int);
            }
            return Some(i);
        }
        i += 1;
    }
    proof {
        lemma_first_index_is(v@, c, n as int);
    }
    None
}

/// The last position of `c` in `v`.
pub fn rfind_char(v: &[char], c: char) -> (r: Option<usize>)
    ensures
        match r {
            Some(i) => last_index(v@, c) == Some(i as int) && i < v@.len() && v@[i as int] == c,
            None => last_index(v@, c) is None,
        },
{
    let mut i = v.len();
    proof {
        assert(v@.take(v@.len() as int) =~= v@);
    }
    while i > 0
        invariant
            i <= v@.len(),
            last_index(v@, c) == last_index(v@.take(i as int), c),
        decreases i,
    {
        let ghost t = v@.take(i as int);
        assert(t.drop_last() =~= v@.take(i - 1));
        if v[i - 1] == c {
            return Some(i - 1);
        }
        i -= 1;
    }
    None
}

/// The first position where the non-empty pattern `p` occurs in `v`.
pub fn find_str(v: &[char], p: &[char]) -> (r: Option<usize>)
    requires
        p@.len() > 0,
    ensures
        match r {
            Some(i) => first_match(v@, p@) == Some(i as int) && i + p@.len() <= v@.len(),
            None => first_match(v@, p@) is None,
        },
{
    let n = v.len();
    let mut i: usize = 0;
    while i < n
        invariant
            n == v@.len(),
            i <= n,
            p@.len() > 0,
            forall|j: int| 0 <= j < i ==> !matches_at(v@, p@, j),
        decreases n - i,
    {
        if matches_at_exec(v, p, i) {
            proof {
                lemma_first_match_is(v@, p@, i as int);
            }
            return Some(i);
        }
        i += 1;
    }
    proof {
        assert forall|j: int| 0 <= j implies !matches_at(v@, p@, j) by {
            if j >= i {
                assert(j + p@.len() > v@.len());
            }
        }
        lemma_first_match_none(v@, p@);
    }
    None
}

/// `v` with every occurrence of the non-empty pattern `p` replaced by `r`.
pub fn replace_vec(v: &[char], p: &[char], r: &[char]) -> (out: Vec<char>)
    requires
        p@.len() > 0,
    ensures
        out@ == replace(v@, p@, r@),
{
    let mut out: Vec<char> = Vec::new();
    let n = v.len();
    let mut i: usize = 0;
    proof {
        assert(v@.skip(0) =~= v@);
    }
    while i < n
        invariant
            n == v@.len(),
            p@.len() > 0,
            i <= n,
            out@ + replace(v@.skip(i as int), p@, r@) == replace(v@, p@, r@),
        decreases n - i,
    {
        let ghost rest = v@.skip(i as int);
        if matches_at_exec(v, p, i) {
            proof {
                assert(rest.take(p@.len() as int) =~= v@.subrange(i as int, i + p@.len()));
                assert(rest.skip(p@.len() as int) =~= v@.skip(i + p@.len()));
            }
            let mut k: usize = 0;
            let ghost out0 = out@;
            while k < r.len()
                invariant
                    k <= r@.len(),
                    out@ == out0 + r@.take(k as int),
                decreases r@.len() - k,
            {
                out.push(r[k]);
                assert(r@.take(k as int).push(r@[k as int]) =~= r@.take(k + 1));
                assert(out0 + r@.take(k as int).push(r@[k as int]) =~= (out0 + r@.take(
                    k as int,
                )).push(r@[k as int]));
                k += 1;
            }
            proof {
                assert(r@.take(r@.len() as int) =~= r@);
                assert(out0 + (r@ + replace(v@.skip(i + p@.len()), p@, r@)) =~= out@ + replace(
                    v@.skip(i + p@.len()),
                    p@,
                    r@,
                ));
            }
            i = i + p.len();
        } else {
            proof {
                if p@.is_prefix_of(rest) {
                    assert(rest.take(p@.len() as int) =~= v@.subrange(i as int, i + p@.len()));
                }
                assert(rest.drop_first() =~= v@.skip(i + 1));
                assert(out@.push(v@[i as int]) + replace(v@.skip(i + 1), p@, r@) =~= out@ + (seq![
                    v@[i as int],
                ] + replace(v@.skip(i + 1), p@, r@)));
            }
            out.push(v[i]);
            i += 1;
        }
    }
    proof {
        assert(v@.skip(n as int) =~= Seq::<char>::empty());
        assert(out@ + Seq::<char>::empty() =~= out@);
    }
    out
}

/// The pieces of `v` between occurrences of `c` (`str::split` with a char).
pub fn split_vec(v: &[char], c: char) -> (r: Vec<Vec<char>>)
    ensures
        r@.len() == split(v@, c).len(),
        forall|j: int| 0 <= j < r@.len() ==> #[trigger] r@[j]@ == split(v@, c)[j],
{
    let mut r: Vec<Vec<char>> = Vec::new();
    let n = v.len();
    let mut start: usize = 0;
    let mut i: usize = 0;
    let ghost done: Seq<Seq<char>> = seq![];
    assert(v@.skip(0) =~= v@);
    assert(done + split(v@, c) =~= split(v@, c));
    while i < n
        invariant
            n == v@.len(),
            start <= i <= n,
            r@.len() == done.len(),
            forall|j: int| 0 <= j < r@.len() ==> #[trigger] r@[j]@ == done[j],
            done + split(v@.skip(start as int), c) == split(v@, c),
            forall|j: int| start <= j < i ==> v@[j] != c,
        decreases n - i,
    {
        if v[i] == c {
            let ghost rest = v@.skip(start as int);
            proof {
                lemma_first_index_is(rest, c, i - start);
                assert(rest.take(i - start) =~= v@.subrange(start as int, i as int));
                assert(rest.skip(i - start + 1) =~= v@.skip(i + 1));
            }
            let piece = slice_of(v, start, i);
            r.push(piece);
            proof {
                let l0 = rest.take(i - start);
                assert(split(rest, c) == seq![l0] + split(v@.skip(i + 1), c));
                assert(done.push(l0) + split(v@.skip(i + 1), c) =~= done + (seq![l0] + split(
                    v@.skip(i + 1),
                    c,
                )));
                done = done.push(l0);
            }
            start = i + 1;
        }
        i += 1;
    }
    let ghost rest = v@.skip(start as int);
    proof {
        lemma_first_index_is(rest, c, rest.len() as int);
        assert(rest =~= v@.subrange(start as int, n as int));
    }
    let piece = slice_of(v, start, n);
    r.push(piece);
    proof {
        assert(split(rest, c) == seq![rest]);
        done = done.push(rest);
        assert(done =~= split(v@, c));
    }
    r
}

/// Unicode lower-casing (`str::to_lowercase`).
#[verifier::external_body]
pub fn to_lowercase(s: &str) -> (r: String)
    ensures
        r@ == lowercase(s@),
{
    s.to_lowercase()
}

/// `str::splitn` with a char.
pub fn splitn_vec(v: &[char], c: char, n: usize) -> (r: Vec<Vec<char>>)
    ensures
        r@.len() == splitn(v@, c, n as int).len(),
        forall|j: int| 0 <= j < r@.len() ==> #[trigger] r@[j]@ == splitn(v@, c, n as int)[j],
{
    let mut r: Vec<Vec<char>> = Vec::new();
    let len = v.len();
    let mut start: usize = 0;
    let mut left: usize = n;
    let ghost done: Seq<Seq<char>> = seq![];
    assert(v@.skip(0) =~= v@);
    assert(done + splitn(v@, c, n as int) =~= splitn(v@, c, n as int));
    loop
        invariant
            len == v@.len(),
            start <= len,
            left <= n,
            r@.len() == done.len(),
            forall|j: int| 0 <= j < r@.len() ==> #[trigger] r@[j]@ == done[j],
            done + splitn(v@.skip(start as int), c, left as int) == splitn(v@, c, n as int),
        decreases left,
    {
        let rest_v = slice_of(v, start, len);
        let ghost rest = v@.skip(start as int);
        assert(rest_v@ =~= rest);
        if left <= 1 {
            r.push(rest_v);
            proof {
                done = done.push(rest);
                assert(done =~= splitn(v@, c, n as int));
            }
            return r;
        }
        match find_char(rest_v.as_slice(), c) {
            None => {
                r.push(rest_v);
                proof {
                    done = done.push(rest);
                    assert(done =~= splitn(v@, c, n as int));
                }
                return r;
            },
            Some(i) => {
                let piece = slice_of(rest_v.as_slice(), 0, i);
                proof {
                    assert(piece@ =~= rest.take(i as int));
                    assert(rest.skip(i + 1) =~= v@.skip(start + i + 1));
                    assert(done.push(rest.take(i as int)) + splitn(v@.skip(start + i + 1), c, left - 1)
                        =~= done + (seq![rest.take(i as int)] + splitn(rest.skip(i + 1), c, left - 1)));
                    done = done.push(rest.take(i as int));
                }
                r.push(piece);
                start = start + i + 1;
                left = left - 1;
            },
        }
    }
}

/// `s.replace(p, r)` for a non-empty pattern.
pub fn replace_str(s: &str, p: &str, r: &str) -> (out: String)
    requires
        p@.len() > 0,
    ensures
        out@ == replace(s@, p@, r@),
{
    let vs = chars_of(s);
    let vp = chars_of(p);
    let vr = chars_of(r);
    let o = replace_vec(vs.as_slice(), vp.as_slice(), vr.as_slice());
    string_of(o.as_slice())
}

/// ASCII lower-casing (`to_ascii_lowercase`).
pub fn to_ascii_lowercase(s: &str) -> (out: String)
    ensures
        out@ == ascii_lowercase(s@),
{
    let v = chars_of(s);
    let mut out = String::new();
    let n = v.len();
    let mut i: usize = 0;
    while i < n
        invariant
            n == v@.len(),
            i <= n,
            out@ == ascii_lowercase(v@.take(i as int)),
        decreases n - i,
    {
        let c = v[i];
        let l = if 'A' <= c && c <= 'Z' {
            char_from_u32_lower(c)
        } else {
            c
        };
        push_char(&mut out, l);
        assert(ascii_lowercase(v@.take(i as int)).push(l) =~= ascii_lowercase(v@.take(i + 1)));
        i += 1;
    }
    assert(v@.take(n as int) =~= v@);
    out
}

pub fn char_from_u32_lower(c: char) -> (l: char)
    requires
        'A' <= c && c <= 'Z',
    ensures
        l == ascii_lower(c),
{
    ((c as u8) + 32) as char
}

/// The items of `v` in reverse order (so that popping gives them in their order).
pub fn reversed<T>(v: Vec<T>) -> (r: Vec<T>)
    ensures
        r@ == v@.reverse(),
{
    let ghost all = v@;
    let mut rev: Vec<T> = Vec::new();
    let mut src = v;
    while src.len() > 0
        invariant
            src@ + rev@.reverse() == all,
        decreases src@.len(),
    {
        let e = src.pop().unwrap();
        proof {
            assert(src@.push(e) + rev@.reverse() =~= src@ + rev@.push(e).reverse());
        }
        rev.push(e);
    }
    assert(rev@.reverse() =~= all);
    assert(rev@.reverse().reverse() =~= rev@);
    rev
}

/// An element is kept by a filter exactly when it is in the sequence and passes.
pub proof fn lemma_filter_member<A>(s: Seq<A>, f: spec_fn(A) -> bool, x: A)
    ensures
        s.filter(f).contains(x) <==> (s.contains(x) && f(x)),
{
    if s.filter(f).contains(x) {
        s.lemma_filter_contains_rev(f, x);
        let i = choose|i: int| 0 <= i < s.filter(f).len() && s.filter(f)[i] == x;
        s.lemma_filter_pred(f, i);
    }
    if s.contains(x) && f(x) {
        let i = choose|i: int| 0 <= i < s.len() && s[i] == x;
        s.lemma_filter_contains(f, i);
    }
}

} // verus!
