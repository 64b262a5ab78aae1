//! Conversions between byte offsets and character positions.
//!
//! A string is a sequence of characters; its bytes are their UTF-8 encoding. A byte
//! offset inside a line is a character boundary when some prefix of the line's
//! characters encodes to exactly that many bytes. Lines are the pieces that
//! `str::lines` yields: split at `\n`, a `\r` right before it dropped, and no empty
//! piece after a final `\n`.
use vstd::prelude::*;
use vstd::utf8::*;
use crate::text::{first_index, lemma_first_index, lemma_first_index_is, chars_of, slice_of};

verus! {

broadcast use vstd::utf8::char_is_scalar;

/// Number of bytes of the UTF-8 encoding of `c`.
pub open spec fn char_width(c: char) -> nat {
    encode_scalar(c as u32).len()
}

/// Number of bytes of the UTF-8 encoding of `s`.
pub open spec fn utf8_len(s: Seq<char>) -> nat {
    encode_utf8(s).len()
}

/// `b` is the byte length of some prefix of `s`, i.e. a character boundary.
pub open spec fn is_char_offset(s: Seq<char>, b: int) -> bool {
    exists|k: int| 0 <= k <= s.len() && #[trigger] utf8_len(s.take(k)) == b
}

/// A line without the `\r` that preceded its `\n`.
pub open spec fn strip_cr(l: Seq<char>) -> Seq<char> {
    if l.len() > 0 && l.last() == '\r' {
        l.drop_last()
    } else {
        l
    }
}

/// The lines of `s`, as `str::lines` yields them.
pub open spec fn lines(s: Seq<char>) -> Seq<Seq<char>>
    decreases s.len(),
{
    if s.len() == 0 {
        seq![]
    } else {
        match first_index(s, '\n') {
            None => seq![s],
            Some(i) => {
                proof {
                    lemma_first_index(s, '\n');
                }
                seq![strip_cr(s.take(i))] + lines(s.skip(i + 1))
            },
        }
    }
}

/// Bytes taken by the first `k` lines, each counted with one byte for its newline.
pub open spec fn bytes_before(ls: Seq<Seq<char>>, k: int) -> int
    decreases k,
{
    if k <= 0 {
        0
    } else {
        bytes_before(ls, k - 1) + utf8_len(ls[k - 1]) + 1
    }
}

/// The character position that a byte offset inside `line` stands for.
pub open spec fn char_column_of(line: Seq<char>, b: int) -> int {
    if b >= utf8_len(line) {
        line.len() as int
    } else {
        choose|k: int| 0 <= k <= line.len() && utf8_len(line.take(k)) == b
    }
}

/// The byte offset of character position `c` inside `line` (its end when past it).
pub open spec fn byte_column_of(line: Seq<char>, c: int) -> int {
    if c >= line.len() {
        utf8_len(line) as int
    } else {
        utf8_len(line.take(c)) as int
    }
}

pub proof fn lemma_char_width(c: char)
    ensures
        1 <= char_width(c) <= 4,
        char_width(c) == (if (c as u32) <= 0x7F {
            1nat
        } else if (c as u32) <= 0x7FF {
            2nat
        } else if (c as u32) <= 0xFFFF {
            3nat
        } else {
            4nat
        }),
{
    assert(is_scalar(c as u32));
}

pub proof fn lemma_encode_concat(a: Seq<char>, b: Seq<char>)
    ensures
        encode_utf8(a + b) == encode_utf8(a) + encode_utf8(b),
    decreases a.len(),
{
    if a.len() == 0 {
        assert(a + b =~= b);
        assert(encode_utf8(a) =~= Seq::<u8>::empty());
        assert(encode_utf8(a) + encode_utf8(b) =~= encode_utf8(b));
    } else {
        assert((a + b).drop_first() =~= a.drop_first() + b);
        assert((a + b)[0] == a[0]);
        lemma_encode_concat(a.drop_first(), b);
        assert(encode_utf8(a + b) =~= encode_scalar(a[0] as u32) + (encode_utf8(a.drop_first())
            + encode_utf8(b)));
    }
}

pub proof fn lemma_utf8_len_concat(a: Seq<char>, b: Seq<char>)
    ensures
        utf8_len(a + b) == utf8_len(a) + utf8_len(b),
{
    lemma_encode_concat(a, b);
}

pub proof fn lemma_utf8_len_push(s: Seq<char>, c: char)
    ensures
        utf8_len(s.push(c)) == utf8_len(s) + char_width(c),
{
    assert(s.push(c) =~= s + seq![c]);
    lemma_encode_concat(s, seq![c]);
    assert(seq![c].drop_first() =~= Seq::<char>::empty());
    assert(encode_utf8(Seq::<char>::empty()) =~= Seq::<u8>::empty());
    assert(encode_utf8(seq![c]) =~= encode_scalar(c as u32));
}

pub proof fn lemma_utf8_len_take_step(s: Seq<char>, k: int)
    requires
        0 <= k < s.len(),
    ensures
        utf8_len(s.take(k + 1)) == utf8_len(s.take(k)) + char_width(s[k]),
        utf8_len(s.take(k + 1)) > utf8_len(s.take(k)),
{
    assert(s.take(k + 1) =~= s.take(k).push(s[k]));
    lemma_utf8_len_push(s.take(k), s[k]);
    lemma_char_width(s[k]);
}

pub proof fn lemma_utf8_len_take_mono(s: Seq<char>, a: int, b: int)
    requires
        0 <= a < b <= s.len(),
    ensures
        utf8_len(s.take(a)) < utf8_len(s.take(b)),
    decreases b - a,
{
    lemma_utf8_len_take_step(s, b - 1);
    if a < b - 1 {
        lemma_utf8_len_take_mono(s, a, b - 1);
    }
}

pub proof fn lemma_utf8_len_take_le(s: Seq<char>, a: int)
    requires
        0 <= a <= s.len(),
    ensures
        utf8_len(s.take(a)) <= utf8_len(s),
{
    assert(s.take(s.len() as int) =~= s);
    if a < s.len() {
        lemma_utf8_len_take_mono(s, a, s.len() as int);
    }
}

pub proof fn lemma_strip_cr_len(l: Seq<char>)
    ensures
        utf8_len(strip_cr(l)) <= utf8_len(l),
{
    if l.len() > 0 && l.last() == '\r' {
        assert(l.drop_last().push(l.last()) =~= l);
        lemma_utf8_len_push(l.drop_last(), l.last());
    }
}

pub proof fn lemma_bytes_before_cons(a: Seq<char>, ls: Seq<Seq<char>>, k: int)
    requires
        0 <= k <= ls.len(),
    ensures
        bytes_before(seq![a] + ls, k + 1) == utf8_len(a) + 1 + bytes_before(ls, k),
    decreases k,
{
    assert((seq![a] + ls)[0] == a);
    if k > 0 {
        lemma_bytes_before_cons(a, ls, k - 1);
        assert((seq![a] + ls)[k] == ls[k - 1]);
    } else {
        assert(bytes_before(seq![a] + ls, 0) == 0);
        assert(bytes_before(ls, 0) == 0);
    }
}

pub proof fn lemma_bytes_before_mono(ls: Seq<Seq<char>>, j: int, k: int)
    requires
        0 <= j <= k,
    ensures
        bytes_before(ls, j) <= bytes_before(ls, k),
    decreases k - j,
{
    if j < k {
        lemma_bytes_before_mono(ls, j, k - 1);
    }
}

/// Every line with its newline fits in the text, so the byte sums do not overflow.
pub proof fn lemma_lines_bytes(s: Seq<char>, k: int)
    requires
        0 <= k < lines(s).len(),
    ensures
        bytes_before(lines(s), k + 1) <= utf8_len(s) + 1,
    decreases s.len(),
{
    lemma_first_index(s, '\n');
    assert(s.len() > 0);
    match first_index(s, '\n') {
        None => {
            assert(lines(s) == seq![s]);
            assert(bytes_before(lines(s), 0) == 0);
        },
        Some(i) => {
            let l0 = strip_cr(s.take(i));
            let rest = s.skip(i + 1);
            assert(s =~= s.take(i) + seq!['\n'] + rest);
            lemma_utf8_len_concat(s.take(i) + seq!['\n'], rest);
            lemma_utf8_len_push(s.take(i), '\n');
            assert(s.take(i) + seq!['\n'] =~= s.take(i).push('\n'));
            lemma_strip_cr_len(s.take(i));
            lemma_char_width('\n');
            assert(lines(s) == seq![l0] + lines(rest));
            lemma_bytes_before_cons(l0, lines(rest), k);
            if k > 0 {
                lemma_lines_bytes(rest, k - 1);
            }
        },
    }
}

/// The UTF-8 encoding of a string fits in memory.
pub fn str_utf8_bound(s: &str)
    ensures
        utf8_len(s@) <= usize::MAX,
{
    let b = s.as_bytes();
    let _ = b.len();
}

/// Number of UTF-8 bytes of `c` (`char::len_utf8`).
pub fn char_len_utf8(c: char) -> (r: usize)
    ensures
        r == char_width(c),
        1 <= r <= 4,
{
    proof {
        lemma_char_width(c);
    }
    let u = c as u32;
    if u <= 0x7F {
        1
    } else if u <= 0x7FF {
        2
    } else if u <= 0xFFFF {
        3
    } else {
        4
    }
}

/// Number of UTF-8 bytes of the characters `v`.
pub fn utf8_len_of(v: &[char]) -> (r: usize)
    requires
        utf8_len(v@) <= usize::MAX,
    ensures
        r == utf8_len(v@),
{
    let n = v.len();
    let mut i: usize = 0;
    let mut r: usize = 0;
    assert(v@.take(0) =~= Seq::<char>::empty());
    assert(encode_utf8(Seq::<char>::empty()) =~= Seq::<u8>::empty());
    while i < n
        invariant
            n == v@.len(),
            i <= n,
            r == utf8_len(v@.take(i as int)),
            utf8_len(v@) <= usize::MAX,
        decreases n - i,
    {
        proof {
            lemma_utf8_len_take_step(v@, i as int);
            lemma_utf8_len_take_le(v@, i + 1);
        }
        r = r + char_len_utf8(v[i]);
        i += 1;
    }
    assert(v@.take(n as int) =~= v@);
    r
}

/// Character position for byte offset `b` in the characters `v`.
pub fn byte_to_char_col_of(v: &[char], b: usize) -> (r: usize)
    requires
        utf8_len(v@) <= usize::MAX,
        b >= utf8_len(v@) || is_char_offset(v@, b as int),
    ensures
        r == char_column_of(v@, b as int),
        r <= v@.len(),
{
    let total = utf8_len_of(v);
    if b >= total {
        return v.len();
    }
    let mut i: usize = 0;
    let mut pos: usize = 0;
    assert(v@.take(0) =~= Seq::<char>::empty());
    assert(encode_utf8(Seq::<char>::empty()) =~= Seq::<u8>::empty());
    while pos < b
        invariant
            i <= v@.len(),
            forall|k: int| 0 <= k < i ==> utf8_len(#[trigger] v@.take(k)) < b,
            pos == utf8_len(v@.take(i as int)),
            b < utf8_len(v@),
            utf8_len(v@) <= usize::MAX,
        decreases v@.len() - i,
    {
        proof {
            if i == v@.len() {
                assert(v@.take(v@.len() as int) =~= v@);
            }
            lemma_utf8_len_take_step(v@, i as int);
            lemma_utf8_len_take_le(v@, i + 1);
            assert forall|k: int| 0 <= k < i + 1 implies utf8_len(#[trigger] v@.take(k)) < b by {
                if k == i {
                }
            }
        }
        pos = pos + char_len_utf8(v[i]);
        i += 1;
    }
    proof {
        assert(v@.take(v@.len() as int) =~= v@);
        let k = choose|k: int| 0 <= k <= v@.len() && #[trigger] utf8_len(v@.take(k)) == b;
        if k > i {
            lemma_utf8_len_take_mono(v@, i as int, k);
        }
        assert(utf8_len(v@.take(i as int)) == b);
        let c = choose|c: int| 0 <= c <= v@.len() && utf8_len(v@.take(c)) == b;
        if c < i {
            lemma_utf8_len_take_mono(v@, c, i as int);
        } else if c > i {
            lemma_utf8_len_take_mono(v@, i as int, c);
        }
    }
    i
}

/// Byte offset of character position `c` in the characters `v`.
pub fn char_to_byte_col_of(v: &[char], c: usize) -> (r: usize)
    requires
        utf8_len(v@) <= usize::MAX,
    ensures
        r == byte_column_of(v@, c as int),
{
    let n = v.len();
    let mut i: usize = 0;
    let mut pos: usize = 0;
    assert(v@.take(0) =~= Seq::<char>::empty());
    assert(encode_utf8(Seq::<char>::empty()) =~= Seq::<u8>::empty());
    while i < n
        invariant
            n == v@.len(),
            i <= n,
            pos == utf8_len(v@.take(i as int)),
            i <= c,
            utf8_len(v@) <= usize::MAX,
        decreases n - i,
    {
        if i >= c {
            return pos;
        }
        proof {
            lemma_utf8_len_take_step(v@, i as int);
            lemma_utf8_len_take_le(v@, i + 1);
        }
        pos = pos + char_len_utf8(v[i]);
        i += 1;
    }
    assert(v@.take(n as int) =~= v@);
    pos
}

/// The lines of the characters `v`, as `str::lines` yields them.
pub fn lines_of(v: &[char]) -> (r: Vec<Vec<char>>)
    ensures
        r@.len() == lines(v@).len(),
        forall|j: int| 0 <= j < r@.len() ==> #[trigger] r@[j]@ == lines(v@)[j],
{
    let mut r: Vec<Vec<char>> = Vec::new();
    let n = v.len();
    let mut start: usize = 0;
    let mut i: usize = 0;
    let ghost done: Seq<Seq<char>> = seq![];
    assert(v@.skip(0) =~= v@);
    assert(done + lines(v@) =~= lines(v@));
    while i < n
        invariant
            n == v@.len(),
            start <= i <= n,
            r@.len() == done.len(),
            forall|j: int| 0 <= j < r@.len() ==> #[trigger] r@[j]@ == done[j],
            done + lines(v@.skip(start as int)) == lines(v@),
            forall|j: int| start <= j < i ==> v@[j] != '\n',
        decreases n - i,
    {
        if v[i] == '\n' {
            let ghost rest = v@.skip(start as int);
            proof {
                lemma_first_index_is(rest, '\n', i - start);
                assert(rest.take(i - start) =~= v@.subrange(start as int, i as int));
                assert(rest.skip(i - start + 1) =~= v@.skip(i + 1));
            }
            let end = if i > start && v[i - 1] == '\r' {
                i - 1
            } else {
                i
            };
            let piece = slice_of(v, start, end);
            proof {
                let t = v@.subrange(start as int, i as int);
                if i > start && v@[i - 1] == '\r' {
                    assert(strip_cr(t) =~= v@.subrange(start as int, end as int));
                } else {
                    assert(strip_cr(t) =~= t);
                }
            }
            r.push(piece);
            proof {
                let l0 = strip_cr(rest.take(i - start));
                assert(lines(rest) == seq![l0] + lines(v@.skip(i + 1)));
                assert(done.push(l0) + lines(v@.skip(i + 1)) =~= done + (seq![l0] + lines(
                    v@.skip(i + 1),
                )));
                done = done.push(l0);
            }
            start = i + 1;
        }
        i += 1;
    }
    if start < n {
        let ghost rest = v@.skip(start as int);
        proof {
            lemma_first_index_is(rest, '\n', rest.len() as int);
            assert(rest =~= v@.subrange(start as int, n as int));
        }
        let piece = slice_of(v, start, n);
        r.push(piece);
        proof {
            assert(lines(rest) == seq![rest]);
            done = done.push(rest);
            assert(done =~= lines(v@));
        }
    } else {
        proof {
            assert(v@.skip(start as int).len() == 0);
            assert(done + Seq::<Seq<char>>::empty() =~= done);
        }
    }
    r
}

/// Sum of the byte lengths of the first `k` lines, each plus one for its newline.
fn bytes_before_exec(ls: &Vec<Vec<char>>, k: usize, Ghost(s): Ghost<Seq<char>>) -> (r: usize)
    requires
        ls@.len() == lines(s).len(),
        forall|j: int| 0 <= j < ls@.len() ==> #[trigger] ls@[j]@ == lines(s)[j],
        k < ls@.len(),
        utf8_len(s) <= usize::MAX,
    ensures
        r == bytes_before(lines(s), k as int),
{
    let mut j: usize = 0;
    let mut acc: usize = 0;
    proof {
        lemma_lines_bytes(s, k as int);
    }
    while j < k
        invariant
            j <= k < ls@.len(),
            ls@.len() == lines(s).len(),
            forall|j: int| 0 <= j < ls@.len() ==> #[trigger] ls@[j]@ == lines(s)[j],
            acc == bytes_before(lines(s), j as int),
            bytes_before(lines(s), k + 1) <= utf8_len(s) + 1,
            utf8_len(s) <= usize::MAX,
        decreases k - j,
    {
        proof {
            lemma_bytes_before_mono(lines(s), j + 1, k as int);
            assert(ls@[j as int]@ == lines(s)[j as int]);
        }
        let w = utf8_len_of(ls[j].as_slice());
        acc = acc + w + 1;
        j += 1;
    }
    acc
}

/// Convert a byte offset within a line to a character position.
///
/// Past the end of the line the result is the number of characters of the line.
/// Inside the line the offset must be a character boundary.
pub fn byte_to_char_column(line: &str, byte_offset: usize) -> (r: usize)
    requires
        byte_offset >= utf8_len(line@) || is_char_offset(line@, byte_offset as int),
    ensures
        r == char_column_of(line@, byte_offset as int),
        r <= line@.len(),
{
    let v = chars_of(line);
    str_utf8_bound(line);
    byte_to_char_col_of(v.as_slice(), byte_offset)
}

/// Convert a character position within a line to a byte offset.
///
/// Past the end of the line the result is the byte length of the line.
pub fn char_to_byte_column(line: &str, char_offset: usize) -> (r: usize)
    ensures
        r == byte_column_of(line@, char_offset as int),
{
    let v = chars_of(line);
    str_utf8_bound(line);
    char_to_byte_col_of(v.as_slice(), char_offset)
}

/// Byte offset in `content` of character column `char_col` on line `line` (both 0-based),
/// or `None` when there is no such line.
pub fn line_char_col_to_byte_offset(content: &str, line: usize, char_col: usize) -> (r: Option<
    usize,
>)
    ensures
        r == (if line < lines(content@).len() {
            Some(
                (bytes_before(lines(content@), line as int) + byte_column_of(
                    lines(content@)[line as int],
                    char_col as int,
                )) as usize,
            )
        } else {
            None::<usize>
        }),
{
    let v = chars_of(content);
    str_utf8_bound(content);
    let ls = lines_of(v.as_slice());
    if line >= ls.len() {
        return None;
    }
    let ghost s = v@;
    let ghost l = lines(s)[line as int];
    proof {
        lemma_lines_bytes(s, line as int);
        lemma_bytes_before_mono(lines(s), 0, line as int);
        assert(ls@[line as int]@ == l);
        lemma_utf8_len_take_le(l, if char_col < l.len() { char_col as int } else { l.len() as int });
        assert(l.take(l.len() as int) =~= l);
    }
    let before = bytes_before_exec(&ls, line, Ghost(s));
    let col = char_to_byte_col_of(ls[line].as_slice(), char_col);
    Some(before + col)
}

/// Byte offset in `content` of byte column `byte_col` on line `line` (both 0-based).
///
/// The column is clamped to the line's length; `None` when there is no such line or the
/// column is not a character boundary.
pub fn line_byte_col_to_byte_offset(content: &str, line: usize, byte_col: usize) -> (r: Option<
    usize,
>)
    ensures
        r == (if line < lines(content@).len() && is_char_offset(
            lines(content@)[line as int],
            if byte_col < utf8_len(lines(content@)[line as int]) {
                byte_col as int
            } else {
                utf8_len(lines(content@)[line as int]) as int
            },
        ) {
            Some(
                (bytes_before(lines(content@), line as int) + (if byte_col < utf8_len(
                    lines(content@)[line as int],
                ) {
                    byte_col as int
                } else {
                    utf8_len(lines(content@)[line as int]) as int
                })) as usize,
            )
        } else {
            None::<usize>
        }),
{
    let v = chars_of(content);
    str_utf8_bound(content);
    let ls = lines_of(v.as_slice());
    if line >= ls.len() {
        return None;
    }
    let ghost s = v@;
    let ghost l = lines(s)[line as int];
    proof {
        lemma_lines_bytes(s, line as int);
        lemma_bytes_before_mono(lines(s), 0, line as int);
        assert(ls@[line as int]@ == l);
    }
    let lv = ls[line].as_slice();
    let len = utf8_len_of(lv);
    let col = if byte_col < len {
        byte_col
    } else {
        len
    };
    // walk the prefixes of the line looking for one that ends exactly at `col`
    let n = lv.len();
    let mut i: usize = 0;
    let mut pos: usize = 0;
    assert(l.take(0) =~= Seq::<char>::empty());
    assert(encode_utf8(Seq::<char>::empty()) =~= Seq::<u8>::empty());
    while pos < col
        invariant
            n == l.len(),
            lv@ == l,
            i <= n,
            pos == utf8_len(l.take(i as int)),
            forall|k: int| 0 <= k < i ==> utf8_len(#[trigger] l.take(k)) < col,
            utf8_len(l) <= usize::MAX,
            col <= utf8_len(l),
        decreases n - i,
    {
        proof {
            if i == n {
                assert(l.take(n as int) =~= l);
            }
            lemma_utf8_len_take_step(l, i as int);
            lemma_utf8_len_take_le(l, i + 1);
            assert forall|k: int| 0 <= k < i + 1 implies utf8_len(#[trigger] l.take(k)) < col by {
                if k == i {
                }
            }
        }
        pos = pos + char_len_utf8(lv[i]);
        i += 1;
    }
    if pos != col {
        proof {
            assert forall|k: int| 0 <= k <= n implies utf8_len(#[trigger] l.take(k)) != col by {
                if k > i {
                    lemma_utf8_len_take_mono(l, i as int, k);
                }
            }
            assert(!is_char_offset(l, col as int));
        }
        return None;
    }
    let before = bytes_before_exec(&ls, line, Ghost(s));
    proof {
        lemma_utf8_len_take_le(l, 0);
    }
    Some(before + col)
}

/// A character boundary of a line, taken to a character position and back, is itself:
/// `char_to_byte_column(line, byte_to_char_column(line, b)) == b` for every boundary `b`
/// up to the line's byte length.
pub proof fn law_byte_char_roundtrip(line: Seq<char>, b: int)
    requires
        0 <= b <= utf8_len(line),
        is_char_offset(line, b),
    ensures
        byte_column_of(line, char_column_of(line, b)) == b,
{
    assert(line.take(line.len() as int) =~= line);
    if b < utf8_len(line) {
        let k = choose|k: int| 0 <= k <= line.len() && #[trigger] utf8_len(line.take(k)) == b;
        if k == line.len() {
            assert(false);
        }
        let c = char_column_of(line, b);
        assert(0 <= c <= line.len() && utf8_len(line.take(c)) == b);
        if c == line.len() {
            assert(false);
        }
    }
}

/// A character position inside a line (or at its end), taken to a byte offset and back,
/// is itself: `byte_to_char_column(line, char_to_byte_column(line, c)) == c`.
pub proof fn law_char_byte_roundtrip(line: Seq<char>, c: int)
    requires
        0 <= c <= line.len(),
    ensures
        char_column_of(line, byte_column_of(line, c)) == c,
{
    assert(line.take(line.len() as int) =~= line);
    let b = byte_column_of(line, c);
    assert(b == utf8_len(line.take(c)));
    if c < line.len() {
        lemma_utf8_len_take_mono(line, c, line.len() as int);
        let k = char_column_of(line, b);
        assert(0 <= k <= line.len() && utf8_len(line.take(k)) == b);
        if k < c {
            lemma_utf8_len_take_mono(line, k, c);
        } else if k > c {
            lemma_utf8_len_take_mono(line, c, k);
        }
    }
}

} // verus!
