//! The line of a page's source that its summary is made from, where the page has no
//! summary paragraph of its own.
use vstd::prelude::*;
use crate::html::{trim, trim_exec};
use crate::text::{chars_of, ends_with, slice_of, split, split_vec, starts_with, string_of};

verus! {

/// A line without the carriage return at its end.
pub open spec fn without_cr(l: Seq<char>) -> Seq<char> {
    if l.len() > 0 && l.last() == '\r' {
        l.drop_last()
    } else {
        l
    }
}

/// The lines of `s` (`str::lines`): the pieces between newlines, each without a final
/// carriage return, and no empty piece after a final newline.
pub open spec fn lines(s: Seq<char>) -> Seq<Seq<char>> {
    let parts = split(s, '\n');
    let kept = if parts.last().len() == 0 {
        parts.drop_last()
    } else {
        parts
    };
    kept.map_values(|l: Seq<char>| without_cr(l))
}

/// A line the summary can be made from: not blank, not a template call alone, not a
/// heading of level two or more.
pub open spec fn summary_candidate(l: Seq<char>) -> bool {
    !(trim(l).len() == 0 || ("{{"@.is_prefix_of(l) && "}}"@.is_suffix_of(l)) || "##"@.is_prefix_of(l))
}

/// The first line among `ls` that the summary can be made from.
pub open spec fn first_candidate(ls: Seq<Seq<char>>) -> Option<Seq<char>>
    decreases ls.len(),
{
    if ls.len() == 0 {
        None
    } else if summary_candidate(ls[0]) {
        Some(ls[0])
    } else {
        first_candidate(ls.drop_first())
    }
}

/// The first line of `content` that the summary can be made from (see
/// `summary_candidate`).
pub fn summary_line(content: &str) -> (r: Option<String>)
    ensures
        match first_candidate(lines(content@)) {
            Some(l) => r matches Some(s) && s@ == l,
            None => r is None,
        },
{
    let v = chars_of(content);
    let parts = split_vec(v.as_slice(), '\n');
    let ghost sp = split(content@, '\n');
    let n = if parts[parts.len() - 1].len() == 0 { parts.len() - 1 } else { parts.len() };
    let ghost ls = lines(content@);
    assert(ls.len() == n);
    let open = chars_of("{{");
    let close = chars_of("}}");
    let h2 = chars_of("##");
    let mut i: usize = 0;
    assert(ls.skip(0) =~= ls);
    while i < n
        invariant
            n == ls.len(),
            n <= parts@.len(),
            parts@.len() == sp.len(),
            sp == split(content@, '\n'),
            ls == lines(content@),
            forall|j: int| 0 <= j < parts@.len() ==> #[trigger] parts@[j]@ == sp[j],
            open@ == "{{"@,
            close@ == "}}"@,
            h2@ == "##"@,
            i <= n,
            first_candidate(ls) == first_candidate(ls.skip(i as int)),
        decreases n - i,
    {
        assert(ls.skip(i as int).drop_first() =~= ls.skip(i + 1));
        assert(ls.skip(i as int)[0] == ls[i as int]);
        let piece = &parts[i];
        let line: Vec<char> = if piece.len() > 0 && piece[piece.len() - 1] == '\r' {
            slice_of(piece.as_slice(), 0, piece.len() - 1)
        } else {
            slice_of(piece.as_slice(), 0, piece.len())
        };
        assert(line@ =~= without_cr(sp[i as int]));
        assert(ls[i as int] == without_cr(sp[i as int]));
        let t = trim_exec(&line);
        let blank = t.len() == 0;
        let templ = starts_with(line.as_slice(), open.as_slice()) && ends_with(line.as_slice(), close.as_slice());
        let heading = starts_with(line.as_slice(), h2.as_slice());
        if !(blank || templ || heading) {
            return Some(string_of(line.as_slice()));
        }
        i += 1;
    }
    None
}

} // verus!
