//! Source positions of rendered elements, as `"line:col-line:col"` strings.
use vstd::prelude::*;
use crate::numbers::{parse_i64, parse_i64_chars};
use crate::text::{chars_of, find_char, slice_of, split_once};

verus! {

/// A source range: start line and column, end line and column. A line of `-1` means
/// the line could not be read.
#[derive(Clone, Copy, Debug, PartialEq, Eq, Structural)]
pub struct Sourcepos {
    pub line: i64,
    pub col: i64,
    pub end_line: i64,
    pub end_col: i64,
}

/// `"line:col"` read as a pair; an unreadable line is `-1`, an unreadable column `0`.
pub open spec fn spec_parse_pair(s: Seq<char>) -> Option<(i64, i64)> {
    match split_once(s, ':') {
        None => None,
        Some((l, c)) => Some(
            (
                match parse_i64(l) {
                    Some(v) => v,
                    None => -1i64,
                },
                match parse_i64(c) {
                    Some(v) => v,
                    None => 0i64,
                },
            ),
        ),
    }
}

/// What `Sourcepos::parse` gives for `s`.
pub open spec fn spec_parse(s: Seq<char>) -> Option<Sourcepos> {
    match split_once(s, '-') {
        None => None,
        Some((start, end)) => match spec_parse_pair(start) {
            None => None,
            Some((line, col)) => {
                let (end_line, end_col) = match spec_parse_pair(end) {
                    Some(p) => p,
                    None => (-1i64, -1i64),
                };
                Some(Sourcepos { line, col, end_line, end_col })
            },
        },
    }
}

/// `sp` with `offset` added to each line that is not `-1`.
pub open spec fn spec_shift_lines(sp: Sourcepos, offset: i64) -> Sourcepos {
    Sourcepos {
        line: if sp.line != -1 {
            (sp.line + offset) as i64
        } else {
            sp.line
        },
        end_line: if sp.end_line != -1 {
            (sp.end_line + offset) as i64
        } else {
            sp.end_line
        },
        ..sp
    }
}

/// Shifting by `offset` stays within `i64`.
pub open spec fn shift_fits(sp: Sourcepos, offset: i64) -> bool {
    &&& sp.line != -1 ==> i64::MIN <= sp.line + offset <= i64::MAX
    &&& sp.end_line != -1 ==> i64::MIN <= sp.end_line + offset <= i64::MAX
}

fn parse_pair(v: &[char]) -> (r: Option<(i64, i64)>)
    ensures
        r == spec_parse_pair(v@),
{
    let n = v.len();
    match find_char(v, ':') {
        None => None,
        Some(i) => {
            let l = slice_of(v, 0, i);
            let c = slice_of(v, i + 1, n);
            proof {
                assert(l@ =~= v@.take(i as int));
                assert(c@ =~= v@.skip(i + 1));
            }
            let line = match parse_i64_chars(l.as_slice()) {
                Some(x) => x,
                None => -1,
            };
            let col = match parse_i64_chars(c.as_slice()) {
                Some(x) => x,
                None => 0,
            };
            Some((line, col))
        },
    }
}

impl Sourcepos {
    /// Parse a `"line:col-line:col"` sourcepos string into body-relative
    /// coordinates. Returns `None` if the start position is missing or
    /// malformed; a malformed end position falls back to `(-1, -1)`.
    pub fn parse(s: &str) -> (r: Option<Sourcepos>)
        ensures
            r == spec_parse(s@),
    {
        let v = chars_of(s);
        match find_char(v.as_slice(), '-') {
            None => None,
            Some(i) => {
                let start = slice_of(v.as_slice(), 0, i);
                let end = slice_of(v.as_slice(), i + 1, v.len());
                proof {
                    assert(start@ =~= v@.take(i as int));
                    assert(end@ =~= v@.skip(i + 1));
                }
                match parse_pair(start.as_slice()) {
                    None => None,
                    Some((line, col)) => {
                        let (end_line, end_col) = match parse_pair(end.as_slice()) {
                            Some(p) => p,
                            None => (-1, -1),
                        };
                        Some(Sourcepos { line, col, end_line, end_col })
                    },
                }
            },
        }
    }

    /// Shift `line` and `end_line` by `offset`. `-1` sentinel lines are
    /// left untouched.
    pub fn shift_lines(self, offset: i64) -> (r: Sourcepos)
        requires
            shift_fits(self, offset),
        ensures
            r == spec_shift_lines(self, offset),
    {
        let mut s = self;
        if s.line != -1 {
            s.line = s.line + offset;
        }
        if s.end_line != -1 {
            s.end_line = s.end_line + offset;
        }
        s
    }
}

/// The position recorded in an element's `data-sourcepos` attribute value `raw`, with
/// its lines moved down by the page's front-matter offset (an offset beyond `i64` counts
/// as `0`). `None` when there is no attribute or its start is malformed.
pub fn parse_sourcepos(raw: Option<&str>, fm_offset: usize) -> (r: Option<Sourcepos>)
    requires
        raw matches Some(t) ==> (spec_parse(t@) matches Some(sp) ==> shift_fits(
            sp,
            if fm_offset <= i64::MAX {
                fm_offset as i64
            } else {
                0i64
            },
        )),
    ensures
        r == (match raw {
            None => None,
            Some(t) => match spec_parse(t@) {
                None => None,
                Some(sp) => Some(
                    spec_shift_lines(
                        sp,
                        if fm_offset <= i64::MAX {
                            fm_offset as i64
                        } else {
                            0i64
                        },
                    ),
                ),
            },
        }),
{
    let t = match raw {
        Some(t) => t,
        None => return None,
    };
    let offset: i64 = if (fm_offset as u64) <= 9223372036854775807u64 {
        fm_offset as i64
    } else {
        0
    };
    match Sourcepos::parse(t) {
        Some(sp) => Some(sp.shift_lines(offset)),
        None => None,
    }
}

} // verus!
