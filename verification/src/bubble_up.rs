//! The classes that a curriculum page's lists and notes get: a list after a paragraph
//! that ends in "Learning outcomes:" or "Resources:" is marked as such (with its items
//! that link outside), and a quote that starts with a bold "Notes" is marked as notes.
//! The rewriting pass finds the candidates in the document and applies the classes.
use vstd::prelude::*;
use crate::text::{push_str, str_eq};

verus! {

/// Whether `c` has the Unicode `White_Space` property (`char::is_whitespace`).
pub uninterp spec fn white_space(c: char) -> bool;

/// `s` without its leading white space.
pub open spec fn trim_start(s: Seq<char>) -> Seq<char>
    decreases s.len(),
{
    if s.len() > 0 && white_space(s[0]) {
        trim_start(s.drop_first())
    } else {
        s
    }
}

/// `s` without its trailing white space.
pub open spec fn trim_end(s: Seq<char>) -> Seq<char>
    decreases s.len(),
{
    if s.len() > 0 && white_space(s.last()) {
        trim_end(s.drop_last())
    } else {
        s
    }
}

/// `s` without its leading and trailing white space (`str::trim`).
pub open spec fn trimmed(s: Seq<char>) -> Seq<char> {
    trim_end(trim_start(s))
}

/// `s` without its leading and trailing white space, as `str::trim` gives it: the
/// standard library documents that it removes the characters with the Unicode
/// `White_Space` property at both ends.
#[verifier::external_body]
fn trim_str(s: &str) -> (r: String)
    ensures
        r@ == trimmed(s@),
        r@.len() > 0 ==> !white_space(r@[0]) && !white_space(r@.last()),
{
    s.trim().to_string()
}

/// A list that follows a paragraph: the paragraph, the last text of the paragraph, and
/// the list's items whose link has the class `external`, each by its place in the
/// rewriting pass's table of nodes.
#[derive(Debug, Clone)]
pub struct ListCandidate {
    pub paragraph: usize,
    pub last_text: Option<String>,
    pub external_items: Vec<usize>,
}

/// A bold text at the start of a quoted paragraph: its first text, and the quote.
#[derive(Debug, Clone)]
pub struct NoteCandidate {
    pub first_text: Option<String>,
    pub quote: Option<usize>,
}

/// The marks of a list after a paragraph: the paragraph as learning outcomes where its
/// last text, trimmed, is `Learning outcomes:`; as resources, with the items that link
/// outside, where it is `Resources:` or `General resources:`; none else.
pub open spec fn list_marks(c: ListCandidate) -> Seq<(usize, Seq<char>)> {
    match c.last_text {
        Some(t) => if trimmed(t@) == "Learning outcomes:"@ {
            seq![(c.paragraph, "curriculum-outcomes"@)]
        } else if trimmed(t@) == "Resources:"@ || trimmed(t@) == "General resources:"@ {
            seq![(c.paragraph, "curriculum-resources"@)] + c.external_items@.map_values(|i: usize| (i, "curriculum-external-li"@))
        } else {
            seq![]
        },
        None => seq![],
    }
}

/// The mark of a bold text in a quote: the quote as notes where the text is `Notes`,
/// `Note` or `General notes`.
pub open spec fn note_marks(n: NoteCandidate) -> Seq<(usize, Seq<char>)> {
    match (n.first_text, n.quote) {
        (Some(t), Some(q)) => if t@ == "Notes"@ || t@ == "Note"@ || t@ == "General notes"@ {
            seq![(q, "curriculum-notes"@)]
        } else {
            seq![]
        },
        _ => seq![],
    }
}

/// The marks of the lists, one list after the other.
pub open spec fn lists_marks(ls: Seq<ListCandidate>) -> Seq<(usize, Seq<char>)>
    decreases ls.len(),
{
    if ls.len() == 0 {
        seq![]
    } else {
        lists_marks(ls.drop_last()) + list_marks(ls.last())
    }
}

/// The marks of the bold texts, one after the other.
pub open spec fn notes_marks(ns: Seq<NoteCandidate>) -> Seq<(usize, Seq<char>)>
    decreases ns.len(),
{
    if ns.len() == 0 {
        seq![]
    } else {
        notes_marks(ns.drop_last()) + note_marks(ns.last())
    }
}

/// The marks as plain values.
pub open spec fn marks_view(v: Seq<(usize, String)>) -> Seq<(usize, Seq<char>)> {
    v.map_values(|m: (usize, String)| (m.0, m.1@))
}

fn mark(out: &mut Vec<(usize, String)>, node: usize, class: &str)
    ensures
        marks_view(final(out)@) == marks_view(old(out)@).push((node, class@)),
{
    let mut s = String::new();
    push_str(&mut s, class);
    assert(s@ =~= class@);
    out.push((node, s));
    assert(marks_view(out@) =~= marks_view(old(out)@).push((node, class@)));
}

fn add_list_marks(out: &mut Vec<(usize, String)>, c: &ListCandidate)
    ensures
        marks_view(final(out)@) == marks_view(old(out)@) + list_marks(*c),
{
    let ghost start = marks_view(out@);
    match &c.last_text {
        Some(t) => {
            let tt = trim_str(t.as_str());
            if str_eq(tt.as_str(), "Learning outcomes:") {
                mark(out, c.paragraph, "curriculum-outcomes");
                assert(marks_view(out@) =~= start + list_marks(*c));
            } else if str_eq(tt.as_str(), "Resources:") || str_eq(tt.as_str(), "General resources:") {
                mark(out, c.paragraph, "curriculum-resources");
                let n = c.external_items.len();
                let mut i: usize = 0;
                let ghost items = c.external_items@.map_values(|i: usize| (i, "curriculum-external-li"@));
                while i < n
                    invariant
                        n == c.external_items@.len(),
                        items == c.external_items@.map_values(|i: usize| (i, "curriculum-external-li"@)),
                        i <= n,
                        marks_view(out@) == start + seq![(c.paragraph, "curriculum-resources"@)] + items.take(i as int),
                    decreases n - i,
                {
                    mark(out, c.external_items[i], "curriculum-external-li");
                    assert(items.take(i + 1) =~= items.take(i as int).push(items[i as int]));
                    assert(marks_view(out@) =~= start + seq![(c.paragraph, "curriculum-resources"@)] + items.take(i + 1));
                    i += 1;
                }
                assert(items.take(n as int) =~= items);
                assert(marks_view(out@) =~= start + list_marks(*c));
            } else {
                assert(marks_view(out@) =~= start + list_marks(*c));
            }
        },
        None => {
            assert(marks_view(out@) =~= start + list_marks(*c));
        },
    }
}

fn add_note_marks(out: &mut Vec<(usize, String)>, n: &NoteCandidate)
    ensures
        marks_view(final(out)@) == marks_view(old(out)@) + note_marks(*n),
{
    let ghost start = marks_view(out@);
    match (&n.first_text, n.quote) {
        (Some(t), Some(q)) => {
            if str_eq(t.as_str(), "Notes") || str_eq(t.as_str(), "Note") || str_eq(t.as_str(), "General notes") {
                mark(out, q, "curriculum-notes");
            }
        },
        _ => {},
    }
    assert(marks_view(out@) =~= start + note_marks(*n));
}

/// The classes to put on the nodes of a curriculum page, in the order they are put
/// (a later one on the same node wins): the marks of the lists after paragraphs (see
/// `list_marks`), then those of the bold texts in quotes (see `note_marks`).
pub fn bubble_up_classes(lists: &[ListCandidate], notes: &[NoteCandidate]) -> (r: Vec<(usize, String)>)
    ensures
        marks_view(r@) == lists_marks(lists@) + notes_marks(notes@),
{
    let mut out: Vec<(usize, String)> = Vec::new();
    let n = lists.len();
    let mut i: usize = 0;
    assert(lists@.take(0) =~= Seq::<ListCandidate>::empty());
    assert(marks_view(out@) =~= Seq::<(usize, Seq<char>)>::empty());
    while i < n
        invariant
            n == lists@.len(),
            i <= n,
            marks_view(out@) == lists_marks(lists@.take(i as int)),
        decreases n - i,
    {
        add_list_marks(&mut out, &lists[i]);
        assert(lists@.take(i + 1).drop_last() =~= lists@.take(i as int));
        i += 1;
    }
    assert(lists@.take(n as int) =~= lists@);
    let ghost after_lists = marks_view(out@);
    let m = notes.len();
    let mut j: usize = 0;
    assert(notes@.take(0) =~= Seq::<NoteCandidate>::empty());
    assert(after_lists =~= after_lists + notes_marks(notes@.take(0)));
    while j < m
        invariant
            m == notes@.len(),
            j <= m,
            after_lists == lists_marks(lists@),
            marks_view(out@) == after_lists + notes_marks(notes@.take(j as int)),
        decreases m - j,
    {
        add_note_marks(&mut out, &notes[j]);
        assert(notes@.take(j + 1).drop_last() =~= notes@.take(j as int));
        assert(marks_view(out@) =~= after_lists + notes_marks(notes@.take(j + 1)));
        j += 1;
    }
    assert(notes@.take(m as int) =~= notes@);
    out
}

} // verus!
