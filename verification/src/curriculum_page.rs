//! Reading a curriculum page: its slug from its file name, its title from its first
//! `#` heading, and its content without that heading. Both go through regular
//! expressions (the `regex` crate).
use vstd::prelude::*;
use crate::resolve::DocError;
use crate::text::{chars_of, find_str, first_match, push_str, slice_of, string_of};

verus! {

/// Whether `pattern` is a regular expression that `regex::Regex::new` accepts.
pub uninterp spec fn regex_compiles(pattern: Seq<char>) -> bool;

/// What `regex::Regex::replace_all` gives: `text` with every match of `pattern`
/// replaced by `rep`.
pub uninterp spec fn regex_replace_all(pattern: Seq<char>, text: Seq<char>, rep: Seq<char>) -> Seq<char>;

/// What `regex::Regex::captures` gives: the groups of the first match of `pattern` in
/// `text` (group 0 the whole match), none where there is no match.
pub uninterp spec fn regex_captures(pattern: Seq<char>, text: Seq<char>) -> Option<Seq<Option<Seq<char>>>>;

/// Compiles `pattern` with `regex::Regex::new` and replaces all its matches in `text`
/// with `rep` (`Regex::replace_all`); none where the pattern does not compile. The
/// contract names the outcome of both.
#[verifier::external_body]
fn replace_all_matches(pattern: &str, text: &str, rep: &str) -> (r: Option<String>)
    ensures
        match r {
            Some(s) => regex_compiles(pattern@) && s@ == regex_replace_all(pattern@, text@, rep@),
            None => !regex_compiles(pattern@),
        },
{
    match regex::Regex::new(pattern) {
        Ok(re) => Some(re.replace_all(text, rep).into_owned()),
        Err(_) => None,
    }
}

/// Compiles `pattern` with `regex::Regex::new` and reads the groups of its first match
/// in `text` (`Regex::captures`), each as its text; the outer none where the pattern
/// does not compile. The contract names the outcome of both.
#[verifier::external_body]
pub(crate) fn first_captures(pattern: &str, text: &str) -> (r: Option<Option<Vec<Option<String>>>>)
    ensures
        match r {
            Some(c) => regex_compiles(pattern@) && match regex_captures(pattern@, text@) {
                Some(groups) => c matches Some(v) && v@.len() == groups.len() && forall|i: int|
                    0 <= i < groups.len() ==> match groups[i] {
                        Some(g) => #[trigger] v@[i] matches Some(x) && x@ == g,
                        None => v@[i] is None,
                    },
                None => c is None,
            },
            None => !regex_compiles(pattern@),
        },
{
    match regex::Regex::new(pattern) {
        Ok(re) => Some(re.captures(text).map(|c| c.iter().map(|m| m.map(|m| m.as_str().to_string())).collect())),
        Err(_) => None,
    }
}

/// The pattern of what a curriculum file name loses in its slug: order prefixes such
/// as `1-`, the `.md` extension and README file names.
pub const SLUG_PATTERN: &'static str = "(\\d+-|\\.md$|\\/0?-?README)";

/// The pattern of a curriculum page's title line: `#`, white space and the title,
/// after nothing but word characters and newlines.
pub const TITLE_PATTERN: &'static str = "^[\\w\\n]*#\\s+(.*)\\n";

/// The slug of the curriculum page in file `file` (relative to the curriculum root):
/// the file name without what `SLUG_PATTERN` matches; none where the pattern does not
/// compile.
pub fn curriculum_file_to_slug(file: &str) -> (r: Option<String>)
    ensures
        match r {
            Some(s) => regex_compiles(SLUG_PATTERN@) && s@ == regex_replace_all(SLUG_PATTERN@, file@, ""@),
            None => !regex_compiles(SLUG_PATTERN@),
        },
{
    replace_all_matches(SLUG_PATTERN, file, "")
}

/// `s` without the first occurrence of the non-empty `p` (`replacen(p, "", 1)`).
pub open spec fn remove_first(s: Seq<char>, p: Seq<char>) -> Seq<char> {
    match first_match(s, p) {
        Some(i) => s.take(i) + s.skip(i + p.len()),
        None => s,
    }
}

/// What a curriculum page is made of besides its front matter.
#[derive(Debug, Clone)]
pub struct CurriculumPageParts {
    pub slug: String,
    pub url: String,
    pub title: String,
    /// The content without the title line.
    pub content: String,
}

/// The groups of a regular expression's first match, as text.
pub open spec fn groups_view(g: Option<Vec<Option<String>>>) -> Option<Seq<Option<Seq<char>>>> {
    match g {
        Some(v) => Some(v@.map_values(|x: Option<String>| match x {
            Some(s) => Some(s@),
            None => None,
        })),
        None => None,
    }
}

/// The parts of a curriculum page with slug `slug` and content `raw_content`, where
/// `groups` are the groups of the first match of `TITLE_PATTERN` in the content (none
/// where it does not match): the URL `/en-US/<slug>/`, the title from the first group,
/// and the content without the whole match (the title line); the error `NoH1` where
/// there is no match, no first group, or an empty match.
pub open spec fn spec_parts_from(slug: Seq<char>, raw_content: Seq<char>, groups: Option<Seq<Option<Seq<char>>>>, r: Result<CurriculumPageParts, DocError>) -> bool {
    match groups {
        Some(groups) => match (groups[0], groups[1]) {
            (Some(line), Some(title)) if groups.len() > 1 && line.len() > 0 => r matches Ok(p) && p.slug@ == slug
                && p.url@ == "/en-US/"@ + slug + "/"@ && p.title@ == title && p.content@ == remove_first(
                raw_content,
                line,
            ),
            _ => r matches Err(DocError::NoH1),
        },
        None => r matches Err(DocError::NoH1),
    }
}

/// The parts of the curriculum page in file `filename` with content `raw_content`
/// (after its front matter): its slug (see `curriculum_file_to_slug`), then the parts
/// that `spec_parts_from` gives for the first match of `TITLE_PATTERN`. None where a
/// pattern does not compile.
pub open spec fn spec_page_parts(filename: Seq<char>, raw_content: Seq<char>, r: Option<Result<CurriculumPageParts, DocError>>) -> bool {
    if !regex_compiles(SLUG_PATTERN@) || !regex_compiles(TITLE_PATTERN@) {
        r is None
    } else {
        r matches Some(x) && spec_parts_from(
            regex_replace_all(SLUG_PATTERN@, filename, ""@),
            raw_content,
            regex_captures(TITLE_PATTERN@, raw_content),
            x,
        )
    }
}

/// Reads the parts of a curriculum page (see `spec_page_parts`).
pub fn curriculum_page_parts(filename: &str, raw_content: &str) -> (r: Option<Result<CurriculumPageParts, DocError>>)
    ensures
        spec_page_parts(filename@, raw_content@, r),
{
    let slug = match curriculum_file_to_slug(filename) {
        Some(s) => s,
        None => return None,
    };
    let caps = match first_captures(TITLE_PATTERN, raw_content) {
        Some(c) => c,
        None => return None,
    };
    proof {
        match regex_captures(TITLE_PATTERN@, raw_content@) {
            Some(g) => {
                assert(groups_view(caps) =~~= Some(g));
            },
            None => {},
        }
    }
    Some(parts_from_captures(slug, raw_content, caps))
}

/// The parts of a curriculum page with slug `slug` and content `raw_content`, given the
/// groups of the first match of `TITLE_PATTERN` in the content (see `spec_parts_from`).
pub fn parts_from_captures(slug: String, raw_content: &str, caps: Option<Vec<Option<String>>>) -> (r: Result<CurriculumPageParts, DocError>)
    ensures
        spec_parts_from(slug@, raw_content@, groups_view(caps), r),
{
    let groups = match caps {
        Some(g) => g,
        None => return Err(DocError::NoH1),
    };
    assert(groups_view(Some(groups)) matches Some(gv) && gv.len() == groups@.len());
    if groups.len() < 2 {
        return Err(DocError::NoH1);
    }
    let (line, title) = match (&groups[0], &groups[1]) {
        (Some(l), Some(t)) => (l, t),
        _ => return Err(DocError::NoH1),
    };
    let lv = chars_of(line.as_str());
    if lv.len() == 0 {
        return Err(DocError::NoH1);
    }
    let cv = chars_of(raw_content);
    let content = match find_str(cv.as_slice(), lv.as_slice()) {
        Some(i) => {
            let mut out = string_of(slice_of(cv.as_slice(), 0, i).as_slice());
            let rest = slice_of(cv.as_slice(), i + lv.len(), cv.len());
            push_str(&mut out, string_of(rest.as_slice()).as_str());
            assert(out@ =~= raw_content@.take(i as int) + raw_content@.skip(i + lv@.len()));
            out
        },
        None => string_of(cv.as_slice()),
    };
    let mut url = String::new();
    push_str(&mut url, "/en-US/");
    push_str(&mut url, slug.as_str());
    push_str(&mut url, "/");
    Ok(CurriculumPageParts { slug, url, title: title.clone(), content })
}

} // verus!
