//! Issues found while building a page: how they are recorded (positions in bytes) and
//! how they are shown (positions in characters, a few lines of context, an explanation).
use vstd::prelude::*;
use crate::position_utils::{byte_to_char_column, char_column_of, is_char_offset, lines, lines_of, utf8_len};
use crate::text::{chars_of, push_char, push_str, str_eq, string_of};

verus! {

/// An issue as it is recorded while building: positions are byte columns.
#[derive(Debug, Clone)]
pub struct Issue {
    pub req: u64,
    pub ic: i64,
    /// Column in bytes from the start of the line.
    pub col: i64,
    /// Line number (1-based).
    pub line: i64,
    /// End column in bytes from the start of the line.
    pub end_col: i64,
    /// End line number (1-based).
    pub end_line: i64,
    pub file: String,
    pub ignore: bool,
    pub fields: Vec<(String, String)>,
    pub spans: Vec<(String, String)>,
}

/// What a span of the build carries for the issues raised inside it.
#[derive(Debug, Clone)]
pub struct IssueEntries {
    pub req: u64,
    pub ic: i64,
    pub col: i64,
    pub line: i64,
    pub end_col: i64,
    pub end_line: i64,
    pub file: String,
    pub ignore: bool,
    pub entries: Vec<(String, String)>,
}

impl Default for IssueEntries {
    fn default() -> (r: Self)
        ensures
            r.req == 0 && r.ic == 0 && r.col == 0 && r.line == 0 && r.end_col == 0
                && r.end_line == 0 && r.file@.len() == 0 && !r.ignore && r.entries@.len() == 0,
    {
        IssueEntries {
            req: 0,
            ic: 0,
            col: 0,
            line: 0,
            end_col: 0,
            end_line: 0,
            file: String::new(),
            ignore: false,
            entries: Vec::new(),
        }
    }
}

/// Extra data of an issue.
#[derive(Debug, Clone, Default)]
pub enum Additional {
    BrokenLink { href: String },
    MacroBrokenLink { href: String },
    /// No extra data.
    #[default]
    Nothing,
}

/// The kind of an issue.
#[derive(Debug, Clone, Copy, Default, PartialEq, Eq, Structural)]
pub enum IssueType {
    TemplRedirectedLink,
    TemplBrokenLink,
    TemplIllCasedLink,
    TemplInvalidArg,
    RedirectedLink,
    BrokenLink,
    IllCasedLink,
    #[default]
    Unknown,
}

/// The kind named by `s` (the `source` field of an issue).
pub open spec fn spec_issue_type(s: Seq<char>) -> IssueType {
    if s == "templ-redirected-link"@ {
        IssueType::TemplRedirectedLink
    } else if s == "templ-broken-link"@ {
        IssueType::TemplBrokenLink
    } else if s == "templ-ill-cased-link"@ {
        IssueType::TemplIllCasedLink
    } else if s == "templ-invalid-arg"@ {
        IssueType::TemplInvalidArg
    } else if s == "redirected-link"@ {
        IssueType::RedirectedLink
    } else if s == "broken-link"@ {
        IssueType::BrokenLink
    } else if s == "ill-cased-link"@ {
        IssueType::IllCasedLink
    } else {
        IssueType::Unknown
    }
}

impl IssueType {
    /// The kind of issue named `s`; any other name is `Unknown`.
    pub fn from_name(s: &str) -> (r: IssueType)
        ensures
            r == spec_issue_type(s@),
    {
        if str_eq(s, "templ-redirected-link") {
            IssueType::TemplRedirectedLink
        } else if str_eq(s, "templ-broken-link") {
            IssueType::TemplBrokenLink
        } else if str_eq(s, "templ-ill-cased-link") {
            IssueType::TemplIllCasedLink
        } else if str_eq(s, "templ-invalid-arg") {
            IssueType::TemplInvalidArg
        } else if str_eq(s, "redirected-link") {
            IssueType::RedirectedLink
        } else if str_eq(s, "broken-link") {
            IssueType::BrokenLink
        } else if str_eq(s, "ill-cased-link") {
            IssueType::IllCasedLink
        } else {
            IssueType::Unknown
        }
    }
}

/// An issue as it is shown: positions are 1-based character columns.
#[derive(Debug, Clone)]
pub struct DisplayIssue {
    pub id: i64,
    pub explanation: Option<String>,
    pub suggestion: Option<String>,
    pub fixable: Option<bool>,
    pub fixed: bool,
    /// Line number (1-based).
    pub line: Option<i64>,
    /// Column in characters from the start of the line (1-based).
    pub column: Option<i64>,
    /// End line number (1-based).
    pub end_line: Option<i64>,
    /// End column in characters from the start of the line (1-based).
    pub end_column: Option<i64>,
    pub source_context: Option<String>,
    pub filepath: Option<String>,
    pub name: IssueType,
}

/// A shown issue with what its kind adds.
#[derive(Debug, Clone)]
pub enum DIssue {
    BrokenLink { display_issue: DisplayIssue, href: Option<String> },
    Macros { display_issue: DisplayIssue, macro_name: Option<String>, href: Option<String> },
    Unknown { display_issue: DisplayIssue },
}

/// The shown issue inside a `DIssue`.
pub open spec fn spec_display_issue(d: DIssue) -> DisplayIssue {
    match d {
        DIssue::BrokenLink { display_issue, .. } => display_issue,
        DIssue::Macros { display_issue, .. } => display_issue,
        DIssue::Unknown { display_issue } => display_issue,
    }
}

/// The text of an optional string.
pub open spec fn opt_view(o: Option<String>) -> Option<Seq<char>> {
    match o {
        Some(s) => Some(s@),
        None => None,
    }
}

impl DIssue {
    /// The shown issue, whatever the kind.
    pub fn display_issue(&self) -> (r: &DisplayIssue)
        ensures
            *r == spec_display_issue(*self),
    {
        match self {
            DIssue::BrokenLink { display_issue, .. } => display_issue,
            DIssue::Macros { display_issue, .. } => display_issue,
            DIssue::Unknown { display_issue } => display_issue,
        }
    }

    /// The link the issue is about, if its kind has one.
    pub fn content(&self) -> (r: Option<&str>)
        ensures
            match self {
                DIssue::BrokenLink { href, .. } => match r {
                    Some(s) => href matches Some(h) && s@ == h@,
                    None => href is None,
                },
                DIssue::Macros { href, .. } => match r {
                    Some(s) => href matches Some(h) && s@ == h@,
                    None => href is None,
                },
                DIssue::Unknown { .. } => r is None,
            },
    {
        match self {
            DIssue::BrokenLink { href, .. } => match href {
                Some(h) => Some(h.as_str()),
                None => None,
            },
            DIssue::Macros { href, .. } => match href {
                Some(h) => Some(h.as_str()),
                None => None,
            },
            DIssue::Unknown { .. } => None,
        }
    }
}

/// The navigation macros whose slug argument can be fixed in the Markdown source.
pub open spec fn spec_is_fixable_template(macro_name: Option<Seq<char>>) -> bool {
    match macro_name {
        Some(m) => m == "previous"@ || m == "previousmenu"@ || m == "previousnext"@
            || m == "previousmenunext"@,
        None => false,
    }
}

/// Whether an issue of template macro `macro_name` can be fixed automatically: only the
/// navigation macros have a slug argument in the Markdown source.
pub fn is_fixable_template(macro_name: Option<&str>) -> (r: bool)
    ensures
        r == spec_is_fixable_template(match macro_name { Some(m) => Some(m@), None => None }),
{
    match macro_name {
        Some(m) => str_eq(m, "previous") || str_eq(m, "previousmenu") || str_eq(m, "previousnext")
            || str_eq(m, "previousmenunext"),
        None => false,
    }
}

/// The value of the last pair with key `key`.
pub open spec fn last_value(kv: Seq<(String, String)>, key: Seq<char>) -> Option<Seq<char>>
    decreases kv.len(),
{
    if kv.len() == 0 {
        None
    } else if kv.last().0@ == key {
        Some(kv.last().1@)
    } else {
        last_value(kv.drop_last(), key)
    }
}

fn last_value_of(kv: &[(String, String)], key: &str) -> (r: Option<String>)
    ensures
        opt_view(r) == last_value(kv@, key@),
{
    let n = kv.len();
    let mut i: usize = 0;
    let mut r: Option<String> = None;
    assert(kv@.take(0) =~= Seq::<(String, String)>::empty());
    while i < n
        invariant
            n == kv@.len(),
            i <= n,
            opt_view(r) == last_value(kv@.take(i as int), key@),
        decreases n - i,
    {
        assert(kv@.take(i + 1).drop_last() =~= kv@.take(i as int));
        assert(kv@.take(i + 1).last() == kv@[i as int]);
        if str_eq(kv[i].0.as_str(), key) {
            r = Some(kv[i].1.clone());
        }
        i += 1;
    }
    assert(kv@.take(n as int) =~= kv@);
    r
}

/// The text for an optional value: the value, or `?`.
pub open spec fn or_q(o: Option<Seq<char>>) -> Seq<char> {
    match o {
        Some(v) => v,
        None => "?"@,
    }
}

fn push_or_q(out: &mut String, o: &Option<String>)
    ensures
        final(out)@ == old(out)@ + or_q(opt_view(*o)),
{
    match o {
        Some(v) => push_str(out, v.as_str()),
        None => push_str(out, "?"),
    }
}

/// The line of the page content that an issue on file line `line` points at: its
/// 0-based index once the front matter is taken off.
pub open spec fn line_index(line: i64, fm_offset: usize) -> int {
    let l = if line - 1 < i64::MIN { i64::MIN as int } else { line - 1 };
    let u = ((l as i64) as usize) as int;
    if u - fm_offset < 0 { 0 } else { u - fm_offset }
}

/// The 1-based character columns of an issue's start and end, where its line can be
/// found in the content; else its byte columns as they are.
pub open spec fn char_cols(issue: Issue, content: Seq<char>, fm_offset: usize) -> (int, int) {
    let ls = lines(content);
    let idx = line_index(issue.line, fm_offset);
    if issue.line != 0 && issue.col != 0 && idx < ls.len() {
        (
            char_column_of(ls[idx], ((issue.col as usize) as int)) + 1,
            if issue.end_col != 0 {
                char_column_of(ls[idx], ((issue.end_col as usize) as int)) + 1
            } else {
                0
            },
        )
    } else {
        (issue.col as int, issue.end_col as int)
    }
}

/// The shown line: the issue's line less the front matter's.
pub open spec fn shown_line(issue: Issue, fm_offset: usize) -> int {
    issue.line - fm_offset
}

/// How many lines of context to skip, how many to take, and which one to underline.
pub open spec fn context_params(line: int) -> (int, int, int) {
    if line < 4 {
        (0, (((7 - (4 - line)) as i64) as usize) as int, (((line - 1) as i64) as usize) as int)
    } else {
        ((((line - 4) as i64) as usize) as int, 7, 3)
    }
}

/// The lines of context around the shown line: up to three before and three after.
pub open spec fn context_lines(content: Seq<char>, line: int) -> Seq<Seq<char>> {
    let ls = lines(content);
    let (skip, take, hl) = context_params(line);
    let rest = if skip <= ls.len() { ls.skip(skip) } else { Seq::empty() };
    if take <= rest.len() { rest.take(take) } else { rest }
}

/// `n` dashes.
pub open spec fn dashes(n: nat) -> Seq<char> {
    Seq::new(n, |i: int| '-')
}

/// The context lines, each followed by a newline, with a line of dashes and a caret under
/// column `col` after the line at position `hl`.
pub open spec fn render_context(ctx: Seq<Seq<char>>, hl: int, col: int) -> Seq<char>
    decreases ctx.len(),
{
    if ctx.len() == 0 {
        Seq::empty()
    } else {
        render_context(ctx.drop_last(), hl, col) + ctx.last() + "\n"@ + if ctx.len() - 1 == hl {
            dashes((((col - 1) as i64) as usize) as nat) + "^\n"@
        } else {
            Seq::empty()
        }
    }
}

/// The underlined line is one of the context lines.
pub open spec fn highlight_shown(content: Seq<char>, line: int) -> bool {
    0 <= context_params(line).2 < context_lines(content, line).len()
}

/// What `from_issue` needs of its inputs: the columns of a line that is found are at
/// character boundaries (or past its end), and the line arithmetic stays in `i64`.
pub open spec fn issue_in_range(issue: Issue, content: Seq<char>, fm_offset: usize) -> bool {
    let ls = lines(content);
    let idx = line_index(issue.line, fm_offset);
    let cc = char_cols(issue, content, fm_offset);
    &&& content.len() < i64::MAX
    &&& fm_offset <= i64::MAX
    &&& (issue.line != 0 && issue.col != 0 && idx < ls.len()) ==> {
        &&& ((issue.col as usize) as int >= utf8_len(ls[idx]) || is_char_offset(ls[idx], (issue.col as usize) as int))
        &&& (issue.end_col != 0 ==> ((issue.end_col as usize) as int >= utf8_len(ls[idx])
            || is_char_offset(ls[idx], (issue.end_col as usize) as int)))
    }
    &&& (issue.line != 0 && cc.0 != 0) ==> {
        &&& shown_line(issue, fm_offset) >= i64::MIN + 5
        &&& (highlight_shown(content, shown_line(issue, fm_offset)) ==> cc.0 > i64::MIN)
    }
}

/// An optional number that is absent when zero.
pub open spec fn nonzero(v: int) -> Option<int> {
    if v == 0 { None } else { Some(v) }
}

/// The number inside an optional `i64`.
pub open spec fn opt_int(o: Option<i64>) -> Option<int> {
    match o {
        Some(v) => Some(v as int),
        None => None,
    }
}

/// The explanation shown for a link issue of kind `kind`.
pub open spec fn link_explanation(url: Option<Seq<char>>, what: Seq<char>) -> Seq<char> {
    "Link "@ + or_q(url) + what
}

/// The explanation shown for an issue with a link that template `templ` produced.
pub open spec fn macro_explanation(templ: Option<Seq<char>>, url: Option<Seq<char>>, what: Seq<char>) -> Seq<char> {
    "Macro "@ + or_q(templ) + " produces link "@ + or_q(url) + what
}

/// What the shown issue holds besides its kind-specific fields.
pub open spec fn display_base_ok(issue: Issue, content: Seq<char>, fm_offset: usize, path: Seq<char>, di: DisplayIssue) -> bool {
    let kv = issue.spans@ + issue.fields@;
    let cc = char_cols(issue, content, fm_offset);
    let line = shown_line(issue, fm_offset);
    &&& di.id == issue.ic
    &&& opt_int(di.column) == nonzero(cc.0)
    &&& opt_int(di.end_column) == nonzero(cc.1)
    &&& opt_int(di.line) == nonzero(issue.line as int)
    &&& opt_int(di.end_line) == nonzero(issue.end_line as int)
    &&& opt_view(di.source_context) == if cc.0 != 0 && issue.line != 0 {
        Some(render_context(context_lines(content, line), context_params(line).2, cc.0))
    } else {
        None
    }
    &&& opt_view(di.filepath) == Some(path)
    &&& opt_view(di.suggestion) == last_value(kv, "redirect"@)
    &&& di.name == match last_value(kv, "source"@) {
        Some(v) => spec_issue_type(v),
        None => IssueType::Unknown,
    }
    &&& !di.fixed
}

/// `d` is the shown form of `issue`, found on a page with content `content`, front
/// matter of `fm_offset` lines and path `path`.
pub open spec fn dissue_ok(issue: Issue, content: Seq<char>, fm_offset: usize, path: Seq<char>, d: DIssue) -> bool {
    let kv = issue.spans@ + issue.fields@;
    let di = spec_display_issue(d);
    let url = last_value(kv, "url"@);
    let templ = last_value(kv, "templ"@);
    &&& display_base_ok(issue, content, fm_offset, path, di)
    &&& match di.name {
        IssueType::IllCasedLink => d is BrokenLink && opt_view(d->BrokenLink_href) == url
            && di.fixable == Some(true)
            && opt_view(di.explanation) == Some(link_explanation(url, " is ill cased"@)),
        IssueType::RedirectedLink => d is BrokenLink && opt_view(d->BrokenLink_href) == url
            && di.fixable == Some(true)
            && opt_view(di.explanation) == Some(link_explanation(url, " is a redirect"@)),
        IssueType::BrokenLink => d is BrokenLink && opt_view(d->BrokenLink_href) == url
            && di.fixable == Some(false)
            && opt_view(di.explanation) == Some(link_explanation(url, " doesn't resolve"@)),
        IssueType::TemplBrokenLink => d is Macros && opt_view(d->Macros_href) == url
            && opt_view(d->macro_name) == templ && di.fixable == Some(false)
            && opt_view(di.explanation) == Some(macro_explanation(templ, url, " which doesn't resolve"@)),
        IssueType::TemplRedirectedLink => d is Macros && opt_view(d->Macros_href) == url
            && opt_view(d->macro_name) == templ
            && di.fixable == Some(spec_is_fixable_template(templ))
            && opt_view(di.explanation) == Some(macro_explanation(templ, url, " which is a redirect"@)),
        IssueType::TemplIllCasedLink => d is Macros && opt_view(d->Macros_href) == url
            && opt_view(d->macro_name) == templ
            && di.fixable == Some(spec_is_fixable_template(templ))
            && opt_view(di.explanation) == Some(macro_explanation(templ, url, " which is ill cased"@)),
        IssueType::TemplInvalidArg => d is Macros && d->Macros_href is None
            && opt_view(d->macro_name) == templ && di.fixable is None
            && opt_view(di.explanation) == Some("Macro "@ + or_q(templ) + " received argument ("@
                + or_q(last_value(kv, "arg"@)) + ") which is not valid."@),
        IssueType::Unknown => d is Unknown && di.fixable is None
            && opt_view(di.explanation) == last_value(kv, "message"@),
    }
}

proof fn lemma_lines_len(s: Seq<char>)
    ensures
        forall|j: int| 0 <= j < lines(s).len() ==> #[trigger] lines(s)[j].len() <= s.len(),
    decreases s.len(),
{
    if s.len() > 0 {
        crate::text::lemma_first_index(s, '\n');
        match crate::text::first_index(s, '\n') {
            None => {},
            Some(i) => {
                lemma_lines_len(s.skip(i + 1));
                let l0 = crate::position_utils::strip_cr(s.take(i));
                assert forall|j: int| 0 <= j < lines(s).len() implies #[trigger] lines(s)[j].len() <= s.len() by {
                    if j > 0 {
                        assert(lines(s)[j] == lines(s.skip(i + 1))[j - 1]);
                    }
                }
            },
        }
    }
}

/// The 1-based character columns of the issue (see `char_cols`).
fn issue_char_cols(issue: &Issue, content_lines: &Vec<Vec<char>>, Ghost(content): Ghost<Seq<char>>, fm_offset: usize) -> (r: (i64, i64))
    requires
        issue_in_range(*issue, content, fm_offset),
        content_lines@.len() == lines(content).len(),
        forall|j: int| 0 <= j < content_lines@.len() ==> #[trigger] content_lines@[j]@ == lines(content)[j],
    ensures
        r.0 as int == char_cols(*issue, content, fm_offset).0,
        r.1 as int == char_cols(*issue, content, fm_offset).1,
{
    let ghost ls = lines(content);
    let ghost idx = line_index(issue.line, fm_offset);
    if issue.line != 0 && issue.col != 0 {
        let l = if issue.line == i64::MIN { i64::MIN } else { issue.line - 1 };
        let u = l as usize;
        let line_idx = u.saturating_sub(fm_offset);
        assert(line_idx as int == idx);
        if line_idx < content_lines.len() {
            proof {
                lemma_lines_len(content);
                assert(ls[idx].len() <= content.len());
            }
            let line_text = string_of(content_lines[line_idx].as_slice());
            let c = byte_to_char_column(line_text.as_str(), issue.col as usize);
            let char_col = c as i64 + 1;
            let char_end_col = if issue.end_col != 0 {
                let e = byte_to_char_column(line_text.as_str(), issue.end_col as usize);
                e as i64 + 1
            } else {
                0
            };
            (char_col, char_end_col)
        } else {
            (issue.col, issue.end_col)
        }
    } else {
        (issue.col, issue.end_col)
    }
}

fn push_dashes(out: &mut String, n: usize)
    ensures
        final(out)@ == old(out)@ + dashes(n as nat),
{
    let mut i: usize = 0;
    while i < n
        invariant
            i <= n,
            out@ == old(out)@ + dashes(i as nat),
        decreases n - i,
    {
        push_char(out, '-');
        assert(dashes((i + 1) as nat) =~= dashes(i as nat).push('-'));
        i += 1;
    }
}

/// The source context shown under an issue at 1-based character column `col` of shown
/// line `line`.
fn source_context(content_lines: &Vec<Vec<char>>, Ghost(content): Ghost<Seq<char>>, line: i64, col: i64) -> (r: String)
    requires
        content_lines@.len() == lines(content).len(),
        forall|j: int| 0 <= j < content_lines@.len() ==> #[trigger] content_lines@[j]@ == lines(content)[j],
        line >= i64::MIN + 5,
        highlight_shown(content, line as int) ==> col > i64::MIN,
    ensures
        r@ == render_context(context_lines(content, line as int), context_params(line as int).2, col as int),
{
    let ghost ls = lines(content);
    let (skip, take, highlight): (usize, usize, usize) = if line < 4 {
        (0, (7 - (4 - line)) as usize, (line - 1) as usize)
    } else {
        ((line - 4) as usize, 7, 3)
    };
    assert(skip as int == context_params(line as int).0);
    assert(take as int == context_params(line as int).1);
    assert(highlight as int == context_params(line as int).2);
    let n = content_lines.len();
    let ghost ctx = context_lines(content, line as int);
    let start = if skip <= n { skip } else { n };
    let count = if take <= n - start { take } else { n - start };
    proof {
        let rest = if skip <= ls.len() { ls.skip(skip as int) } else { Seq::empty() };
        assert(rest =~= ls.subrange(start as int, n as int));
        assert(ctx =~= ls.subrange(start as int, start + count));
    }
    let mut out = String::new();
    let mut i: usize = 0;
    assert(ctx.take(0) =~= Seq::<Seq<char>>::empty());
    while i < count
        invariant
            n == ls.len(),
            start + count <= n,
            ctx == ls.subrange(start as int, start + count),
            i <= count,
            content_lines@.len() == ls.len(),
            forall|j: int| 0 <= j < content_lines@.len() ==> #[trigger] content_lines@[j]@ == ls[j],
            highlight as int == context_params(line as int).2,
            highlight_shown(content, line as int) ==> col > i64::MIN,
            ctx == context_lines(content, line as int),
            out@ == render_context(ctx.take(i as int), highlight as int, col as int),
        decreases count - i,
    {
        let ghost before = out@;
        assert(ctx.take(i + 1).drop_last() =~= ctx.take(i as int));
        assert(ctx.take(i + 1).last() == ls[start + i]);
        push_chars_vec(&mut out, &content_lines[start + i]);
        push_char(&mut out, '\n');
        if i == highlight {
            assert(highlight_shown(content, line as int));
            let d = (col - 1) as usize;
            push_dashes(&mut out, d);
            push_str(&mut out, "^\n");
            proof {
                reveal_strlit("\n");
                assert(out@ =~= before + ls[start + i] + "\n"@ + (dashes(d as nat) + "^\n"@));
            }
        } else {
            proof {
                reveal_strlit("\n");
                assert(out@ =~= before + ls[start + i] + "\n"@ + Seq::<char>::empty());
            }
        }
        i += 1;
    }
    assert(ctx.take(count as int) =~= ctx);
    out
}

fn push_chars_vec(out: &mut String, v: &Vec<char>)
    ensures
        final(out)@ == old(out)@ + v@,
{
    crate::text::push_chars(out, v.as_slice());
}

impl DIssue {
    /// The shown form of a recorded issue, on a page with content `content` (after its
    /// front matter), front matter of `fm_offset` lines, and path `full_path`. Issues
    /// without a counter (a negative one) are not shown.
    ///
    /// Byte columns become 1-based character columns where the line is found; up to three
    /// lines before and after the issue's line are shown with a caret under its column;
    /// the `source`, `redirect`, `url`, `templ`, `arg` and `message` fields (the last of
    /// each, spans before fields) give the kind, the suggestion and the explanation.
    pub fn from_issue(issue: Issue, content: &str, fm_offset: usize, full_path: &str) -> (r: Option<DIssue>)
        requires
            issue_in_range(issue, content@, fm_offset),
        ensures
            match r {
                None => !(0 <= issue.ic <= usize::MAX),
                Some(d) => 0 <= issue.ic <= usize::MAX && dissue_ok(issue, content@, fm_offset, full_path@, d),
            },
    {
        if issue.ic < 0 || (issue.ic as u64) > (usize::MAX as u64) {
            return None;
        }
        let chars = chars_of(content);
        let content_lines = lines_of(chars.as_slice());
        let (char_col, char_end_col) = issue_char_cols(&issue, &content_lines, Ghost(content@), fm_offset);
        let source_ctx = if char_col != 0 && issue.line != 0 {
            let line = issue.line - fm_offset as i64;
            Some(source_context(&content_lines, Ghost(content@), line, char_col))
        } else {
            None
        };
        let mut kv: Vec<(String, String)> = Vec::new();
        let mut spans = issue.spans;
        let mut fields = issue.fields;
        kv.append(&mut spans);
        kv.append(&mut fields);
        let source = last_value_of(kv.as_slice(), "source");
        let suggestion = last_value_of(kv.as_slice(), "redirect");
        let url = last_value_of(kv.as_slice(), "url");
        let templ = last_value_of(kv.as_slice(), "templ");
        let name = match &source {
            Some(v) => IssueType::from_name(v.as_str()),
            None => IssueType::Unknown,
        };
        let mut di = DisplayIssue {
            id: issue.ic,
            explanation: None,
            suggestion,
            fixable: None,
            fixed: false,
            line: if issue.line == 0 { None } else { Some(issue.line) },
            column: if char_col == 0 { None } else { Some(char_col) },
            end_line: if issue.end_line == 0 { None } else { Some(issue.end_line) },
            end_column: if char_end_col == 0 { None } else { Some(char_end_col) },
            source_context: source_ctx,
            filepath: Some(string_of(chars_of(full_path).as_slice())),
            name,
        };
        match name {
            IssueType::IllCasedLink | IssueType::RedirectedLink | IssueType::BrokenLink => {
                let mut e = String::new();
                push_str(&mut e, "Link ");
                push_or_q(&mut e, &url);
                match name {
                    IssueType::IllCasedLink => push_str(&mut e, " is ill cased"),
                    IssueType::RedirectedLink => push_str(&mut e, " is a redirect"),
                    _ => push_str(&mut e, " doesn't resolve"),
                }
                di.fixable = Some(match name {
                    IssueType::BrokenLink => false,
                    _ => true,
                });
                di.explanation = Some(e);
                Some(DIssue::BrokenLink { display_issue: di, href: url })
            },
            IssueType::TemplBrokenLink | IssueType::TemplRedirectedLink | IssueType::TemplIllCasedLink => {
                let mut e = String::new();
                push_str(&mut e, "Macro ");
                push_or_q(&mut e, &templ);
                push_str(&mut e, " produces link ");
                push_or_q(&mut e, &url);
                match name {
                    IssueType::TemplBrokenLink => push_str(&mut e, " which doesn't resolve"),
                    IssueType::TemplRedirectedLink => push_str(&mut e, " which is a redirect"),
                    _ => push_str(&mut e, " which is ill cased"),
                }
                di.fixable = Some(match name {
                    IssueType::TemplBrokenLink => false,
                    _ => is_fixable_template(match &templ {
                        Some(t) => Some(t.as_str()),
                        None => None,
                    }),
                });
                di.explanation = Some(e);
                Some(DIssue::Macros { display_issue: di, macro_name: templ, href: url })
            },
            IssueType::TemplInvalidArg => {
                let arg = last_value_of(kv.as_slice(), "arg");
                let mut e = String::new();
                push_str(&mut e, "Macro ");
                push_or_q(&mut e, &templ);
                push_str(&mut e, " received argument (");
                push_or_q(&mut e, &arg);
                push_str(&mut e, ") which is not valid.");
                di.explanation = Some(e);
                Some(DIssue::Macros { display_issue: di, macro_name: templ, href: None })
            },
            IssueType::Unknown => {
                di.explanation = last_value_of(kv.as_slice(), "message");
                Some(DIssue::Unknown { display_issue: di })
            },
        }
    }
}

/// The issues of a page in the groups they are shown in, each key once and in order:
/// `broken_links`, `macros`, `unknown`, those without issues left out.
pub open spec fn group_issues(ds: Seq<DIssue>) -> Seq<(Seq<char>, Seq<DIssue>)> {
    let b = ds.filter(|d: DIssue| d is BrokenLink);
    let m = ds.filter(|d: DIssue| d is Macros);
    let u = ds.filter(|d: DIssue| d is Unknown);
    (if b.len() > 0 { seq![("broken_links"@, b)] } else { seq![] })
        + (if m.len() > 0 { seq![("macros"@, m)] } else { seq![] })
        + (if u.len() > 0 { seq![("unknown"@, u)] } else { seq![] })
}

/// `d` is what `from_issue` gives for `issue`.
pub open spec fn from_issue_ok(issue: Issue, content: Seq<char>, fm_offset: usize, path: Seq<char>, d: Option<DIssue>) -> bool {
    match d {
        None => !(0 <= issue.ic <= usize::MAX),
        Some(d) => 0 <= issue.ic <= usize::MAX && dissue_ok(issue, content, fm_offset, path, d),
    }
}

/// The shown issues among `ds`, in order.
pub open spec fn somes(ds: Seq<Option<DIssue>>) -> Seq<DIssue>
    decreases ds.len(),
{
    if ds.len() == 0 {
        seq![]
    } else {
        somes(ds.drop_last()) + match ds.last() {
            Some(d) => seq![d],
            None => seq![],
        }
    }
}

/// The groups with their keys and issues as values.
pub open spec fn group_views(v: Seq<(String, Vec<DIssue>)>) -> Seq<(Seq<char>, Seq<DIssue>)> {
    v.map_values(|p: (String, Vec<DIssue>)| (p.0@, p.1@))
}

fn push_group(out: &mut Vec<(String, Vec<DIssue>)>, key: &str, v: Vec<DIssue>)
    ensures
        group_views(final(out)@) == group_views(old(out)@) + if v@.len() > 0 {
            seq![(key@, v@)]
        } else {
            seq![]
        },
{
    if v.len() > 0 {
        let ghost vv = v@;
        out.push((string_of(chars_of(key).as_slice()), v));
        assert(group_views(out@) =~= group_views(old(out)@) + seq![(key@, vv)]);
    } else {
        assert(group_views(out@) =~= group_views(old(out)@) + seq![]);
    }
}

/// The shown issues of a page (content `content` after its front matter, front matter of
/// `fm_offset` lines, path `full_path`), grouped by kind.
pub fn to_display_issues(issues: Vec<Issue>, content: &str, fm_offset: usize, full_path: &str) -> (r: Vec<(String, Vec<DIssue>)>)
    requires
        forall|i: int| 0 <= i < issues@.len() ==> issue_in_range(#[trigger] issues@[i], content@, fm_offset),
    ensures
        exists|ds: Seq<Option<DIssue>>| {
            &&& ds.len() == issues@.len()
            &&& forall|i: int| 0 <= i < ds.len() ==> from_issue_ok(issues@[i], content@, fm_offset, full_path@, #[trigger] ds[i])
            &&& group_views(r@) == group_issues(somes(ds))
        },
{
    let ghost is = issues@;
    let mut rev: Vec<Issue> = Vec::new();
    let mut src = issues;
    while src.len() > 0
        invariant
            src@ + rev@.reverse() == is,
        decreases src@.len(),
    {
        let e = src.pop().unwrap();
        proof {
            assert(src@.push(e) + rev@.reverse() =~= src@ + rev@.push(e).reverse());
        }
        rev.push(e);
    }
    assert(rev@.reverse() =~= is);
    let mut broken: Vec<DIssue> = Vec::new();
    let mut macros: Vec<DIssue> = Vec::new();
    let mut unknown: Vec<DIssue> = Vec::new();
    let ghost mut ds: Seq<Option<DIssue>> = seq![];
    while rev.len() > 0
        invariant
            ds.len() + rev@.len() == is.len(),
            rev@.reverse() == is.skip(ds.len() as int),
            forall|i: int| 0 <= i < is.len() ==> issue_in_range(#[trigger] is[i], content@, fm_offset),
            forall|i: int| 0 <= i < ds.len() ==> from_issue_ok(is[i], content@, fm_offset, full_path@, #[trigger] ds[i]),
            broken@ == somes(ds).filter(|d: DIssue| d is BrokenLink),
            macros@ == somes(ds).filter(|d: DIssue| d is Macros),
            unknown@ == somes(ds).filter(|d: DIssue| d is Unknown),
        decreases rev@.len(),
    {
        let ghost old_rev = rev@;
        let ghost i = ds.len() as int;
        proof {
            assert(rev@.reverse()[0] == is.skip(i)[0]);
            assert(rev@[rev@.len() - 1] == rev@.reverse()[0]);
        }
        let issue = rev.pop().unwrap();
        proof {
            assert(rev@.reverse() =~= old_rev.reverse().skip(1));
            assert(is.skip(i).skip(1) =~= is.skip(i + 1));
            assert(issue == is[i]);
        }
        let d = DIssue::from_issue(issue, content, fm_offset, full_path);
        let ghost old_somes = somes(ds);
        let ghost old_ds = ds;
        proof {
            ds = ds.push(d);
            assert(ds.drop_last() =~= old_ds);
            assert(ds.last() == d);
        }
        match d {
            Some(x) => {
                proof {
                    assert(somes(ds) =~= old_somes.push(x));
                    old_somes.lemma_filter_push(x, |d: DIssue| d is BrokenLink);
                    old_somes.lemma_filter_push(x, |d: DIssue| d is Macros);
                    old_somes.lemma_filter_push(x, |d: DIssue| d is Unknown);
                }
                match x {
                    DIssue::BrokenLink { .. } => broken.push(x),
                    DIssue::Macros { .. } => macros.push(x),
                    DIssue::Unknown { .. } => unknown.push(x),
                }
            },
            None => {
                assert(somes(ds) =~= old_somes);
            },
        }
    }
    let mut out: Vec<(String, Vec<DIssue>)> = Vec::new();
    assert(group_views(out@) =~= seq![]);
    push_group(&mut out, "broken_links", broken);
    push_group(&mut out, "macros", macros);
    push_group(&mut out, "unknown", unknown);
    assert(group_views(out@) =~= group_issues(somes(ds)));
    out
}

/// The last value of `f` over `scope` that is not `skip`, or `dflt`.
pub open spec fn last_set(scope: Seq<IssueEntries>, f: spec_fn(IssueEntries) -> int, skip: int, dflt: int) -> int
    decreases scope.len(),
{
    if scope.len() == 0 {
        dflt
    } else if f(scope.last()) != skip {
        f(scope.last())
    } else {
        last_set(scope.drop_last(), f, skip, dflt)
    }
}

/// The last non-empty file named in `scope`, or the empty one.
pub open spec fn last_file(scope: Seq<IssueEntries>) -> Seq<char>
    decreases scope.len(),
{
    if scope.len() == 0 {
        seq![]
    } else if scope.last().file@.len() > 0 {
        scope.last().file@
    } else {
        last_file(scope.drop_last())
    }
}

/// The entries of all spans of `scope`, each span's in reverse order.
pub open spec fn scope_spans(scope: Seq<IssueEntries>) -> Seq<(String, String)>
    decreases scope.len(),
{
    if scope.len() == 0 {
        seq![]
    } else {
        scope_spans(scope.drop_last()) + scope.last().entries@.reverse()
    }
}

/// `issue` is what the spans `scope` (innermost first) give an event raised inside them,
/// before the event's own fields: for each position the outermost span that sets it wins.
pub open spec fn scope_issue_ok(scope: Seq<IssueEntries>, issue: Issue) -> bool {
    &&& issue.req as int == last_set(scope, |e: IssueEntries| e.req as int, 0, 0)
    &&& issue.col as int == last_set(scope, |e: IssueEntries| e.col as int, 0, 0)
    &&& issue.line as int == last_set(scope, |e: IssueEntries| e.line as int, 0, 0)
    &&& issue.end_col as int == last_set(scope, |e: IssueEntries| e.end_col as int, 0, 0)
    &&& issue.end_line as int == last_set(scope, |e: IssueEntries| e.end_line as int, 0, 0)
    &&& issue.ic as int == last_set(scope, |e: IssueEntries| e.ic as int, -1, -1)
    &&& issue.file@ == last_file(scope)
    &&& issue.ignore == exists|i: int| 0 <= i < scope.len() && (#[trigger] scope[i]).ignore
    &&& issue.fields@.len() == 0
    &&& issue.spans@ == scope_spans(scope)
}

fn clone_pair(p: &(String, String)) -> (r: (String, String))
    ensures
        r == *p,
{
    (p.0.clone(), p.1.clone())
}

/// The issue that an event raised inside the spans `scope` (innermost first) starts
/// from: positions, request, counter and file from the spans (the outermost that sets
/// one wins), ignored if any span says so, and the spans' entries.
pub fn issue_from_scope(scope: &[IssueEntries]) -> (r: Issue)
    ensures
        scope_issue_ok(scope@, r),
{
    let mut issue = Issue {
        req: 0,
        ic: -1,
        col: 0,
        line: 0,
        end_col: 0,
        end_line: 0,
        file: String::new(),
        ignore: false,
        fields: Vec::new(),
        spans: Vec::new(),
    };
    let n = scope.len();
    let mut i: usize = 0;
    assert(scope@.take(0) =~= Seq::<IssueEntries>::empty());
    while i < n
        invariant
            n == scope@.len(),
            i <= n,
            scope_issue_ok(scope@.take(i as int), issue),
        decreases n - i,
    {
        let ghost pre = scope@.take(i as int);
        let ghost cur = scope@.take(i + 1);
        assert(cur.drop_last() =~= pre);
        assert(cur.last() == scope@[i as int]);
        let ghost old_issue = issue;
        let e = &scope[i];
        if e.req != 0 {
            issue.req = e.req;
        }
        if e.col != 0 {
            issue.col = e.col;
        }
        if e.line != 0 {
            issue.line = e.line;
        }
        if e.end_col != 0 {
            issue.end_col = e.end_col;
        }
        if e.end_line != 0 {
            issue.end_line = e.end_line;
        }
        if !e.file.as_str().is_empty() {
            issue.file = e.file.clone();
        }
        if e.ic != -1 {
            issue.ic = e.ic;
        }
        if e.ignore {
            issue.ignore = true;
        }
        let m = e.entries.len();
        let mut j: usize = m;
        let mut added: Vec<(String, String)> = Vec::new();
        while j > 0
            invariant
                j <= m,
                m == e.entries@.len(),
                added@ == e.entries@.skip(j as int).reverse(),
            decreases j,
        {
            j -= 1;
            let p = clone_pair(&e.entries[j]);
            added.push(p);
            assert(e.entries@.skip(j as int).reverse() =~= e.entries@.skip(j + 1).reverse().push(e.entries@[j as int]));
        }
        let ghost spans0 = issue.spans@;
        issue.spans.append(&mut added);
        assert(e.entries@.skip(0) =~= e.entries@);
        proof {
            if e.ignore {
                assert(cur[i as int].ignore);
            } else {
                assert forall|k: int| 0 <= k < cur.len() && (#[trigger] cur[k]).ignore implies 0 <= k < pre.len() && pre[k].ignore by {
                    if k == i {
                        assert(cur[k] == scope@[i as int]);
                    } else {
                        assert(cur[k] == pre[k]);
                    }
                }
                if old_issue.ignore {
                    let k = choose|k: int| 0 <= k < pre.len() && (#[trigger] pre[k]).ignore;
                    assert(cur[k] == pre[k]);
                }
            }
        }
        i += 1;
    }
    assert(scope@.take(n as int) =~= scope@);
    issue
}

impl Issue {
    /// Whether the issue takes a number from the issue counter: it has none and is not
    /// ignored.
    pub fn wants_counter(&self) -> (r: bool)
        ensures
            r == (self.ic == -1 && !self.ignore),
    {
        self.ic == -1 && !self.ignore
    }

    /// Records a field of the event by its debug text: it is kept, whatever its name.
    pub fn record_debug(&mut self, name: &str, text: &str)
        ensures
            final(self).fields@.len() == old(self).fields@.len() + 1,
            final(self).fields@.drop_last() == old(self).fields@,
            final(self).fields@.last().0@ == name@ && final(self).fields@.last().1@ == text@,
            final(self).file == old(self).file && final(self).req == old(self).req && final(self).ic == old(self).ic,
            final(self).col == old(self).col && final(self).line == old(self).line,
            final(self).end_col == old(self).end_col && final(self).end_line == old(self).end_line,
            final(self).ignore == old(self).ignore && final(self).spans == old(self).spans,
    {
        let ghost f0 = self.fields@;
        self.fields.push((string_of(chars_of(name).as_slice()), string_of(chars_of(text).as_slice())));
        assert(self.fields@.drop_last() =~= f0);
    }

    /// Records a text field of the event: `file` names the file, any other is kept.
    pub fn record_str(&mut self, name: &str, value: &str)
        ensures
            if name@ == "file"@ {
                final(self).file@ == value@ && final(self).fields == old(self).fields
            } else {
                final(self).file == old(self).file && final(self).fields@.len() == old(self).fields@.len() + 1
                    && final(self).fields@.drop_last() == old(self).fields@
                    && final(self).fields@.last().0@ == name@ && final(self).fields@.last().1@ == value@
            },
            final(self).req == old(self).req && final(self).ic == old(self).ic,
            final(self).col == old(self).col && final(self).line == old(self).line,
            final(self).end_col == old(self).end_col && final(self).end_line == old(self).end_line,
            final(self).ignore == old(self).ignore && final(self).spans == old(self).spans,
    {
        if str_eq(name, "file") {
            self.file = string_of(chars_of(value).as_slice());
        } else {
            let ghost f0 = self.fields@;
            self.fields.push((string_of(chars_of(name).as_slice()), string_of(chars_of(value).as_slice())));
            assert(self.fields@.drop_last() =~= f0);
        }
    }

    /// Records an unsigned field of the event: only `req` is kept.
    pub fn record_u64(&mut self, name: &str, value: u64)
        ensures
            final(self).req == if name@ == "req"@ { value } else { old(self).req },
            final(self).ic == old(self).ic && final(self).col == old(self).col,
            final(self).line == old(self).line && final(self).end_col == old(self).end_col,
            final(self).end_line == old(self).end_line && final(self).file == old(self).file,
            final(self).ignore == old(self).ignore && final(self).fields == old(self).fields,
            final(self).spans == old(self).spans,
    {
        if str_eq(name, "req") {
            self.req = value;
        }
    }

    /// Records a boolean field of the event: only `ignore` is kept.
    pub fn record_bool(&mut self, name: &str, value: bool)
        ensures
            final(self).ignore == if name@ == "ignore"@ { value } else { old(self).ignore },
            final(self).req == old(self).req && final(self).ic == old(self).ic,
            final(self).col == old(self).col && final(self).line == old(self).line,
            final(self).end_col == old(self).end_col && final(self).end_line == old(self).end_line,
            final(self).file == old(self).file && final(self).fields == old(self).fields,
            final(self).spans == old(self).spans,
    {
        if str_eq(name, "ignore") {
            self.ignore = value;
        }
    }

    /// Records a signed field of the event: `ic`, `col`, `line`, `end_col` and
    /// `end_line` are kept.
    pub fn record_i64(&mut self, name: &str, value: i64)
        ensures
            final(self).ic == if name@ == "ic"@ { value } else { old(self).ic },
            final(self).col == if name@ == "col"@ { value } else { old(self).col },
            final(self).line == if name@ == "line"@ { value } else { old(self).line },
            final(self).end_col == if name@ == "end_col"@ { value } else { old(self).end_col },
            final(self).end_line == if name@ == "end_line"@ { value } else { old(self).end_line },
            final(self).req == old(self).req && final(self).file == old(self).file,
            final(self).ignore == old(self).ignore && final(self).fields == old(self).fields,
            final(self).spans == old(self).spans,
    {
        proof {
            reveal_strlit("ic");
            reveal_strlit("col");
            reveal_strlit("line");
            reveal_strlit("end_col");
            reveal_strlit("end_line");
            assert("ic"@.len() == 2 && "col"@.len() == 3 && "line"@.len() == 4);
            assert("end_col"@.len() == 7 && "end_line"@.len() == 8);
        }
        if str_eq(name, "ic") {
            self.ic = value;
        } else if str_eq(name, "col") {
            self.col = value;
        } else if str_eq(name, "line") {
            self.line = value;
        } else if str_eq(name, "end_col") {
            self.end_col = value;
        } else if str_eq(name, "end_line") {
            self.end_line = value;
        }
    }
}

impl IssueEntries {
    /// Records a field of a span by its debug text: it is kept, whatever its name.
    pub fn record_debug(&mut self, name: &str, text: &str)
        ensures
            final(self).entries@.len() == old(self).entries@.len() + 1,
            final(self).entries@.drop_last() == old(self).entries@,
            final(self).entries@.last().0@ == name@ && final(self).entries@.last().1@ == text@,
            final(self).file == old(self).file && final(self).req == old(self).req && final(self).ic == old(self).ic,
            final(self).col == old(self).col && final(self).line == old(self).line,
            final(self).end_col == old(self).end_col && final(self).end_line == old(self).end_line,
            final(self).ignore == old(self).ignore,
    {
        let ghost f0 = self.entries@;
        self.entries.push((string_of(chars_of(name).as_slice()), string_of(chars_of(text).as_slice())));
        assert(self.entries@.drop_last() =~= f0);
    }

    /// Records a text field of a span: `file` names the file, any other is kept.
    pub fn record_str(&mut self, name: &str, value: &str)
        ensures
            if name@ == "file"@ {
                final(self).file@ == value@ && final(self).entries == old(self).entries
            } else {
                final(self).file == old(self).file && final(self).entries@.len() == old(self).entries@.len() + 1
                    && final(self).entries@.drop_last() == old(self).entries@
                    && final(self).entries@.last().0@ == name@ && final(self).entries@.last().1@ == value@
            },
            final(self).req == old(self).req && final(self).ic == old(self).ic,
            final(self).col == old(self).col && final(self).line == old(self).line,
            final(self).end_col == old(self).end_col && final(self).end_line == old(self).end_line,
            final(self).ignore == old(self).ignore,
    {
        if str_eq(name, "file") {
            self.file = string_of(chars_of(value).as_slice());
        } else {
            let ghost f0 = self.entries@;
            self.entries.push((string_of(chars_of(name).as_slice()), string_of(chars_of(value).as_slice())));
            assert(self.entries@.drop_last() =~= f0);
        }
    }

    /// Records an unsigned field of a span: only `req` is kept.
    pub fn record_u64(&mut self, name: &str, value: u64)
        ensures
            final(self).req == if name@ == "req"@ { value } else { old(self).req },
            final(self).ic == old(self).ic && final(self).col == old(self).col,
            final(self).line == old(self).line && final(self).end_col == old(self).end_col,
            final(self).end_line == old(self).end_line && final(self).file == old(self).file,
            final(self).ignore == old(self).ignore && final(self).entries == old(self).entries,
    {
        if str_eq(name, "req") {
            self.req = value;
        }
    }

    /// Records a boolean field of a span: only `ignore` is kept.
    pub fn record_bool(&mut self, name: &str, value: bool)
        ensures
            final(self).ignore == if name@ == "ignore"@ { value } else { old(self).ignore },
            final(self).req == old(self).req && final(self).ic == old(self).ic,
            final(self).col == old(self).col && final(self).line == old(self).line,
            final(self).end_col == old(self).end_col && final(self).end_line == old(self).end_line,
            final(self).file == old(self).file && final(self).entries == old(self).entries,
    {
        if str_eq(name, "ignore") {
            self.ignore = value;
        }
    }

    /// Records a signed field of a span: `ic`, `col`, `line`, `end_col` and `end_line`
    /// are kept.
    pub fn record_i64(&mut self, name: &str, value: i64)
        ensures
            final(self).ic == if name@ == "ic"@ { value } else { old(self).ic },
            final(self).col == if name@ == "col"@ { value } else { old(self).col },
            final(self).line == if name@ == "line"@ { value } else { old(self).line },
            final(self).end_col == if name@ == "end_col"@ { value } else { old(self).end_col },
            final(self).end_line == if name@ == "end_line"@ { value } else { old(self).end_line },
            final(self).req == old(self).req && final(self).file == old(self).file,
            final(self).ignore == old(self).ignore && final(self).entries == old(self).entries,
    {
        proof {
            reveal_strlit("ic");
            reveal_strlit("col");
            reveal_strlit("line");
            reveal_strlit("end_col");
            reveal_strlit("end_line");
            assert("ic"@.len() == 2 && "col"@.len() == 3 && "line"@.len() == 4);
            assert("end_col"@.len() == 7 && "end_line"@.len() == 8);
        }
        if str_eq(name, "ic") {
            self.ic = value;
        } else if str_eq(name, "col") {
            self.col = value;
        } else if str_eq(name, "line") {
            self.line = value;
        } else if str_eq(name, "end_col") {
            self.end_col = value;
        } else if str_eq(name, "end_line") {
            self.end_line = value;
        }
    }
}

} // verus!
