//! The home page: its featured articles, and its list of recent contributions, read
//! from the output of `git log --no-merges --pretty=format:"%aI %s" -n 10 -z`.
use vstd::prelude::*;
use crate::curriculum_page::{first_captures, regex_captures, regex_compiles};
use crate::html::{trim, trim_exec};
use crate::json::{HomePageFeaturedArticle, HomePageRecentContribution, NameUrl, Parent, UtcTime};
use crate::resolve::DocError;
use crate::numbers::{parse_i64, parse_i64_str};
use crate::text::{chars_of, push_str, split, split_vec, string_of};

verus! {

/// The pattern of one log entry: the date, a space, the commit message not ending in
/// `)`, and optionally ` (#<number>)`, the pull request that the commit merged.
pub const GIT_LOG_PATTERN: &'static str = "^(?<date>[^ ]+) (?<msg>.*[^\\)])( \\(#(?<pr>\\d+)\\))?$";

/// How many contributions a repository gives the home page at most.
pub const MAX_RECENT: usize = 5;

/// The date, message and pull request number of a log entry (trimmed), where
/// `GIT_LOG_PATTERN` matches it with all three groups (the groups `date`, `msg` and
/// `pr` are the first, second and fourth of the pattern).
pub open spec fn log_line_parts(line: Seq<char>) -> Option<(Seq<char>, Seq<char>, Seq<char>)> {
    match regex_captures(GIT_LOG_PATTERN@, trim(line)) {
        Some(g) => if g.len() > 4 {
            match (g[1], g[2], g[4]) {
                (Some(d), Some(m), Some(p)) => Some((d, m, p)),
                _ => None,
            }
        } else {
            None
        },
        None => None,
    }
}

/// The parts of the entries that give a contribution, in log order.
pub open spec fn log_parts(lines: Seq<Seq<char>>) -> Seq<(Seq<char>, Seq<char>, Seq<char>)>
    decreases lines.len(),
{
    if lines.len() == 0 {
        seq![]
    } else {
        let rest = log_parts(lines.drop_last());
        match log_line_parts(lines.last()) {
            Some(p) => rest.push(p),
            None => rest,
        }
    }
}

/// What `chrono` reads from `s` as a `DateTime<Utc>` (a relaxed RFC 3339 date and
/// time with offset, taken to UTC): its Unix timestamp and the nanoseconds after it;
/// none where it does not read.
pub uninterp spec fn utc_parse(s: Seq<char>) -> Option<(i64, u32)>;

/// Reads `s` as a `chrono::DateTime<chrono::Utc>` (`str::parse`, chrono's `FromStr`)
/// and gives its timestamp (`DateTime::timestamp`) and nanoseconds
/// (`DateTime::timestamp_subsec_nanos`). The contract names the outcome.
#[verifier::external_body]
fn parse_utc(s: &str) -> (r: Option<(i64, u32)>)
    ensures
        r == utc_parse(s@),
{
    match s.parse::<chrono::DateTime<chrono::Utc>>() {
        Ok(d) => Some((d.timestamp(), d.timestamp_subsec_nanos())),
        Err(_) => None,
    }
}

/// The time a date reads as, the Unix epoch (chrono's default) where it does not read.
pub open spec fn time_of(date: Seq<char>) -> UtcTime {
    match utc_parse(date) {
        Some((s, n)) => UtcTime { seconds: s, nanos: n },
        None => UtcTime { seconds: 0, nanos: 0 },
    }
}

/// The GitHub URL of repository `repo` (such as `mdn/content`).
pub open spec fn github_url(repo: Seq<char>) -> Seq<char> {
    "https://github.com/"@ + repo
}

/// `c` is the contribution of log entry parts `parts` of repository `repo`: its number
/// is the pull request number (0 where it does not fit an `i64`), its title the commit
/// message, its time the date as it reads (see `time_of`), its URL that of the pull request on GitHub.
pub open spec fn is_contribution(
    c: HomePageRecentContribution,
    parts: (Seq<char>, Seq<char>, Seq<char>),
    repo: Seq<char>,
) -> bool {
    &&& c.number == match parse_i64(parts.2) {
        Some(n) => n,
        None => 0,
    }
    &&& c.title@ == parts.1
    &&& c.updated_at == time_of(parts.0)
    &&& c.url@ == github_url(repo) + "/pull/"@ + parts.2
    &&& c.repo.name@ == repo
    &&& c.repo.url@ == github_url(repo)
}

fn contribution(date: &String, msg: &String, pr: &String, repo: &str) -> (c: HomePageRecentContribution)
    ensures
        is_contribution(c, (date@, msg@, pr@), repo@),
{
    let number = match parse_i64_str(pr.as_str()) {
        Some(n) => n,
        None => 0,
    };
    let mut repo_url = String::new();
    push_str(&mut repo_url, "https://github.com/");
    push_str(&mut repo_url, repo);
    let mut url = String::new();
    push_str(&mut url, repo_url.as_str());
    push_str(&mut url, "/pull/");
    push_str(&mut url, pr.as_str());
    let mut name = String::new();
    push_str(&mut name, repo);
    let mut title = String::new();
    push_str(&mut title, msg.as_str());
    let updated_at = match parse_utc(date.as_str()) {
        Some((seconds, nanos)) => UtcTime { seconds, nanos },
        None => UtcTime { seconds: 0, nanos: 0 },
    };
    HomePageRecentContribution { number, title, updated_at, url, repo: NameUrl { name, url: repo_url } }
}

/// The recent contributions of repository `repo` from its log `log` (entries separated
/// by NUL characters): the first `MAX_RECENT` entries that name a pull request, in log
/// order. None where `GIT_LOG_PATTERN` does not compile.
pub fn recent_contributions_from_log(log: &str, repo: &str) -> (r: Option<Vec<HomePageRecentContribution>>)
    ensures
        match r {
            None => !regex_compiles(GIT_LOG_PATTERN@),
            Some(v) => {
                let parts = log_parts(split(log@, '\0'));
                &&& regex_compiles(GIT_LOG_PATTERN@)
                &&& v@.len() == if parts.len() < MAX_RECENT {
                    parts.len()
                } else {
                    MAX_RECENT as nat
                }
                &&& forall|j: int| 0 <= j < v@.len() ==> is_contribution(#[trigger] v@[j], parts[j], repo@)
            },
        },
{
    let lines = split_vec(chars_of(log).as_slice(), '\0');
    let ghost ls = split(log@, '\0');
    let n = lines.len();
    let mut out: Vec<HomePageRecentContribution> = Vec::new();
    let mut i: usize = 0;
    assert(ls.take(0) =~= Seq::<Seq<char>>::empty());
    while i < n
        invariant
            n == lines@.len(),
            n == ls.len(),
            ls == split(log@, '\0'),
            forall|j: int| 0 <= j < n ==> #[trigger] lines@[j]@ == ls[j],
            i <= n,
            i > 0 ==> regex_compiles(GIT_LOG_PATTERN@),
            out@.len() <= MAX_RECENT,
            out@.len() == if log_parts(ls.take(i as int)).len() < MAX_RECENT {
                log_parts(ls.take(i as int)).len()
            } else {
                MAX_RECENT as nat
            },
            forall|j: int| 0 <= j < out@.len() ==> is_contribution(#[trigger] out@[j], log_parts(ls.take(i as int))[j], repo@),
        decreases n - i,
    {
        let ghost before = log_parts(ls.take(i as int));
        assert(ls.take(i + 1).drop_last() =~= ls.take(i as int));
        assert(ls.take(i + 1).last() == ls[i as int]);
        let t = string_of(trim_exec(&lines[i]).as_slice());
        let caps = match first_captures(GIT_LOG_PATTERN, t.as_str()) {
            Some(c) => c,
            None => return None,
        };
        let mut found: Option<(String, String, String)> = None;
        match caps {
            Some(g) => {
                if g.len() > 4 {
                    match (&g[1], &g[2], &g[4]) {
                        (Some(d), Some(m), Some(p)) => {
                            found = Some((d.clone(), m.clone(), p.clone()));
                        },
                        _ => {},
                    }
                }
            },
            None => {},
        }
        match found {
            Some((d, m, p)) => {
                assert(log_line_parts(ls[i as int]) == Some((d@, m@, p@)));
                assert(log_parts(ls.take(i + 1)) == before.push((d@, m@, p@)));
                if out.len() < MAX_RECENT {
                    let c = contribution(&d, &m, &p, repo);
                    out.push(c);
                }
            },
            None => {
                assert(log_line_parts(ls[i as int]) is None);
                assert(log_parts(ls.take(i + 1)) == before);
            },
        }
        i += 1;
    }
    assert(ls.take(n as int) =~= ls);
    Some(out)
}


/// What the page at a featured URL turned out to be.
pub enum FeaturedSource {
    /// A blog post: its URL, title and description.
    BlogPost { url: String, title: String, description: String },
    /// A document: its URL, its title, the text of its summary where it has one, and the
    /// second of its breadcrumbs where there is one.
    Doc { url: String, title: String, summary: Option<String>, tag: Option<Parent> },
    /// Any other kind of page.
    Other,
}

/// `a` is the featured article of source `s`: a blog post tagged as the blog's, a
/// document with its summary (empty where it has none) and its tag.
pub open spec fn is_featured_article(a: HomePageFeaturedArticle, s: FeaturedSource) -> bool {
    match s {
        FeaturedSource::BlogPost { url, title, description } => {
            &&& a.mdn_url@ == url@
            &&& a.title@ == title@
            &&& a.summary@ == description@
            &&& a.tag matches Some(t) && t.uri@ == "/en-US/blog/"@ && t.title@ == "Blog"@
        },
        FeaturedSource::Doc { url, title, summary, tag } => {
            &&& a.mdn_url@ == url@
            &&& a.title@ == title@
            &&& a.summary@ == match summary {
                Some(x) => x@,
                None => seq![],
            }
            &&& a.tag == tag
        },
        FeaturedSource::Other => false,
    }
}

/// The sources that give articles, in order, up to the first error that is not a
/// missing page; that error where there is one.
pub open spec fn featured_sources(found: Seq<Result<FeaturedSource, DocError>>) -> Result<Seq<FeaturedSource>, DocError>
    decreases found.len(),
{
    if found.len() == 0 {
        Ok(seq![])
    } else {
        match featured_sources(found.drop_last()) {
            Err(e) => Err(e),
            Ok(ss) => match found.last() {
                Ok(FeaturedSource::Other) => Ok(ss),
                Ok(src) => Ok(ss.push(src)),
                Err(DocError::PageNotFound(_, _)) => Ok(ss),
                Err(e) => Err(e),
            },
        }
    }
}

fn featured_article(s: FeaturedSource) -> (a: HomePageFeaturedArticle)
    requires
        !(s is Other),
    ensures
        is_featured_article(a, s),
{
    match s {
        FeaturedSource::BlogPost { url, title, description } => {
            let mut uri = String::new();
            push_str(&mut uri, "/en-US/blog/");
            let mut t = String::new();
            push_str(&mut t, "Blog");
            HomePageFeaturedArticle { mdn_url: url, summary: description, title, tag: Some(Parent { uri, title: t }) }
        },
        FeaturedSource::Doc { url, title, summary, tag } => {
            let summary = match summary {
                Some(x) => x,
                None => String::new(),
            };
            HomePageFeaturedArticle { mdn_url: url, summary, title, tag }
        },
        FeaturedSource::Other => HomePageFeaturedArticle { mdn_url: String::new(), summary: String::new(), title: String::new(), tag: None },
    }
}

/// The featured articles of the home page, `found` being what each featured URL was
/// found to be (see `featured_sources`): blog posts and documents give articles, other
/// pages and missing pages none; another error ends the list and is returned.
pub fn featured_articles(found: Vec<Result<FeaturedSource, DocError>>) -> (r: Result<Vec<HomePageFeaturedArticle>, DocError>)
    ensures
        match featured_sources(found@) {
            Ok(ss) => r matches Ok(v) && v@.len() == ss.len() && forall|j: int| 0 <= j < ss.len() ==> is_featured_article(#[trigger] v@[j], ss[j]),
            Err(e) => r == Err::<Vec<HomePageFeaturedArticle>, DocError>(e),
        },
{
    let ghost all = found@;
    let mut src = crate::text::reversed(found);
    let mut out: Vec<HomePageFeaturedArticle> = Vec::new();
    let ghost mut i: int = 0;
    assert(all.take(0) =~= Seq::<Result<FeaturedSource, DocError>>::empty());
    while src.len() > 0
        invariant
            all == found@,
            0 <= i <= all.len(),
            i + src@.len() == all.len(),
            src@.reverse() == all.skip(i),
            featured_sources(all.take(i)) matches Ok(ss) && out@.len() == ss.len()
                && forall|j: int| 0 <= j < ss.len() ==> is_featured_article(#[trigger] out@[j], ss[j]),
        decreases src@.len(),
    {
        let ghost old_src = src@;
        let x = src.pop().unwrap();
        let ghost gx = x;
        proof {
            assert(old_src.reverse()[0] == old_src[old_src.len() - 1]);
            assert(all.skip(i)[0] == all[i]);
            assert(src@.reverse() =~= old_src.reverse().skip(1));
            assert(all.skip(i).skip(1) =~= all.skip(i + 1));
            assert(all.take(i + 1).drop_last() =~= all.take(i));
            assert(all.take(i + 1).last() == all[i]);
            assert(gx == all[i]);
        }
        match x {
            Ok(s) => {
                match s {
                    FeaturedSource::Other => {},
                    _ => {
                        let a = featured_article(s);
                        out.push(a);
                    },
                }
            },
            Err(e) => {
                match e {
                    DocError::PageNotFound(_, _) => {},
                    _ => {
                        proof {
                            lemma_featured_err(all, i);
                        }
                        return Err(e);
                    },
                }
            },
        }
        proof {
            i = i + 1;
        }
    }
    assert(all.take(i) =~= all);
    Ok(out)
}

proof fn lemma_featured_err(all: Seq<Result<FeaturedSource, DocError>>, i: int)
    requires
        0 <= i < all.len(),
        featured_sources(all.take(i)) is Ok,
        all[i] matches Err(e) && !(e is PageNotFound),
    ensures
        featured_sources(all) == Err::<Seq<FeaturedSource>, DocError>(all[i]->Err_0),
    decreases all.len() - i,
{
    if i + 1 == all.len() {
        assert(all.drop_last() =~= all.take(i));
    } else {
        assert(all.drop_last().take(i) =~= all.take(i));
        assert(all.drop_last()[i] == all[i]);
        lemma_featured_err(all.drop_last(), i);
    }
}


/// Time `a` comes before time `b`.
pub open spec fn time_lt(a: UtcTime, b: UtcTime) -> bool {
    a.seconds < b.seconds || (a.seconds == b.seconds && a.nanos < b.nanos)
}

/// `x` inserted into `s` before the first contribution that is later than it.
pub open spec fn insert_by_time(s: Seq<HomePageRecentContribution>, x: HomePageRecentContribution) -> Seq<HomePageRecentContribution>
    decreases s.len(),
{
    if s.len() == 0 {
        seq![x]
    } else if time_lt(x.updated_at, s[0].updated_at) {
        seq![x] + s
    } else {
        seq![s[0]] + insert_by_time(s.drop_first(), x)
    }
}

/// The contributions ordered by time, those of equal time in their order (a stable
/// sort, as `sort_by` on the times is).
pub open spec fn sort_by_time(s: Seq<HomePageRecentContribution>) -> Seq<HomePageRecentContribution>
    decreases s.len(),
{
    if s.len() == 0 {
        s
    } else {
        insert_by_time(sort_by_time(s.drop_last()), s.last())
    }
}

proof fn lemma_insert_by_time_at(s: Seq<HomePageRecentContribution>, x: HomePageRecentContribution, j: int)
    requires
        0 <= j <= s.len(),
        forall|k: int| 0 <= k < j ==> !time_lt(x.updated_at, #[trigger] s[k].updated_at),
        j < s.len() ==> time_lt(x.updated_at, s[j].updated_at),
    ensures
        insert_by_time(s, x) == s.take(j) + seq![x] + s.skip(j),
    decreases s.len(),
{
    if s.len() == 0 {
        assert(s.take(j) + seq![x] + s.skip(j) =~= seq![x]);
    } else if j == 0 {
        assert(s.take(0) + seq![x] + s.skip(0) =~= seq![x] + s);
    } else {
        let t = s.drop_first();
        assert forall|k: int| 0 <= k < j - 1 implies !time_lt(x.updated_at, #[trigger] t[k].updated_at) by {
            assert(t[k] == s[k + 1]);
        }
        if j - 1 < t.len() {
            assert(t[j - 1] == s[j]);
        }
        lemma_insert_by_time_at(t, x, j - 1);
        assert(seq![s[0]] + (t.take(j - 1) + seq![x] + t.skip(j - 1)) =~= s.take(j) + seq![x] + s.skip(j));
    }
}

/// The recent contributions of the home page: those of the content repository, then
/// those of the translated content where there is one, ordered by time (see
/// `sort_by_time`).
pub fn recent_contributions(content: Vec<HomePageRecentContribution>, translated: Option<Vec<HomePageRecentContribution>>) -> (r: Vec<HomePageRecentContribution>)
    ensures
        r@ == sort_by_time(content@ + match translated {
            Some(t) => t@,
            None => seq![],
        }),
{
    let mut all = content;
    match translated {
        Some(mut t) => all.append(&mut t),
        None => {},
    }
    let ghost whole = all@;
    let n = all.len();
    let mut src = crate::text::reversed(all);
    let mut out: Vec<HomePageRecentContribution> = Vec::new();
    let mut i: usize = 0;
    assert(whole.take(0) =~= Seq::<HomePageRecentContribution>::empty());
    while src.len() > 0
        invariant
            i + src@.len() == whole.len(),
            n == whole.len(),
            src@.reverse() == whole.skip(i as int),
            out@ == sort_by_time(whole.take(i as int)),
        decreases src@.len(),
    {
        let ghost old_src = src@;
        let x = src.pop().unwrap();
        proof {
            assert(old_src.reverse()[0] == old_src[old_src.len() - 1]);
            assert(whole.skip(i as int)[0] == whole[i as int]);
            assert(src@.reverse() =~= old_src.reverse().skip(1));
            assert(whole.skip(i as int).skip(1) =~= whole.skip(i + 1));
            assert(whole.take(i + 1).drop_last() =~= whole.take(i as int));
            assert(whole.take(i + 1).last() == whole[i as int]);
        }
        let m = out.len();
        let mut j: usize = 0;
        while j < m && !(x.updated_at.seconds < out[j].updated_at.seconds
            || (x.updated_at.seconds == out[j].updated_at.seconds && x.updated_at.nanos < out[j].updated_at.nanos))
            invariant
                m == out@.len(),
                j <= m,
                forall|k: int| 0 <= k < j ==> !time_lt(x.updated_at, #[trigger] out@[k].updated_at),
            decreases m - j,
        {
            j += 1;
        }
        proof {
            lemma_insert_by_time_at(out@, x, j as int);
        }
        let ghost before = out@;
        out.insert(j, x);
        assert(out@ =~= before.take(j as int) + seq![x] + before.skip(j as int));
        i += 1;
    }
    assert(whole.take(whole.len() as int) =~= whole);
    out
}

} // verus!
