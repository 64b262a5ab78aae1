//! The curriculum: its index grouped into modules, its sidebar, and the previous/next
//! links between its pages.
use vstd::prelude::*;
use crate::json::{Parent, PrevNextBySlug, PrevNextByUrl, UrlNTitle};
use crate::resolve::DocError;
use crate::text::{chars_of, ends_with, seq_eq, str_eq};

verus! {

/// The page template a curriculum page asks for.
#[derive(Clone, Copy, Debug, Default, PartialEq, Eq, Structural)]
pub enum Template {
    Module,
    Overview,
    Landing,
    About,
    #[default]
    Default,
}

/// The topic of a curriculum module.
#[derive(Clone, Copy, Debug, Default, PartialEq, Eq, Structural)]
pub enum Topic {
    WebStandards,
    Styling,
    Scripting,
    BestPractices,
    Tooling,
    /// No topic (written as `null`).
    #[default]
    NoTopic,
}

/// An entry of the curriculum sidebar.
#[derive(Debug)]
pub struct CurriculumSidebarEntry {
    pub url: String,
    pub title: String,
    pub slug: String,
    pub children: Vec<CurriculumSidebarEntry>,
}

/// An entry of the curriculum index.
#[derive(Debug)]
pub struct CurriculumIndexEntry {
    pub url: String,
    pub title: String,
    pub slug: Option<String>,
    pub summary: Option<String>,
    pub topic: Topic,
    pub children: Vec<CurriculumIndexEntry>,
}

/// The front matter of a curriculum page.
#[derive(Clone, Debug, Default)]
pub struct CurriculumFrontmatter {
    pub summary: Option<String>,
    pub template: Template,
    pub topic: Topic,
}

/// What is known of a curriculum page when it is read.
#[derive(Clone, Debug)]
pub struct CurriculumBuildMeta {
    pub url: String,
    pub title: String,
    pub slug: String,
    pub summary: Option<String>,
    pub template: Template,
    pub topic: Topic,
    pub filename: String,
    pub full_path: String,
    pub path: String,
    pub group: Option<String>,
}

/// The metadata of a built curriculum page.
#[derive(Debug)]
pub struct CurriculumMeta {
    pub url: String,
    pub title: String,
    pub slug: Option<String>,
    pub summary: Option<String>,
    pub template: Template,
    pub topic: Topic,
    pub sidebar: Vec<CurriculumIndexEntry>,
    pub modules: Vec<CurriculumIndexEntry>,
    pub parents: Vec<Parent>,
    pub prev_next: PrevNextBySlug,
    pub group: Option<String>,
}

/// A curriculum page: its metadata and its Markdown.
#[derive(Clone, Debug)]
pub struct CurriculumPage {
    pub meta: CurriculumBuildMeta,
    pub raw_content: String,
}

/// What `curriculum_group` gives: the title of the grandparent entry of the breadcrumbs
/// when it ends in `modules`.
pub open spec fn spec_curriculum_group(parents: Seq<Parent>) -> Option<Seq<char>> {
    if parents.len() > 1 && "modules"@.is_suffix_of(parents[parents.len() - 2].title@) {
        Some(parents[parents.len() - 2].title@)
    } else {
        None
    }
}

/// The group (a title ending in `modules`) a curriculum page belongs to, from its
/// breadcrumbs.
pub fn curriculum_group(parents: &[Parent]) -> (r: Option<String>)
    ensures
        match r {
            Some(s) => spec_curriculum_group(parents@) == Some(s@),
            None => spec_curriculum_group(parents@) is None,
        },
{
    let n = parents.len();
    if n > 1 {
        let t = chars_of(parents[n - 2].title.as_str());
        let m = chars_of("modules");
        if ends_with(t.as_slice(), m.as_slice()) {
            return Some(parents[n - 2].title.clone());
        }
    }
    None
}

/// Number of `/` characters of `s`.
pub open spec fn slash_count(s: Seq<char>) -> nat
    decreases s.len(),
{
    if s.len() == 0 {
        0
    } else {
        slash_count(s.drop_last()) + if s.last() == '/' {
            1nat
        } else {
            0nat
        }
    }
}

/// Number of `/`-separated segments of an entry's slug (an entry without slug has one).
pub open spec fn level(e: CurriculumIndexEntry) -> nat {
    match e.slug {
        Some(s) => slash_count(s@) + 1,
        None => 1,
    }
}

/// Entry `j` starts a group: it is the first entry or at most two levels deep.
pub open spec fn is_head(es: Seq<CurriculumIndexEntry>, j: int) -> bool {
    j == 0 || level(es[j]) <= 2
}

/// Where the group started by entry `h` ends: at the next group start or the end.
pub open spec fn group_end(es: Seq<CurriculumIndexEntry>, h: int) -> int
    decreases es.len() - h,
{
    if h + 1 >= es.len() {
        es.len() as int
    } else if is_head(es, h + 1) {
        h + 1
    } else {
        group_end(es, h + 1)
    }
}

/// The positions of the group starts, in order.
pub open spec fn head_list(es: Seq<CurriculumIndexEntry>) -> Seq<int> {
    Seq::new(es.len(), |j: int| j).filter(|j: int| is_head(es, j))
}

/// `e` is entry `h` with the entries of its group appended to its children.
pub open spec fn is_group(es: Seq<CurriculumIndexEntry>, h: int, e: CurriculumIndexEntry) -> bool {
    &&& e.url == es[h].url
    &&& e.title == es[h].title
    &&& e.slug == es[h].slug
    &&& e.summary == es[h].summary
    &&& e.topic == es[h].topic
    &&& e.children@ == es[h].children@ + es.subrange(h + 1, group_end(es, h))
}

/// `r` is the index `es` grouped: one entry per group start, in order, each with the
/// deeper entries that follow it as extra children.
pub open spec fn grouped_ok(es: Seq<CurriculumIndexEntry>, r: Seq<CurriculumIndexEntry>) -> bool {
    let hs = head_list(es);
    &&& r.len() == hs.len()
    &&& forall|k: int| 0 <= k < r.len() ==> is_group(es, hs[k], #[trigger] r[k])
}

/// Whether the entry is more than two levels deep (its slug has two or more `/`).
fn deeper_than_two(e: &CurriculumIndexEntry) -> (r: bool)
    ensures
        r == (level(*e) > 2),
{
    match &e.slug {
        None => false,
        Some(s) => {
            let v = chars_of(s.as_str());
            let n = v.len();
            let mut i: usize = 0;
            let mut c: usize = 0;
            assert(v@.take(0) =~= Seq::<char>::empty());
            while i < n && c < 2
                invariant
                    n == v@.len(),
                    i <= n,
                    c == slash_count(v@.take(i as int)),
                    c <= 2,
                decreases n - i,
            {
                assert(v@.take(i + 1).drop_last() =~= v@.take(i as int));
                if v[i] == '/' {
                    c += 1;
                }
                i += 1;
            }
            proof {
                lemma_slash_count_mono(v@, i as int, n as int);
            }
            assert(v@.take(n as int) =~= v@);
            c >= 2
        },
    }
}

pub proof fn lemma_slash_count_mono(s: Seq<char>, i: int, j: int)
    requires
        0 <= i <= j <= s.len(),
    ensures
        slash_count(s.take(i)) <= slash_count(s.take(j)),
    decreases j - i,
{
    if i < j {
        lemma_slash_count_mono(s, i, j - 1);
        assert(s.take(j).drop_last() =~= s.take(j - 1));
    }
}

proof fn lemma_head_list_push(es: Seq<CurriculumIndexEntry>, n: int)
    requires
        0 <= n < es.len(),
    ensures
        Seq::new((n + 1) as nat, |j: int| j).filter(|j: int| is_head(es, j)) == if is_head(es, n) {
            Seq::new(n as nat, |j: int| j).filter(|j: int| is_head(es, j)).push(n)
        } else {
            Seq::new(n as nat, |j: int| j).filter(|j: int| is_head(es, j))
        },
{
    let s1 = Seq::new((n + 1) as nat, |j: int| j);
    let s0 = Seq::new(n as nat, |j: int| j);
    assert(s1 =~= s0.push(n));
    s0.lemma_filter_push(n, |j: int| is_head(es, j));
}

/// The heads among the first `n` entries.
pub open spec fn heads_upto(es: Seq<CurriculumIndexEntry>, n: int) -> Seq<int> {
    Seq::new(n as nat, |j: int| j).filter(|j: int| is_head(es, j))
}

proof fn lemma_heads_upto_facts(es: Seq<CurriculumIndexEntry>, n: int)
    requires
        0 <= n <= es.len(),
    ensures
        forall|k: int|
            0 <= k < heads_upto(es, n).len() ==> 0 <= #[trigger] heads_upto(es, n)[k] < n
                && is_head(es, heads_upto(es, n)[k]),
        forall|a: int, b: int|
            0 <= a < b < heads_upto(es, n).len() ==> heads_upto(es, n)[a] < heads_upto(es, n)[b],
        n > 0 ==> heads_upto(es, n).len() > 0 && heads_upto(es, n)[0] == 0,
        forall|j: int| 0 <= j < n && is_head(es, j) ==> heads_upto(es, n).contains(j),
    decreases n,
{
    if n > 0 {
        lemma_heads_upto_facts(es, n - 1);
        lemma_head_list_push(es, n - 1);
        if n == 1 {
            assert(heads_upto(es, 0) =~= Seq::<int>::empty());
            assert(heads_upto(es, 1) =~= seq![0int]);
        }
        let h = heads_upto(es, n);
        let h0 = heads_upto(es, n - 1);
        assert forall|j: int| 0 <= j < n && is_head(es, j) implies h.contains(j) by {
            if j < n - 1 {
                let k = choose|k: int| 0 <= k < h0.len() && h0[k] == j;
                assert(h[k] == j);
            } else {
                assert(h[h.len() - 1] == j);
            }
        }
    }
}

/// The end of the group started by `h`, in terms of the heads up to `n`.
proof fn lemma_group_end_between(es: Seq<CurriculumIndexEntry>, h: int, n: int)
    requires
        0 <= h < n <= es.len(),
        forall|j: int| h < j < n ==> !is_head(es, j),
    ensures
        group_end(es, h) >= n,
        n < es.len() && is_head(es, n) ==> group_end(es, h) == n,
        n == es.len() ==> group_end(es, h) == n,
    decreases n - h,
{
    if h + 1 < n {
        lemma_group_end_between(es, h + 1, n);
    } else if n < es.len() && !is_head(es, n) {
        lemma_group_end_gt(es, n);
    }
}

proof fn lemma_group_end_gt(es: Seq<CurriculumIndexEntry>, h: int)
    requires
        0 <= h < es.len(),
    ensures
        group_end(es, h) > h,
    decreases es.len() - h,
{
    if h + 1 < es.len() && !is_head(es, h + 1) {
        lemma_group_end_gt(es, h + 1);
    }
}

/// Groups the curriculum index: each entry at most two levels deep (and the first one)
/// starts a group, and the deeper entries that follow it become its children.
pub fn grouped_index(index: Vec<CurriculumIndexEntry>) -> (r: Vec<CurriculumIndexEntry>)
    ensures
        grouped_ok(index@, r@),
{
    let ghost es = index@;
    let n = index.len();
    let mut rev: Vec<CurriculumIndexEntry> = Vec::new();
    let mut src = index;
    while src.len() > 0
        invariant
            src@ + rev@.reverse() == es,
        decreases src@.len(),
    {
        let e = src.pop().unwrap();
        proof {
            assert(src@.push(e) + rev@.reverse() =~= src@ + rev@.push(e).reverse());
        }
        rev.push(e);
    }
    assert(rev@.reverse() =~= es);
    let mut acc: Vec<CurriculumIndexEntry> = Vec::new();
    let mut i: usize = 0;
    proof {
        assert(heads_upto(es, 0) =~= Seq::<int>::empty());
    }
    while rev.len() > 0
        invariant
            n == es.len(),
            i + rev@.len() == n,
            rev@.reverse() == es.skip(i as int),
            acc@.len() == heads_upto(es, i as int).len(),
            i > 0 ==> acc@.len() > 0,
            forall|k: int| 0 <= k < acc@.len() - 1 ==> is_group(es, heads_upto(es, i as int)[k], #[trigger] acc@[k]),
            acc@.len() > 0 ==> ({
                let h = heads_upto(es, i as int)[acc@.len() - 1];
                let e = acc@[acc@.len() - 1];
                &&& e.url == es[h].url
                &&& e.title == es[h].title
                &&& e.slug == es[h].slug
                &&& e.summary == es[h].summary
                &&& e.topic == es[h].topic
                &&& e.children@ == es[h].children@ + es.subrange(h + 1, i as int)
                &&& forall|j: int| h < j < i ==> !is_head(es, j)
            }),
        decreases rev@.len(),
    {
        let ghost old_acc = acc@;
        let ghost hs0 = heads_upto(es, i as int);
        proof {
            lemma_heads_upto_facts(es, i as int);
            lemma_head_list_push(es, i as int);
            assert(rev@.reverse()[0] == es[i as int]);
            assert(rev@[rev@.len() - 1] == rev@.reverse()[0]);
        }
        let ghost old_rev = rev@;
        let e = rev.pop().unwrap();
        proof {
            assert(rev@.reverse() =~= old_rev.reverse().skip(1));
            assert(es.skip(i as int).skip(1) =~= es.skip(i + 1));
        }
        let deep = deeper_than_two(&e);
        if deep && acc.len() > 0 {
            let mut last = acc.pop().unwrap();
            let ghost last0 = last;
            last.children.push(e);
            acc.push(last);
            proof {
                let h = hs0[old_acc.len() - 1];
                assert(!is_head(es, i as int));
                assert(heads_upto(es, i + 1) == hs0);
                assert(es.subrange(h + 1, i + 1) =~= es.subrange(h + 1, i as int).push(es[i as int]));
                assert(acc@[acc@.len() - 1].children@ =~= es[h].children@ + es.subrange(h + 1, i + 1));
                assert forall|k: int| 0 <= k < acc@.len() - 1 implies is_group(es, heads_upto(es, i + 1)[k], #[trigger] acc@[k]) by {
                    assert(acc@[k] == old_acc[k]);
                }
            }
        } else {
            proof {
                assert(is_head(es, i as int));
                assert(heads_upto(es, i + 1) == hs0.push(i as int));
                if old_acc.len() > 0 {
                    let h = hs0[old_acc.len() - 1];
                    lemma_group_end_between(es, h, i as int);
                }
            }
            acc.push(e);
            proof {
                let hs1 = heads_upto(es, i + 1);
                assert(es.subrange(i + 1, i + 1) =~= Seq::<CurriculumIndexEntry>::empty());
                assert(acc@[acc@.len() - 1].children@ =~= es[i as int].children@ + es.subrange(i + 1, i + 1));
                assert forall|k: int| 0 <= k < acc@.len() - 1 implies is_group(es, hs1[k], #[trigger] acc@[k]) by {
                    assert(acc@[k] == old_acc[k]);
                    assert(hs1[k] == hs0[k]);
                    if k == old_acc.len() - 1 {
                        let h = hs0[k];
                        lemma_group_end_between(es, h, i as int);
                    }
                }
            }
        }
        i += 1;
    }
    proof {
        assert(heads_upto(es, n as int) == head_list(es));
        if acc@.len() > 0 {
            let h = head_list(es)[acc@.len() - 1];
            lemma_heads_upto_facts(es, n as int);
            lemma_group_end_between(es, h, n as int);
        }
    }
    acc
}

/// `l` is the link to entry `j` of `es` (its title and URL), or nothing where there is
/// no such entry.
pub open spec fn link_to(l: Option<UrlNTitle>, es: Seq<CurriculumIndexEntry>, j: int) -> bool {
    if 0 <= j < es.len() {
        l matches Some(u) && u.title@ == es[j].title@ && u.url@ == es[j].url@
    } else {
        l is None
    }
}

/// `p` holds the links around position `i` of `es`: the previous entry, and the next
/// one unless `i` is one past the end.
pub open spec fn prev_next_at(es: Seq<CurriculumIndexEntry>, i: int, p: PrevNextByUrl) -> bool {
    &&& link_to(p.prev, es, i - 1)
    &&& link_to(p.next, es, if i == es.len() { -1 } else { i + 1 })
}

/// `r` is what `prev_next` gives for position `i` of `es`.
pub open spec fn prev_next_ok(es: Seq<CurriculumIndexEntry>, i: Option<int>, r: Option<PrevNextByUrl>) -> bool {
    match i {
        None => r is None,
        Some(i) => r matches Some(p) && prev_next_at(es, i, p),
    }
}

fn link_at(index: &[CurriculumIndexEntry], j: usize) -> (r: Option<UrlNTitle>)
    ensures
        link_to(r, index@, j as int),
{
    if j < index.len() {
        Some(UrlNTitle { title: index[j].title.clone(), url: index[j].url.clone() })
    } else {
        None
    }
}

/// The previous and next entries around position `i` of the index; nothing without a
/// position.
pub fn prev_next(index: &[CurriculumIndexEntry], i: Option<usize>) -> (r: Result<Option<PrevNextByUrl>, DocError>)
    requires
        i matches Some(x) ==> x < usize::MAX || x == index@.len(),
    ensures
        r matches Ok(p) && prev_next_ok(index@, match i { Some(x) => Some(x as int), None => None }, p),
{
    match i {
        None => Ok(None),
        Some(x) => {
            if x == 0 {
                let next = if index.len() == 0 { None } else { link_at(index, 1) };
                Ok(Some(PrevNextByUrl { prev: None, next }))
            } else if x == index.len() {
                Ok(Some(PrevNextByUrl { prev: link_at(index, x - 1), next: None }))
            } else {
                Ok(Some(PrevNextByUrl { prev: link_at(index, x - 1), next: link_at(index, x + 1) }))
            }
        },
    }
}

/// The entry has the slug `slug`.
pub open spec fn has_slug(e: CurriculumIndexEntry, slug: Seq<char>) -> bool {
    e.slug matches Some(s) && s@ == slug
}

/// The position of the first entry with slug `slug`.
pub open spec fn slug_position(es: Seq<CurriculumIndexEntry>, slug: Seq<char>) -> Option<int>
    decreases es.len(),
{
    if es.len() == 0 {
        None
    } else {
        match slug_position(es.drop_last(), slug) {
            Some(k) => Some(k),
            None => if has_slug(es.last(), slug) {
                Some(es.len() - 1)
            } else {
                None
            },
        }
    }
}

proof fn lemma_slug_position_bound(es: Seq<CurriculumIndexEntry>, slug: Seq<char>)
    ensures
        slug_position(es, slug) matches Some(k) ==> 0 <= k < es.len(),
    decreases es.len(),
{
    if es.len() > 0 {
        lemma_slug_position_bound(es.drop_last(), slug);
    }
}

fn position_of_slug(index: &[CurriculumIndexEntry], slug: &str) -> (r: Option<usize>)
    ensures
        match r {
            Some(k) => slug_position(index@, slug@) == Some(k as int) && k < index@.len(),
            None => slug_position(index@, slug@) is None,
        },
{
    let n = index.len();
    let mut i: usize = 0;
    let mut found: Option<usize> = None;
    assert(index@.take(0) =~= Seq::<CurriculumIndexEntry>::empty());
    while i < n && found.is_none()
        invariant
            n == index@.len(),
            i <= n,
            match found {
                Some(k) => slug_position(index@.take(i as int), slug@) == Some(k as int) && k < n,
                None => slug_position(index@.take(i as int), slug@) is None,
            },
        decreases n - i,
    {
        assert(index@.take(i + 1).drop_last() =~= index@.take(i as int));
        let hit = match &index[i].slug {
            Some(s) => str_eq(s.as_str(), slug),
            None => false,
        };
        if hit {
            found = Some(i);
        }
        i += 1;
    }
    proof {
        if found is Some {
            lemma_slug_position_prefix(index@, slug@, i as int);
        } else {
            assert(index@.take(n as int) =~= index@);
        }
    }
    found
}

proof fn lemma_slug_position_prefix(es: Seq<CurriculumIndexEntry>, slug: Seq<char>, i: int)
    requires
        0 <= i <= es.len(),
        slug_position(es.take(i), slug) is Some,
    ensures
        slug_position(es, slug) == slug_position(es.take(i), slug),
    decreases es.len() - i,
{
    if i < es.len() {
        assert(es.take(i + 1).drop_last() =~= es.take(i));
        lemma_slug_position_prefix(es, slug, i + 1);
    } else {
        assert(es.take(i) =~= es);
    }
}

/// The previous and next modules around the module with slug `slug` in the index.
pub fn prev_next_modules(index: &[CurriculumIndexEntry], slug: &str) -> (r: Result<Option<PrevNextByUrl>, DocError>)
    ensures
        r matches Ok(p) && prev_next_ok(index@, slug_position(index@, slug@), p),
{
    let n = index.len();
    let i = position_of_slug(index, slug);
    prev_next(index, i)
}

/// The entries of `g` with at least one child.
pub open spec fn with_children(g: Seq<CurriculumIndexEntry>) -> Seq<CurriculumIndexEntry> {
    g.filter(|e: CurriculumIndexEntry| e.children@.len() > 0)
}

fn keep_with_children(g: Vec<CurriculumIndexEntry>) -> (r: Vec<CurriculumIndexEntry>)
    ensures
        r@ == with_children(g@),
{
    let ghost gs = g@;
    let mut rev: Vec<CurriculumIndexEntry> = Vec::new();
    let mut src = g;
    while src.len() > 0
        invariant
            src@ + rev@.reverse() == gs,
        decreases src@.len(),
    {
        let e = src.pop().unwrap();
        proof {
            assert(src@.push(e) + rev@.reverse() =~= src@ + rev@.push(e).reverse());
        }
        rev.push(e);
    }
    assert(rev@.reverse() =~= gs);
    let mut out: Vec<CurriculumIndexEntry> = Vec::new();
    let ghost mut i: int = 0;
    assert(gs.take(0) =~= Seq::<CurriculumIndexEntry>::empty());
    while rev.len() > 0
        invariant
            0 <= i <= gs.len(),
            i + rev@.len() == gs.len(),
            rev@.reverse() == gs.skip(i),
            out@ == with_children(gs.take(i)),
        decreases rev@.len(),
    {
        let ghost old_rev = rev@;
        proof {
            assert(rev@.reverse()[0] == gs[i]);
            assert(rev@[rev@.len() - 1] == rev@.reverse()[0]);
        }
        let e = rev.pop().unwrap();
        proof {
            assert(rev@.reverse() =~= old_rev.reverse().skip(1));
            assert(gs.skip(i).skip(1) =~= gs.skip(i + 1));
            assert(gs.take(i + 1) =~= gs.take(i).push(e));
            gs.take(i).lemma_filter_push(e, |e: CurriculumIndexEntry| e.children@.len() > 0);
        }
        if e.children.len() > 0 {
            out.push(e);
        }
        proof {
            i = i + 1;
        }
    }
    assert(gs.take(gs.len() as int) =~= gs);
    out
}

/// The grouped modules that have children, as the curriculum landing page lists them.
pub fn build_landing_modules(index: Vec<CurriculumIndexEntry>) -> (r: Result<Vec<CurriculumIndexEntry>, DocError>)
    ensures
        r matches Ok(v) && exists|g: Seq<CurriculumIndexEntry>| grouped_ok(index@, g) && v@ == with_children(g),
{
    let g = grouped_index(index);
    let ghost gs = g@;
    let v = keep_with_children(g);
    assert(grouped_ok(index@, gs) && v@ == with_children(gs));
    Ok(v)
}

/// The children of the entries of `g` with slug `slug`, one after the other.
pub open spec fn children_with_slug(g: Seq<CurriculumIndexEntry>, slug: Seq<char>) -> Seq<CurriculumIndexEntry>
    decreases g.len(),
{
    if g.len() == 0 {
        Seq::empty()
    } else {
        children_with_slug(g.drop_last(), slug) + if has_slug(g.last(), slug) {
            g.last().children@
        } else {
            Seq::empty()
        }
    }
}

/// The modules of the overview page with slug `slug`: the children of its group.
pub fn build_overview_modules(index: Vec<CurriculumIndexEntry>, slug: &str) -> (r: Result<Vec<CurriculumIndexEntry>, DocError>)
    ensures
        r matches Ok(v) && exists|g: Seq<CurriculumIndexEntry>| grouped_ok(index@, g) && v@ == children_with_slug(g, slug@),
{
    let g = grouped_index(index);
    let ghost gs = g@;
    let mut rev: Vec<CurriculumIndexEntry> = Vec::new();
    let mut src = g;
    while src.len() > 0
        invariant
            src@ + rev@.reverse() == gs,
        decreases src@.len(),
    {
        let e = src.pop().unwrap();
        proof {
            assert(src@.push(e) + rev@.reverse() =~= src@ + rev@.push(e).reverse());
        }
        rev.push(e);
    }
    assert(rev@.reverse() =~= gs);
    let mut out: Vec<CurriculumIndexEntry> = Vec::new();
    let ghost mut i: int = 0;
    assert(gs.take(0) =~= Seq::<CurriculumIndexEntry>::empty());
    while rev.len() > 0
        invariant
            0 <= i <= gs.len(),
            i + rev@.len() == gs.len(),
            rev@.reverse() == gs.skip(i),
            out@ == children_with_slug(gs.take(i), slug@),
        decreases rev@.len(),
    {
        let ghost old_rev = rev@;
        proof {
            assert(rev@.reverse()[0] == gs[i]);
            assert(rev@[rev@.len() - 1] == rev@.reverse()[0]);
        }
        let e = rev.pop().unwrap();
        proof {
            assert(rev@.reverse() =~= old_rev.reverse().skip(1));
            assert(gs.skip(i).skip(1) =~= gs.skip(i + 1));
            assert(gs.take(i + 1).drop_last() =~= gs.take(i));
        }
        let hit = match &e.slug {
            Some(s) => str_eq(s.as_str(), slug),
            None => false,
        };
        if hit {
            let ghost before = out@;
            let mut children = e.children;
            out.append(&mut children);
            assert(out@ =~= before + e.children@);
        } else {
            assert(out@ =~= out@ + Seq::<CurriculumIndexEntry>::empty());
        }
        proof {
            i = i + 1;
        }
    }
    assert(gs.take(gs.len() as int) =~= gs);
    Ok(out)
}

/// The previous and next overview pages around the one with slug `slug`: its
/// neighbours among the grouped modules that have children.
pub fn prev_next_overview(index: Vec<CurriculumIndexEntry>, slug: &str) -> (r: Result<Option<PrevNextByUrl>, DocError>)
    ensures
        r matches Ok(p) && exists|g: Seq<CurriculumIndexEntry>| grouped_ok(index@, g)
            && prev_next_ok(with_children(g), slug_position(with_children(g), slug@), p),
{
    let g = grouped_index(index);
    let ghost gs = g@;
    let overview = keep_with_children(g);
    let n = overview.len();
    let i = position_of_slug(overview.as_slice(), slug);
    let r = prev_next(overview.as_slice(), i);
    assert(grouped_ok(index@, gs));
    r
}

/// Grouping the index loses no entry and reorders none: the groups start at the first
/// entry, each ends where the next one starts, and the last one ends at the end of the
/// index.
pub proof fn law_groups_partition(es: Seq<CurriculumIndexEntry>)
    ensures
        es.len() > 0 ==> head_list(es).len() > 0 && head_list(es)[0] == 0,
        forall|k: int| 0 <= k < head_list(es).len() - 1 ==> group_end(es, #[trigger] head_list(es)[k]) == head_list(es)[k + 1],
        head_list(es).len() > 0 ==> group_end(es, head_list(es).last()) == es.len(),
{
    let n = es.len() as int;
    lemma_heads_upto_facts(es, n);
    let hs = head_list(es);
    assert(heads_upto(es, n) == hs);
    assert forall|k: int| 0 <= k < hs.len() - 1 implies group_end(es, #[trigger] hs[k]) == hs[k + 1] by {
        let h = hs[k];
        let h2 = hs[k + 1];
        assert forall|j: int| h < j < h2 implies !is_head(es, j) by {
            if is_head(es, j) {
                let m = choose|m: int| 0 <= m < hs.len() && hs[m] == j;
                if m <= k {
                    if m < k {
                        assert(hs[m] < hs[k]);
                    }
                } else if m >= k + 1 {
                    if m > k + 1 {
                        assert(hs[k + 1] < hs[m]);
                    }
                }
            }
        }
        lemma_group_end_between(es, h, h2);
    }
    if hs.len() > 0 {
        let last = hs.last();
        assert forall|j: int| last < j < n implies !is_head(es, j) by {
            if is_head(es, j) {
                let m = choose|m: int| 0 <= m < hs.len() && hs[m] == j;
                if m < hs.len() - 1 {
                    assert(hs[m] < hs[hs.len() - 1]);
                }
            }
        }
        lemma_group_end_between(es, last, n);
    }
}

} // verus!
