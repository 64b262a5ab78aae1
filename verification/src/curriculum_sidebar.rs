//! The curriculum sidebar: the curriculum's pages in the order of their files, each
//! page more than two levels deep listed under the page before it.
use vstd::prelude::*;
use crate::curriculum::{lemma_slash_count_mono, slash_count, CurriculumSidebarEntry};
use crate::resolve::DocError;
use crate::text::{chars_of, split, split_vec};

verus! {

/// Number of `/`-separated segments of an entry's slug (an entry without slug has one).
pub open spec fn level_sb(e: CurriculumSidebarEntry) -> nat {
    slash_count(e.slug@) + 1
}

/// Entry `j` starts a group: it is the first entry or at most two levels deep.
pub open spec fn is_head_sb(es: Seq<CurriculumSidebarEntry>, j: int) -> bool {
    j == 0 || level_sb(es[j]) <= 2
}

/// Where the group started by entry `h` ends: at the next group start or the end.
pub open spec fn group_end_sb(es: Seq<CurriculumSidebarEntry>, h: int) -> int
    decreases es.len() - h,
{
    if h + 1 >= es.len() {
        es.len() as int
    } else if is_head_sb(es, h + 1) {
        h + 1
    } else {
        group_end_sb(es, h + 1)
    }
}

/// The positions of the group starts, in order.
pub open spec fn head_list_sb(es: Seq<CurriculumSidebarEntry>) -> Seq<int> {
    Seq::new(es.len(), |j: int| j).filter(|j: int| is_head_sb(es, j))
}

/// `e` is entry `h` with the entries of its group appended to its children.
pub open spec fn is_group_sb(es: Seq<CurriculumSidebarEntry>, h: int, e: CurriculumSidebarEntry) -> bool {
    &&& e.url == es[h].url
    &&& e.title == es[h].title
    &&& e.slug == es[h].slug
    &&& e.children@ == es[h].children@ + es.subrange(h + 1, group_end_sb(es, h))
}

/// `r` is the index `es` grouped: one entry per group start, in order, each with the
/// deeper entries that follow it as extra children.
pub open spec fn grouped_ok_sb(es: Seq<CurriculumSidebarEntry>, r: Seq<CurriculumSidebarEntry>) -> bool {
    let hs = head_list_sb(es);
    &&& r.len() == hs.len()
    &&& forall|k: int| 0 <= k < r.len() ==> is_group_sb(es, hs[k], #[trigger] r[k])
}

/// Whether the entry is more than two levels deep (its slug has two or more `/`).
fn deeper_than_two_sb(e: &CurriculumSidebarEntry) -> (r: bool)
    ensures
        r == (level_sb(*e) > 2),
{
    let v = chars_of(e.slug.as_str());
    let n = v.len();
    let mut i: usize = 0;
    let mut c: usize = 0;
    assert(v@.take(0) =~= Seq::<char>::empty());
    while i < n && c < 2
        invariant
            n == v@.len(),
            i <= n,
            c == slash_count(v@.take(i as int)),
            c <= 2,
        decreases n - i,
    {
        assert(v@.take(i + 1).drop_last() =~= v@.take(i as int));
        if v[i] == '/' {
            c += 1;
        }
        i += 1;
    }
    proof {
        lemma_slash_count_mono(v@, i as int, n as int);
    }
    assert(v@.take(n as int) =~= v@);
    c >= 2
}

proof fn lemma_head_list_push_sb(es: Seq<CurriculumSidebarEntry>, n: int)
    requires
        0 <= n < es.len(),
    ensures
        Seq::new((n + 1) as nat, |j: int| j).filter(|j: int| is_head_sb(es, j)) == if is_head_sb(es, n) {
            Seq::new(n as nat, |j: int| j).filter(|j: int| is_head_sb(es, j)).push(n)
        } else {
            Seq::new(n as nat, |j: int| j).filter(|j: int| is_head_sb(es, j))
        },
{
    let s1 = Seq::new((n + 1) as nat, |j: int| j);
    let s0 = Seq::new(n as nat, |j: int| j);
    assert(s1 =~= s0.push(n));
    s0.lemma_filter_push(n, |j: int| is_head_sb(es, j));
}

/// The heads among the first `n` entries.
pub open spec fn heads_upto_sb(es: Seq<CurriculumSidebarEntry>, n: int) -> Seq<int> {
    Seq::new(n as nat, |j: int| j).filter(|j: int| is_head_sb(es, j))
}

proof fn lemma_heads_upto_facts_sb(es: Seq<CurriculumSidebarEntry>, n: int)
    requires
        0 <= n <= es.len(),
    ensures
        forall|k: int|
            0 <= k < heads_upto_sb(es, n).len() ==> 0 <= #[trigger] heads_upto_sb(es, n)[k] < n
                && is_head_sb(es, heads_upto_sb(es, n)[k]),
        forall|a: int, b: int|
            0 <= a < b < heads_upto_sb(es, n).len() ==> heads_upto_sb(es, n)[a] < heads_upto_sb(es, n)[b],
        n > 0 ==> heads_upto_sb(es, n).len() > 0 && heads_upto_sb(es, n)[0] == 0,
        forall|j: int| 0 <= j < n && is_head_sb(es, j) ==> heads_upto_sb(es, n).contains(j),
    decreases n,
{
    if n > 0 {
        lemma_heads_upto_facts_sb(es, n - 1);
        lemma_head_list_push_sb(es, n - 1);
        if n == 1 {
            assert(heads_upto_sb(es, 0) =~= Seq::<int>::empty());
            assert(heads_upto_sb(es, 1) =~= seq![0int]);
        }
        let h = heads_upto_sb(es, n);
        let h0 = heads_upto_sb(es, n - 1);
        assert forall|j: int| 0 <= j < n && is_head_sb(es, j) implies h.contains(j) by {
            if j < n - 1 {
                let k = choose|k: int| 0 <= k < h0.len() && h0[k] == j;
                assert(h[k] == j);
            } else {
                assert(h[h.len() - 1] == j);
            }
        }
    }
}

/// The end of the group started by `h`, in terms of the heads up to `n`.
proof fn lemma_group_end_between_sb(es: Seq<CurriculumSidebarEntry>, h: int, n: int)
    requires
        0 <= h < n <= es.len(),
        forall|j: int| h < j < n ==> !is_head_sb(es, j),
    ensures
        group_end_sb(es, h) >= n,
        n < es.len() && is_head_sb(es, n) ==> group_end_sb(es, h) == n,
        n == es.len() ==> group_end_sb(es, h) == n,
    decreases n - h,
{
    if h + 1 < n {
        lemma_group_end_between_sb(es, h + 1, n);
    } else if n < es.len() && !is_head_sb(es, n) {
        lemma_group_end_gt_sb(es, n);
    }
}

proof fn lemma_group_end_gt_sb(es: Seq<CurriculumSidebarEntry>, h: int)
    requires
        0 <= h < es.len(),
    ensures
        group_end_sb(es, h) > h,
    decreases es.len() - h,
{
    if h + 1 < es.len() && !is_head_sb(es, h + 1) {
        lemma_group_end_gt_sb(es, h + 1);
    }
}

/// Groups the curriculum index: each entry at most two levels deep (and the first one)
/// starts a group, and the deeper entries that follow it become its children.
fn grouped_index_sb(index: Vec<CurriculumSidebarEntry>) -> (r: Vec<CurriculumSidebarEntry>)
    ensures
        grouped_ok_sb(index@, r@),
{
    let ghost es = index@;
    let n = index.len();
    let mut rev: Vec<CurriculumSidebarEntry> = Vec::new();
    let mut src = index;
    while src.len() > 0
        invariant
            src@ + rev@.reverse() == es,
        decreases src@.len(),
    {
        let e = src.pop().unwrap();
        proof {
            assert(src@.push(e) + rev@.reverse() =~= src@ + rev@.push(e).reverse());
        }
        rev.push(e);
    }
    assert(rev@.reverse() =~= es);
    let mut acc: Vec<CurriculumSidebarEntry> = Vec::new();
    let mut i: usize = 0;
    proof {
        assert(heads_upto_sb(es, 0) =~= Seq::<int>::empty());
    }
    while rev.len() > 0
        invariant
            n == es.len(),
            i + rev@.len() == n,
            rev@.reverse() == es.skip(i as int),
            acc@.len() == heads_upto_sb(es, i as int).len(),
            i > 0 ==> acc@.len() > 0,
            forall|k: int| 0 <= k < acc@.len() - 1 ==> is_group_sb(es, heads_upto_sb(es, i as int)[k], #[trigger] acc@[k]),
            acc@.len() > 0 ==> ({
                let h = heads_upto_sb(es, i as int)[acc@.len() - 1];
                let e = acc@[acc@.len() - 1];
                &&& e.url == es[h].url
                &&& e.title == es[h].title
                &&& e.slug == es[h].slug
                &&& e.children@ == es[h].children@ + es.subrange(h + 1, i as int)
                &&& forall|j: int| h < j < i ==> !is_head_sb(es, j)
            }),
        decreases rev@.len(),
    {
        let ghost old_acc = acc@;
        let ghost hs0 = heads_upto_sb(es, i as int);
        proof {
            lemma_heads_upto_facts_sb(es, i as int);
            lemma_head_list_push_sb(es, i as int);
            assert(rev@.reverse()[0] == es[i as int]);
            assert(rev@[rev@.len() - 1] == rev@.reverse()[0]);
        }
        let ghost old_rev = rev@;
        let e = rev.pop().unwrap();
        proof {
            assert(rev@.reverse() =~= old_rev.reverse().skip(1));
            assert(es.skip(i as int).skip(1) =~= es.skip(i + 1));
        }
        let deep = deeper_than_two_sb(&e);
        if deep && acc.len() > 0 {
            let mut last = acc.pop().unwrap();
            let ghost last0 = last;
            last.children.push(e);
            acc.push(last);
            proof {
                let h = hs0[old_acc.len() - 1];
                assert(!is_head_sb(es, i as int));
                assert(heads_upto_sb(es, i + 1) == hs0);
                assert(es.subrange(h + 1, i + 1) =~= es.subrange(h + 1, i as int).push(es[i as int]));
                assert(acc@[acc@.len() - 1].children@ =~= es[h].children@ + es.subrange(h + 1, i + 1));
                assert forall|k: int| 0 <= k < acc@.len() - 1 implies is_group_sb(es, heads_upto_sb(es, i + 1)[k], #[trigger] acc@[k]) by {
                    assert(acc@[k] == old_acc[k]);
                }
            }
        } else {
            proof {
                assert(is_head_sb(es, i as int));
                assert(heads_upto_sb(es, i + 1) == hs0.push(i as int));
                if old_acc.len() > 0 {
                    let h = hs0[old_acc.len() - 1];
                    lemma_group_end_between_sb(es, h, i as int);
                }
            }
            acc.push(e);
            proof {
                let hs1 = heads_upto_sb(es, i + 1);
                assert(es.subrange(i + 1, i + 1) =~= Seq::<CurriculumSidebarEntry>::empty());
                assert(acc@[acc@.len() - 1].children@ =~= es[i as int].children@ + es.subrange(i + 1, i + 1));
                assert forall|k: int| 0 <= k < acc@.len() - 1 implies is_group_sb(es, hs1[k], #[trigger] acc@[k]) by {
                    assert(acc@[k] == old_acc[k]);
                    assert(hs1[k] == hs0[k]);
                    if k == old_acc.len() - 1 {
                        let h = hs0[k];
                        lemma_group_end_between_sb(es, h, i as int);
                    }
                }
            }
        }
        i += 1;
    }
    proof {
        assert(heads_upto_sb(es, n as int) == head_list_sb(es));
        if acc@.len() > 0 {
            let h = head_list_sb(es)[acc@.len() - 1];
            lemma_heads_upto_facts_sb(es, n as int);
            lemma_group_end_between_sb(es, h, n as int);
        }
    }
    acc
}


/// The components of a path, as `Path::components` gives them for a path without `.`
/// or `..` segments: the segments between its slashes, empty ones dropped.
pub open spec fn path_segments(p: Seq<char>) -> Seq<Seq<char>> {
    split(p, '/').filter(|x: Seq<char>| x.len() > 0)
}

/// `a` comes before `b` character by character (a proper prefix first).
pub open spec fn chars_lt(a: Seq<char>, b: Seq<char>) -> bool
    decreases a.len(),
{
    if a.len() == 0 {
        b.len() > 0
    } else if b.len() == 0 {
        false
    } else if a[0] != b[0] {
        (a[0] as int) < (b[0] as int)
    } else {
        chars_lt(a.drop_first(), b.drop_first())
    }
}

/// `a` comes before `b` component by component (a proper prefix first).
pub open spec fn segments_lt(a: Seq<Seq<char>>, b: Seq<Seq<char>>) -> bool
    decreases a.len(),
{
    if a.len() == 0 {
        b.len() > 0
    } else if b.len() == 0 {
        false
    } else if a[0] != b[0] {
        chars_lt(a[0], b[0])
    } else {
        segments_lt(a.drop_first(), b.drop_first())
    }
}

/// Path `a` comes before path `b` (`Path::cmp`): an absolute path before a relative one,
/// else by components.
pub open spec fn path_lt(a: Seq<char>, b: Seq<char>) -> bool {
    let ra = a.len() > 0 && a[0] == '/';
    let rb = b.len() > 0 && b[0] == '/';
    if ra != rb {
        ra
    } else {
        segments_lt(path_segments(a), path_segments(b))
    }
}

pub(crate) fn chars_lt_exec(a: &Vec<char>, b: &Vec<char>) -> (r: bool)
    ensures
        r == chars_lt(a@, b@),
{
    let mut i: usize = 0;
    assert(a@.skip(0) =~= a@);
    assert(b@.skip(0) =~= b@);
    loop
        invariant
            i <= a@.len(),
            i <= b@.len(),
            chars_lt(a@, b@) == chars_lt(a@.skip(i as int), b@.skip(i as int)),
        decreases a@.len() - i,
    {
        if i == a.len() {
            return i < b.len();
        }
        if i == b.len() {
            return false;
        }
        assert(a@.skip(i as int)[0] == a@[i as int]);
        assert(b@.skip(i as int)[0] == b@[i as int]);
        if a[i] != b[i] {
            return a[i] < b[i];
        }
        assert(a@.skip(i as int).drop_first() =~= a@.skip(i + 1));
        assert(b@.skip(i as int).drop_first() =~= b@.skip(i + 1));
        i += 1;
    }
}

fn segments_lt_exec(a: &Vec<Vec<char>>, b: &Vec<Vec<char>>) -> (r: bool)
    ensures
        r == segments_lt(a@.map_values(|x: Vec<char>| x@), b@.map_values(|x: Vec<char>| x@)),
{
    let ghost av = a@.map_values(|x: Vec<char>| x@);
    let ghost bv = b@.map_values(|x: Vec<char>| x@);
    let mut i: usize = 0;
    assert(av.skip(0) =~= av);
    assert(bv.skip(0) =~= bv);
    loop
        invariant
            av == a@.map_values(|x: Vec<char>| x@),
            bv == b@.map_values(|x: Vec<char>| x@),
            i <= a@.len(),
            i <= b@.len(),
            segments_lt(av, bv) == segments_lt(av.skip(i as int), bv.skip(i as int)),
        decreases a@.len() - i,
    {
        if i == a.len() {
            return i < b.len();
        }
        if i == b.len() {
            return false;
        }
        assert(av.skip(i as int)[0] == a@[i as int]@);
        assert(bv.skip(i as int)[0] == b@[i as int]@);
        if !crate::text::seq_eq(a[i].as_slice(), b[i].as_slice()) {
            return chars_lt_exec(&a[i], &b[i]);
        }
        assert(av.skip(i as int).drop_first() =~= av.skip(i + 1));
        assert(bv.skip(i as int).drop_first() =~= bv.skip(i + 1));
        i += 1;
    }
}

fn segments_of(p: &str) -> (r: Vec<Vec<char>>)
    ensures
        r@.map_values(|x: Vec<char>| x@) == path_segments(p@),
{
    let v = chars_of(p);
    let parts = split_vec(v.as_slice(), '/');
    let ghost sp = split(p@, '/');
    let mut r: Vec<Vec<char>> = Vec::new();
    let n = parts.len();
    let mut i: usize = 0;
    assert(sp.take(0) =~= Seq::<Seq<char>>::empty());
    while i < n
        invariant
            n == parts@.len(),
            n == sp.len(),
            sp == split(p@, '/'),
            forall|j: int| 0 <= j < n ==> #[trigger] parts@[j]@ == sp[j],
            i <= n,
            r@.map_values(|x: Vec<char>| x@) == sp.take(i as int).filter(|x: Seq<char>| x.len() > 0),
        decreases n - i,
    {
        assert(sp.take(i + 1).drop_last() =~= sp.take(i as int));
        assert(sp.take(i + 1).last() == sp[i as int]);
        proof {
            reveal(Seq::filter);
        }
        let ghost before = r@.map_values(|x: Vec<char>| x@);
        if parts[i].len() > 0 {
            let piece = crate::text::slice_of(parts[i].as_slice(), 0, parts[i].len());
            assert(piece@ =~= parts@[i as int]@);
            r.push(piece);
            assert(r@.map_values(|x: Vec<char>| x@) =~= before.push(sp[i as int]));
        }
        i += 1;
    }
    assert(sp.take(n as int) =~= sp);
    r
}

/// Whether path `a` comes before path `b` (see `path_lt`).
pub fn path_less(a: &str, b: &str) -> (r: bool)
    ensures
        r == path_lt(a@, b@),
{
    let va = chars_of(a);
    let vb = chars_of(b);
    let ra = va.len() > 0 && va[0] == '/';
    let rb = vb.len() > 0 && vb[0] == '/';
    if ra != rb {
        return ra;
    }
    segments_lt_exec(&segments_of(a), &segments_of(b))
}

/// `x` inserted into `s` before the first entry whose path comes after its own.
pub open spec fn insert_by_path(s: Seq<(String, CurriculumSidebarEntry)>, x: (String, CurriculumSidebarEntry)) -> Seq<(String, CurriculumSidebarEntry)>
    decreases s.len(),
{
    if s.len() == 0 {
        seq![x]
    } else if path_lt(x.0@, s[0].0@) {
        seq![x] + s
    } else {
        seq![s[0]] + insert_by_path(s.drop_first(), x)
    }
}

/// The entries ordered by their paths, entries with equal paths in their order (a
/// stable sort).
pub open spec fn sort_by_path(s: Seq<(String, CurriculumSidebarEntry)>) -> Seq<(String, CurriculumSidebarEntry)>
    decreases s.len(),
{
    if s.len() == 0 {
        s
    } else {
        insert_by_path(sort_by_path(s.drop_last()), s.last())
    }
}

proof fn lemma_insert_at(s: Seq<(String, CurriculumSidebarEntry)>, x: (String, CurriculumSidebarEntry), j: int)
    requires
        0 <= j <= s.len(),
        forall|k: int| 0 <= k < j ==> !path_lt(x.0@, #[trigger] s[k].0@),
        j < s.len() ==> path_lt(x.0@, s[j].0@),
    ensures
        insert_by_path(s, x) == s.take(j) + seq![x] + s.skip(j),
    decreases s.len(),
{
    if s.len() == 0 {
        assert(s.take(j) + seq![x] + s.skip(j) =~= seq![x]);
    } else if j == 0 {
        assert(s.take(0) + seq![x] + s.skip(0) =~= seq![x] + s);
    } else {
        let t = s.drop_first();
        assert forall|k: int| 0 <= k < j - 1 implies !path_lt(x.0@, #[trigger] t[k].0@) by {
            assert(t[k] == s[k + 1]);
        }
        if j - 1 < t.len() {
            assert(t[j - 1] == s[j]);
        }
        lemma_insert_at(t, x, j - 1);
        assert(seq![s[0]] + (t.take(j - 1) + seq![x] + t.skip(j - 1)) =~= s.take(j) + seq![x] + s.skip(j));
    }
}

/// Sorts the entries by their paths (see `sort_by_path`).
fn sort_entries(v: Vec<(String, CurriculumSidebarEntry)>) -> (r: Vec<(String, CurriculumSidebarEntry)>)
    ensures
        r@ == sort_by_path(v@),
{
    let ghost all = v@;
    let total = v.len();
    let mut src = crate::text::reversed(v);
    let mut out: Vec<(String, CurriculumSidebarEntry)> = Vec::new();
    let mut i: usize = 0;
    assert(all.take(0) =~= Seq::<(String, CurriculumSidebarEntry)>::empty());
    while src.len() > 0
        invariant
            i + src@.len() == all.len(),
            total == all.len(),
            src@.reverse() == all.skip(i as int),
            out@ == sort_by_path(all.take(i as int)),
        decreases src@.len(),
    {
        let ghost old_src = src@;
        let x = src.pop().unwrap();
        proof {
            assert(old_src.reverse()[0] == old_src[old_src.len() - 1]);
            assert(all.skip(i as int)[0] == all[i as int]);
            assert(src@.reverse() =~= old_src.reverse().skip(1));
            assert(all.skip(i as int).skip(1) =~= all.skip(i + 1));
            assert(all.take(i + 1).drop_last() =~= all.take(i as int));
            assert(all.take(i + 1).last() == all[i as int]);
        }
        let n = out.len();
        let mut j: usize = 0;
        while j < n && !path_less(x.0.as_str(), out[j].0.as_str())
            invariant
                n == out@.len(),
                j <= n,
                forall|k: int| 0 <= k < j ==> !path_lt(x.0@, #[trigger] out@[k].0@),
            decreases n - j,
        {
            j += 1;
        }
        proof {
            lemma_insert_at(out@, x, j as int);
        }
        let ghost before = out@;
        out.insert(j, x);
        assert(out@ =~= before.take(j as int) + seq![x] + before.skip(j as int));
        i += 1;
    }
    assert(all.take(all.len() as int) =~= all);
    out
}

/// The entries of the pages, without their paths.
pub open spec fn entries_of(s: Seq<(String, CurriculumSidebarEntry)>) -> Seq<CurriculumSidebarEntry> {
    s.map_values(|p: (String, CurriculumSidebarEntry)| p.1)
}

/// The curriculum sidebar. `pages` are the curriculum's pages, each with the path of its
/// file and its entry, in any order: they are ordered by path (see `sort_by_path`), and
/// each page more than two levels deep (by its slug) is listed under the page before
/// it (see `grouped_ok_sb`).
pub fn build_sidebar(pages: Vec<(String, CurriculumSidebarEntry)>) -> (r: Result<Vec<CurriculumSidebarEntry>, DocError>)
    ensures
        r matches Ok(v) && grouped_ok_sb(entries_of(sort_by_path(pages@)), v@),
{
    let sorted = sort_entries(pages);
    let ghost all = sorted@;
    let mut src = crate::text::reversed(sorted);
    let mut entries: Vec<CurriculumSidebarEntry> = Vec::new();
    assert(all.skip(0) =~= all);
    assert(all.take(0) =~= Seq::<(String, CurriculumSidebarEntry)>::empty());
    assert(entries@ =~= entries_of(all.take(0)));
    while src.len() > 0
        invariant
            entries@.len() + src@.len() == all.len(),
            src@.reverse() == all.skip(entries@.len() as int),
            entries@ == entries_of(all.take(entries@.len() as int)),
        decreases src@.len(),
    {
        let ghost k = entries@.len() as int;
        let ghost old_src = src@;
        let (_, e) = src.pop().unwrap();
        proof {
            assert(old_src.reverse()[0] == old_src[old_src.len() - 1]);
            assert(all.skip(k)[0] == all[k]);
            assert(src@.reverse() =~= old_src.reverse().skip(1));
            assert(all.skip(k).skip(1) =~= all.skip(k + 1));
        }
        entries.push(e);
        proof {
            assert(all.take(k + 1) =~= all.take(k).push(all[k]));
            assert(entries@ =~= entries_of(all.take(k + 1)));
        }
    }
    assert(all.take(all.len() as int) =~= all);
    Ok(grouped_index_sb(entries))
}

pub proof fn lemma_chars_lt_asym(a: Seq<char>, b: Seq<char>)
    ensures
        chars_lt(a, b) ==> !chars_lt(b, a),
    decreases a.len(),
{
    if a.len() > 0 && b.len() > 0 && a[0] == b[0] {
        lemma_chars_lt_asym(a.drop_first(), b.drop_first());
    }
}

/// Two different character sequences are ordered one way or the other.
pub proof fn lemma_chars_lt_total(a: Seq<char>, b: Seq<char>)
    ensures
        a == b || chars_lt(a, b) || chars_lt(b, a),
    decreases a.len(),
{
    if a.len() > 0 && b.len() > 0 && a[0] == b[0] {
        lemma_chars_lt_total(a.drop_first(), b.drop_first());
        if a.drop_first() == b.drop_first() {
            assert(a =~= seq![a[0]] + a.drop_first());
            assert(b =~= seq![b[0]] + b.drop_first());
        }
    } else if a.len() == 0 && b.len() == 0 {
        assert(a =~= b);
    }
}

pub proof fn lemma_chars_lt_trans(a: Seq<char>, b: Seq<char>, c: Seq<char>)
    ensures
        chars_lt(a, b) && chars_lt(b, c) ==> chars_lt(a, c),
    decreases a.len(),
{
    if a.len() > 0 && b.len() > 0 && c.len() > 0 && a[0] == b[0] && b[0] == c[0] {
        lemma_chars_lt_trans(a.drop_first(), b.drop_first(), c.drop_first());
    }
}

proof fn lemma_segments_lt_asym(a: Seq<Seq<char>>, b: Seq<Seq<char>>)
    ensures
        segments_lt(a, b) ==> !segments_lt(b, a),
    decreases a.len(),
{
    if a.len() > 0 && b.len() > 0 {
        if a[0] == b[0] {
            lemma_segments_lt_asym(a.drop_first(), b.drop_first());
        } else {
            lemma_chars_lt_asym(a[0], b[0]);
        }
    }
}

proof fn lemma_segments_lt_trans(a: Seq<Seq<char>>, b: Seq<Seq<char>>, c: Seq<Seq<char>>)
    ensures
        segments_lt(a, b) && segments_lt(b, c) ==> segments_lt(a, c),
    decreases a.len(),
{
    if a.len() > 0 && b.len() > 0 && c.len() > 0 {
        if a[0] == b[0] && b[0] == c[0] {
            lemma_segments_lt_trans(a.drop_first(), b.drop_first(), c.drop_first());
        } else {
            lemma_chars_lt_asym(a[0], b[0]);
            lemma_chars_lt_trans(a[0], b[0], c[0]);
        }
    }
}

/// Path order is a strict order: asymmetric and transitive.
pub proof fn lemma_path_lt_order(a: Seq<char>, b: Seq<char>, c: Seq<char>)
    ensures
        path_lt(a, b) ==> !path_lt(b, a),
        path_lt(a, b) && path_lt(b, c) ==> path_lt(a, c),
{
    lemma_segments_lt_asym(path_segments(a), path_segments(b));
    lemma_segments_lt_trans(path_segments(a), path_segments(b), path_segments(c));
}

/// No entry comes after a later one in path order.
pub open spec fn sorted_by_path(s: Seq<(String, CurriculumSidebarEntry)>) -> bool {
    forall|i: int, j: int| 0 <= i < j < s.len() ==> !path_lt(#[trigger] s[j].0@, #[trigger] s[i].0@)
}

proof fn lemma_insert_contents(s: Seq<(String, CurriculumSidebarEntry)>, x: (String, CurriculumSidebarEntry))
    ensures
        insert_by_path(s, x).len() == s.len() + 1,
        forall|k: int| 0 <= k < insert_by_path(s, x).len() ==> #[trigger] insert_by_path(s, x)[k] == x || s.contains(insert_by_path(s, x)[k]),
    decreases s.len(),
{
    if s.len() > 0 && !path_lt(x.0@, s[0].0@) {
        let t = s.drop_first();
        lemma_insert_contents(t, x);
        assert forall|k: int| 0 <= k < insert_by_path(s, x).len() implies #[trigger] insert_by_path(s, x)[k] == x || s.contains(insert_by_path(s, x)[k]) by {
            if k > 0 {
                let y = insert_by_path(t, x)[k - 1];
                assert(insert_by_path(s, x)[k] == y);
                if y != x {
                    let m = choose|m: int| 0 <= m < t.len() && t[m] == y;
                    assert(s[m + 1] == y);
                }
            } else {
                assert(s[0] == insert_by_path(s, x)[0]);
            }
        }
    } else if s.len() > 0 {
        assert forall|k: int| 0 <= k < insert_by_path(s, x).len() implies #[trigger] insert_by_path(s, x)[k] == x || s.contains(insert_by_path(s, x)[k]) by {
            if k > 0 {
                assert(s[k - 1] == insert_by_path(s, x)[k]);
            }
        }
    }
}

proof fn lemma_insert_sorted(s: Seq<(String, CurriculumSidebarEntry)>, x: (String, CurriculumSidebarEntry))
    requires
        sorted_by_path(s),
    ensures
        sorted_by_path(insert_by_path(s, x)),
    decreases s.len(),
{
    if s.len() == 0 {
    } else if path_lt(x.0@, s[0].0@) {
        let r = insert_by_path(s, x);
        assert forall|i: int, j: int| 0 <= i < j < r.len() implies !path_lt(#[trigger] r[j].0@, #[trigger] r[i].0@) by {
            if i == 0 {
                assert(r[j] == s[j - 1]);
                lemma_path_lt_order(r[j].0@, x.0@, s[0].0@);
                if j - 1 > 0 {
                    assert(!path_lt(s[j - 1].0@, s[0].0@));
                }
            } else {
                assert(r[i] == s[i - 1] && r[j] == s[j - 1]);
            }
        }
    } else {
        let t = s.drop_first();
        assert(sorted_by_path(t)) by {
            assert forall|i: int, j: int| 0 <= i < j < t.len() implies !path_lt(#[trigger] t[j].0@, #[trigger] t[i].0@) by {
                assert(t[i] == s[i + 1] && t[j] == s[j + 1]);
            }
        }
        lemma_insert_sorted(t, x);
        lemma_insert_contents(t, x);
        let r = insert_by_path(s, x);
        let rt = insert_by_path(t, x);
        assert forall|i: int, j: int| 0 <= i < j < r.len() implies !path_lt(#[trigger] r[j].0@, #[trigger] r[i].0@) by {
            if i == 0 {
                assert(r[0] == s[0]);
                assert(r[j] == rt[j - 1]);
                if rt[j - 1] != x {
                    let m = choose|m: int| 0 <= m < t.len() && t[m] == rt[j - 1];
                    assert(s[m + 1] == t[m]);
                }
            } else {
                assert(r[i] == rt[i - 1] && r[j] == rt[j - 1]);
            }
        }
    }
}

/// The curriculum sidebar follows the order of the curriculum's files: in the order
/// its entries are taken from, no page comes after a later one.
pub proof fn law_sidebar_in_file_order(pages: Seq<(String, CurriculumSidebarEntry)>)
    ensures
        sorted_by_path(sort_by_path(pages)),
        sort_by_path(pages).len() == pages.len(),
    decreases pages.len(),
{
    if pages.len() > 0 {
        law_sidebar_in_file_order(pages.drop_last());
        lemma_insert_sorted(sort_by_path(pages.drop_last()), pages.last());
        lemma_insert_contents(sort_by_path(pages.drop_last()), pages.last());
    }
}

} // verus!
