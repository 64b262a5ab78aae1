//! Sub-page listings: how they are sorted, and the split of titles into text and number
//! parts for the natural orders.
use vstd::prelude::*;
use crate::curriculum_sidebar::{
    chars_lt, chars_lt_exec, lemma_chars_lt_asym, lemma_chars_lt_total, lemma_chars_lt_trans,
};
use crate::link_render::LinkTarget;
use crate::page::PageType;
use crate::text::{chars_of, find_char, first_index, is_ascii_digit, seq_eq, slice_of, string_of};

verus! {

/// The order sub-pages are listed in.
#[derive(Debug, Default, Clone, Copy, PartialEq, Eq, Structural)]
pub enum SubPagesSorter {
    #[default]
    Title,
    Slug,
    TitleNatural,
    SlugNatural,
    TitleAPI,
}

/// A character of a number part: an ASCII digit or a `.`.
pub open spec fn is_num_char(c: char) -> bool {
    is_ascii_digit(c) || c == '.'
}

/// The texts of the parts, one after the other.
pub open spec fn concat_parts(parts: Seq<(bool, String)>) -> Seq<char>
    decreases parts.len(),
{
    if parts.len() == 0 {
        seq![]
    } else {
        concat_parts(parts.drop_last()) + parts.last().1@
    }
}

/// A part is not empty and its characters are all number characters or all not, as its
/// flag says.
pub open spec fn part_ok(p: (bool, String)) -> bool {
    &&& p.1@.len() > 0
    &&& forall|k: int| 0 <= k < p.1@.len() ==> is_num_char(#[trigger] p.1@[k]) == p.0
}

/// `parts` split `s` into its maximal runs of number characters and of other characters,
/// in order.
pub open spec fn parts_ok(s: Seq<char>, parts: Seq<(bool, String)>) -> bool {
    &&& concat_parts(parts) == s
    &&& forall|i: int| 0 <= i < parts.len() ==> part_ok(#[trigger] parts[i])
    &&& forall|i: int| 0 < i < parts.len() ==> (#[trigger] parts[i]).0 != parts[i - 1].0
}

/// Splits `s` into its maximal runs of number characters (digits and `.`) and of other
/// characters, each flagged as a number or not.
pub fn split_into_parts(s: &str) -> (r: Vec<(bool, String)>)
    ensures
        parts_ok(s@, r@),
{
    let v = chars_of(s);
    let n = v.len();
    let mut parts: Vec<(bool, String)> = Vec::new();
    let mut run: Vec<char> = Vec::new();
    let mut in_number = false;
    let mut i: usize = 0;
    assert(v@.take(0) =~= Seq::<char>::empty());
    while i < n
        invariant
            n == v@.len(),
            i <= n,
            concat_parts(parts@) + run@ == v@.take(i as int),
            forall|j: int| 0 <= j < parts@.len() ==> part_ok(#[trigger] parts@[j]),
            forall|j: int| 0 < j < parts@.len() ==> (#[trigger] parts@[j]).0 != parts@[j - 1].0,
            forall|k: int| 0 <= k < run@.len() ==> is_num_char(#[trigger] run@[k]) == in_number,
            run@.len() > 0 && parts@.len() > 0 ==> parts@.last().0 != in_number,
            run@.len() == 0 ==> parts@.len() == 0,
        decreases n - i,
    {
        let c = v[i];
        let num = ('0' <= c && c <= '9') || c == '.';
        assert(num == is_num_char(c));
        if num != in_number {
            if run.len() > 0 {
                let ghost before = parts@;
                let ghost rv = run@;
                let text = string_of(run.as_slice());
                parts.push((in_number, text));
                assert(parts@.drop_last() =~= before);
                assert(concat_parts(parts@) =~= concat_parts(before) + rv);
                run = Vec::new();
            }
            in_number = num;
        }
        let ghost r0 = run@;
        run.push(c);
        assert(v@.take(i + 1) =~= v@.take(i as int).push(c));
        assert(run@ =~= r0.push(c));
        i += 1;
    }
    if run.len() > 0 {
        let ghost before = parts@;
        let ghost rv = run@;
        let text = string_of(run.as_slice());
        parts.push((in_number, text));
        assert(parts@.drop_last() =~= before);
        assert(concat_parts(parts@) =~= concat_parts(before) + rv);
    } else {
        assert(concat_parts(parts@) =~= concat_parts(parts@) + run@);
    }
    assert(v@.take(n as int) =~= v@);
    parts
}

/// The key a sub-page is grouped under: its title up to the first `-` after its first
/// character; none where there is no such `-`.
/// The pages that `refs` refer to.
pub open spec fn targets(refs: Seq<&LinkTarget>) -> Seq<LinkTarget> {
    refs.map_values(|r: &LinkTarget| *r)
}

pub open spec fn group_prefix(t: Seq<char>) -> Option<Seq<char>> {
    if t.len() == 0 {
        None
    } else {
        match first_index(t.drop_first(), '-') {
            Some(i) => Some(t.take(i + 1)),
            None => None,
        }
    }
}

/// A page is listed: it has one of the page types asked for, or none are asked for.
pub open spec fn listed(types: Seq<PageType>, p: LinkTarget) -> bool {
    types.len() == 0 || types.contains(p.page_type)
}

/// The key a listed page goes under: its title's prefix, else its whole title.
pub open spec fn group_key(p: LinkTarget) -> Seq<char> {
    match group_prefix(p.title@) {
        Some(k) => k,
        None => p.title@,
    }
}

/// The group under key `k` after the pages, in order: a listed page whose title has
/// the prefix `k` joins it; a listed page without prefix whose title is `k` replaces
/// it.
pub open spec fn group_of(pages: Seq<LinkTarget>, types: Seq<PageType>, k: Seq<char>) -> Option<Seq<LinkTarget>>
    decreases pages.len(),
{
    if pages.len() == 0 {
        None
    } else {
        let g = group_of(pages.drop_last(), types, k);
        let p = pages.last();
        if !listed(types, p) || group_key(p) != k {
            g
        } else if group_prefix(p.title@) is Some {
            Some(
                match g {
                    Some(x) => x.push(p),
                    None => seq![p],
                },
            )
        } else {
            Some(seq![p])
        }
    }
}

/// `groups` are the groups of `pages` (see `group_of`), one for each key, in the order
/// of their keys.
pub open spec fn groups_ok(pages: Seq<LinkTarget>, types: Seq<PageType>, groups: Seq<(String, Vec<&LinkTarget>)>) -> bool {
    &&& forall|a: int, b: int| 0 <= a < b < groups.len() ==> chars_lt(#[trigger] groups[a].0@, #[trigger] groups[b].0@)
    &&& forall|i: int| 0 <= i < groups.len() ==> group_of(pages, types, (#[trigger] groups[i]).0@) == Some(targets(groups[i].1@))
    &&& forall|k: Seq<char>| #[trigger] group_of(pages, types, k) is Some ==> exists|i: int| 0 <= i < groups.len() && groups[i].0@ == k
}

fn is_listed(types: &[PageType], p: &LinkTarget) -> (r: bool)
    ensures
        r == listed(types@, *p),
{
    if types.len() == 0 {
        return true;
    }
    let n = types.len();
    let mut i: usize = 0;
    while i < n
        invariant
            n == types@.len(),
            i <= n,
            forall|j: int| 0 <= j < i ==> types@[j] != p.page_type,
        decreases n - i,
    {
        if types[i] == p.page_type {
            assert(types@[i as int] == p.page_type);
            return true;
        }
        i += 1;
    }
    false
}

fn group_key_exec(p: &LinkTarget) -> (r: (Vec<char>, bool))
    ensures
        r.0@ == group_key(*p),
        r.1 == group_prefix(p.title@) is Some,
{
    let t = chars_of(p.title.as_str());
    if t.len() == 0 {
        return (t, false);
    }
    let rest = slice_of(t.as_slice(), 1, t.len());
    assert(rest@ =~= t@.drop_first());
    match find_char(rest.as_slice(), '-') {
        Some(i) => {
            let k = slice_of(t.as_slice(), 0, i + 1);
            assert(k@ =~= t@.take(i + 1));
            (k, true)
        },
        None => (t, false),
    }
}

proof fn lemma_group_step(pages: Seq<LinkTarget>, types: Seq<PageType>, n: int, k: Seq<char>)
    requires
        0 <= n < pages.len(),
    ensures
        group_of(pages.take(n + 1), types, k) == ({
            let g = group_of(pages.take(n), types, k);
            let p = pages[n];
            if !listed(types, p) || group_key(p) != k {
                g
            } else if group_prefix(p.title@) is Some {
                Some(
                    match g {
                        Some(x) => x.push(p),
                        None => seq![p],
                    },
                )
            } else {
                Some(seq![p])
            }
        }),
{
    assert(pages.take(n + 1).drop_last() =~= pages.take(n));
    assert(pages.take(n + 1).last() == pages[n]);
}

/// Groups the listed pages by the prefixes of their titles (see `groups_ok`): the
/// pages of types `types` (all where none are given).
pub fn group_sub_pages<'a>(pages: &'a [LinkTarget], types: &[PageType]) -> (r: Vec<(String, Vec<&'a LinkTarget>)>)
    ensures
        groups_ok(pages@, types@, r@),
{
    let mut groups: Vec<(String, Vec<&'a LinkTarget>)> = Vec::new();
    let n = pages.len();
    let mut i: usize = 0;
    assert(pages@.take(0) =~= Seq::<LinkTarget>::empty());
    while i < n
        invariant
            n == pages@.len(),
            i <= n,
            groups_ok(pages@.take(i as int), types@, groups@),
        decreases n - i,
    {
        proof {
            assert forall|k: Seq<char>| #![trigger group_of(pages@.take(i + 1), types@, k)] group_of(pages@.take(i + 1), types@, k) == ({
                let g = group_of(pages@.take(i as int), types@, k);
                let p = pages@[i as int];
                if !listed(types@, p) || group_key(p) != k {
                    g
                } else if group_prefix(p.title@) is Some {
                    Some(
                        match g {
                            Some(x) => x.push(p),
                            None => seq![p],
                        },
                    )
                } else {
                    Some(seq![p])
                }
            }) by {
                lemma_group_step(pages@, types@, i as int, k);
            }
        }
        let p = &pages[i];
        if is_listed(types, p) {
            let (key, has_prefix) = group_key_exec(p);
            let ghost old_groups = groups@;
            let len = groups.len();
            let mut j: usize = 0;
            while j < len && chars_lt_exec(&chars_of(groups[j].0.as_str()), &key)
                invariant
                    len == groups@.len(),
                    j <= len,
                    forall|m: int| 0 <= m < j ==> chars_lt(#[trigger] groups@[m].0@, key@),
                decreases len - j,
            {
                j += 1;
            }
            let same = j < len && seq_eq(chars_of(groups[j].0.as_str()).as_slice(), key.as_slice());
            if same {
                let mut g = groups.remove(j);
                if has_prefix {
                    g.1.push(p);
                } else {
                    let mut v: Vec<&'a LinkTarget> = Vec::new();
                    v.push(p);
                    g.1 = v;
                }
                groups.insert(j, g);
                proof {
                    assert(groups@ =~= old_groups.update(j as int, groups@[j as int]));
                    assert forall|a: int, b: int| 0 <= a < b < groups@.len() implies chars_lt(#[trigger] groups@[a].0@, #[trigger] groups@[b].0@) by {
                        assert(groups@[a].0@ == old_groups[a].0@);
                        assert(groups@[b].0@ == old_groups[b].0@);
                    }
                    assert forall|q: int| 0 <= q < groups@.len() implies group_of(pages@.take(i + 1), types@, (#[trigger] groups@[q]).0@) == Some(targets(groups@[q].1@)) by {
                        if q != j {
                            assert(groups@[q] == old_groups[q]);
                            lemma_chars_lt_asym(old_groups[q].0@, old_groups[j as int].0@);
                            if old_groups[q].0@ == key@ {
                                if q < j {
                                    assert(chars_lt(old_groups[q].0@, old_groups[j as int].0@));
                                } else {
                                    assert(chars_lt(old_groups[j as int].0@, old_groups[q].0@));
                                }
                            }
                        } else {
                            assert(targets(groups@[q].1@) =~= if has_prefix {
                                targets(old_groups[q].1@).push(*p)
                            } else {
                                seq![*p]
                            });
                        }
                    }
                    assert forall|k: Seq<char>| #[trigger] group_of(pages@.take(i + 1), types@, k) is Some implies exists|q: int|
                        0 <= q < groups@.len() && groups@[q].0@ == k by {
                        if k == key@ {
                            assert(groups@[j as int].0@ == k);
                        } else {
                            let q = choose|q: int| 0 <= q < old_groups.len() && old_groups[q].0@ == k;
                            assert(groups@[q].0@ == k);
                        }
                    }
                }
            } else {
                let mut v: Vec<&'a LinkTarget> = Vec::new();
                v.push(p);
                let ks = string_of(key.as_slice());
                groups.insert(j, (ks, v));
                proof {
                    if j < len {
                        lemma_chars_lt_total(old_groups[j as int].0@, key@);
                    }
                    assert forall|a: int, b: int| 0 <= a < b < groups@.len() implies chars_lt(#[trigger] groups@[a].0@, #[trigger] groups@[b].0@) by {
                        if b < j {
                            assert(groups@[a] == old_groups[a] && groups@[b] == old_groups[b]);
                        } else if b == j {
                            assert(groups@[a] == old_groups[a]);
                        } else if a == j {
                            assert(groups@[b] == old_groups[b - 1]);
                            if b - 1 > j {
                                lemma_chars_lt_trans(key@, old_groups[j as int].0@, old_groups[b - 1].0@);
                            }
                        } else if a < j {
                            assert(groups@[a] == old_groups[a] && groups@[b] == old_groups[b - 1]);
                        } else {
                            assert(groups@[a] == old_groups[a - 1] && groups@[b] == old_groups[b - 1]);
                        }
                    }
                    assert forall|q: int| 0 <= q < groups@.len() implies group_of(pages@.take(i + 1), types@, (#[trigger] groups@[q]).0@) == Some(targets(groups@[q].1@)) by {
                        if q < j {
                            assert(groups@[q] == old_groups[q]);
                            lemma_chars_lt_asym(old_groups[q].0@, key@);
                        } else if q > j {
                            assert(groups@[q] == old_groups[q - 1]);
                            lemma_chars_lt_asym(key@, old_groups[q - 1].0@);
                            if q - 1 > j {
                                lemma_chars_lt_trans(key@, old_groups[j as int].0@, old_groups[q - 1].0@);
                            }
                            if old_groups[q - 1].0@ == key@ {
                                lemma_chars_lt_asym(key@, key@);
                            }
                        } else {
                            assert(targets(groups@[q].1@) =~= seq![*p]);
                            if group_of(pages@.take(i as int), types@, key@) is Some {
                                let m = choose|m: int| 0 <= m < old_groups.len() && old_groups[m].0@ == key@;
                                if m < j {
                                    lemma_chars_lt_asym(key@, key@);
                                } else if m > j {
                                    lemma_chars_lt_trans(key@, old_groups[j as int].0@, old_groups[m].0@);
                                    lemma_chars_lt_asym(key@, key@);
                                }
                            }
                        }
                    }
                    assert forall|k: Seq<char>| #[trigger] group_of(pages@.take(i + 1), types@, k) is Some implies exists|q: int|
                        0 <= q < groups@.len() && groups@[q].0@ == k by {
                        if k == key@ {
                            assert(groups@[j as int].0@ == k);
                        } else {
                            let q = choose|q: int| 0 <= q < old_groups.len() && old_groups[q].0@ == k;
                            if q < j {
                                assert(groups@[q].0@ == k);
                            } else {
                                assert(groups@[q + 1].0@ == k);
                            }
                        }
                    }
                }
            }
        } else {
            proof {
                assert forall|q: int| 0 <= q < groups@.len() implies group_of(pages@.take(i + 1), types@, (#[trigger] groups@[q]).0@) == Some(targets(groups@[q].1@)) by {}
            }
        }
        i += 1;
    }
    assert(pages@.take(n as int) =~= pages@);
    groups
}

} // verus!
