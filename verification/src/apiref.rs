//! The sidebar of a Web API interface: its group's overview, the interface itself, its
//! constructors, properties, methods and events, the interfaces it inherits from, and
//! the other interfaces of its group.
use vstd::prelude::*;
use crate::curriculum_sidebar::{chars_lt, chars_lt_exec, lemma_chars_lt_asym, lemma_chars_lt_trans};
use crate::data::{chain_ends, inheritance, kv_get, kv_get_exec, l10n_json_data, spec_inheritance, GroupData, InterfaceData, L10nError, L10nFiles};
use crate::sections::opt_view;
use crate::default_api_sidebar::{
    copy_str, lemma_add_block, opt_block, overview_slug, push_link_group, shows_blocks, texts, SidebarBlock,
};
use crate::html::api_link;
use crate::locale::Locale;
use crate::page::{PageRef, PageType};
use crate::resolve::DocError;
use crate::sidebar::{Details, MetaChildren, MetaSidebar, SidebarL10n, SidebarMetaEntry, SidebarMetaEntryContent};
use crate::text::{chars_of, find_char, first_index, push_str, replace, replace_str, slice_of, starts_with, str_eq, string_of, strip_prefix};
use crate::webext::{build_sublist, common_label, l10n_error_is, of_type, pages_of_type};

verus! {

/// The interface a Web API slug is about: the segment after `Web/API/`; none where the
/// slug does not start so.
pub open spec fn main_interface(slug: Seq<char>) -> Option<Seq<char>> {
    match strip_prefix(slug, "Web/API/"@) {
        Some(s) => Some(
            match first_index(s, '/') {
                Some(i) => s.take(i),
                None => s,
            },
        ),
        None => None,
    }
}

/// The translations of `keys` in the common translations, in order; or the missing
/// translation of the first that has none.
pub open spec fn common_labels(
    files: Seq<(String, Vec<(String, Vec<(String, String)>)>)>,
    keys: Seq<Seq<char>>,
    locale: Locale,
) -> Result<Seq<Seq<char>>, Option<Seq<char>>>
    decreases keys.len(),
{
    if keys.len() == 0 {
        Ok(seq![])
    } else {
        match common_labels(files, keys.drop_last(), locale) {
            Err(x) => Err(x),
            Ok(ls) => match common_label(files, keys.last(), locale) {
                Ok(l) => Ok(ls.push(l)),
                Err(x) => Err(x),
            },
        }
    }
}

/// The keys of the labels of an interface sidebar: static and instance properties,
/// static and instance methods, constructor, inheritance, related pages (naming the
/// group where there is one) and events.
pub open spec fn interface_label_keys(has_group: bool) -> Seq<Seq<char>> {
    seq![
        "Static_properties"@,
        "Instance_properties"@,
        "Static_methods"@,
        "Instance_methods"@,
        "Constructor"@,
        "Inheritance"@,
        if has_group {
            "Related_pages"@
        } else {
            "Related_pages_wo_group"@
        },
        "Events"@,
    ]
}

/// The labels of an interface sidebar (see `interface_label_keys`), `$1` in the label of
/// related pages replaced by the group's name.
pub open spec fn interface_labels(
    files: Seq<(String, Vec<(String, Vec<(String, String)>)>)>,
    group: Option<Seq<char>>,
    locale: Locale,
) -> Result<Seq<Seq<char>>, Option<Seq<char>>> {
    match common_labels(files, interface_label_keys(group is Some), locale) {
        Ok(ls) => Ok(
            match group {
                Some(g) => ls.update(6, replace(ls[6], "$1"@, g)),
                None => ls,
            },
        ),
        Err(x) => Err(x),
    }
}

/// `x` inserted into `s` before the first string that comes after it.
pub open spec fn insert_str(s: Seq<Seq<char>>, x: Seq<char>) -> Seq<Seq<char>>
    decreases s.len(),
{
    if s.len() == 0 {
        seq![x]
    } else if chars_lt(x, s[0]) {
        seq![x] + s
    } else {
        seq![s[0]] + insert_str(s.drop_first(), x)
    }
}

/// The strings in ascending order (`sort` on strings).
pub open spec fn sort_strs(s: Seq<Seq<char>>) -> Seq<Seq<char>>
    decreases s.len(),
{
    if s.len() == 0 {
        s
    } else {
        insert_str(sort_strs(s.drop_last()), s.last())
    }
}

/// The other interfaces of the group: its interfaces, methods and properties but the
/// main one, in ascending order; none without a group.
pub open spec fn related_names(g: Option<GroupData>, main_if: Seq<char>) -> Seq<Seq<char>> {
    match g {
        Some(g) => sort_strs(
            (texts(g.interfaces@) + texts(g.methods@) + texts(g.properties@)).filter(|s: Seq<char>| s != main_if),
        ),
        None => seq![],
    }
}

/// The code links of interfaces `names`: titled by the name without `_static`, linking
/// to its page (see `api_link`).
pub open spec fn interface_links(names: Seq<Seq<char>>) -> Seq<(Seq<char>, Seq<char>)> {
    names.map_values(|s: Seq<char>| (replace(s, "_static"@, ""@), api_link(s)))
}

/// A label without `_static`.
pub open spec fn plain_label(l: Seq<char>) -> Seq<char> {
    replace(l, "_static"@, ""@)
}

/// The groups of an interface's pages: constructors, static and instance properties,
/// static and instance methods, and events, each under its label without `_static`;
/// empty groups left out.
pub open spec fn api_page_blocks(pages: Seq<PageRef>, labels: Seq<Seq<char>>) -> Seq<SidebarBlock> {
    let ty = |t: PageType| of_type(pages, t);
    opt_block(ty(PageType::WebApiConstructor).len() > 0, SidebarBlock::ApiPages(ty(PageType::WebApiConstructor), plain_label(labels[4])))
        + opt_block(ty(PageType::WebApiStaticProperty).len() > 0, SidebarBlock::ApiPages(ty(PageType::WebApiStaticProperty), plain_label(labels[0])))
        + opt_block(ty(PageType::WebApiInstanceProperty).len() > 0, SidebarBlock::ApiPages(ty(PageType::WebApiInstanceProperty), plain_label(labels[1])))
        + opt_block(ty(PageType::WebApiStaticMethod).len() > 0, SidebarBlock::ApiPages(ty(PageType::WebApiStaticMethod), plain_label(labels[2])))
        + opt_block(ty(PageType::WebApiInstanceMethod).len() > 0, SidebarBlock::ApiPages(ty(PageType::WebApiInstanceMethod), plain_label(labels[3])))
        + opt_block(ty(PageType::WebApiEvent).len() > 0, SidebarBlock::ApiPages(ty(PageType::WebApiEvent), plain_label(labels[7])))
}

/// The blocks of an interface sidebar under `labels` (as `interface_labels` orders
/// them): the group's overview page where there is one, the interface's page in code,
/// its constructors, static and instance properties, static and instance methods and
/// events among `pages` (the pages below it), then the interfaces it inherits from and
/// the related ones; empty lists left out.
pub open spec fn interface_blocks(
    overview: Option<PageRef>,
    main: PageRef,
    pages: Seq<PageRef>,
    labels: Seq<Seq<char>>,
    inherited: Seq<Seq<char>>,
    related: Seq<Seq<char>>,
) -> Seq<SidebarBlock> {
    (match overview {
        Some(p) => seq![SidebarBlock::Page(p, false)],
        None => seq![],
    }) + seq![SidebarBlock::Page(main, true)] + api_page_blocks(pages, labels)
        + opt_block(inherited.len() > 0, SidebarBlock::Links(interface_links(inherited), labels[5]))
        + opt_block(related.len() > 0, SidebarBlock::Links(interface_links(related), labels[6]))
}

proof fn lemma_insert_str_at(s: Seq<Seq<char>>, x: Seq<char>, j: int)
    requires
        0 <= j <= s.len(),
        forall|k: int| 0 <= k < j ==> !chars_lt(x, #[trigger] s[k]),
        j < s.len() ==> chars_lt(x, s[j]),
    ensures
        insert_str(s, x) == s.take(j) + seq![x] + s.skip(j),
    decreases s.len(),
{
    if s.len() == 0 {
        assert(s.take(j) + seq![x] + s.skip(j) =~= seq![x]);
    } else if j == 0 {
        assert(s.take(0) + seq![x] + s.skip(0) =~= seq![x] + s);
    } else {
        let t = s.drop_first();
        assert forall|k: int| 0 <= k < j - 1 implies !chars_lt(x, #[trigger] t[k]) by {
            assert(t[k] == s[k + 1]);
        }
        if j - 1 < t.len() {
            assert(t[j - 1] == s[j]);
        }
        lemma_insert_str_at(t, x, j - 1);
        assert(seq![s[0]] + (t.take(j - 1) + seq![x] + t.skip(j - 1)) =~= s.take(j) + seq![x] + s.skip(j));
    }
}

/// Sorts strings (see `sort_strs`).
pub fn sort_strings(v: &Vec<String>) -> (r: Vec<String>)
    ensures
        texts(r@) == sort_strs(texts(v@)),
{
    let ghost all = texts(v@);
    let n = v.len();
    let mut out: Vec<String> = Vec::new();
    let mut i: usize = 0;
    assert(all.take(0) =~= Seq::<Seq<char>>::empty());
    while i < n
        invariant
            n == v@.len(),
            all == texts(v@),
            i <= n,
            texts(out@) == sort_strs(all.take(i as int)),
        decreases n - i,
    {
        assert(all.take(i + 1).drop_last() =~= all.take(i as int));
        assert(all.take(i + 1).last() == v@[i as int]@);
        let x = chars_of(v[i].as_str());
        let m = out.len();
        let mut j: usize = 0;
        while j < m && !chars_lt_exec(&x, &chars_of(out[j].as_str()))
            invariant
                m == out@.len(),
                j <= m,
                x@ == v@[i as int]@,
                forall|k: int| 0 <= k < j ==> !chars_lt(x@, #[trigger] out@[k]@),
            decreases m - j,
        {
            j += 1;
        }
        proof {
            lemma_insert_str_at(texts(out@), x@, j as int);
        }
        let ghost before = out@;
        out.insert(j, copy_str(v[i].as_str()));
        assert(texts(out@) =~= texts(before).take(j as int) + seq![x@] + texts(before).skip(j as int));
        i += 1;
    }
    assert(all.take(n as int) =~= all);
    out
}

fn push_texts(out: &mut Vec<String>, v: &Vec<String>, main_if: &str)
    ensures
        texts(final(out)@) == texts(old(out)@) + texts(v@).filter(|s: Seq<char>| s != main_if@),
{
    let ghost start = texts(out@);
    let ghost all = texts(v@);
    let n = v.len();
    let mut i: usize = 0;
    assert(all.take(0) =~= Seq::<Seq<char>>::empty());
    proof {
        reveal(Seq::filter);
        assert(start + Seq::<Seq<char>>::empty().filter(|s: Seq<char>| s != main_if@) =~= start);
    }
    while i < n
        invariant
            n == v@.len(),
            all == texts(v@),
            i <= n,
            texts(out@) == start + all.take(i as int).filter(|s: Seq<char>| s != main_if@),
        decreases n - i,
    {
        assert(all.take(i + 1).drop_last() =~= all.take(i as int));
        assert(all.take(i + 1).last() == v@[i as int]@);
        proof {
            reveal(Seq::filter);
        }
        let ghost before = texts(out@);
        if !str_eq(v[i].as_str(), main_if) {
            out.push(copy_str(v[i].as_str()));
            assert(texts(out@) =~= before.push(v@[i as int]@));
        }
        i += 1;
    }
    assert(all.take(n as int) =~= all);
}

/// The other interfaces of the group (see `related_names`).
pub fn related_interfaces(g: Option<&GroupData>, main_if: &str) -> (r: Vec<String>)
    ensures
        texts(r@) == related_names(
            match g {
                Some(x) => Some(*x),
                None => None,
            },
            main_if@,
        ),
{
    match g {
        Some(g) => {
            let mut all: Vec<String> = Vec::new();
            push_texts(&mut all, &g.interfaces, main_if);
            push_texts(&mut all, &g.methods, main_if);
            push_texts(&mut all, &g.properties, main_if);
            proof {
                Seq::filter_distributes_over_add(texts(g.interfaces@), texts(g.methods@), |s: Seq<char>| s != main_if@);
                Seq::filter_distributes_over_add(
                    texts(g.interfaces@) + texts(g.methods@),
                    texts(g.properties@),
                    |s: Seq<char>| s != main_if@,
                );
                assert(Seq::<Seq<char>>::empty() + texts(g.interfaces@).filter(|s: Seq<char>| s != main_if@) =~= texts(g.interfaces@).filter(|s: Seq<char>| s != main_if@));
            }
            sort_strings(&all)
        },
        None => Vec::new(),
    }
}

/// The code links of interfaces (see `interface_links`).
fn interface_links_exec(names: &Vec<String>) -> (r: Vec<(String, String)>)
    ensures
        r@.map_values(|p: (String, String)| (p.0@, p.1@)) == interface_links(texts(names@)),
{
    let mut r: Vec<(String, String)> = Vec::new();
    let n = names.len();
    let mut i: usize = 0;
    while i < n
        invariant
            n == names@.len(),
            i <= n,
            r@.len() == i,
            forall|j: int| 0 <= j < i ==> (#[trigger] r@[j]).0@ == replace(names@[j]@, "_static"@, ""@) && r@[j].1@ == api_link(names@[j]@),
        decreases n - i,
    {
        proof {
            reveal_strlit("_static");
            reveal_strlit("()");
            reveal_strlit(".");
        }
        let title = replace_str(names[i].as_str(), "_static", "");
        let a = replace_str(names[i].as_str(), "()", "");
        let b = replace_str(a.as_str(), ".", "/");
        let mut link = String::new();
        push_str(&mut link, "/Web/API/");
        push_str(&mut link, b.as_str());
        r.push((title, link));
        i += 1;
    }
    assert(r@.map_values(|p: (String, String)| (p.0@, p.1@)) =~= interface_links(texts(names@)));
    r
}

/// Adds the group of `pages` under `label` without `_static`, unless there are none.
fn push_api_pages(entries: &mut Vec<SidebarMetaEntry>, pages: &Vec<PageRef>, label: &str)
    ensures
        pages@.len() == 0 ==> final(entries)@ == old(entries)@,
        pages@.len() > 0 ==> final(entries)@.len() == old(entries)@.len() + 1
            && final(entries)@.take(old(entries)@.len() as int) == old(entries)@
            && crate::default_api_sidebar::block_entry(final(entries)@.last(), SidebarBlock::ApiPages(pages@, plain_label(label@))),
{
    proof {
        reveal_strlit("_static");
    }
    let l = replace_str(label, "_static", "");
    build_sublist(entries, pages.as_slice(), l.as_str());
}

proof fn lemma_shows_concat(a: Seq<SidebarMetaEntry>, b: Seq<SidebarMetaEntry>, x: Seq<SidebarBlock>, y: Seq<SidebarBlock>)
    requires
        shows_blocks(a, x),
        shows_blocks(b, y),
    ensures
        shows_blocks(a + b, x + y),
{
    assert forall|j: int| 0 <= j < (a + b).len() implies crate::default_api_sidebar::block_entry(#[trigger] (a + b)[j], (x + y)[j]) by {
        if j >= a.len() {
            assert((a + b)[j] == b[j - a.len()]);
            assert((x + y)[j] == y[j - x.len()]);
        }
    }
}

/// The groups of an interface's pages (see `api_page_blocks`).
fn api_page_entries(pages: &Vec<PageRef>, labels: &Vec<String>) -> (entries: Vec<SidebarMetaEntry>)
    requires
        labels@.len() == 8,
    ensures
        shows_blocks(entries@, api_page_blocks(pages@, texts(labels@))),
{
    let ghost ls = texts(labels@);
    let mut entries: Vec<SidebarMetaEntry> = Vec::new();
    let ghost mut bs: Seq<SidebarBlock> = seq![];
    let of_t0 = pages_of_type(pages.as_slice(), PageType::WebApiConstructor);
    let ghost g0 = entries@;
    push_api_pages(&mut entries, &of_t0, labels[4].as_str());
    proof {
        let b = SidebarBlock::ApiPages(of_type(pages@, PageType::WebApiConstructor), plain_label(ls[4]));
        lemma_add_block(g0, entries@, bs, of_t0@.len() > 0, b);
        bs = bs + opt_block(of_t0@.len() > 0, b);
    }
    let of_t1 = pages_of_type(pages.as_slice(), PageType::WebApiStaticProperty);
    let ghost g1 = entries@;
    push_api_pages(&mut entries, &of_t1, labels[0].as_str());
    proof {
        let b = SidebarBlock::ApiPages(of_type(pages@, PageType::WebApiStaticProperty), plain_label(ls[0]));
        lemma_add_block(g1, entries@, bs, of_t1@.len() > 0, b);
        bs = bs + opt_block(of_t1@.len() > 0, b);
    }
    let of_t2 = pages_of_type(pages.as_slice(), PageType::WebApiInstanceProperty);
    let ghost g2 = entries@;
    push_api_pages(&mut entries, &of_t2, labels[1].as_str());
    proof {
        let b = SidebarBlock::ApiPages(of_type(pages@, PageType::WebApiInstanceProperty), plain_label(ls[1]));
        lemma_add_block(g2, entries@, bs, of_t2@.len() > 0, b);
        bs = bs + opt_block(of_t2@.len() > 0, b);
    }
    let of_t3 = pages_of_type(pages.as_slice(), PageType::WebApiStaticMethod);
    let ghost g3 = entries@;
    push_api_pages(&mut entries, &of_t3, labels[2].as_str());
    proof {
        let b = SidebarBlock::ApiPages(of_type(pages@, PageType::WebApiStaticMethod), plain_label(ls[2]));
        lemma_add_block(g3, entries@, bs, of_t3@.len() > 0, b);
        bs = bs + opt_block(of_t3@.len() > 0, b);
    }
    let of_t4 = pages_of_type(pages.as_slice(), PageType::WebApiInstanceMethod);
    let ghost g4 = entries@;
    push_api_pages(&mut entries, &of_t4, labels[3].as_str());
    proof {
        let b = SidebarBlock::ApiPages(of_type(pages@, PageType::WebApiInstanceMethod), plain_label(ls[3]));
        lemma_add_block(g4, entries@, bs, of_t4@.len() > 0, b);
        bs = bs + opt_block(of_t4@.len() > 0, b);
    }
    let of_t5 = pages_of_type(pages.as_slice(), PageType::WebApiEvent);
    let ghost g5 = entries@;
    push_api_pages(&mut entries, &of_t5, labels[7].as_str());
    proof {
        let b = SidebarBlock::ApiPages(of_type(pages@, PageType::WebApiEvent), plain_label(ls[7]));
        lemma_add_block(g5, entries@, bs, of_t5@.len() > 0, b);
        bs = bs + opt_block(of_t5@.len() > 0, b);
    }
    proof {
        assert(bs =~= api_page_blocks(pages@, ls));
    }
    entries
}

/// The entries of an interface sidebar (see `interface_blocks`).
fn interface_entries(
    overview: Option<PageRef>,
    main: PageRef,
    pages: &Vec<PageRef>,
    labels: &Vec<String>,
    inherited: &Vec<String>,
    related: &Vec<String>,
) -> (entries: Vec<SidebarMetaEntry>)
    requires
        labels@.len() == 8,
    ensures
        shows_blocks(entries@, interface_blocks(overview, main, pages@, texts(labels@), texts(inherited@), texts(related@))),
{
    let ghost ls = texts(labels@);
    let ghost ov = overview;
    let ghost mp = main;
    let mut entries: Vec<SidebarMetaEntry> = Vec::new();
    let ghost mut bs: Seq<SidebarBlock> = seq![];
    match overview {
        Some(p) => {
            proof {
                bs = seq![SidebarBlock::Page(p, false)];
            }
            entries.push(SidebarMetaEntry {
                details: Details::Unset,
                section: true,
                code: false,
                content: SidebarMetaEntryContent::Page(p),
                children: MetaChildren::NoChildren,
            });
        },
        None => {},
    }
    proof {
        bs = bs + seq![SidebarBlock::Page(main, true)];
    }
    entries.push(SidebarMetaEntry {
        details: Details::Unset,
        section: true,
        code: true,
        content: SidebarMetaEntryContent::Page(main),
        children: MetaChildren::NoChildren,
    });
    let ghost e_head = entries@;
    let ghost b_head = bs;
    let mut groups = api_page_entries(pages, labels);
    let ghost g_entries = groups@;
    entries.append(&mut groups);
    proof {
        lemma_shows_concat(e_head, g_entries, b_head, api_page_blocks(pages@, ls));
        bs = bs + api_page_blocks(pages@, ls);
    }
    let ghost e6 = entries@;
    let ghost bi = SidebarBlock::Links(interface_links(texts(inherited@)), ls[5]);
    push_link_group(&mut entries, interface_links_exec(inherited), labels[5].as_str(), inherited.len() > 0);
    proof {
        lemma_add_block(e6, entries@, bs, inherited@.len() > 0, bi);
        bs = bs + opt_block(inherited@.len() > 0, bi);
    }
    let ghost e7 = entries@;
    let ghost br = SidebarBlock::Links(interface_links(texts(related@)), ls[6]);
    push_link_group(&mut entries, interface_links_exec(related), labels[6].as_str(), related.len() > 0);
    proof {
        lemma_add_block(e7, entries@, bs, related@.len() > 0, br);
        bs = bs + opt_block(related@.len() > 0, br);
        assert(bs =~= interface_blocks(ov, mp, pages@, ls, texts(inherited@), texts(related@)));
    }
    entries
}


/// The text of an optional string.
pub open spec fn opt_str(o: Option<&str>) -> Option<Seq<char>> {
    match o {
        Some(s) => Some(s@),
        None => None,
    }
}

/// The API group called `group`, where it is given and there is one.
pub open spec fn group_of(groups: Seq<(String, GroupData)>, group: Option<Seq<char>>) -> Option<GroupData> {
    match group {
        Some(g) => kv_get(groups, g),
        None => None,
    }
}

/// The last step of an interface sidebar: `page_from_slug` reads the interface's page at
/// `Web/API/<m>`; its error is returned, else the sidebar shows the blocks of
/// `interface_blocks`.
pub open spec fn main_page_step<P: Fn(&str) -> Result<PageRef, DocError>>(
    page_from_slug: P,
    m: Seq<char>,
    overview: Option<PageRef>,
    pages: Seq<PageRef>,
    labels: Seq<Seq<char>>,
    inherited: Seq<Seq<char>>,
    related: Seq<Seq<char>>,
    r: Result<MetaSidebar, DocError>,
) -> bool {
    exists|u: &str, res: Result<PageRef, DocError>|
        #![trigger call_ensures(page_from_slug, (u,), res)]
        {
            &&& u@ == "Web/API/"@ + m
            &&& call_ensures(page_from_slug, (u,), res)
            &&& match res {
                Ok(mp) => r matches Ok(s) && s.l10n.l10n@.len() == 0 && shows_blocks(
                    s.entries@,
                    interface_blocks(overview, mp, pages, labels, inherited, related),
                ),
                Err(e) => r == Err::<MetaSidebar, DocError>(e),
            }
        }
}

/// The step before: where the group has an overview, `page_from_slug` reads it at the
/// slug `overview_slug` gives, and its error is returned; then the last step.
pub open spec fn overview_step<P: Fn(&str) -> Result<PageRef, DocError>>(
    page_from_slug: P,
    g: Option<GroupData>,
    m: Seq<char>,
    pages: Seq<PageRef>,
    labels: Seq<Seq<char>>,
    inherited: Seq<Seq<char>>,
    r: Result<MetaSidebar, DocError>,
) -> bool {
    let related = related_names(g, m);
    match g {
        Some(gd) if gd.overview@.len() > 0 => exists|u: &str, res: Result<PageRef, DocError>|
            #![trigger call_ensures(page_from_slug, (u,), res)]
            {
                &&& u@ == overview_slug(gd.overview@[0]@)
                &&& call_ensures(page_from_slug, (u,), res)
                &&& match res {
                    Ok(ov) => main_page_step(page_from_slug, m, Some(ov), pages, labels, inherited, related, r),
                    Err(e) => r == Err::<MetaSidebar, DocError>(e),
                }
            },
        _ => main_page_step(page_from_slug, m, None, pages, labels, inherited, related, r),
    }
}

fn main_interface_exec(slug: &str) -> (r: Option<String>)
    ensures
        opt_view(r) == main_interface(slug@),
{
    let v = chars_of(slug);
    let pre = chars_of("Web/API/");
    if !starts_with(v.as_slice(), pre.as_slice()) {
        return None;
    }
    let rest = slice_of(v.as_slice(), pre.len(), v.len());
    assert(rest@ =~= v@.skip(pre@.len() as int));
    match find_char(rest.as_slice(), '/') {
        Some(i) => {
            let m = slice_of(rest.as_slice(), 0, i);
            assert(m@ =~= rest@.take(i as int));
            Some(string_of(m.as_slice()))
        },
        None => Some(string_of(rest.as_slice())),
    }
}

/// The labels of an interface sidebar (see `interface_labels`).
fn interface_labels_exec(files: &L10nFiles, group: Option<&str>, locale: Locale) -> (r: Result<Vec<String>, L10nError>)
    ensures
        match interface_labels(files@, opt_str(group), locale) {
            Ok(ls) => r matches Ok(v) && texts(v@) == ls && v@.len() == 8,
            Err(x) => r matches Err(e) && l10n_error_is(e, x),
        },
{
    let related_key = match group {
        Some(_) => "Related_pages",
        None => "Related_pages_wo_group",
    };
    let keys: [&str; 8] = [
        "Static_properties",
        "Instance_properties",
        "Static_methods",
        "Instance_methods",
        "Constructor",
        "Inheritance",
        related_key,
        "Events",
    ];
    let ghost ks = interface_label_keys(group is Some);
    assert(keys@.map_values(|k: &str| k@) =~= ks);
    let mut out: Vec<String> = Vec::new();
    let mut i: usize = 0;
    assert(ks.take(0) =~= Seq::<Seq<char>>::empty());
    assert(texts(out@) =~= Seq::<Seq<char>>::empty());
    while i < 8
        invariant
            i <= 8,
            ks == interface_label_keys(group is Some),
            keys@.map_values(|k: &str| k@) == ks,
            common_labels(files@, ks.take(i as int), locale) == Ok::<Seq<Seq<char>>, Option<Seq<char>>>(texts(out@)),
            out@.len() == i,
        decreases 8 - i,
    {
        assert(ks.take(i + 1).drop_last() =~= ks.take(i as int));
        assert(ks.take(i + 1).last() == keys@[i as int]@);
        match l10n_json_data("Common", keys[i], locale, files) {
            Ok(l) => {
                let ghost before = texts(out@);
                out.push(l);
                assert(texts(out@) =~= before.push(out@[i as int]@));
            },
            Err(e) => {
                proof {
                    lemma_common_labels_err(files@, ks, i as int, locale);
                }
                return Err(e);
            },
        }
        i += 1;
    }
    assert(ks.take(8) =~= ks);
    match group {
        Some(g) => {
            proof {
                reveal_strlit("$1");
            }
            let replaced = replace_str(out[6].as_str(), "$1", g);
            let ghost before = texts(out@);
            out.set(6, replaced);
            assert(texts(out@) =~= before.update(6, replace(before[6], "$1"@, g@)));
        },
        None => {},
    }
    Ok(out)
}

proof fn lemma_common_labels_err(
    files: Seq<(String, Vec<(String, Vec<(String, String)>)>)>,
    ks: Seq<Seq<char>>,
    i: int,
    locale: Locale,
)
    requires
        0 <= i < ks.len(),
        common_labels(files, ks.take(i), locale) is Ok,
        common_label(files, ks[i], locale) is Err,
    ensures
        common_labels(files, ks, locale) == Err::<Seq<Seq<char>>, Option<Seq<char>>>(common_label(files, ks[i], locale)->Err_0),
    decreases ks.len() - i,
{
    if i + 1 == ks.len() {
        assert(ks.drop_last() =~= ks.take(i));
    } else {
        assert(ks.drop_last().take(i) =~= ks.take(i));
        assert(ks.drop_last()[i] == ks[i]);
        lemma_common_labels_err(files, ks.drop_last(), i, locale);
    }
}

/// The sidebar of the Web API interface page `slug` (`sidebar` of the interface
/// sidebars), in group `group` where one is named. The labels come from the common
/// translations `files`, the group from `groups`, what the interface inherits from from
/// `interfaces` (see `inheritance`). `sub_pages` reads the pages directly below the
/// interface, given its URL, in the order of their API titles; `page_from_slug` reads the
/// group's overview page and then the interface's page. Errors, in this order: a label
/// without translation; `InvalidSlugForX` for a slug not below `Web/API/`; the error of
/// `sub_pages`, then of each page read.
pub fn sidebar<S: FnOnce(&str) -> Result<Vec<PageRef>, DocError>, P: Fn(&str) -> Result<PageRef, DocError>>(
    slug: &str,
    group: Option<&str>,
    locale: Locale,
    files: &L10nFiles,
    groups: &[(String, GroupData)],
    interfaces: &[(String, InterfaceData)],
    sub_pages: S,
    page_from_slug: P,
) -> (r: Result<MetaSidebar, DocError>)
    requires
        forall|u: &str| call_requires(sub_pages, (u,)),
        forall|u: &str| call_requires(page_from_slug, (u,)),
        main_interface(slug@) matches Some(m) ==> chain_ends(interfaces@, m),
    ensures
        match interface_labels(files@, opt_str(group), locale) {
            Err(x) => r matches Err(DocError::L10nError(e)) && l10n_error_is(e, x),
            Ok(labels) => match main_interface(slug@) {
                None => r matches Err(DocError::InvalidSlugForX(s)) && s@ == slug@,
                Some(m) => exists|u: &str, res: Result<Vec<PageRef>, DocError>|
                    #![trigger call_ensures(sub_pages, (u,), res)]
                    {
                        &&& u@ == "/en-US/docs/Web/API/"@ + m
                        &&& call_ensures(sub_pages, (u,), res)
                        &&& match res {
                            Ok(pages) => overview_step(
                                page_from_slug,
                                group_of(groups@, opt_str(group)),
                                m,
                                pages@,
                                labels,
                                spec_inheritance(interfaces@, m),
                                r,
                            ),
                            Err(e) => r == Err::<MetaSidebar, DocError>(e),
                        }
                    },
            },
        },
{
    let labels = match interface_labels_exec(files, group, locale) {
        Ok(ls) => ls,
        Err(e) => return Err(DocError::L10nError(e)),
    };
    let main_if = match main_interface_exec(slug) {
        Some(m) => m,
        None => return Err(DocError::InvalidSlugForX(copy_str(slug))),
    };
    let g = match group {
        Some(name) => kv_get_exec(groups, name),
        None => None,
    };
    let ghost gd = group_of(groups@, opt_str(group));
    assert(gd == match g {
        Some(x) => Some(*x),
        None => None::<GroupData>,
    });
    let mut url = String::new();
    push_str(&mut url, "/en-US/docs/Web/API/");
    push_str(&mut url, main_if.as_str());
    let u = url.as_str();
    let res = sub_pages(u);
    let ghost gres = res;
    let pages = match res {
        Ok(p) => p,
        Err(e) => {
            assert(call_ensures(sub_pages, (u,), gres));
            return Err(e);
        },
    };
    assert(call_ensures(sub_pages, (u,), gres));
    let related = related_interfaces(g, main_if.as_str());
    let inherited = inheritance(main_if.as_str(), interfaces);
    let ghost inh = spec_inheritance(interfaces@, main_if@);
    let mut overview: Option<PageRef> = None;
    match g {
        Some(gg) => {
            if gg.overview.len() > 0 {
                proof {
                    reveal_strlit(" ");
                    reveal_strlit("_");
                }
                let mut oslug = String::new();
                push_str(&mut oslug, "Web/API/");
                let name = replace_str(gg.overview[0].as_str(), " ", "_");
                push_str(&mut oslug, name.as_str());
                let ou = oslug.as_str();
                let ores = page_from_slug(ou);
                let ghost gores = ores;
                match ores {
                    Ok(p) => {
                        overview = Some(p);
                    },
                    Err(e) => {
                        assert(call_ensures(page_from_slug, (ou,), gores));
                        return Err(e);
                    },
                }
                let ghost ov = overview;
                let mut mslug = String::new();
                push_str(&mut mslug, "Web/API/");
                push_str(&mut mslug, main_if.as_str());
                let mu = mslug.as_str();
                let mres = page_from_slug(mu);
                let ghost gmres = mres;
                match mres {
                    Ok(mp) => {
                        let entries = interface_entries(overview, mp, &pages, &labels, &inherited, &related);
                        assert(call_ensures(page_from_slug, (mu,), gmres));
                        let result: Result<MetaSidebar, DocError> = Ok(MetaSidebar { entries, l10n: SidebarL10n { l10n: Vec::new() } });
                        assert(main_page_step(page_from_slug, main_if@, ov, pages@, texts(labels@), inh, texts(related@), result));
                        assert(call_ensures(page_from_slug, (ou,), gores));
                        return result;
                    },
                    Err(e) => {
                        assert(call_ensures(page_from_slug, (mu,), gmres));
                        assert(call_ensures(page_from_slug, (ou,), gores));
                        return Err(e);
                    },
                }
            }
        },
        None => {},
    }
    let mut mslug = String::new();
    push_str(&mut mslug, "Web/API/");
    push_str(&mut mslug, main_if.as_str());
    let mu = mslug.as_str();
    let mres = page_from_slug(mu);
    let ghost gmres = mres;
    match mres {
        Ok(mp) => {
            let entries = interface_entries(None, mp, &pages, &labels, &inherited, &related);
            assert(call_ensures(page_from_slug, (mu,), gmres));
            Ok(MetaSidebar { entries, l10n: SidebarL10n { l10n: Vec::new() } })
        },
        Err(e) => {
            assert(call_ensures(page_from_slug, (mu,), gmres));
            Err(e)
        },
    }
}

/// The strings are in ascending order.
pub open spec fn strs_sorted(s: Seq<Seq<char>>) -> bool {
    forall|i: int, j: int| 0 <= i < j < s.len() ==> !chars_lt(#[trigger] s[j], #[trigger] s[i])
}

proof fn lemma_insert_str(s: Seq<Seq<char>>, x: Seq<char>)
    ensures
        insert_str(s, x).to_multiset() == s.to_multiset().insert(x),
        strs_sorted(s) ==> strs_sorted(insert_str(s, x)),
    decreases s.len(),
{
    broadcast use vstd::seq_lib::group_to_multiset_ensures;
    let r = insert_str(s, x);
    if s.len() == 0 {
        assert(r =~= Seq::<Seq<char>>::empty().push(x));
        assert(r.to_multiset() =~= s.to_multiset().insert(x));
    } else if chars_lt(x, s[0]) {
        assert(r =~= seq![x] + s);
        vstd::seq_lib::lemma_multiset_commutative(seq![x], s);
        assert(seq![x] =~= Seq::<Seq<char>>::empty().push(x));
        assert(r.to_multiset() =~= s.to_multiset().insert(x));
        if strs_sorted(s) {
            assert forall|i: int, j: int| 0 <= i < j < r.len() implies !chars_lt(#[trigger] r[j], #[trigger] r[i]) by {
                if i == 0 {
                    lemma_chars_lt_asym(x, s[0]);
                    lemma_chars_lt_trans(s[j - 1], x, s[0]);
                    if j - 1 > 0 {
                        assert(!chars_lt(s[j - 1], s[0]));
                    }
                } else {
                    assert(r[i] == s[i - 1] && r[j] == s[j - 1]);
                }
            }
        }
    } else {
        let rest = s.drop_first();
        lemma_insert_str(rest, x);
        let t = insert_str(rest, x);
        assert(r =~= seq![s[0]] + t);
        assert(s =~= seq![s[0]] + rest);
        vstd::seq_lib::lemma_multiset_commutative(seq![s[0]], t);
        vstd::seq_lib::lemma_multiset_commutative(seq![s[0]], rest);
        assert(r.to_multiset() =~= s.to_multiset().insert(x));
        if strs_sorted(s) {
            assert(strs_sorted(rest)) by {
                assert forall|i: int, j: int| 0 <= i < j < rest.len() implies !chars_lt(#[trigger] rest[j], #[trigger] rest[i]) by {
                    assert(rest[i] == s[i + 1] && rest[j] == s[j + 1]);
                }
            }
            assert forall|i: int, j: int| 0 <= i < j < r.len() implies !chars_lt(#[trigger] r[j], #[trigger] r[i]) by {
                if i == 0 {
                    let y = t[j - 1];
                    assert(r[j] == y);
                    assert(t.to_multiset().count(y) > 0);
                    assert(rest.to_multiset().insert(x).count(y) > 0);
                    if y != x {
                        assert(rest.to_multiset().count(y) > 0);
                        assert(rest.contains(y));
                        let k = choose|k: int| 0 <= k < rest.len() && rest[k] == y;
                        assert(s[k + 1] == y);
                    }
                } else {
                    assert(r[i] == t[i - 1] && r[j] == t[j - 1]);
                }
            }
        }
    }
}

proof fn lemma_sort_strs(s: Seq<Seq<char>>)
    ensures
        sort_strs(s).to_multiset() == s.to_multiset(),
        strs_sorted(sort_strs(s)),
    decreases s.len(),
{
    broadcast use vstd::seq_lib::group_to_multiset_ensures;
    if s.len() > 0 {
        lemma_sort_strs(s.drop_last());
        lemma_insert_str(sort_strs(s.drop_last()), s.last());
        assert(s.drop_last().push(s.last()) =~= s);
    }
}

/// The related pages of an interface's sidebar are the other pages of its group, in
/// order: a name is listed exactly when it is one of the group's interfaces, methods or
/// properties and not the main interface; each as often as the group names it; and the
/// list is in ascending order. Without a group there are none.
pub proof fn law_related_pages(g: Option<GroupData>, main_if: Seq<char>)
    ensures
        g is None ==> related_names(g, main_if).len() == 0,
        g matches Some(gd) ==> {
            let r = related_names(g, main_if);
            &&& strs_sorted(r)
            &&& forall|x: Seq<char>|
                #![trigger r.contains(x)]
                r.contains(x) <==> x != main_if && (texts(gd.interfaces@).contains(x) || texts(gd.methods@).contains(x)
                    || texts(gd.properties@).contains(x))
            &&& forall|x: Seq<char>|
                #![trigger r.to_multiset().count(x)]
                x != main_if ==> r.to_multiset().count(x) == texts(gd.interfaces@).to_multiset().count(x)
                    + texts(gd.methods@).to_multiset().count(x) + texts(gd.properties@).to_multiset().count(x)
        },
{
    broadcast use vstd::seq_lib::group_to_multiset_ensures;
    match g {
        Some(gd) => {
            let all = texts(gd.interfaces@) + texts(gd.methods@) + texts(gd.properties@);
            let r = related_names(g, main_if);
            assert(exists|p: spec_fn(Seq<char>) -> bool| #![trigger all.filter(p)]
                r == sort_strs(all.filter(p)) && forall|x: Seq<char>| #[trigger] p(x) == (x != main_if));
            let f = choose|p: spec_fn(Seq<char>) -> bool| #![trigger all.filter(p)]
                r == sort_strs(all.filter(p)) && forall|x: Seq<char>| #[trigger] p(x) == (x != main_if);
            lemma_sort_strs(all.filter(f));
            vstd::seq_lib::lemma_multiset_commutative(texts(gd.interfaces@), texts(gd.methods@));
            vstd::seq_lib::lemma_multiset_commutative(texts(gd.interfaces@) + texts(gd.methods@), texts(gd.properties@));
            assert forall|x: Seq<char>| #![trigger r.contains(x)]
                r.contains(x) <==> x != main_if && (texts(gd.interfaces@).contains(x) || texts(gd.methods@).contains(x)
                    || texts(gd.properties@).contains(x)) by {
                crate::text::lemma_filter_member(all, f, x);
                assert(r.contains(x) <==> r.to_multiset().count(x) > 0);
                assert(all.filter(f).contains(x) <==> all.filter(f).to_multiset().count(x) > 0);
                assert(all.contains(x) <==> all.to_multiset().count(x) > 0);
                assert(texts(gd.interfaces@).contains(x) <==> texts(gd.interfaces@).to_multiset().count(x) > 0);
                assert(texts(gd.methods@).contains(x) <==> texts(gd.methods@).to_multiset().count(x) > 0);
                assert(texts(gd.properties@).contains(x) <==> texts(gd.properties@).to_multiset().count(x) > 0);
            }
            assert forall|x: Seq<char>| #![trigger r.to_multiset().count(x)]
                x != main_if implies r.to_multiset().count(x) == texts(gd.interfaces@).to_multiset().count(x)
                    + texts(gd.methods@).to_multiset().count(x) + texts(gd.properties@).to_multiset().count(x) by {
                lemma_filter_count(all, f, x);
            }
        },
        None => {},
    }
}

proof fn lemma_filter_count(s: Seq<Seq<char>>, f: spec_fn(Seq<char>) -> bool, x: Seq<char>)
    requires
        f(x),
    ensures
        s.filter(f).to_multiset().count(x) == s.to_multiset().count(x),
    decreases s.len(),
{
    broadcast use vstd::seq_lib::group_to_multiset_ensures;
    if s.len() > 0 {
        lemma_filter_count(s.drop_last(), f, x);
        s.drop_last().lemma_filter_push(s.last(), f);
        assert(s.drop_last().push(s.last()) =~= s);
    } else {
        reveal(Seq::filter);
        assert(s.filter(f) =~= s);
    }
}

} // verus!
