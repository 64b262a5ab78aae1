//! The sidebar of a Web API group: its overview page, its guides and tutorials, and
//! lists of its interfaces, properties, methods and events.
use vstd::prelude::*;
use crate::data::{kv_get, kv_get_exec, l10n_json_data, GroupData, L10nFiles};
use crate::html::{api_link, event_link, APILink};
use crate::locale::Locale;
use crate::page::PageRef;
use crate::resolve::DocError;
use crate::sections::opt_view;
use crate::sidebar::{Details, MetaChildren, MetaSidebar, SidebarL10n, SidebarMetaEntry, SidebarMetaEntryContent};
use crate::text::{chars_of, push_str, replace, replace_str, slice_of, starts_with, string_of, strip_prefix};
use crate::webext::{common_label, l10n_error_is, sublist_entry};

verus! {

/// A part of an API sidebar, as a list of what makes it up.
pub enum SidebarBlock {
    /// A section heading that shows a page, in code or not.
    Page(PageRef, bool),
    /// A group of API pages under a label (see `sublist_entry`).
    ApiPages(Seq<PageRef>, Seq<char>),
    /// A group of links to URLs under a label.
    Urls(Seq<Seq<char>>, Seq<char>),
    /// A group of code links, each a title and a link, under a label.
    Links(Seq<(Seq<char>, Seq<char>)>, Seq<char>),
}

/// Where a URL of a group's guides links to: below `/docs` where it starts so, else the
/// URL itself.
pub open spec fn url_target(url: Seq<char>) -> Seq<char> {
    match strip_prefix(url, "/docs"@) {
        Some(x) => x,
        None => url,
    }
}

/// `e` is a plain entry linking to `url` (see `url_target`), without title.
pub open spec fn url_entry(e: SidebarMetaEntry, url: Seq<char>) -> bool {
    &&& e.details == Details::Unset
    &&& !e.section
    &&& !e.code
    &&& e.content matches SidebarMetaEntryContent::Link { link, title }
    &&& opt_view(link) == Some(url_target(url))
    &&& title is None
    &&& e.children is NoChildren
}

/// `e` is a code entry titled `t` linking to `l`.
pub open spec fn code_link_entry(e: SidebarMetaEntry, t: Seq<char>, l: Seq<char>) -> bool {
    &&& e.details == Details::Unset
    &&& !e.section
    &&& e.code
    &&& e.content matches SidebarMetaEntryContent::Link { link, title }
    &&& opt_view(link) == Some(l)
    &&& opt_view(title) == Some(t)
    &&& e.children is NoChildren
}

/// `e` shows block `b`: a page as a section heading, or an open group titled by its
/// label, without link, its items below it.
pub open spec fn block_entry(e: SidebarMetaEntry, b: SidebarBlock) -> bool {
    match b {
        SidebarBlock::Page(p, code) => {
            &&& e.section
            &&& e.code == code
            &&& e.details == Details::Unset
            &&& e.content == SidebarMetaEntryContent::Page(p)
            &&& e.children is NoChildren
        },
        SidebarBlock::ApiPages(pages, label) => sublist_entry(e, pages, label),
        SidebarBlock::Urls(urls, label) => {
            &&& e.details == Details::Open
            &&& !e.section
            &&& !e.code
            &&& e.content matches SidebarMetaEntryContent::Link { link, title }
            &&& link is None
            &&& opt_view(title) == Some(label)
            &&& e.children matches MetaChildren::Children(c)
            &&& c@.len() == urls.len()
            &&& forall|j: int| 0 <= j < urls.len() ==> url_entry(#[trigger] c@[j], urls[j])
        },
        SidebarBlock::Links(links, label) => {
            &&& e.details == Details::Open
            &&& !e.section
            &&& !e.code
            &&& e.content matches SidebarMetaEntryContent::Link { link, title }
            &&& link is None
            &&& opt_view(title) == Some(label)
            &&& e.children matches MetaChildren::Children(c)
            &&& c@.len() == links.len()
            &&& forall|j: int| 0 <= j < links.len() ==> code_link_entry(#[trigger] c@[j], links[j].0, links[j].1)
        },
    }
}

/// The entries show the blocks, one each, in order.
pub open spec fn shows_blocks(es: Seq<SidebarMetaEntry>, bs: Seq<SidebarBlock>) -> bool {
    &&& es.len() == bs.len()
    &&& forall|j: int| 0 <= j < es.len() ==> block_entry(#[trigger] es[j], bs[j])
}

/// The block `b` where `present`, else nothing.
pub open spec fn opt_block(present: bool, b: SidebarBlock) -> Seq<SidebarBlock> {
    if present {
        seq![b]
    } else {
        seq![]
    }
}

/// The texts of a list of strings.
pub open spec fn texts(v: Seq<String>) -> Seq<Seq<char>> {
    v.map_values(|s: String| s@)
}

/// The code links of Web API members `names`: each titled by its name (see `api_link`).
pub open spec fn member_links(names: Seq<Seq<char>>) -> Seq<(Seq<char>, Seq<char>)> {
    names.map_values(|s: Seq<char>| (s, api_link(s)))
}

/// The code links of events `names` (`Interface: name`), each titled by its name; those
/// without `: ` left out.
pub open spec fn event_links(names: Seq<Seq<char>>) -> Seq<(Seq<char>, Seq<char>)>
    decreases names.len(),
{
    if names.len() == 0 {
        seq![]
    } else {
        let rest = event_links(names.drop_last());
        match event_link(names.last()) {
            Some(l) => rest.push((names.last(), l)),
            None => rest,
        }
    }
}

/// The slug of an API group's overview page called `name`: below `Web/API/`, spaces as
/// underscores.
pub open spec fn overview_slug(name: Seq<char>) -> Seq<char> {
    "Web/API/"@ + replace(name, " "@, "_"@)
}

/// The labels of the group sidebar (properties, methods, events, interfaces, guides,
/// tutorial), or the missing translation of the first that has none.
pub open spec fn group_labels(
    files: Seq<(String, Vec<(String, Vec<(String, String)>)>)>,
    locale: Locale,
) -> Result<Seq<Seq<char>>, Option<Seq<char>>> {
    match (
        common_label(files, "Properties"@, locale),
        common_label(files, "Methods"@, locale),
        common_label(files, "Events"@, locale),
        common_label(files, "Interfaces"@, locale),
        common_label(files, "Guides"@, locale),
        common_label(files, "Tutorial"@, locale),
    ) {
        (Ok(p), Ok(m), Ok(e), Ok(i), Ok(g), Ok(t)) => Ok(seq![p, m, e, i, g, t]),
        (Err(x), _, _, _, _, _) => Err(x),
        (Ok(_), Err(x), _, _, _, _) => Err(x),
        (Ok(_), Ok(_), Err(x), _, _, _) => Err(x),
        (Ok(_), Ok(_), Ok(_), Err(x), _, _) => Err(x),
        (Ok(_), Ok(_), Ok(_), Ok(_), Err(x), _) => Err(x),
        (Ok(_), Ok(_), Ok(_), Ok(_), Ok(_), Err(x)) => Err(x),
    }
}

/// The blocks of the sidebar of group `g` under `labels` (as `group_labels` orders
/// them), `overview` being its overview page where it has one: the overview, guides,
/// tutorial, interfaces, properties, methods and events, empty lists left out.
pub open spec fn group_blocks(overview: Option<PageRef>, g: GroupData, labels: Seq<Seq<char>>) -> Seq<SidebarBlock> {
    (match overview {
        Some(p) => seq![SidebarBlock::Page(p, false)],
        None => seq![],
    }) + opt_block(g.guides@.len() > 0, SidebarBlock::Urls(texts(g.guides@), labels[4]))
        + opt_block(g.tutorial@.len() > 0, SidebarBlock::Urls(texts(g.tutorial@), labels[5]))
        + opt_block(g.interfaces@.len() > 0, SidebarBlock::Links(member_links(texts(g.interfaces@)), labels[3]))
        + opt_block(g.properties@.len() > 0, SidebarBlock::Links(member_links(texts(g.properties@)), labels[0]))
        + opt_block(g.methods@.len() > 0, SidebarBlock::Links(member_links(texts(g.methods@)), labels[1]))
        + opt_block(g.events@.len() > 0, SidebarBlock::Links(event_links(texts(g.events@)), labels[2]))
}

/// Adds the entry of block `b` where `present`.
pub(crate) proof fn lemma_add_block(
    before: Seq<SidebarMetaEntry>,
    after: Seq<SidebarMetaEntry>,
    bs: Seq<SidebarBlock>,
    present: bool,
    b: SidebarBlock,
)
    requires
        shows_blocks(before, bs),
        !present ==> after == before,
        present ==> after.len() == before.len() + 1 && after.take(before.len() as int) == before
            && block_entry(after.last(), b),
    ensures
        shows_blocks(after, bs + opt_block(present, b)),
{
    if present {
        assert forall|k: int| 0 <= k < before.len() implies after[k] == before[k] by {
            assert(after.take(before.len() as int)[k] == after[k]);
        }
        assert((bs + seq![b])[bs.len() as int] == b);
    } else {
        assert(bs + seq![] =~= bs);
    }
}

pub(crate) fn copy_str(s: &str) -> (r: String)
    ensures
        r@ == s@,
{
    let mut r = String::new();
    push_str(&mut r, s);
    r
}

fn url_target_exec(url: &str) -> (r: String)
    ensures
        r@ == url_target(url@),
{
    let v = chars_of(url);
    let pre = chars_of("/docs");
    if starts_with(v.as_slice(), pre.as_slice()) {
        let w = slice_of(v.as_slice(), pre.len(), v.len());
        assert(w@ =~= v@.skip(pre@.len() as int));
        string_of(w.as_slice())
    } else {
        string_of(v.as_slice())
    }
}

/// Adds the group of links to `urls` under `label`, unless there are none.
pub fn build_url_sublist(entries: &mut Vec<SidebarMetaEntry>, urls: &[String], label: &str)
    ensures
        urls@.len() == 0 ==> final(entries)@ == old(entries)@,
        urls@.len() > 0 ==> final(entries)@.len() == old(entries)@.len() + 1
            && final(entries)@.take(old(entries)@.len() as int) == old(entries)@
            && block_entry(final(entries)@.last(), SidebarBlock::Urls(texts(urls@), label@)),
{
    if urls.len() == 0 {
        return;
    }
    let mut children: Vec<SidebarMetaEntry> = Vec::new();
    let n = urls.len();
    let mut i: usize = 0;
    while i < n
        invariant
            n == urls@.len(),
            i <= n,
            children@.len() == i,
            forall|j: int| 0 <= j < i ==> url_entry(#[trigger] children@[j], urls@[j]@),
        decreases n - i,
    {
        let e = SidebarMetaEntry {
            details: Details::Unset,
            section: false,
            code: false,
            content: SidebarMetaEntryContent::Link { link: Some(url_target_exec(urls[i].as_str())), title: None },
            children: MetaChildren::NoChildren,
        };
        children.push(e);
        i += 1;
    }
    let e = SidebarMetaEntry {
        details: Details::Open,
        section: false,
        code: false,
        content: SidebarMetaEntryContent::Link { link: None, title: Some(copy_str(label)) },
        children: MetaChildren::Children(children),
    };
    entries.push(e);
    assert(final(entries)@.take(old(entries)@.len() as int) =~= old(entries)@);
}

/// Adds the group of code links `links` (titles and targets) under `label`, where
/// `present`.
pub fn push_link_group(entries: &mut Vec<SidebarMetaEntry>, links: Vec<(String, String)>, label: &str, present: bool)
    ensures
        !present ==> final(entries)@ == old(entries)@,
        present ==> final(entries)@.len() == old(entries)@.len() + 1
            && final(entries)@.take(old(entries)@.len() as int) == old(entries)@
            && block_entry(
            final(entries)@.last(),
            SidebarBlock::Links(links@.map_values(|p: (String, String)| (p.0@, p.1@)), label@),
        ),
{
    if !present {
        return;
    }
    let ghost ls = links@.map_values(|p: (String, String)| (p.0@, p.1@));
    let mut children: Vec<SidebarMetaEntry> = Vec::new();
    let n = links.len();
    let mut i: usize = 0;
    while i < n
        invariant
            n == links@.len(),
            ls == links@.map_values(|p: (String, String)| (p.0@, p.1@)),
            i <= n,
            children@.len() == i,
            forall|j: int| 0 <= j < i ==> code_link_entry(#[trigger] children@[j], ls[j].0, ls[j].1),
        decreases n - i,
    {
        let e = SidebarMetaEntry {
            details: Details::Unset,
            section: false,
            code: true,
            content: SidebarMetaEntryContent::Link {
                link: Some(copy_str(links[i].1.as_str())),
                title: Some(copy_str(links[i].0.as_str())),
            },
            children: MetaChildren::NoChildren,
        };
        children.push(e);
        i += 1;
    }
    let e = SidebarMetaEntry {
        details: Details::Open,
        section: false,
        code: false,
        content: SidebarMetaEntryContent::Link { link: None, title: Some(copy_str(label)) },
        children: MetaChildren::Children(children),
    };
    entries.push(e);
    assert(final(entries)@.take(old(entries)@.len() as int) =~= old(entries)@);
}

/// The code links of Web API members `names` (see `member_links`).
pub fn api_links(names: &[String]) -> (r: Vec<(String, String)>)
    ensures
        r@.map_values(|p: (String, String)| (p.0@, p.1@)) == member_links(texts(names@)),
{
    let mut r: Vec<(String, String)> = Vec::new();
    let n = names.len();
    let mut i: usize = 0;
    while i < n
        invariant
            n == names@.len(),
            i <= n,
            r@.len() == i,
            forall|j: int| 0 <= j < i ==> (#[trigger] r@[j]).0@ == names@[j]@ && r@[j].1@ == api_link(names@[j]@),
        decreases n - i,
    {
        match APILink::from(names[i].as_str()) {
            Some(l) => {
                match l.title {
                    Some(t) => r.push((t, l.link)),
                    None => {},
                }
            },
            None => {},
        }
        i += 1;
    }
    assert(r@.map_values(|p: (String, String)| (p.0@, p.1@)) =~= member_links(texts(names@)));
    r
}

/// The code links of events `names` (see `event_links`).
pub fn api_event_links(names: &[String]) -> (r: Vec<(String, String)>)
    ensures
        r@.map_values(|p: (String, String)| (p.0@, p.1@)) == event_links(texts(names@)),
{
    let mut r: Vec<(String, String)> = Vec::new();
    let n = names.len();
    let mut i: usize = 0;
    let ghost all = texts(names@);
    assert(all.take(0) =~= Seq::<Seq<char>>::empty());
    while i < n
        invariant
            n == names@.len(),
            all == texts(names@),
            i <= n,
            r@.map_values(|p: (String, String)| (p.0@, p.1@)) == event_links(all.take(i as int)),
        decreases n - i,
    {
        assert(all.take(i + 1).drop_last() =~= all.take(i as int));
        assert(all.take(i + 1).last() == names@[i as int]@);
        let ghost before = r@;
        match APILink::from_event(names[i].as_str()) {
            Some(l) => {
                match l.title {
                    Some(t) => r.push((t, l.link)),
                    None => {},
                }
                assert(r@.map_values(|p: (String, String)| (p.0@, p.1@)) =~= before.map_values(
                    |p: (String, String)| (p.0@, p.1@),
                ).push((names@[i as int]@, event_link(names@[i as int]@)->0)));
            },
            None => {},
        }
        i += 1;
    }
    assert(all.take(n as int) =~= all);
    r
}

/// The entries of the sidebar of group `g` (see `group_blocks`).
fn group_entries(
    g: &GroupData,
    overview: Option<PageRef>,
    properties_label: &String,
    methods_label: &String,
    events_label: &String,
    interfaces_label: &String,
    guides_label: &String,
    tutorial_label: &String,
) -> (entries: Vec<SidebarMetaEntry>)
    ensures
        shows_blocks(entries@, group_blocks(overview, *g, seq![
            properties_label@,
            methods_label@,
            events_label@,
            interfaces_label@,
            guides_label@,
            tutorial_label@,
        ])),
{
    let ghost labels = seq![
        properties_label@,
        methods_label@,
        events_label@,
        interfaces_label@,
        guides_label@,
        tutorial_label@,
    ];
    let ghost old_overview = overview;
    let mut entries: Vec<SidebarMetaEntry> = Vec::new();
    let ghost mut bs: Seq<SidebarBlock> = seq![];
    match overview {
        Some(p) => {
            proof {
                bs = seq![SidebarBlock::Page(p, false)];
            }
            entries.push(
                SidebarMetaEntry {
                    details: Details::Unset,
                    section: true,
                    code: false,
                    content: SidebarMetaEntryContent::Page(p),
                    children: MetaChildren::NoChildren,
                },
            );
        },
        None => {},
    }
    assert(shows_blocks(entries@, bs));
    let ghost e0 = entries@;
    build_url_sublist(&mut entries, g.guides.as_slice(), guides_label.as_str());
    proof {
        lemma_add_block(e0, entries@, bs, g.guides@.len() > 0, SidebarBlock::Urls(texts(g.guides@), labels[4]));
        bs = bs + opt_block(g.guides@.len() > 0, SidebarBlock::Urls(texts(g.guides@), labels[4]));
    }
    let ghost e1 = entries@;
    build_url_sublist(&mut entries, g.tutorial.as_slice(), tutorial_label.as_str());
    proof {
        lemma_add_block(e1, entries@, bs, g.tutorial@.len() > 0, SidebarBlock::Urls(texts(g.tutorial@), labels[5]));
        bs = bs + opt_block(g.tutorial@.len() > 0, SidebarBlock::Urls(texts(g.tutorial@), labels[5]));
    }
    let ghost e2 = entries@;
    push_link_group(&mut entries, api_links(g.interfaces.as_slice()), interfaces_label.as_str(), g.interfaces.len() > 0);
    proof {
        let b = SidebarBlock::Links(member_links(texts(g.interfaces@)), labels[3]);
        lemma_add_block(e2, entries@, bs, g.interfaces@.len() > 0, b);
        bs = bs + opt_block(g.interfaces@.len() > 0, b);
    }
    let ghost e3 = entries@;
    push_link_group(&mut entries, api_links(g.properties.as_slice()), properties_label.as_str(), g.properties.len() > 0);
    proof {
        let b = SidebarBlock::Links(member_links(texts(g.properties@)), labels[0]);
        lemma_add_block(e3, entries@, bs, g.properties@.len() > 0, b);
        bs = bs + opt_block(g.properties@.len() > 0, b);
    }
    let ghost e4 = entries@;
    push_link_group(&mut entries, api_links(g.methods.as_slice()), methods_label.as_str(), g.methods.len() > 0);
    proof {
        let b = SidebarBlock::Links(member_links(texts(g.methods@)), labels[1]);
        lemma_add_block(e4, entries@, bs, g.methods@.len() > 0, b);
        bs = bs + opt_block(g.methods@.len() > 0, b);
    }
    let ghost e5 = entries@;
    push_link_group(&mut entries, api_event_links(g.events.as_slice()), events_label.as_str(), g.events.len() > 0);
    proof {
        let b = SidebarBlock::Links(event_links(texts(g.events@)), labels[2]);
        lemma_add_block(e5, entries@, bs, g.events@.len() > 0, b);
        bs = bs + opt_block(g.events@.len() > 0, b);
        assert(bs =~= group_blocks(old_overview, *g, labels));
    }
    entries
}

/// The Web API group sidebar of `group` in `locale` (`sidebar` of the default API
/// sidebars). The labels come from the common translations `files`, the group from the
/// API groups `groups`; `page_from_slug` reads the group's overview page, where it has
/// one, at the slug `overview_slug` gives, and its error is returned. Errors: the first
/// label without translation, then `InvalidSlugForX` for a group that is not there.
pub fn sidebar<F: FnOnce(&str) -> Result<PageRef, DocError>>(
    group: &str,
    locale: Locale,
    files: &L10nFiles,
    groups: &[(String, GroupData)],
    page_from_slug: F,
) -> (r: Result<MetaSidebar, DocError>)
    requires
        forall|u: &str| call_requires(page_from_slug, (u,)),
    ensures
        match group_labels(files@, locale) {
            Err(x) => r matches Err(DocError::L10nError(e)) && l10n_error_is(e, x),
            Ok(labels) => match kv_get(groups@, group@) {
                None => r matches Err(DocError::InvalidSlugForX(s)) && s@ == group@,
                Some(g) => if g.overview@.len() > 0 {
                    exists|u: &str, res: Result<PageRef, DocError>|
                        #![trigger call_ensures(page_from_slug, (u,), res)]
                        {
                            &&& u@ == overview_slug(g.overview@[0]@)
                            &&& call_ensures(page_from_slug, (u,), res)
                            &&& match res {
                                Ok(p) => r matches Ok(s) && s.l10n.l10n@.len() == 0 && shows_blocks(
                                    s.entries@,
                                    group_blocks(Some(p), g, labels),
                                ),
                                Err(e) => r == Err::<MetaSidebar, DocError>(e),
                            }
                        }
                } else {
                    r matches Ok(s) && s.l10n.l10n@.len() == 0 && shows_blocks(s.entries@, group_blocks(None, g, labels))
                },
            },
        },
{
    let properties_label = match l10n_json_data("Common", "Properties", locale, files) {
        Ok(l) => l,
        Err(e) => return Err(DocError::L10nError(e)),
    };
    let methods_label = match l10n_json_data("Common", "Methods", locale, files) {
        Ok(l) => l,
        Err(e) => return Err(DocError::L10nError(e)),
    };
    let events_label = match l10n_json_data("Common", "Events", locale, files) {
        Ok(l) => l,
        Err(e) => return Err(DocError::L10nError(e)),
    };
    let interfaces_label = match l10n_json_data("Common", "Interfaces", locale, files) {
        Ok(l) => l,
        Err(e) => return Err(DocError::L10nError(e)),
    };
    let guides_label = match l10n_json_data("Common", "Guides", locale, files) {
        Ok(l) => l,
        Err(e) => return Err(DocError::L10nError(e)),
    };
    let tutorial_label = match l10n_json_data("Common", "Tutorial", locale, files) {
        Ok(l) => l,
        Err(e) => return Err(DocError::L10nError(e)),
    };
    let g = match kv_get_exec(groups, group) {
        Some(g) => g,
        None => return Err(DocError::InvalidSlugForX(copy_str(group))),
    };
    if g.overview.len() > 0 {
        proof {
            reveal_strlit(" ");
            reveal_strlit("_");
        }
        let mut slug = String::new();
        push_str(&mut slug, "Web/API/");
        let name = replace_str(g.overview[0].as_str(), " ", "_");
        push_str(&mut slug, name.as_str());
        let sl = slug.as_str();
        let res = page_from_slug(sl);
        let ghost gres = res;
        match res {
            Ok(p) => {
                let entries = group_entries(g, Some(p), &properties_label, &methods_label, &events_label, &interfaces_label, &guides_label, &tutorial_label);
                assert(call_ensures(page_from_slug, (sl,), gres));
                Ok(MetaSidebar { entries, l10n: SidebarL10n { l10n: Vec::new() } })
            },
            Err(e) => {
                assert(call_ensures(page_from_slug, (sl,), gres));
                Err(e)
            },
        }
    } else {
        let entries = group_entries(g, None, &properties_label, &methods_label, &events_label, &interfaces_label, &guides_label, &tutorial_label);
        Ok(MetaSidebar { entries, l10n: SidebarL10n { l10n: Vec::new() } })
    }
}

} // verus!
