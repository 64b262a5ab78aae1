//! The sidebar of the WebExtension API reference: the API namespaces, the one being
//! read expanded into its methods, properties, types and events.
use vstd::prelude::*;
use crate::data::{l10n_json_data, spec_l10n, L10nError, L10nFiles};
use crate::locale::Locale;
use crate::page::{PageRef, PageType};
use crate::sections::opt_view;
use crate::sidebar::{clone_page, Details, MetaChildren, SidebarMetaEntry, SidebarMetaEntryContent};
use crate::text::{
    chars_of, last_index, rfind_char, slice_of, str_eq, string_of, strip_prefix, strip_suffix,
    ends_with, starts_with,
};

verus! {

/// `s` after the last `c` (all of `s` where there is none).
pub open spec fn after_last(s: Seq<char>, c: char) -> Seq<char> {
    match last_index(s, c) {
        Some(i) => s.skip(i + 1),
        None => s,
    }
}

/// The title of an API page in a list: its short title; else, for an event, the last
/// segment of its slug without `_event`; else its title after the last `.`.
pub open spec fn spec_api_page_title(p: PageRef) -> Seq<char> {
    match p.short_title {
        Some(s) => s@,
        None => if p.page_type == PageType::WebApiEvent {
            let t = after_last(p.slug@, '/');
            match strip_suffix(t, "_event"@) {
                Some(x) => x,
                None => t,
            }
        } else {
            after_last(p.title@, '.')
        },
    }
}

fn after_last_exec(s: &str, c: char) -> (r: Vec<char>)
    ensures
        r@ == after_last(s@, c),
{
    let v = chars_of(s);
    match rfind_char(v.as_slice(), c) {
        Some(i) => {
            assert(i < v.len());
            let w = slice_of(v.as_slice(), i + 1, v.len());
            assert(w@ =~= v@.skip(i + 1));
            w
        },
        None => v,
    }
}

/// The title of an API page in a list (see `spec_api_page_title`).
pub fn api_page_title(page: &PageRef) -> (r: String)
    ensures
        r@ == spec_api_page_title(*page),
{
    match &page.short_title {
        Some(s) => s.clone(),
        None => {
            if page.page_type == PageType::WebApiEvent {
                let t = after_last_exec(page.slug.as_str(), '/');
                let suffix = chars_of("_event");
                if ends_with(t.as_slice(), suffix.as_slice()) {
                    let x = slice_of(t.as_slice(), 0, t.len() - suffix.len());
                    assert(x@ =~= t@.take(t@.len() - suffix@.len()));
                    string_of(x.as_slice())
                } else {
                    string_of(t.as_slice())
                }
            } else {
                string_of(after_last_exec(page.title.as_str(), '.').as_slice())
            }
        },
    }
}

/// The entry of an API page: its list title, linked (by its URL below `/en-US/docs`) in
/// code, with `children` below it.
pub open spec fn api_entry(e: SidebarMetaEntry, p: PageRef) -> bool {
    &&& e.code
    &&& !e.section
    &&& e.details == Details::Unset
    &&& e.content matches SidebarMetaEntryContent::Link { link, title }
    &&& opt_view(link) == strip_prefix(p.url@, "/en-US/docs"@)
    &&& opt_view(title) == Some(spec_api_page_title(p))
}

fn page_link(p: &PageRef) -> (r: Option<String>)
    ensures
        opt_view(r) == strip_prefix(p.url@, "/en-US/docs"@),
{
    let v = chars_of(p.url.as_str());
    let pre = chars_of("/en-US/docs");
    if starts_with(v.as_slice(), pre.as_slice()) {
        let w = slice_of(v.as_slice(), pre.len(), v.len());
        assert(w@ =~= v@.skip(pre@.len() as int));
        Some(string_of(w.as_slice()))
    } else {
        None
    }
}

fn api_entry_of(p: &PageRef) -> (r: SidebarMetaEntry)
    ensures
        api_entry(r, *p),
        r.children is NoChildren,
{
    SidebarMetaEntry {
        details: Details::Unset,
        section: false,
        code: true,
        content: SidebarMetaEntryContent::Link { link: page_link(p), title: Some(api_page_title(p)) },
        children: MetaChildren::NoChildren,
    }
}

/// The group entry `e` of `pages` under `label`: open, titled by the label, without
/// link, the pages' entries below it.
pub open spec fn sublist_entry(e: SidebarMetaEntry, pages: Seq<PageRef>, label: Seq<char>) -> bool {
    &&& e.details == Details::Open
    &&& !e.section
    &&& !e.code
    &&& e.content matches SidebarMetaEntryContent::Link { link, title }
    &&& link is None
    &&& opt_view(title) == Some(label)
    &&& e.children matches MetaChildren::Children(c)
    &&& c@.len() == pages.len()
    &&& forall|j: int| 0 <= j < pages.len() ==> api_entry(#[trigger] c@[j], pages[j]) && c@[j].children is NoChildren
}

/// Adds the group of `sub_pages` under `label` to `entries`, unless there are none.
pub fn build_sublist(entries: &mut Vec<SidebarMetaEntry>, sub_pages: &[PageRef], label: &str)
    ensures
        sub_pages@.len() == 0 ==> final(entries)@ == old(entries)@,
        sub_pages@.len() > 0 ==> final(entries)@.len() == old(entries)@.len() + 1
            && final(entries)@.take(old(entries)@.len() as int) == old(entries)@
            && sublist_entry(final(entries)@.last(), sub_pages@, label@),
{
    if sub_pages.len() == 0 {
        return;
    }
    let mut children: Vec<SidebarMetaEntry> = Vec::new();
    let n = sub_pages.len();
    let mut i: usize = 0;
    while i < n
        invariant
            n == sub_pages@.len(),
            i <= n,
            children@.len() == i,
            forall|j: int| 0 <= j < i ==> api_entry(#[trigger] children@[j], sub_pages@[j]) && children@[j].children is NoChildren,
        decreases n - i,
    {
        children.push(api_entry_of(&sub_pages[i]));
        i += 1;
    }
    let e = SidebarMetaEntry {
        details: Details::Open,
        section: false,
        code: false,
        content: SidebarMetaEntryContent::Link { link: None, title: Some(string_of(chars_of(label).as_slice())) },
        children: MetaChildren::Children(children),
    };
    entries.push(e);
    assert(final(entries)@.take(old(entries)@.len() as int) =~= old(entries)@);
}

/// The pages of `pages` of type `t`, in order.
pub open spec fn of_type(pages: Seq<PageRef>, t: PageType) -> Seq<PageRef> {
    pages.filter(|p: PageRef| p.page_type == t)
}

pub(crate) fn pages_of_type(pages: &[PageRef], t: PageType) -> (r: Vec<PageRef>)
    ensures
        r@ == of_type(pages@, t),
{
    let mut r: Vec<PageRef> = Vec::new();
    let n = pages.len();
    let mut i: usize = 0;
    assert(pages@.take(0) =~= Seq::<PageRef>::empty());
    while i < n
        invariant
            n == pages@.len(),
            i <= n,
            r@ == of_type(pages@.take(i as int), t),
        decreases n - i,
    {
        assert(pages@.take(i + 1).drop_last() =~= pages@.take(i as int));
        assert(pages@.take(i + 1).last() == pages@[i as int]);
        proof {
            reveal(Seq::filter);
        }
        if pages[i].page_type == t {
            r.push(clone_page(&pages[i]));
        }
        i += 1;
    }
    assert(pages@.take(n as int) =~= pages@);
    r
}

/// An error of looking up a label is the one `spec_l10n` describes.
pub open spec fn l10n_error_is(e: L10nError, spec_err: Option<Seq<char>>) -> bool {
    match spec_err {
        Some(k) => e matches L10nError::InvalidKey(x) && x@ == k,
        None => e is NoEnUs,
    }
}

/// The label `key` of the common translations in `locale`.
pub open spec fn common_label(files: Seq<(String, Vec<(String, Vec<(String, String)>)>)>, key: Seq<char>, locale: Locale) -> Result<Seq<char>, Option<Seq<char>>> {
    spec_l10n(files, "Common"@, key, locale)
}

/// The groups of an API namespace's pages: its methods, properties, types and events,
/// each under its label, empty groups left out.
pub open spec fn webext_groups(pages: Seq<PageRef>, p: Seq<char>, m: Seq<char>, t: Seq<char>, e: Seq<char>) -> Seq<(Seq<PageRef>, Seq<char>)> {
    seq![
        (of_type(pages, PageType::WebextensionApiFunction), m),
        (of_type(pages, PageType::WebextensionApiProperty), p),
        (of_type(pages, PageType::WebextensionApiType), t),
        (of_type(pages, PageType::WebextensionApiEvent), e),
    ].filter(|g: (Seq<PageRef>, Seq<char>)| g.0.len() > 0)
}

/// The entries of an API namespace are one group entry for each of its groups.
pub open spec fn namespace_entries(r: Seq<SidebarMetaEntry>, groups: Seq<(Seq<PageRef>, Seq<char>)>) -> bool {
    &&& r.len() == groups.len()
    &&& forall|k: int| 0 <= k < r.len() ==> sublist_entry(#[trigger] r[k], groups[k].0, groups[k].1)
}

/// What the sidebar entries of an API namespace are, `sub_pages` being the pages below
/// it: the groups of `webext_groups` under the translated labels, or the error of the
/// first label (properties, methods, types, events) that cannot be translated.
pub open spec fn spec_namespace(
    sub_pages: Seq<PageRef>,
    locale: Locale,
    files: Seq<(String, Vec<(String, Vec<(String, String)>)>)>,
    r: Result<Vec<SidebarMetaEntry>, L10nError>,
) -> bool {
    match (
        common_label(files, "Properties"@, locale),
        common_label(files, "Methods"@, locale),
        common_label(files, "Types"@, locale),
        common_label(files, "Events"@, locale),
    ) {
        (Ok(p), Ok(m), Ok(t), Ok(e)) => r matches Ok(v) && namespace_entries(v@, webext_groups(sub_pages, p, m, t, e)),
        (Err(x), _, _, _) => r matches Err(err) && l10n_error_is(err, x),
        (Ok(_), Err(x), _, _) => r matches Err(err) && l10n_error_is(err, x),
        (Ok(_), Ok(_), Err(x), _) => r matches Err(err) && l10n_error_is(err, x),
        (Ok(_), Ok(_), Ok(_), Err(x)) => r matches Err(err) && l10n_error_is(err, x),
    }
}

proof fn lemma_add_group(
    before: Seq<SidebarMetaEntry>,
    after: Seq<SidebarMetaEntry>,
    gs: Seq<(Seq<PageRef>, Seq<char>)>,
    g: (Seq<PageRef>, Seq<char>),
)
    requires
        namespace_entries(before, gs.filter(|x: (Seq<PageRef>, Seq<char>)| x.0.len() > 0)),
        g.0.len() == 0 ==> after == before,
        g.0.len() > 0 ==> after.len() == before.len() + 1 && after.take(before.len() as int) == before
            && sublist_entry(after.last(), g.0, g.1),
    ensures
        namespace_entries(after, gs.push(g).filter(|x: (Seq<PageRef>, Seq<char>)| x.0.len() > 0)),
{
    reveal(Seq::filter);
    assert(gs.push(g).drop_last() =~= gs);
    if g.0.len() > 0 {
        let f = gs.filter(|x: (Seq<PageRef>, Seq<char>)| x.0.len() > 0);
        assert forall|k: int| 0 <= k < before.len() implies after[k] == before[k] by {
            assert(after.take(before.len() as int)[k] == after[k]);
        }
        assert(f.push(g)[f.len() as int] == g);
    }
}

/// The sidebar entries of an API namespace (see `spec_namespace`); `sub_pages` are the
/// pages directly below it, in the order of their list titles.
pub fn entry(locale: Locale, files: &L10nFiles, sub_pages: &[PageRef]) -> (r: Result<Vec<SidebarMetaEntry>, L10nError>)
    ensures
        spec_namespace(sub_pages@, locale, files@, r),
{
    let properties_label = match l10n_json_data("Common", "Properties", locale, files) {
        Ok(l) => l,
        Err(e) => return Err(e),
    };
    let methods_label = match l10n_json_data("Common", "Methods", locale, files) {
        Ok(l) => l,
        Err(e) => return Err(e),
    };
    let types_label = match l10n_json_data("Common", "Types", locale, files) {
        Ok(l) => l,
        Err(e) => return Err(e),
    };
    let events_label = match l10n_json_data("Common", "Events", locale, files) {
        Ok(l) => l,
        Err(e) => return Err(e),
    };
    let properties = pages_of_type(sub_pages, PageType::WebextensionApiProperty);
    let methods = pages_of_type(sub_pages, PageType::WebextensionApiFunction);
    let types = pages_of_type(sub_pages, PageType::WebextensionApiType);
    let events = pages_of_type(sub_pages, PageType::WebextensionApiEvent);
    let ghost g0 = (methods@, methods_label@);
    let ghost g1 = (properties@, properties_label@);
    let ghost g2 = (types@, types_label@);
    let ghost g3 = (events@, events_label@);
    let mut children: Vec<SidebarMetaEntry> = Vec::new();
    proof {
        reveal(Seq::filter);
        assert(Seq::<(Seq<PageRef>, Seq<char>)>::empty().filter(|x: (Seq<PageRef>, Seq<char>)| x.0.len() > 0) =~= Seq::<(Seq<PageRef>, Seq<char>)>::empty());
    }
    let ghost c0 = children@;
    build_sublist(&mut children, methods.as_slice(), methods_label.as_str());
    proof {
        lemma_add_group(c0, children@, seq![], g0);
        assert(seq![].push(g0) =~= seq![g0]);
    }
    let ghost c1 = children@;
    build_sublist(&mut children, properties.as_slice(), properties_label.as_str());
    proof {
        lemma_add_group(c1, children@, seq![g0], g1);
        assert(seq![g0].push(g1) =~= seq![g0, g1]);
    }
    let ghost c2 = children@;
    build_sublist(&mut children, types.as_slice(), types_label.as_str());
    proof {
        lemma_add_group(c2, children@, seq![g0, g1], g2);
        assert(seq![g0, g1].push(g2) =~= seq![g0, g1, g2]);
    }
    let ghost c3 = children@;
    build_sublist(&mut children, events.as_slice(), events_label.as_str());
    proof {
        lemma_add_group(c3, children@, seq![g0, g1, g2], g3);
        assert(seq![g0, g1, g2].push(g3) =~= seq![g0, g1, g2, g3]);
    }
    Ok(children)
}

/// The four labels of an API namespace's groups (properties, methods, types, events),
/// where all of them translate.
pub open spec fn namespace_labels(files: Seq<(String, Vec<(String, Vec<(String, String)>)>)>, locale: Locale) -> Option<(Seq<char>, Seq<char>, Seq<char>, Seq<char>)> {
    match (
        common_label(files, "Properties"@, locale),
        common_label(files, "Methods"@, locale),
        common_label(files, "Types"@, locale),
        common_label(files, "Events"@, locale),
    ) {
        (Ok(p), Ok(m), Ok(t), Ok(e)) => Some((p, m, t, e)),
        _ => None,
    }
}

/// The entry `e` of the namespace page `p` in the list of namespaces: its list title,
/// linked below `/en-US/docs`; where it is the page being read (`current`), its groups
/// (of `current_sub_pages`, under `labels`) below it.
pub open spec fn namespace_list_entry(
    e: SidebarMetaEntry,
    p: PageRef,
    current: Seq<char>,
    labels: (Seq<char>, Seq<char>, Seq<char>, Seq<char>),
    current_sub_pages: Seq<PageRef>,
) -> bool {
    &&& e.details == Details::Unset
    &&& !e.section
    &&& !e.code
    &&& e.content matches SidebarMetaEntryContent::Link { link, title }
    &&& opt_view(link) == strip_prefix(p.url@, "/en-US/docs"@)
    &&& opt_view(title) == Some(spec_api_page_title(p))
    &&& if p.slug@ == current {
        e.children matches MetaChildren::Children(c) && namespace_entries(
            c@,
            webext_groups(current_sub_pages, labels.0, labels.1, labels.2, labels.3),
        )
    } else {
        e.children is NoChildren
    }
}

/// The entry that heads the list of namespaces: a link to `link`, without title.
pub open spec fn head_entry(e: SidebarMetaEntry, link: Seq<char>) -> bool {
    &&& e.details == Details::Unset
    &&& !e.section
    &&& !e.code
    &&& e.content matches SidebarMetaEntryContent::Link { link: l, title }
    &&& opt_view(l) == Some(link)
    &&& title is None
    &&& e.children is NoChildren
}

/// Adds the list of namespaces `sub_pages` to `entries`, unless there are none: an entry
/// linking to `link`, then an entry for each namespace, the one with slug
/// `current_slug` expanded into its groups (`current_sub_pages` being the pages below
/// it). Where it must be expanded and a label does not translate, only the heading entry
/// is added and the error is returned.
pub fn build_sublist_and_expand_current(
    entries: &mut Vec<SidebarMetaEntry>,
    sub_pages: &[PageRef],
    link: &str,
    current_slug: &str,
    locale: Locale,
    files: &L10nFiles,
    current_sub_pages: &[PageRef],
) -> (r: Result<(), L10nError>)
    ensures
        sub_pages@.len() == 0 ==> final(entries)@ == old(entries)@ && r is Ok,
        sub_pages@.len() > 0 ==> {
            &&& final(entries)@.take(old(entries)@.len() as int) == old(entries)@
            &&& head_entry(final(entries)@[old(entries)@.len() as int], link@)
            &&& match namespace_labels(files@, locale) {
                Some(labels) => r is Ok && final(entries)@.len() == old(entries)@.len() + 1 + sub_pages@.len()
                    && forall|j: int| 0 <= j < sub_pages@.len() ==> namespace_list_entry(
                    #[trigger] final(entries)@[old(entries)@.len() + 1 + j],
                    sub_pages@[j],
                    current_slug@,
                    labels,
                    current_sub_pages@,
                ),
                None => if exists|j: int| 0 <= j < sub_pages@.len() && (#[trigger] sub_pages@[j]).slug@ == current_slug@ {
                    r is Err && final(entries)@.len() == old(entries)@.len() + 1
                } else {
                    r is Ok && final(entries)@.len() == old(entries)@.len() + 1 + sub_pages@.len()
                },
            }
        },
{
    if sub_pages.len() == 0 {
        return Ok(());
    }
    let head = SidebarMetaEntry {
        details: Details::Unset,
        section: false,
        code: false,
        content: SidebarMetaEntryContent::Link { link: Some(string_of(chars_of(link).as_slice())), title: None },
        children: MetaChildren::NoChildren,
    };
    entries.push(head);
    let ghost with_head = entries@;
    assert(with_head.take(old(entries)@.len() as int) =~= old(entries)@);
    let mut list: Vec<SidebarMetaEntry> = Vec::new();
    let n = sub_pages.len();
    let mut i: usize = 0;
    while i < n
        invariant
            n == sub_pages@.len(),
            i <= n,
            list@.len() == i,
            entries@ == with_head,
            with_head.len() == old(entries)@.len() + 1,
            with_head.take(old(entries)@.len() as int) == old(entries)@,
            head_entry(with_head[old(entries)@.len() as int], link@),
            forall|j: int| 0 <= j < i ==> (#[trigger] sub_pages@[j]).slug@ != current_slug@ || namespace_labels(files@, locale) is Some,
            forall|j: int| 0 <= j < i ==> match namespace_labels(files@, locale) {
                Some(labels) => namespace_list_entry(#[trigger] list@[j], sub_pages@[j], current_slug@, labels, current_sub_pages@),
                None => true,
            },
        decreases n - i,
    {
        let p = &sub_pages[i];
        let children = if str_eq(p.slug.as_str(), current_slug) {
            match entry(locale, files, current_sub_pages) {
                Ok(v) => MetaChildren::Children(v),
                Err(e) => {
                    assert(namespace_labels(files@, locale) is None);
                    assert(sub_pages@[i as int].slug@ == current_slug@);
                    return Err(e);
                },
            }
        } else {
            MetaChildren::NoChildren
        };
        let e = SidebarMetaEntry {
            details: Details::Unset,
            section: false,
            code: false,
            content: SidebarMetaEntryContent::Link { link: page_link(p), title: Some(api_page_title(p)) },
            children,
        };
        list.push(e);
        i += 1;
    }
    let ghost l = list@;
    entries.append(&mut list);
    assert(entries@.take(old(entries)@.len() as int) =~= old(entries)@);
    assert forall|j: int| 0 <= j < n implies entries@[old(entries)@.len() + 1 + j] == l[j] by {}
    Ok(())
}

/// The sidebar of the WebExtension API reference, with the namespace `slug` expanded:
/// `api_pages` are the namespaces, `current_sub_pages` the pages below `slug` (see
/// `build_sublist_and_expand_current`).
pub fn children(
    slug: &str,
    locale: Locale,
    files: &L10nFiles,
    api_pages: &[PageRef],
    current_sub_pages: &[PageRef],
) -> (r: Result<Vec<SidebarMetaEntry>, L10nError>)
    ensures
        api_pages@.len() == 0 ==> (r matches Ok(v) && v@.len() == 0),
        api_pages@.len() > 0 ==> match r {
            Ok(v) => head_entry(v@[0], "/Mozilla/Add-ons/WebExtensions/Browser_support_for_JavaScript_APIs"@)
                && v@.len() == 1 + api_pages@.len() && (namespace_labels(files@, locale) matches Some(labels)
                ==> forall|j: int| 0 <= j < api_pages@.len() ==> namespace_list_entry(
                #[trigger] v@[1 + j],
                api_pages@[j],
                slug@,
                labels,
                current_sub_pages@,
            )),
            Err(_) => namespace_labels(files@, locale) is None && exists|j: int| 0 <= j < api_pages@.len() && (#[trigger] api_pages@[j]).slug@ == slug@,
        },
{
    let mut entries: Vec<SidebarMetaEntry> = Vec::new();
    match build_sublist_and_expand_current(
        &mut entries,
        api_pages,
        "/Mozilla/Add-ons/WebExtensions/Browser_support_for_JavaScript_APIs",
        slug,
        locale,
        files,
        current_sub_pages,
    ) {
        Ok(()) => {
            proof {
                if api_pages@.len() > 0 {
                    if namespace_labels(files@, locale) is Some {
                        assert forall|j: int| 0 <= j < api_pages@.len() implies namespace_list_entry(
                            #[trigger] entries@[1 + j],
                            api_pages@[j],
                            slug@,
                            namespace_labels(files@, locale)->0,
                            current_sub_pages@,
                        ) by {
                            assert(entries@[0 + 1 + j] == entries@[1 + j]);
                        }
                    }
                }
            }
            Ok(entries)
        },
        Err(e) => Err(e),
    }
}

/// A namespace has a sub-page of type `t`.
pub open spec fn has_page_of(pages: Seq<PageRef>, t: PageType) -> bool {
    exists|q: int| 0 <= q < pages.len() && (#[trigger] pages[q]).page_type == t
}

proof fn lemma_in_of_type(pages: Seq<PageRef>, t: PageType, p: PageRef)
    ensures
        of_type(pages, t).contains(p) <==> pages.contains(p) && p.page_type == t,
{
    let m = of_type(pages, t);
    assert(m == pages.filter(|q: PageRef| q.page_type == t));
    assert(exists|f: spec_fn(PageRef) -> bool| #![trigger pages.filter(f)]
        of_type(pages, t) == pages.filter(f) && forall|q: PageRef| #[trigger] f(q) == (q.page_type == t));
    let f = choose|f: spec_fn(PageRef) -> bool| #![trigger pages.filter(f)]
        of_type(pages, t) == pages.filter(f) && forall|q: PageRef| #[trigger] f(q) == (q.page_type == t);
    crate::text::lemma_filter_member(pages, f, p);
}

/// The four groups of a namespace before the empty ones are left out.
pub open spec fn all_groups(pages: Seq<PageRef>, p: Seq<char>, m: Seq<char>, t: Seq<char>, e: Seq<char>) -> Seq<(Seq<PageRef>, Seq<char>)> {
    seq![
        (of_type(pages, PageType::WebextensionApiFunction), m),
        (of_type(pages, PageType::WebextensionApiProperty), p),
        (of_type(pages, PageType::WebextensionApiType), t),
        (of_type(pages, PageType::WebextensionApiEvent), e),
    ]
}

proof fn lemma_groups_filter(pages: Seq<PageRef>, p: Seq<char>, m: Seq<char>, t: Seq<char>, e: Seq<char>)
    ensures
        exists|f: spec_fn((Seq<PageRef>, Seq<char>)) -> bool|
            #![trigger all_groups(pages, p, m, t, e).filter(f)]
            webext_groups(pages, p, m, t, e) == all_groups(pages, p, m, t, e).filter(f)
                && forall|g: (Seq<PageRef>, Seq<char>)| #[trigger] f(g) == (g.0.len() > 0),
{
    let w = webext_groups(pages, p, m, t, e);
    assert(w == all_groups(pages, p, m, t, e).filter(|g: (Seq<PageRef>, Seq<char>)| g.0.len() > 0));
}

/// The sub-pages of type `t` that a namespace lists: exactly its pages of that type, in
/// order, and none of another.
proof fn lemma_kind_listed(
    sub_pages: Seq<PageRef>,
    v: Seq<SidebarMetaEntry>,
    p: Seq<char>,
    m: Seq<char>,
    t: Seq<char>,
    e: Seq<char>,
    i: int,
)
    requires
        namespace_entries(v, webext_groups(sub_pages, p, m, t, e)),
        0 <= i < 4,
        all_groups(sub_pages, p, m, t, e)[i].0.len() > 0,
    ensures
        exists|k: int|
            0 <= k < v.len() && #[trigger] sublist_entry(v[k], all_groups(sub_pages, p, m, t, e)[i].0, all_groups(sub_pages, p, m, t, e)[i].1),
{
    let a = all_groups(sub_pages, p, m, t, e);
    lemma_groups_filter(sub_pages, p, m, t, e);
    let f = choose|f: spec_fn((Seq<PageRef>, Seq<char>)) -> bool|
        #![trigger all_groups(sub_pages, p, m, t, e).filter(f)]
        webext_groups(sub_pages, p, m, t, e) == all_groups(sub_pages, p, m, t, e).filter(f)
            && forall|g: (Seq<PageRef>, Seq<char>)| #[trigger] f(g) == (g.0.len() > 0);
    assert(f(a[i]));
    a.lemma_filter_contains(f, i);
    let w = webext_groups(sub_pages, p, m, t, e);
    let k = choose|k: int| 0 <= k < w.len() && w[k] == a[i];
    assert(sublist_entry(v[k], w[k].0, w[k].1));
}

/// Every sub-page of a WebExtension API namespace is listed under the label of its kind:
/// where all four labels translate, the namespace has one group entry for each kind it
/// has pages of (functions under "Methods", properties under "Properties", types under
/// "Types", events under "Events"), and each page of such a kind is among the pages of
/// the group entry under that kind's label, which lists exactly the namespace's pages of
/// that kind.
pub proof fn law_namespace_lists_every_kind(
    sub_pages: Seq<PageRef>,
    locale: Locale,
    files: Seq<(String, Vec<(String, Vec<(String, String)>)>)>,
    r: Result<Vec<SidebarMetaEntry>, L10nError>,
    q: int,
)
    requires
        spec_namespace(sub_pages, locale, files, r),
        common_label(files, "Properties"@, locale) is Ok,
        common_label(files, "Methods"@, locale) is Ok,
        common_label(files, "Types"@, locale) is Ok,
        common_label(files, "Events"@, locale) is Ok,
        0 <= q < sub_pages.len(),
    ensures
        r is Ok,
        ({
            let v = r->Ok_0@;
            let p = common_label(files, "Properties"@, locale)->Ok_0;
            let m = common_label(files, "Methods"@, locale)->Ok_0;
            let t = common_label(files, "Types"@, locale)->Ok_0;
            let e = common_label(files, "Events"@, locale)->Ok_0;
            let pq = sub_pages[q];
            &&& v.len() == (if has_page_of(sub_pages, PageType::WebextensionApiFunction) { 1int } else { 0int })
                + (if has_page_of(sub_pages, PageType::WebextensionApiProperty) { 1int } else { 0int })
                + (if has_page_of(sub_pages, PageType::WebextensionApiType) { 1int } else { 0int })
                + (if has_page_of(sub_pages, PageType::WebextensionApiEvent) { 1int } else { 0int })
            &&& pq.page_type == PageType::WebextensionApiFunction ==> exists|k: int| 0 <= k < v.len()
                && #[trigger] sublist_entry(v[k], of_type(sub_pages, PageType::WebextensionApiFunction), m)
                && of_type(sub_pages, PageType::WebextensionApiFunction).contains(pq)
            &&& pq.page_type == PageType::WebextensionApiProperty ==> exists|k: int| 0 <= k < v.len()
                && #[trigger] sublist_entry(v[k], of_type(sub_pages, PageType::WebextensionApiProperty), p)
                && of_type(sub_pages, PageType::WebextensionApiProperty).contains(pq)
            &&& pq.page_type == PageType::WebextensionApiType ==> exists|k: int| 0 <= k < v.len()
                && #[trigger] sublist_entry(v[k], of_type(sub_pages, PageType::WebextensionApiType), t)
                && of_type(sub_pages, PageType::WebextensionApiType).contains(pq)
            &&& pq.page_type == PageType::WebextensionApiEvent ==> exists|k: int| 0 <= k < v.len()
                && #[trigger] sublist_entry(v[k], of_type(sub_pages, PageType::WebextensionApiEvent), e)
                && of_type(sub_pages, PageType::WebextensionApiEvent).contains(pq)
        }),
{
    let v = r->Ok_0@;
    let p = common_label(files, "Properties"@, locale)->Ok_0;
    let m = common_label(files, "Methods"@, locale)->Ok_0;
    let t = common_label(files, "Types"@, locale)->Ok_0;
    let e = common_label(files, "Events"@, locale)->Ok_0;
    let a = all_groups(sub_pages, p, m, t, e);
    let pq = sub_pages[q];
    assert(sub_pages.contains(pq));
    let kinds = seq![
        PageType::WebextensionApiFunction,
        PageType::WebextensionApiProperty,
        PageType::WebextensionApiType,
        PageType::WebextensionApiEvent,
    ];
    assert forall|i: int| 0 <= i < 4 implies #[trigger] a[i].0 == of_type(sub_pages, kinds[i])
        && (a[i].0.len() > 0 <==> has_page_of(sub_pages, kinds[i])) by {
        if has_page_of(sub_pages, kinds[i]) {
            let w = choose|w: int| 0 <= w < sub_pages.len() && (#[trigger] sub_pages[w]).page_type == kinds[i];
            assert(sub_pages.contains(sub_pages[w]));
            lemma_in_of_type(sub_pages, kinds[i], sub_pages[w]);
        }
        if a[i].0.len() > 0 {
            let x = a[i].0[0];
            assert(a[i].0.contains(x));
            lemma_in_of_type(sub_pages, kinds[i], x);
            let w = choose|w: int| 0 <= w < sub_pages.len() && sub_pages[w] == x;
            assert(sub_pages[w].page_type == kinds[i]);
        }
    }
    // the number of groups
    lemma_groups_filter(sub_pages, p, m, t, e);
    let f = choose|f: spec_fn((Seq<PageRef>, Seq<char>)) -> bool|
        #![trigger all_groups(sub_pages, p, m, t, e).filter(f)]
        webext_groups(sub_pages, p, m, t, e) == all_groups(sub_pages, p, m, t, e).filter(f)
            && forall|g: (Seq<PageRef>, Seq<char>)| #[trigger] f(g) == (g.0.len() > 0);
    let e0 = Seq::<(Seq<PageRef>, Seq<char>)>::empty();
    assert(a =~= e0.push(a[0]).push(a[1]).push(a[2]).push(a[3]));
    e0.lemma_filter_len_push(f, a[0]);
    e0.push(a[0]).lemma_filter_len_push(f, a[1]);
    e0.push(a[0]).push(a[1]).lemma_filter_len_push(f, a[2]);
    e0.push(a[0]).push(a[1]).push(a[2]).lemma_filter_len_push(f, a[3]);
    reveal(Seq::filter);
    assert(e0.filter(f).len() == 0);
    assert(f(a[0]) == has_page_of(sub_pages, kinds[0]));
    assert(f(a[1]) == has_page_of(sub_pages, kinds[1]));
    assert(f(a[2]) == has_page_of(sub_pages, kinds[2]));
    assert(f(a[3]) == has_page_of(sub_pages, kinds[3]));
    // each page under its kind's label
    if pq.page_type == PageType::WebextensionApiFunction {
        assert(has_page_of(sub_pages, kinds[0]));
        lemma_kind_listed(sub_pages, v, p, m, t, e, 0);
        lemma_in_of_type(sub_pages, kinds[0], pq);
    }
    if pq.page_type == PageType::WebextensionApiProperty {
        assert(has_page_of(sub_pages, kinds[1]));
        lemma_kind_listed(sub_pages, v, p, m, t, e, 1);
        lemma_in_of_type(sub_pages, kinds[1], pq);
    }
    if pq.page_type == PageType::WebextensionApiType {
        assert(has_page_of(sub_pages, kinds[2]));
        lemma_kind_listed(sub_pages, v, p, m, t, e, 2);
        lemma_in_of_type(sub_pages, kinds[2], pq);
    }
    if pq.page_type == PageType::WebextensionApiEvent {
        assert(has_page_of(sub_pages, kinds[3]));
        lemma_kind_listed(sub_pages, v, p, m, t, e, 3);
        lemma_in_of_type(sub_pages, kinds[3], pq);
    }
}

} // verus!
