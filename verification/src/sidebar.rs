//! Sidebars: the entries read from a sidebar file, the entries they become, and how an
//! entry is rendered as a list item.
//!
//! Rendering needs outside work for some parts (a link through the page it points to,
//! the sub-pages of a page, the WebExtension API entries); an entry is rendered as a
//! sequence of pieces, literal HTML or one such request, for the caller to carry out in
//! order.
use vstd::prelude::*;
use crate::locale::{Locale, spec_url_str};
use crate::page::{PageRef, PageType};
use crate::text::{chars_of, push_str, starts_with, str_eq, string_of};

verus! {

/// Whether an entry is a `<details>` element, and whether it is open.
#[derive(Clone, Copy, Debug, Default, PartialEq, Eq, Structural)]
pub enum Details {
    /// No `<details>` element.
    #[default]
    Unset,
    Closed,
    Open,
}

impl Details {
    /// The entry is a `<details>` element.
    pub fn is_set(&self) -> (r: bool)
        ensures
            r == (*self is Closed || *self is Open),
    {
        match self {
            Details::Closed | Details::Open => true,
            Details::Unset => false,
        }
    }

    /// The entry is an open `<details>` element.
    pub fn is_open(&self) -> (r: bool)
        ensures
            r == (*self is Open),
    {
        match self {
            Details::Open => true,
            _ => false,
        }
    }
}

/// The entry is no `<details>` element (then the field is not written out).
pub fn details_is_none(details: &Details) -> (r: bool)
    ensures
        r == (*details is Unset),
{
    match details {
        Details::Unset => true,
        _ => false,
    }
}

/// A plain entry of a sidebar file.
#[derive(Debug, Default)]
pub struct BasicEntry {
    pub link: Option<String>,
    pub hash: Option<String>,
    pub title: Option<String>,
    pub details: Details,
    pub code: bool,
    pub children: Vec<SidebarEntry>,
}

/// An entry of a sidebar file that lists the sub-pages of a page.
#[derive(Clone, Debug, Default)]
pub struct SubPageEntry {
    pub path: String,
    pub title: Option<String>,
    pub link: Option<String>,
    pub hash: Option<String>,
    pub tags: Vec<PageType>,
    pub details: Details,
    pub code: bool,
    pub include_parent: bool,
}

/// An entry of a sidebar file that lists the WebExtension API.
#[derive(Clone, Debug, Default)]
pub struct WebExtApiEntry {
    pub title: String,
}

/// An entry of a sidebar file.
#[derive(Debug)]
pub enum SidebarEntry {
    Section(BasicEntry),
    ListSubPages(SubPageEntry),
    ListSubPagesGrouped(SubPageEntry),
    WebExtApi(WebExtApiEntry),
    Default(BasicEntry),
    Link(String),
    /// An entry that is nothing of the above.
    Empty,
}

/// A sidebar file: its entries and their translations.
#[derive(Debug, Default)]
pub struct Sidebar {
    pub sidebar: Vec<SidebarEntry>,
    pub l10n: SidebarL10n,
}

/// Translations of the labels of a sidebar, per locale, each locale and key once.
#[derive(Clone, Debug, Default)]
pub struct SidebarL10n {
    pub l10n: Vec<(Locale, Vec<(String, String)>)>,
}

/// The translations for `locale`.
pub open spec fn l10n_for(l: Seq<(Locale, Vec<(String, String)>)>, locale: Locale) -> Option<Seq<(String, String)>>
    decreases l.len(),
{
    if l.len() == 0 {
        None
    } else if l[0].0 == locale {
        Some(l[0].1@)
    } else {
        l10n_for(l.drop_first(), locale)
    }
}

/// The translation of `key` among `kv`.
pub open spec fn l10n_key(kv: Seq<(String, String)>, key: Seq<char>) -> Option<Seq<char>>
    decreases kv.len(),
{
    if kv.len() == 0 {
        None
    } else if kv[0].0@ == key {
        Some(kv[0].1@)
    } else {
        l10n_key(kv.drop_first(), key)
    }
}

/// The translation of `key` for `locale`.
pub open spec fn l10n_get(l: SidebarL10n, key: Seq<char>, locale: Locale) -> Option<Seq<char>> {
    match l10n_for(l.l10n@, locale) {
        Some(kv) => l10n_key(kv, key),
        None => None,
    }
}

/// What a label reads in `locale`: its translation, else its en-US translation, else
/// the label itself.
pub open spec fn spec_lookup(l: SidebarL10n, key: Seq<char>, locale: Locale) -> Seq<char> {
    match l10n_get(l, key, locale) {
        Some(s) => s,
        None => match l10n_get(l, key, Locale::EnUs) {
            Some(s) => s,
            None => key,
        },
    }
}

fn l10n_get_exec<'a>(l: &'a SidebarL10n, key: &str, locale: Locale) -> (r: Option<&'a str>)
    ensures
        match r {
            Some(s) => l10n_get(*l, key@, locale) == Some(s@),
            None => l10n_get(*l, key@, locale) is None,
        },
{
    let n = l.l10n.len();
    let mut i: usize = 0;
    assert(l.l10n@.skip(0) =~= l.l10n@);
    while i < n
        invariant
            n == l.l10n@.len(),
            i <= n,
            l10n_for(l.l10n@, locale) == l10n_for(l.l10n@.skip(i as int), locale),
        decreases n - i,
    {
        assert(l.l10n@.skip(i as int).drop_first() =~= l.l10n@.skip(i + 1));
        assert(l.l10n@.skip(i as int)[0] == l.l10n@[i as int]);
        if l.l10n[i].0 == locale {
            let kv = &l.l10n[i].1;
            let m = kv.len();
            let mut j: usize = 0;
            assert(kv@.skip(0) =~= kv@);
            while j < m
                invariant
                    m == kv@.len(),
                    j <= m,
                    l10n_for(l.l10n@, locale) == Some(kv@),
                    l10n_key(kv@, key@) == l10n_key(kv@.skip(j as int), key@),
                decreases m - j,
            {
                assert(kv@.skip(j as int).drop_first() =~= kv@.skip(j + 1));
                assert(kv@.skip(j as int)[0] == kv@[j as int]);
                if str_eq(kv[j].0.as_str(), key) {
                    return Some(kv[j].1.as_str());
                }
                j += 1;
            }
            return None;
        }
        i += 1;
    }
    None
}

impl SidebarL10n {
    /// What label `key` reads in `locale`: its translation, else its en-US one, else the
    /// key itself.
    pub fn lookup<'a>(&'a self, key: &'a str, locale: Locale) -> (r: &'a str)
        ensures
            r@ == spec_lookup(*self, key@, locale),
    {
        let s = l10n_get_exec(self, key, locale);
        match s {
            Some(t) => t,
            None => {
                if locale == Locale::EnUs {
                    key
                } else {
                    match l10n_get_exec(self, key, Locale::EnUs) {
                        Some(t) => t,
                        None => key,
                    }
                }
            },
        }
    }

    /// There are no translations.
    pub fn is_empty(&self) -> (r: bool)
        ensures
            r == (self.l10n@.len() == 0),
    {
        self.l10n.len() == 0
    }
}

/// What an entry holds below itself.
#[derive(Debug, Default)]
pub enum MetaChildren {
    Children(Vec<SidebarMetaEntry>),
    ListSubPages(String, Vec<PageType>, bool, bool),
    ListSubPagesGrouped { path: String, tags: Vec<PageType>, code: bool, include_parent: bool },
    WebExtApi,
    /// Nothing.
    #[default]
    NoChildren,
}

/// What an entry shows.
#[derive(Debug)]
pub enum SidebarMetaEntryContent {
    Link { link: Option<String>, title: Option<String> },
    LinkWithHash { link: String, title: Option<String>, hash: String },
    Page(PageRef),
}

/// `c` is the content made of a link, a title and a hash: a link with a hash where
/// both are there, else a link (the hash dropped).
pub open spec fn content_from(link: Option<String>, title: Option<String>, hash: Option<String>, c: SidebarMetaEntryContent) -> bool {
    match (link, hash) {
        (Some(l), Some(h)) => c == SidebarMetaEntryContent::LinkWithHash { link: l, title, hash: h },
        _ => c == SidebarMetaEntryContent::Link { link, title },
    }
}

impl SidebarMetaEntryContent {
    /// The content made of a link, a title and a hash: a link with a hash where both are
    /// there, else a link.
    pub fn from_link_title_hash(link: Option<String>, title: Option<String>, hash: Option<String>) -> (r: Self)
        ensures
            content_from(link, title, hash, r),
    {
        match (link, hash) {
            (Some(link), Some(hash)) => SidebarMetaEntryContent::LinkWithHash { link, title, hash },
            (link, _) => SidebarMetaEntryContent::Link { link, title },
        }
    }
}

/// An entry of a sidebar as it is rendered.
#[derive(Debug)]
pub struct SidebarMetaEntry {
    pub details: Details,
    pub section: bool,
    pub code: bool,
    pub content: SidebarMetaEntryContent,
    pub children: MetaChildren,
}

/// A sidebar as it is rendered.
#[derive(Debug)]
pub struct MetaSidebar {
    pub entries: Vec<SidebarMetaEntry>,
    pub l10n: SidebarL10n,
}

/// Why a sidebar cannot be built or rendered.
#[derive(Debug, Clone, Copy, PartialEq, Eq, Structural)]
pub enum SidebarError {
    /// An entry of the sidebar file is none of the known kinds.
    InvalidSidebarEntry,
    /// A WebExtension API entry is rendered without the page's slug.
    SlugRequiredForSidebarEntry,
}

/// The entry holds an entry that is none of the known kinds, at any depth.
pub open spec fn has_invalid(e: SidebarEntry) -> bool
    decreases e,
{
    match e {
        SidebarEntry::Section(b) => list_has_invalid(b.children@),
        SidebarEntry::Default(b) => list_has_invalid(b.children@),
        SidebarEntry::Empty => true,
        _ => false,
    }
}

/// One of the entries holds an entry that is none of the known kinds.
pub open spec fn list_has_invalid(es: Seq<SidebarEntry>) -> bool
    decreases es,
{
    if es.len() == 0 {
        false
    } else {
        list_has_invalid(es.drop_last()) || has_invalid(es.last())
    }
}

/// `m` is the rendered form of the sidebar file entry `e`.
pub open spec fn meta_of(e: SidebarEntry, m: SidebarMetaEntry) -> bool
    decreases e,
{
    match e {
        SidebarEntry::Section(b) => m.section && m.details == b.details && m.code == b.code
            && content_from(b.link, b.title, b.hash, m.content) && if b.children@.len() == 0 {
            m.children is NoChildren
        } else {
            m.children matches MetaChildren::Children(cs) && metas_of(b.children@, cs@)
        },
        SidebarEntry::Default(b) => !m.section && m.details == b.details && m.code == b.code
            && content_from(b.link, b.title, b.hash, m.content) && if b.children@.len() == 0 {
            m.children is NoChildren
        } else {
            m.children matches MetaChildren::Children(cs) && metas_of(b.children@, cs@)
        },
        SidebarEntry::ListSubPages(s) => !m.section && m.details == s.details && !m.code
            && content_from(s.link, s.title, s.hash, m.content)
            && m.children == MetaChildren::ListSubPages(s.path, s.tags, s.code, s.include_parent),
        SidebarEntry::ListSubPagesGrouped(s) => !m.section && m.details == s.details && !m.code
            && content_from(s.link, s.title, s.hash, m.content)
            && m.children == (MetaChildren::ListSubPagesGrouped {
                path: s.path,
                tags: s.tags,
                code: s.code,
                include_parent: s.include_parent,
            }),
        SidebarEntry::Link(l) => !m.section && m.details == Details::Unset && !m.code
            && m.content == (SidebarMetaEntryContent::Link { link: Some(l), title: None })
            && m.children is NoChildren,
        SidebarEntry::WebExtApi(w) => !m.section && m.details == Details::Closed && !m.code
            && m.content == (SidebarMetaEntryContent::Link { link: None, title: Some(w.title) })
            && m.children is WebExtApi,
        SidebarEntry::Empty => false,
    }
}

/// `ms` are the rendered forms of the sidebar file entries `es`, in order.
pub open spec fn metas_of(es: Seq<SidebarEntry>, ms: Seq<SidebarMetaEntry>) -> bool
    decreases es,
{
    if es.len() == 0 {
        ms.len() == 0
    } else {
        ms.len() == es.len() && metas_of(es.drop_last(), ms.drop_last()) && meta_of(es.last(), ms.last())
    }
}

#[verifier::loop_isolation(false)]
fn entries_try_into(es: Vec<SidebarEntry>) -> (r: Result<Vec<SidebarMetaEntry>, SidebarError>)
    ensures
        match r {
            Ok(ms) => !list_has_invalid(es@) && metas_of(es@, ms@),
            Err(e) => list_has_invalid(es@) && e == SidebarError::InvalidSidebarEntry,
        },
    decreases es,
{
    let ghost orig = es;
    let ghost all = es@;
    let mut rev: Vec<SidebarEntry> = Vec::new();
    let mut src = es;
    while src.len() > 0
        invariant
            src@ + rev@.reverse() == all,
        decreases src@.len(),
    {
        let e = src.pop().unwrap();
        proof {
            assert(src@.push(e) + rev@.reverse() =~= src@ + rev@.push(e).reverse());
        }
        rev.push(e);
    }
    assert(rev@.reverse() =~= all);
    let mut out: Vec<SidebarMetaEntry> = Vec::new();
    let ghost mut i: int = 0;
    assert(all.take(0) =~= Seq::<SidebarEntry>::empty());
    while rev.len() > 0
        invariant
            0 <= i <= all.len(),
            i + rev@.len() == all.len(),
            rev@.reverse() == all.skip(i),
            !list_has_invalid(all.take(i)),
            metas_of(all.take(i), out@),
            all == orig@,
        decreases rev@.len(),
    {
        let ghost old_rev = rev@;
        proof {
            assert(rev@.reverse()[0] == all[i]);
            assert(rev@[rev@.len() - 1] == rev@.reverse()[0]);
        }
        let e = rev.pop().unwrap();
        proof {
            assert(rev@.reverse() =~= old_rev.reverse().skip(1));
            assert(all.skip(i).skip(1) =~= all.skip(i + 1));
            assert(all.take(i + 1).drop_last() =~= all.take(i));
            assert(all.take(i + 1).last() == e);
            assert(e == all[i]);
            vstd::std_specs::vec::axiom_vec_index_decreases(orig, i);
            assert(decreases_to!(orig => e));
        }
        let ghost old_out = out@;
        match entry_try_into(e) {
            Ok(m) => {
                out.push(m);
                assert(out@.drop_last() =~= old_out);
            },
            Err(err) => {
                proof {
                    assert(list_has_invalid(all.take(i + 1)));
                    lemma_invalid_prefix(all, i + 1);
                    assert(list_has_invalid(all));
                    assert(all == orig@);
                }
                return Err(err);
            },
        }
        proof {
            i = i + 1;
        }
    }
    assert(all.take(all.len() as int) =~= all);
    Ok(out)
}

proof fn lemma_invalid_prefix(es: Seq<SidebarEntry>, k: int)
    requires
        0 <= k <= es.len(),
        list_has_invalid(es.take(k)),
    ensures
        list_has_invalid(es),
    decreases es.len() - k,
{
    if k < es.len() {
        assert(es.take(k + 1).drop_last() =~= es.take(k));
        lemma_invalid_prefix(es, k + 1);
    } else {
        assert(es.take(k) =~= es);
    }
}

/// The rendered form of a sidebar file entry; an error where it, or an entry below it,
/// is none of the known kinds.
pub fn entry_try_into(value: SidebarEntry) -> (r: Result<SidebarMetaEntry, SidebarError>)
    ensures
        match r {
            Ok(m) => !has_invalid(value) && meta_of(value, m),
            Err(e) => has_invalid(value) && e == SidebarError::InvalidSidebarEntry,
        },
    decreases value,
{
    match value {
        SidebarEntry::Section(b) => {
            let BasicEntry { link, hash, title, details, code, children } = b;
            let content = SidebarMetaEntryContent::from_link_title_hash(link, title, hash);
            let children = if children.len() == 0 {
                MetaChildren::NoChildren
            } else {
                proof {
                    assert(decreases_to!(value => children));
                }
                match entries_try_into(children) {
                    Ok(cs) => MetaChildren::Children(cs),
                    Err(e) => return Err(e),
                }
            };
            Ok(SidebarMetaEntry { section: true, details, code, content, children })
        },
        SidebarEntry::Default(b) => {
            let BasicEntry { link, hash, title, details, code, children } = b;
            let content = SidebarMetaEntryContent::from_link_title_hash(link, title, hash);
            let children = if children.len() == 0 {
                MetaChildren::NoChildren
            } else {
                proof {
                    assert(decreases_to!(value => children));
                }
                match entries_try_into(children) {
                    Ok(cs) => MetaChildren::Children(cs),
                    Err(e) => return Err(e),
                }
            };
            Ok(SidebarMetaEntry { section: false, details, code, content, children })
        },
        SidebarEntry::ListSubPages(s) => {
            let SubPageEntry { path, title, link, hash, tags, details, code, include_parent } = s;
            Ok(SidebarMetaEntry {
                section: false,
                details,
                code: false,
                content: SidebarMetaEntryContent::from_link_title_hash(link, title, hash),
                children: MetaChildren::ListSubPages(path, tags, code, include_parent),
            })
        },
        SidebarEntry::ListSubPagesGrouped(s) => {
            let SubPageEntry { path, title, link, hash, tags, details, code, include_parent } = s;
            Ok(SidebarMetaEntry {
                section: false,
                details,
                code: false,
                content: SidebarMetaEntryContent::from_link_title_hash(link, title, hash),
                children: MetaChildren::ListSubPagesGrouped { path, tags, code, include_parent },
            })
        },
        SidebarEntry::Link(link) => Ok(SidebarMetaEntry {
            section: false,
            details: Details::Unset,
            code: false,
            content: SidebarMetaEntryContent::from_link_title_hash(Some(link), None, None),
            children: MetaChildren::NoChildren,
        }),
        SidebarEntry::WebExtApi(w) => Ok(SidebarMetaEntry {
            section: false,
            code: false,
            details: Details::Closed,
            content: SidebarMetaEntryContent::from_link_title_hash(None, Some(w.title), None),
            children: MetaChildren::WebExtApi,
        }),
        SidebarEntry::Empty => Err(SidebarError::InvalidSidebarEntry),
    }
}

impl MetaSidebar {
    /// The rendered form of a sidebar file: its entries converted, its translations
    /// kept; an error where an entry is none of the known kinds.
    pub fn try_from(value: Sidebar) -> (r: Result<MetaSidebar, SidebarError>)
        ensures
            match r {
                Ok(m) => !list_has_invalid(value.sidebar@) && metas_of(value.sidebar@, m.entries@)
                    && m.l10n == value.l10n,
                Err(e) => list_has_invalid(value.sidebar@) && e == SidebarError::InvalidSidebarEntry,
            },
    {
        let Sidebar { sidebar, l10n } = value;
        match entries_try_into(sidebar) {
            Ok(entries) => Ok(MetaSidebar { entries, l10n }),
            Err(e) => Err(e),
        }
    }
}

/// A piece of a rendered entry: literal HTML, or a request for the caller to render
/// something that needs the site's pages.
#[derive(Debug)]
pub enum RenderPiece {
    /// Literal HTML.
    Html(String),
    /// A link rendered through the page it points to.
    LinkViaPage { link: String, title: Option<String>, code: bool },
    /// A link to a page.
    LinkFromPage { page: PageRef, code: bool, only_en_us: bool },
    /// The direct sub-pages of the page at `url`, of the given types.
    ListSubPages { url: String, page_types: Vec<PageType>, code: bool, include_parent: bool },
    /// The sub-pages of the page at `url`, grouped.
    ListSubPagesGrouped { url: String, page_types: Vec<PageType>, code: bool, include_parent: bool },
    /// The WebExtension API entries for the page with slug `slug`, each rendered as an
    /// entry.
    WebExtApi { slug: String },
}

/// A piece of a rendered entry, its texts as character sequences.
pub enum PieceView {
    Html(Seq<char>),
    LinkViaPage(Seq<char>, Option<Seq<char>>, bool),
    LinkFromPage(PageRef, bool, bool),
    ListSubPages(Seq<char>, Seq<PageType>, bool, bool),
    ListSubPagesGrouped(Seq<char>, Seq<PageType>, bool, bool),
    WebExtApi(Seq<char>),
}

/// The view of a piece.
pub open spec fn piece_view(p: RenderPiece) -> PieceView {
    match p {
        RenderPiece::Html(h) => PieceView::Html(h@),
        RenderPiece::LinkViaPage { link, title, code } => PieceView::LinkViaPage(link@, match title {
            Some(t) => Some(t@),
            None => None,
        }, code),
        RenderPiece::LinkFromPage { page, code, only_en_us } => PieceView::LinkFromPage(page, code, only_en_us),
        RenderPiece::ListSubPages { url, page_types, code, include_parent } => PieceView::ListSubPages(url@, page_types@, code, include_parent),
        RenderPiece::ListSubPagesGrouped { url, page_types, code, include_parent } => PieceView::ListSubPagesGrouped(url@, page_types@, code, include_parent),
        RenderPiece::WebExtApi { slug } => PieceView::WebExtApi(slug@),
    }
}

/// The views of pieces.
pub open spec fn pieces_view(ps: Seq<RenderPiece>) -> Seq<PieceView> {
    ps.map_values(|p: RenderPiece| piece_view(p))
}

/// Literal HTML.
pub open spec fn html(s: Seq<char>) -> Seq<PieceView> {
    seq![PieceView::Html(s)]
}

/// HTML `s` where `b` holds, nothing else.
pub open spec fn html_if(b: bool, s: Seq<char>) -> Seq<PieceView> {
    if b { html(s) } else { seq![] }
}

/// The URL of the page whose sub-pages are listed: `path` where it starts with `/en-US/`,
/// else `/en-US/docs` and `path`.
pub open spec fn sub_pages_url(path: Seq<char>) -> Seq<char> {
    if "/en-US/"@.is_prefix_of(path) {
        path
    } else {
        "/en-US/docs"@ + path
    }
}

/// A title as it reads in `locale`.
pub open spec fn looked_up(l10n: SidebarL10n, title: Option<String>, locale: Locale) -> Option<Seq<char>> {
    match title {
        Some(t) => Some(spec_lookup(l10n, t@, locale)),
        None => None,
    }
}

/// The pieces of what an entry shows.
pub open spec fn content_pieces(e: SidebarMetaEntry, locale: Locale, l10n: SidebarL10n) -> Seq<PieceView> {
    match e.content {
        SidebarMetaEntryContent::LinkWithHash { link, title, hash } => seq![PieceView::LinkViaPage(
            link@ + "#"@ + spec_lookup(l10n, hash@, locale),
            looked_up(l10n, title, locale),
            e.code,
        )],
        SidebarMetaEntryContent::Link { link: Some(link), title } => seq![PieceView::LinkViaPage(
            link@,
            looked_up(l10n, title, locale),
            e.code,
        )],
        SidebarMetaEntryContent::Link { link: None, title } => html_if(e.code, "<code>"@) + html(
            match looked_up(l10n, title, locale) {
                Some(t) => t,
                None => seq![],
            },
        ) + html_if(e.code, "</code>"@),
        SidebarMetaEntryContent::Page(page) => seq![PieceView::LinkFromPage(page, e.code, page.locale != locale)],
    }
}

/// The entry is a `<details>` element.
pub open spec fn is_set(e: SidebarMetaEntry) -> bool {
    e.details is Closed || e.details is Open
}

/// The entry holds something below itself.
pub open spec fn has_children(e: SidebarMetaEntry) -> bool {
    !(e.children is NoChildren)
}

/// The opening of an entry's list item, up to what it shows.
pub open spec fn head_pieces(e: SidebarMetaEntry) -> Seq<PieceView> {
    html("<li"@) + html_if(e.section, " class=\"section\""@) + html_if(
        is_set(e) || has_children(e),
        " class=\"toggle\""@,
    ) + (if is_set(e) {
        html("><details"@) + html_if(e.details is Open, " open "@) + html("><summary"@)
    } else {
        seq![]
    }) + html(">"@)
}

/// What follows what an entry shows, before what it holds.
pub open spec fn mid_pieces(e: SidebarMetaEntry) -> Seq<PieceView> {
    html_if(is_set(e), "</summary>"@) + html_if(has_children(e), "<ol>"@)
}

/// The closing of an entry's list item.
pub open spec fn tail_pieces(e: SidebarMetaEntry) -> Seq<PieceView> {
    html_if(has_children(e), "</ol>"@) + html_if(is_set(e), "</details>"@) + html("</li>"@)
}

/// The pieces of what an entry holds; none where a WebExtension API entry is met
/// without a slug.
pub open spec fn kids_pieces(e: SidebarMetaEntry, locale: Locale, slug: Option<Seq<char>>, l10n: SidebarL10n) -> Option<Seq<PieceView>>
    decreases e, 0nat,
{
    match e.children {
        MetaChildren::Children(cs) => list_pieces(cs@, locale, slug, l10n),
        MetaChildren::ListSubPages(url, types, code, include_parent) => Some(seq![PieceView::ListSubPages(sub_pages_url(url@), types@, code, include_parent)]),
        MetaChildren::ListSubPagesGrouped { path, tags, code, include_parent } => Some(seq![PieceView::ListSubPagesGrouped(sub_pages_url(path@), tags@, code, include_parent)]),
        MetaChildren::WebExtApi => match slug {
            Some(s) => Some(seq![PieceView::WebExtApi(s)]),
            None => None,
        },
        MetaChildren::NoChildren => Some(seq![]),
    }
}

/// The pieces of an entry rendered as a list item; none where a WebExtension API entry
/// is met without a slug.
pub open spec fn entry_pieces(e: SidebarMetaEntry, locale: Locale, slug: Option<Seq<char>>, l10n: SidebarL10n) -> Option<Seq<PieceView>>
    decreases e, 1nat,
{
    match kids_pieces(e, locale, slug, l10n) {
        Some(k) => Some(head_pieces(e) + content_pieces(e, locale, l10n) + mid_pieces(e) + k + tail_pieces(e)),
        None => None,
    }
}

/// The pieces of entries rendered one after the other.
pub open spec fn list_pieces(es: Seq<SidebarMetaEntry>, locale: Locale, slug: Option<Seq<char>>, l10n: SidebarL10n) -> Option<Seq<PieceView>>
    decreases es, 2nat,
{
    if es.len() == 0 {
        Some(seq![])
    } else {
        match (list_pieces(es.drop_last(), locale, slug, l10n), entry_pieces(es.last(), locale, slug, l10n)) {
            (Some(a), Some(b)) => Some(a + b),
            _ => None,
        }
    }
}

/// The text of an optional string slice.
pub open spec fn opt_str(s: Option<&str>) -> Option<Seq<char>> {
    match s {
        Some(t) => Some(t@),
        None => None,
    }
}

fn emit(out: &mut Vec<RenderPiece>, s: &str)
    ensures
        pieces_view(final(out)@) == pieces_view(old(out)@) + html(s@),
{
    out.push(RenderPiece::Html(string_of(chars_of(s).as_slice())));
    assert(pieces_view(out@) =~= pieces_view(old(out)@) + html(s@));
}

fn emit_piece(out: &mut Vec<RenderPiece>, p: RenderPiece)
    ensures
        pieces_view(final(out)@) == pieces_view(old(out)@) + seq![piece_view(p)],
{
    let ghost pv = piece_view(p);
    out.push(p);
    assert(pieces_view(out@) =~= pieces_view(old(out)@) + seq![pv]);
}

pub(crate) fn clone_page(p: &PageRef) -> (r: PageRef)
    ensures
        r == *p,
{
    PageRef { url: p.url.clone(), slug: p.slug.clone(), title: p.title.clone(), short_title: p.short_title.clone(), locale: p.locale, page_type: p.page_type }
}

fn clone_types(v: &Vec<PageType>) -> (r: Vec<PageType>)
    ensures
        r@ == v@,
{
    let mut r: Vec<PageType> = Vec::new();
    let n = v.len();
    let mut i: usize = 0;
    while i < n
        invariant
            n == v@.len(),
            i <= n,
            r@ == v@.take(i as int),
        decreases n - i,
    {
        r.push(v[i]);
        assert(v@.take(i + 1) =~= v@.take(i as int).push(v@[i as int]));
        i += 1;
    }
    assert(v@.take(n as int) =~= v@);
    r
}

fn sub_pages_url_exec(path: &String) -> (r: String)
    ensures
        r@ == sub_pages_url(path@),
{
    let v = chars_of(path.as_str());
    let p = chars_of("/en-US/");
    if starts_with(v.as_slice(), p.as_slice()) {
        path.clone()
    } else {
        let mut r = String::new();
        push_str(&mut r, "/en-US/docs");
        push_str(&mut r, path.as_str());
        r
    }
}

fn lookup_title(l10n: &SidebarL10n, title: &Option<String>, locale: Locale) -> (r: Option<String>)
    ensures
        match r {
            Some(t) => looked_up(*l10n, *title, locale) == Some(t@),
            None => looked_up(*l10n, *title, locale) is None,
        },
{
    match title {
        Some(t) => Some(string_of(chars_of(l10n.lookup(t.as_str(), locale)).as_slice())),
        None => None,
    }
}

impl SidebarMetaEntry {
    fn has_children_exec(&self) -> (r: bool)
        ensures
            r == has_children(*self),
    {
        match self.children {
            MetaChildren::NoChildren => false,
            _ => true,
        }
    }

    fn render_head(&self, out: &mut Vec<RenderPiece>)
        ensures
            pieces_view(final(out)@) == pieces_view(old(out)@) + head_pieces(*self),
    {
        let ghost o0 = pieces_view(out@);
        let set = self.details.is_set();
        let kids = self.has_children_exec();
        emit(out, "<li");
        let ghost o1 = pieces_view(out@);
        if self.section {
            emit(out, " class=\"section\"");
        }
        assert(pieces_view(out@) == o1 + html_if(self.section, " class=\"section\""@));
        let ghost o2 = pieces_view(out@);
        if set || kids {
            emit(out, " class=\"toggle\"");
        }
        assert(pieces_view(out@) == o2 + html_if(set || kids, " class=\"toggle\""@));
        let ghost o3 = pieces_view(out@);
        if set {
            emit(out, "><details");
            let ghost p1 = pieces_view(out@);
            if self.details.is_open() {
                emit(out, " open ");
            }
            assert(pieces_view(out@) == p1 + html_if(self.details is Open, " open "@));
            emit(out, "><summary");
        }
        let ghost o4 = pieces_view(out@);
        assert(o4 == o3 + (if set {
            html("><details"@) + html_if(self.details is Open, " open "@) + html("><summary"@)
        } else {
            seq![]
        }));
        emit(out, ">");
        assert(pieces_view(out@) =~= o0 + head_pieces(*self));
    }

    fn render_mid(&self, out: &mut Vec<RenderPiece>)
        ensures
            pieces_view(final(out)@) == pieces_view(old(out)@) + mid_pieces(*self),
    {
        let ghost o0 = pieces_view(out@);
        if self.details.is_set() {
            emit(out, "</summary>");
        }
        let ghost o1 = pieces_view(out@);
        assert(o1 == o0 + html_if(is_set(*self), "</summary>"@));
        if self.has_children_exec() {
            emit(out, "<ol>");
        }
        assert(pieces_view(out@) =~= o0 + mid_pieces(*self));
    }

    fn render_tail(&self, out: &mut Vec<RenderPiece>)
        ensures
            pieces_view(final(out)@) == pieces_view(old(out)@) + tail_pieces(*self),
    {
        let ghost o0 = pieces_view(out@);
        if self.has_children_exec() {
            emit(out, "</ol>");
        }
        let ghost o1 = pieces_view(out@);
        assert(o1 == o0 + html_if(has_children(*self), "</ol>"@));
        if self.details.is_set() {
            emit(out, "</details>");
        }
        let ghost o2 = pieces_view(out@);
        assert(o2 == o1 + html_if(is_set(*self), "</details>"@));
        emit(out, "</li>");
        assert(pieces_view(out@) =~= o0 + tail_pieces(*self));
    }

    fn render_content(&self, out: &mut Vec<RenderPiece>, locale: Locale, l10n: &SidebarL10n)
        ensures
            pieces_view(final(out)@) == pieces_view(old(out)@) + content_pieces(*self, locale, *l10n),
    {
        match &self.content {
            SidebarMetaEntryContent::LinkWithHash { link, title, hash } => {
                let t = lookup_title(l10n, title, locale);
                let h = l10n.lookup(hash.as_str(), locale);
                let mut l = String::new();
                push_str(&mut l, link.as_str());
                push_str(&mut l, "#");
                push_str(&mut l, h);
                assert(l@ =~= link@ + "#"@ + spec_lookup(*l10n, hash@, locale));
                emit_piece(out, RenderPiece::LinkViaPage { link: l, title: t, code: self.code });
            },
            SidebarMetaEntryContent::Link { link: Some(link), title } => {
                let t = lookup_title(l10n, title, locale);
                emit_piece(out, RenderPiece::LinkViaPage { link: link.clone(), title: t, code: self.code });
            },
            SidebarMetaEntryContent::Link { link: None, title } => {
                let t = lookup_title(l10n, title, locale);
                let ghost o0 = pieces_view(out@);
                if self.code {
                    emit(out, "<code>");
                }
                let ghost o1 = pieces_view(out@);
                assert(o1 == o0 + html_if(self.code, "<code>"@));
                match &t {
                    Some(s) => emit(out, s.as_str()),
                    None => {
                        emit(out, "");
                        proof {
                            reveal_strlit("");
                            assert(""@ =~= Seq::<char>::empty());
                        }
                    },
                }
                let ghost o2 = pieces_view(out@);
                assert(o2 == o1 + html(match looked_up(*l10n, *title, locale) {
                    Some(t) => t,
                    None => seq![],
                }));
                if self.code {
                    emit(out, "</code>");
                }
                assert(pieces_view(out@) == o2 + html_if(self.code, "</code>"@));
                assert(pieces_view(out@) =~= o0 + content_pieces(*self, locale, *l10n));
            },
            SidebarMetaEntryContent::Page(page) => {
                emit_piece(out, RenderPiece::LinkFromPage { page: clone_page(page), code: self.code, only_en_us: page.locale != locale });
            },
        }
    }

    /// Renders the entry as a list item, appending its pieces to `out`; an error where a
    /// WebExtension API entry is met and no slug is given. On that error, what was
    /// appended before it stays: the entry's head, content and middle, then the pieces
    /// of the children before the failing one (none where the entry itself lists the
    /// WebExtension API).
    pub fn render(&self, out: &mut Vec<RenderPiece>, locale: Locale, slug: Option<&str>, l10n: &SidebarL10n) -> (r: Result<(), SidebarError>)
        ensures
            match entry_pieces(*self, locale, opt_str(slug), *l10n) {
                Some(ps) => r is Ok && pieces_view(final(out)@) == pieces_view(old(out)@) + ps,
                None => {
                    let begun = pieces_view(old(out)@) + head_pieces(*self) + content_pieces(*self, locale, *l10n) + mid_pieces(*self);
                    &&& r == Err::<(), SidebarError>(SidebarError::SlugRequiredForSidebarEntry)
                    &&& begun.is_prefix_of(pieces_view(final(out)@))
                    &&& self.children is WebExtApi ==> pieces_view(final(out)@) == begun
                },
            },
        decreases self, 1nat,
    {
        let ghost o0 = pieces_view(out@);
        self.render_head(out);
        self.render_content(out, locale, l10n);
        self.render_mid(out);
        let ghost o1 = pieces_view(out@);
        assert(o1 =~= pieces_view(old(out)@) + head_pieces(*self) + content_pieces(*self, locale, *l10n) + mid_pieces(*self));
        match self.render_kids(out, locale, slug, l10n) {
            Ok(()) => {},
            Err(e) => return Err(e),
        }
        let ghost o2 = pieces_view(out@);
        self.render_tail(out);
        assert(pieces_view(out@) =~= o0 + (head_pieces(*self) + content_pieces(*self, locale, *l10n)
            + mid_pieces(*self) + (o2.skip(o1.len() as int)) + tail_pieces(*self)));
        Ok(())
    }

    fn render_kids(&self, out: &mut Vec<RenderPiece>, locale: Locale, slug: Option<&str>, l10n: &SidebarL10n) -> (r: Result<(), SidebarError>)
        ensures
            match kids_pieces(*self, locale, opt_str(slug), *l10n) {
                Some(ps) => r is Ok && pieces_view(final(out)@) == pieces_view(old(out)@) + ps,
                None => {
                    &&& r == Err::<(), SidebarError>(SidebarError::SlugRequiredForSidebarEntry)
                    &&& pieces_view(old(out)@).is_prefix_of(pieces_view(final(out)@))
                    &&& self.children is WebExtApi ==> pieces_view(final(out)@) == pieces_view(old(out)@)
                },
            },
        decreases self, 0nat,
    {
        match &self.children {
            MetaChildren::Children(children) => {
                proof {
                    assert(decreases_to!(*self => *children));
                }
                render_list(children, out, locale, slug, l10n)
            },
            MetaChildren::ListSubPages(url, page_types, code, include_parent) => {
                emit_piece(out, RenderPiece::ListSubPages {
                    url: sub_pages_url_exec(url),
                    page_types: clone_types(page_types),
                    code: *code,
                    include_parent: *include_parent,
                });
                Ok(())
            },
            MetaChildren::ListSubPagesGrouped { path, tags, code, include_parent } => {
                emit_piece(out, RenderPiece::ListSubPagesGrouped {
                    url: sub_pages_url_exec(path),
                    page_types: clone_types(tags),
                    code: *code,
                    include_parent: *include_parent,
                });
                Ok(())
            },
            MetaChildren::WebExtApi => {
                match slug {
                    Some(s) => {
                        emit_piece(out, RenderPiece::WebExtApi { slug: string_of(chars_of(s).as_slice()) });
                        Ok(())
                    },
                    None => Err(SidebarError::SlugRequiredForSidebarEntry),
                }
            },
            MetaChildren::NoChildren => {
                assert(pieces_view(out@) =~= pieces_view(old(out)@) + seq![]);
                Ok(())
            },
        }
    }
}

fn render_list(children: &Vec<SidebarMetaEntry>, out: &mut Vec<RenderPiece>, locale: Locale, slug: Option<&str>, l10n: &SidebarL10n) -> (r: Result<(), SidebarError>)
    ensures
        match list_pieces(children@, locale, opt_str(slug), *l10n) {
            Some(ps) => r is Ok && pieces_view(final(out)@) == pieces_view(old(out)@) + ps,
            None => r == Err::<(), SidebarError>(SidebarError::SlugRequiredForSidebarEntry)
                && pieces_view(old(out)@).is_prefix_of(pieces_view(final(out)@)),
        },
    decreases children, 2nat,
{
    let ghost start = pieces_view(out@);
    let n = children.len();
    let mut i: usize = 0;
    assert(children@.take(0) =~= Seq::<SidebarMetaEntry>::empty());
    assert(start =~= start + seq![]);
    while i < n
        invariant
            n == children@.len(),
            i <= n,
            start == pieces_view(old(out)@),
            list_pieces(children@.take(i as int), locale, opt_str(slug), *l10n) matches Some(ps)
                && pieces_view(out@) == start + ps,
        decreases n - i,
    {
        assert(children@.take(i + 1).drop_last() =~= children@.take(i as int));
        assert(children@.take(i + 1).last() == children@[i as int]);
        proof {
            vstd::std_specs::vec::axiom_vec_index_decreases(*children, i as int);
        }
        let ghost before = pieces_view(out@);
        match children[i].render(out, locale, slug, l10n) {
            Ok(()) => {},
            Err(e) => {
                proof {
                    lemma_list_pieces_fail(children@, locale, opt_str(slug), *l10n, i as int);
                    let ps = list_pieces(children@.take(i as int), locale, opt_str(slug), *l10n)->0;
                    let e = children@[i as int];
                    let begun = before + head_pieces(e) + content_pieces(e, locale, *l10n) + mid_pieces(e);
                    let fin = pieces_view(out@);
                    assert(begun.is_prefix_of(fin));
                    assert forall|k: int| 0 <= k < start.len() implies start[k] == fin.subrange(0, start.len() as int)[k] by {
                        assert(before[k] == start[k]);
                        assert(begun[k] == before[k]);
                        assert(fin.subrange(0, begun.len() as int)[k] == fin[k]);
                    }
                    assert(start =~= fin.subrange(0, start.len() as int));
                }
                return Err(e);
            },
        }
        proof {
            let ps = list_pieces(children@.take(i as int), locale, opt_str(slug), *l10n)->0;
            let q = entry_pieces(children@[i as int], locale, opt_str(slug), *l10n)->0;
            assert(pieces_view(out@) =~= start + (ps + q));
        }
        i += 1;
    }
    assert(children@.take(n as int) =~= children@);
    Ok(())
}

proof fn lemma_list_pieces_fail(es: Seq<SidebarMetaEntry>, locale: Locale, slug: Option<Seq<char>>, l10n: SidebarL10n, i: int)
    requires
        0 <= i < es.len(),
        entry_pieces(es[i], locale, slug, l10n) is None,
    ensures
        list_pieces(es, locale, slug, l10n) is None,
    decreases es.len(),
{
    if i < es.len() - 1 {
        assert(es.drop_last()[i] == es[i]);
        lemma_list_pieces_fail(es.drop_last(), locale, slug, l10n, i);
    }
}

impl MetaSidebar {
    fn render_internal(&self, slug: Option<&str>, locale: Locale) -> (r: Result<Vec<RenderPiece>, SidebarError>)
        ensures
            match list_pieces(self.entries@, locale, opt_str(slug), self.l10n) {
                Some(ps) => r matches Ok(v) && pieces_view(v@) == html("<ol>"@) + ps + html("</ol>"@),
                None => r == Err::<Vec<RenderPiece>, SidebarError>(SidebarError::SlugRequiredForSidebarEntry),
            },
    {
        let mut out: Vec<RenderPiece> = Vec::new();
        assert(pieces_view(out@) =~= seq![]);
        emit(&mut out, "<ol>");
        let ghost start = pieces_view(out@);
        let n = self.entries.len();
        let mut i: usize = 0;
        assert(self.entries@.take(0) =~= Seq::<SidebarMetaEntry>::empty());
        assert(start == html("<ol>"@) + seq![]);
        while i < n
            invariant
                n == self.entries@.len(),
                i <= n,
                list_pieces(self.entries@.take(i as int), locale, opt_str(slug), self.l10n) matches Some(ps)
                    && pieces_view(out@) == html("<ol>"@) + ps,
            decreases n - i,
        {
            assert(self.entries@.take(i + 1).drop_last() =~= self.entries@.take(i as int));
            assert(self.entries@.take(i + 1).last() == self.entries@[i as int]);
            match self.entries[i].render(&mut out, locale, slug, &self.l10n) {
                Ok(()) => {},
                Err(e) => {
                    proof {
                        lemma_list_pieces_fail(self.entries@, locale, opt_str(slug), self.l10n, i as int);
                    }
                    return Err(e);
                },
            }
            i += 1;
        }
        assert(self.entries@.take(n as int) =~= self.entries@);
        emit(&mut out, "</ol>");
        Ok(out)
    }

    /// Renders the sidebar as an ordered list, without a page slug; `name` names it.
    pub fn render(&self, name: &str, locale: Locale) -> (r: Result<Vec<RenderPiece>, SidebarError>)
        ensures
            match list_pieces(self.entries@, locale, None, self.l10n) {
                Some(ps) => r matches Ok(v) && pieces_view(v@) == html("<ol>"@) + ps + html("</ol>"@),
                None => r == Err::<Vec<RenderPiece>, SidebarError>(SidebarError::SlugRequiredForSidebarEntry),
            },
    {
        self.render_internal(None, locale)
    }

    /// Renders the sidebar as an ordered list for the page with slug `slug`; `name` names
    /// it.
    pub fn render_with_slug(&self, name: &str, slug: &str, locale: Locale) -> (r: Result<Vec<RenderPiece>, SidebarError>)
        ensures
            match list_pieces(self.entries@, locale, Some(slug@), self.l10n) {
                Some(ps) => r matches Ok(v) && pieces_view(v@) == html("<ol>"@) + ps + html("</ol>"@),
                None => r == Err::<Vec<RenderPiece>, SidebarError>(SidebarError::SlugRequiredForSidebarEntry),
            },
    {
        self.render_internal(Some(slug), locale)
    }
}

} // verus!
