//! Splitting the top level of a rendered document into the sections of the built page:
//! prose under its `h2`/`h3` heading, compatibility tables and specification tables,
//! with the sidebar and the summary taken out.
use vstd::prelude::*;
use crate::html::BuildSectionType;
use crate::resolve::DocError;
use crate::text::{chars_of, push_str, slice_of, str_eq, string_of};

verus! {

/// An element at the top level of a document, as splitting reads it.
#[derive(Debug, Clone)]
pub struct SectionElement {
    /// The tag name.
    pub name: String,
    /// The `id` attribute.
    pub id: Option<String>,
    /// The classes.
    pub classes: Vec<String>,
    /// The `data-query` attribute.
    pub data_query: Option<String>,
    /// The `data-bcd-query` attribute.
    pub data_bcd_query: Option<String>,
    /// The `data-spec-urls` attribute.
    pub data_spec_urls: Option<String>,
    /// The `data-multiple` attribute.
    pub data_multiple: Option<String>,
    /// The element's HTML.
    pub html: String,
    /// The HTML of its content.
    pub inner_html: String,
}

/// A node at the top level of a document.
#[derive(Debug, Clone)]
pub enum SectionNode {
    Comment(String),
    Text(String),
    Element(SectionElement),
    /// A doctype or processing instruction, which splitting skips.
    Other,
}

/// A section of a built document. Its heading is given by the position of the heading
/// element among the top-level nodes.
#[derive(Debug, Clone)]
pub struct BuildSection {
    pub heading: Option<usize>,
    pub body: Vec<String>,
    pub query: Option<String>,
    pub spec_urls: Option<String>,
    pub is_h3: bool,
    pub typ: BuildSectionType,
    pub id: Option<String>,
}

/// The sections of a document, its summary (the text of its first non-empty
/// paragraph) and its sidebar (the content of `section#Quick_links`).
#[derive(Debug, Clone)]
pub struct Splitted {
    pub sections: Vec<BuildSection>,
    pub summary: Option<String>,
    pub sidebar: Option<String>,
}

/// A section as a value.
pub struct SectionModel {
    pub heading: Option<int>,
    pub body: Seq<Seq<char>>,
    pub query: Option<Seq<char>>,
    pub spec_urls: Option<Seq<char>>,
    pub is_h3: bool,
    pub typ: BuildSectionType,
    pub id: Option<Seq<char>>,
}

/// The view of an optional string.
pub open spec fn opt_view(o: Option<String>) -> Option<Seq<char>> {
    match o {
        Some(s) => Some(s@),
        None => None,
    }
}

impl View for BuildSection {
    type V = SectionModel;

    open spec fn view(&self) -> SectionModel {
        SectionModel {
            heading: match self.heading {
                Some(h) => Some(h as int),
                None => None,
            },
            body: self.body@.map_values(|b: String| b@),
            query: opt_view(self.query),
            spec_urls: opt_view(self.spec_urls),
            is_h3: self.is_h3,
            typ: self.typ,
            id: opt_view(self.id),
        }
    }
}

/// The sections so far, the open section, and the sidebar.
pub type SplitState = (Seq<SectionModel>, Option<SectionModel>, Option<Seq<char>>);

/// `s` without the newlines at its start.
pub open spec fn trim_start_nl(s: Seq<char>) -> Seq<char>
    decreases s.len(),
{
    if s.len() > 0 && s[0] == '\n' {
        trim_start_nl(s.drop_first())
    } else {
        s
    }
}

/// `s` without the newlines at its end.
pub open spec fn trim_end_nl(s: Seq<char>) -> Seq<char>
    decreases s.len(),
{
    if s.len() > 0 && s.last() == '\n' {
        trim_end_nl(s.drop_last())
    } else {
        s
    }
}

/// `s` without the newlines at either end (`trim_matches('\n')`).
pub open spec fn trim_nl(s: Seq<char>) -> Seq<char> {
    trim_end_nl(trim_start_nl(s))
}

/// A comment as it is kept in a section body.
pub open spec fn comment_html(c: Seq<char>) -> Seq<char> {
    "<!-- "@ + c + " -->"@
}

/// A section without heading that starts with `body`.
pub open spec fn loose_section(body: Seq<Seq<char>>) -> SectionModel {
    SectionModel { heading: None, body, query: None, spec_urls: None, is_h3: false, typ: BuildSectionType::Unknown, id: None }
}

/// `sections` with the open section closed, if there is one.
pub open spec fn close(sections: Seq<SectionModel>, cur: Option<SectionModel>) -> Seq<SectionModel> {
    match cur {
        Some(s) => sections.push(s),
        None => sections,
    }
}

/// The state after a piece of HTML that belongs to prose: added to the open section
/// unless that is a compatibility section, else the start of a new loose section.
pub open spec fn add_prose(st: SplitState, html: Seq<char>) -> SplitState {
    match st.1 {
        Some(s) => if s.typ != BuildSectionType::Compat {
            (st.0, Some(SectionModel { body: s.body.push(html), ..s }), st.2)
        } else {
            (st.0.push(s), Some(loose_section(seq![html])), st.2)
        },
        None => (st.0, Some(loose_section(seq![html])), st.2),
    }
}

/// The state after a table of kind `typ` (with its query and specification URLs): the
/// open section becomes that table where it has no body yet (a compatibility table keeps
/// the specification URLs the section has); else its heading moves to a new table
/// section closed before it, and it goes on without heading.
pub open spec fn add_table(st: SplitState, typ: BuildSectionType, query: Option<Seq<char>>, urls: Option<Seq<char>>) -> SplitState {
    match st.1 {
        Some(s) => if s.body.len() == 0 {
            (
                st.0,
                Some(
                    SectionModel {
                        typ,
                        query,
                        spec_urls: if typ == BuildSectionType::Compat {
                            s.spec_urls
                        } else {
                            urls
                        },
                        ..s
                    },
                ),
                st.2,
            )
        } else {
            (
                st.0.push(SectionModel { heading: s.heading, body: seq![], query, spec_urls: urls, is_h3: s.is_h3, typ, id: s.id }),
                Some(SectionModel { heading: None, is_h3: false, id: None, ..s }),
                st.2,
            )
        },
        None => st,
    }
}

/// Whether `classes` holds the class `c`.
pub open spec fn has_class(classes: Seq<String>, c: Seq<char>) -> bool {
    exists|k: int| 0 <= k < classes.len() && #[trigger] classes[k]@ == c
}

/// The state after the top-level node `node`, the `i`th.
pub open spec fn split_step(st: SplitState, i: int, node: SectionNode) -> SplitState {
    match node {
        SectionNode::Comment(c) => add_prose(st, comment_html(c@)),
        SectionNode::Text(t) => {
            let txt = trim_nl(t@);
            if txt.len() == 0 {
                st
            } else {
                match st.1 {
                    Some(s) => (st.0, Some(SectionModel { body: s.body.push(txt), ..s }), st.2),
                    None => (st.0, Some(loose_section(seq![txt])), st.2),
                }
            }
        },
        SectionNode::Element(e) => if e.name@ == "h2"@ || e.name@ == "h3"@ {
            (
                close(st.0, st.1),
                Some(
                    SectionModel {
                        heading: Some(i),
                        body: seq![],
                        query: None,
                        spec_urls: None,
                        is_h3: e.name@ == "h3"@,
                        typ: BuildSectionType::Prose,
                        id: opt_view(e.id),
                    },
                ),
                st.2,
            )
        } else if e.name@ == "section"@ && opt_view(e.id) == Some("Quick_links"@) {
            (close(st.0, st.1), None, Some(e.inner_html@))
        } else if has_class(e.classes@, "bc-data"@) && e.data_query is Some {
            if opt_view(e.data_multiple) == Some("true"@) {
                (
                    close(st.0, st.1).push(
                        SectionModel {
                            heading: None,
                            body: seq![],
                            query: opt_view(e.data_query),
                            spec_urls: None,
                            is_h3: true,
                            typ: BuildSectionType::Compat,
                            id: None,
                        },
                    ),
                    None,
                    st.2,
                )
            } else {
                add_table(st, BuildSectionType::Compat, opt_view(e.data_query), None)
            }
        } else if !has_class(e.classes@, "bc-data"@) && has_class(e.classes@, "bc-specs"@) && (e.data_bcd_query is Some
            || e.data_spec_urls is Some) {
            add_table(st, BuildSectionType::Specification, opt_view(e.data_bcd_query), opt_view(e.data_spec_urls))
        } else {
            add_prose(st, e.html@)
        },
        SectionNode::Other => st,
    }
}

/// The state after the first nodes.
pub open spec fn split_fold(nodes: Seq<SectionNode>) -> SplitState
    decreases nodes.len(),
{
    if nodes.len() == 0 {
        (seq![], None, None)
    } else {
        split_step(split_fold(nodes.drop_last()), nodes.len() - 1, nodes.last())
    }
}

/// The first non-empty text among `texts`.
pub open spec fn first_nonempty(texts: Seq<Seq<char>>) -> Option<Seq<char>>
    decreases texts.len(),
{
    if texts.len() == 0 {
        None
    } else if texts[0].len() > 0 {
        Some(texts[0])
    } else {
        first_nonempty(texts.drop_first())
    }
}

/// The sections as values.
pub open spec fn sections_view(v: Seq<BuildSection>) -> Seq<SectionModel> {
    v.map_values(|s: BuildSection| s@)
}

/// The open section as a value.
pub open spec fn cur_view(c: Option<BuildSection>) -> Option<SectionModel> {
    match c {
        Some(s) => Some(s@),
        None => None,
    }
}

fn trim_nl_exec(t: &str) -> (r: String)
    ensures
        r@ == trim_nl(t@),
{
    let v = chars_of(t);
    let n = v.len();
    let mut i: usize = 0;
    assert(v@.skip(0) =~= v@);
    while i < n && v[i] == '\n'
        invariant
            n == v@.len(),
            i <= n,
            trim_start_nl(v@) == trim_start_nl(v@.skip(i as int)),
        decreases n - i,
    {
        assert(v@.skip(i as int).drop_first() =~= v@.skip(i + 1));
        i += 1;
    }
    assert(trim_start_nl(v@.skip(i as int)) == v@.skip(i as int));
    let mut j: usize = n;
    assert(v@.skip(i as int) =~= v@.subrange(i as int, n as int));
    while j > i && v[j - 1] == '\n'
        invariant
            n == v@.len(),
            i <= j <= n,
            trim_nl(v@) == trim_end_nl(v@.subrange(i as int, j as int)),
        decreases j - i,
    {
        assert(v@.subrange(i as int, j as int).drop_last() =~= v@.subrange(i as int, j - 1));
        j -= 1;
    }
    let w = slice_of(v.as_slice(), i, j);
    string_of(w.as_slice())
}

fn has_class_exec(classes: &Vec<String>, c: &str) -> (r: bool)
    ensures
        r == has_class(classes@, c@),
{
    let n = classes.len();
    let mut k: usize = 0;
    while k < n
        invariant
            n == classes@.len(),
            k <= n,
            forall|j: int| 0 <= j < k ==> classes@[j]@ != c@,
        decreases n - k,
    {
        if str_eq(classes[k].as_str(), c) {
            return true;
        }
        k += 1;
    }
    false
}

fn opt_eq(o: &Option<String>, t: &str) -> (r: bool)
    ensures
        r == (opt_view(*o) == Some(t@)),
{
    match o {
        Some(s) => str_eq(s.as_str(), t),
        None => false,
    }
}

fn close_exec(sections: &mut Vec<BuildSection>, cur: Option<BuildSection>)
    ensures
        sections_view(final(sections)@) == close(sections_view(old(sections)@), cur_view(cur)),
{
    match cur {
        Some(s) => {
            sections.push(s);
            assert(sections_view(final(sections)@) =~= sections_view(old(sections)@).push(s@));
        },
        None => {},
    }
}

fn push_body(s: &mut BuildSection, html: String)
    ensures
        final(s)@ == (SectionModel { body: old(s)@.body.push(html@), ..old(s)@ }),
{
    s.body.push(html);
    assert(final(s)@.body =~= old(s)@.body.push(html@));
}

fn add_prose_exec(sections: &mut Vec<BuildSection>, cur: Option<BuildSection>, html: String) -> (r: Option<BuildSection>)
    ensures
        ({
            let st = add_prose((sections_view(old(sections)@), cur_view(cur), None), html@);
            sections_view(final(sections)@) == st.0 && cur_view(r) == st.1
        }),
{
    match cur {
        Some(mut s) => {
            if s.typ != BuildSectionType::Compat {
                push_body(&mut s, html);
                Some(s)
            } else {
                sections.push(s);
                assert(sections_view(final(sections)@) =~= sections_view(old(sections)@).push(s@));
                let mut body: Vec<String> = Vec::new();
                body.push(html);
                let n = BuildSection {
                    heading: None,
                    body,
                    query: None,
                    spec_urls: None,
                    is_h3: false,
                    typ: BuildSectionType::Unknown,
                    id: None,
                };
                assert(n@.body =~= seq![html@]);
                Some(n)
            }
        },
        None => {
            let mut body: Vec<String> = Vec::new();
            body.push(html);
            let n = BuildSection {
                heading: None,
                body,
                query: None,
                spec_urls: None,
                is_h3: false,
                typ: BuildSectionType::Unknown,
                id: None,
            };
            assert(n@.body =~= seq![html@]);
            Some(n)
        },
    }
}

fn add_table_exec(
    sections: &mut Vec<BuildSection>,
    cur: Option<BuildSection>,
    typ: BuildSectionType,
    query: Option<String>,
    urls: Option<String>,
) -> (r: Option<BuildSection>)
    ensures
        ({
            let st = add_table((sections_view(old(sections)@), cur_view(cur), None), typ, opt_view(query), opt_view(urls));
            sections_view(final(sections)@) == st.0 && cur_view(r) == st.1
        }),
{
    match cur {
        Some(mut s) => {
            if s.body.len() == 0 {
                s.typ = typ;
                s.query = query;
                if typ != BuildSectionType::Compat {
                    s.spec_urls = urls;
                }
                Some(s)
            } else {
                let t = BuildSection {
                    heading: s.heading,
                    body: Vec::new(),
                    query,
                    spec_urls: urls,
                    is_h3: s.is_h3,
                    typ,
                    id: s.id,
                };
                assert(t@.body =~= Seq::<Seq<char>>::empty());
                sections.push(t);
                assert(sections_view(final(sections)@) =~= sections_view(old(sections)@).push(t@));
                let rest = BuildSection {
                    heading: None,
                    body: s.body,
                    query: s.query,
                    spec_urls: s.spec_urls,
                    is_h3: false,
                    typ: s.typ,
                    id: None,
                };
                Some(rest)
            }
        },
        None => None,
    }
}

fn first_nonempty_exec(texts: &[String]) -> (r: Option<String>)
    ensures
        opt_view(r) == first_nonempty(texts@.map_values(|t: String| t@)),
{
    let n = texts.len();
    let mut i: usize = 0;
    let ghost all = texts@.map_values(|t: String| t@);
    assert(all.skip(0) =~= all);
    while i < n
        invariant
            n == texts@.len(),
            all == texts@.map_values(|t: String| t@),
            i <= n,
            first_nonempty(all) == first_nonempty(all.skip(i as int)),
        decreases n - i,
    {
        assert(all.skip(i as int).drop_first() =~= all.skip(i + 1));
        assert(all.skip(i as int)[0] == texts@[i as int]@);
        if chars_of(texts[i].as_str()).len() > 0 {
            return Some(texts[i].clone());
        }
        i += 1;
    }
    None
}

/// Splits the top-level nodes of a document into sections (see `split_step`), and picks
/// its summary among `paragraph_texts`, the texts of its paragraphs in document order.
pub fn split_sections(nodes: &[SectionNode], paragraph_texts: &[String]) -> (r: Result<Splitted, DocError>)
    ensures
        r matches Ok(sp) && sections_view(sp.sections@) == close(split_fold(nodes@).0, split_fold(nodes@).1)
            && opt_view(sp.sidebar) == split_fold(nodes@).2
            && opt_view(sp.summary) == first_nonempty(paragraph_texts@.map_values(|t: String| t@)),
{
    let summary = first_nonempty_exec(paragraph_texts);
    let mut sections: Vec<BuildSection> = Vec::new();
    let mut cur: Option<BuildSection> = None;
    let mut sidebar: Option<String> = None;
    let n = nodes.len();
    let mut i: usize = 0;
    assert(nodes@.take(0) =~= Seq::<SectionNode>::empty());
    assert(sections_view(sections@) =~= Seq::<SectionModel>::empty());
    while i < n
        invariant
            n == nodes@.len(),
            i <= n,
            (sections_view(sections@), cur_view(cur), opt_view(sidebar)) == split_fold(nodes@.take(i as int)),
        decreases n - i,
    {
        assert(nodes@.take(i + 1).drop_last() =~= nodes@.take(i as int));
        assert(nodes@.take(i + 1).last() == nodes@[i as int]);
        let ghost st = (sections_view(sections@), cur_view(cur), opt_view(sidebar));
        match &nodes[i] {
            SectionNode::Comment(c) => {
                let mut html = String::new();
                push_str(&mut html, "<!-- ");
                push_str(&mut html, c.as_str());
                push_str(&mut html, " -->");
                cur = add_prose_exec(&mut sections, cur, html);
            },
            SectionNode::Text(t) => {
                let txt = trim_nl_exec(t.as_str());
                if chars_of(txt.as_str()).len() > 0 {
                    cur = match cur {
                        Some(mut sct) => {
                            push_body(&mut sct, txt);
                            Some(sct)
                        },
                        None => {
                            let mut body: Vec<String> = Vec::new();
                            body.push(txt);
                            let ns = BuildSection {
                                heading: None,
                                body,
                                query: None,
                                spec_urls: None,
                                is_h3: false,
                                typ: BuildSectionType::Unknown,
                                id: None,
                            };
                            assert(ns@.body =~= seq![txt@]);
                            Some(ns)
                        },
                    };
                }
            },
            SectionNode::Element(e) => {
                let name = e.name.as_str();
                if str_eq(name, "h2") || str_eq(name, "h3") {
                    close_exec(&mut sections, cur);
                    let ns = BuildSection {
                        heading: Some(i),
                        body: Vec::new(),
                        query: None,
                        spec_urls: None,
                        is_h3: str_eq(name, "h3"),
                        typ: BuildSectionType::Prose,
                        id: e.id.clone(),
                    };
                    assert(ns@.body =~= Seq::<Seq<char>>::empty());
                    cur = Some(ns);
                } else if str_eq(name, "section") && opt_eq(&e.id, "Quick_links") {
                    close_exec(&mut sections, cur);
                    cur = None;
                    sidebar = Some(e.inner_html.clone());
                } else {
                    let compat = has_class_exec(&e.classes, "bc-data");
                    if compat && e.data_query.is_some() {
                        if opt_eq(&e.data_multiple, "true") {
                            close_exec(&mut sections, cur);
                            let ns = BuildSection {
                                heading: None,
                                body: Vec::new(),
                                query: e.data_query.clone(),
                                spec_urls: None,
                                is_h3: true,
                                typ: BuildSectionType::Compat,
                                id: None,
                            };
                            assert(ns@.body =~= Seq::<Seq<char>>::empty());
                            let ghost before = sections_view(sections@);
                            sections.push(ns);
                            assert(sections_view(sections@) =~= before.push(ns@));
                            cur = None;
                        } else {
                            cur = add_table_exec(&mut sections, cur, BuildSectionType::Compat, e.data_query.clone(), None);
                        }
                    } else if !compat && has_class_exec(&e.classes, "bc-specs") && (e.data_bcd_query.is_some()
                        || e.data_spec_urls.is_some()) {
                        cur = add_table_exec(
                            &mut sections,
                            cur,
                            BuildSectionType::Specification,
                            e.data_bcd_query.clone(),
                            e.data_spec_urls.clone(),
                        );
                    } else {
                        cur = add_prose_exec(&mut sections, cur, e.html.clone());
                    }
                }
            },
            SectionNode::Other => {},
        }
        proof {
            reveal_strlit("<!-- ");
            reveal_strlit(" -->");
        }
        i += 1;
    }
    assert(nodes@.take(n as int) =~= nodes@);
    close_exec(&mut sections, cur);
    Ok(Splitted { sections, summary, sidebar })
}

/// A specification table is a section, never prose: after a top-level element that is
/// a specification table (class `bc-specs`, not `bc-data`, with specification URLs,
/// whether or not it has a compatibility query), no section body has gained anything,
/// the sidebar is as it was, and the section it lands in (the open one where that has
/// no body yet, else a new section closed with the open section's heading) is of type
/// `Specification`, carries the element's URLs and query, and keeps the heading.
pub proof fn law_spec_table_is_a_section(nodes: Seq<SectionNode>, e: SectionElement)
    requires
        !(e.name@ == "h2"@ || e.name@ == "h3"@),
        !(e.name@ == "section"@ && opt_view(e.id) == Some("Quick_links"@)),
        has_class(e.classes@, "bc-specs"@),
        !has_class(e.classes@, "bc-data"@),
        e.data_spec_urls is Some,
    ensures
        ({
            let before = split_fold(nodes);
            let after = split_fold(nodes.push(SectionNode::Element(e)));
            &&& after.2 == before.2
            &&& (after.1 matches Some(t) ==> before.1 matches Some(s) && t.body == s.body)
            &&& (before.1 is None ==> after.0 == before.0)
            &&& (before.1 matches Some(s) ==> {
                let sec = if s.body.len() == 0 {
                    after.1->0
                } else {
                    after.0.last()
                };
                &&& after.1 is Some
                &&& sec.typ == BuildSectionType::Specification
                &&& sec.spec_urls == opt_view(e.data_spec_urls)
                &&& sec.query == opt_view(e.data_bcd_query)
                &&& sec.heading == s.heading
                &&& sec.body.len() == 0 || sec.body == s.body
                &&& (s.body.len() > 0 ==> after.0.drop_last() == before.0 && after.0.last().body.len() == 0)
            })
        }),
{
    assert(nodes.push(SectionNode::Element(e)).drop_last() =~= nodes);
    assert(nodes.push(SectionNode::Element(e)).last() == SectionNode::Element(e));
    let before = split_fold(nodes);
    let after = split_fold(nodes.push(SectionNode::Element(e)));
    assert(after == split_step(before, nodes.len() as int, SectionNode::Element(e)));
    match before.1 {
        Some(s) => {
            if s.body.len() > 0 {
                assert(after.0.drop_last() =~= before.0);
            }
        },
        None => {},
    }
}

/// A compatibility table is a section, never prose: after a top-level element of class
/// `bc-data` with a query, no section body has gained anything and the sidebar is as it
/// was; a table marked `data-multiple="true"` closes the open section and stands as a
/// compatibility section of its own (as an `h3`, without heading), any other lands in
/// the open section (where that has no body yet, keeping its specification URLs) or in
/// a new section closed with the open section's heading, of type `Compat` with the
/// element's query.
pub proof fn law_compat_table_is_a_section(nodes: Seq<SectionNode>, e: SectionElement)
    requires
        !(e.name@ == "h2"@ || e.name@ == "h3"@),
        !(e.name@ == "section"@ && opt_view(e.id) == Some("Quick_links"@)),
        has_class(e.classes@, "bc-data"@),
        e.data_query is Some,
    ensures
        ({
            let before = split_fold(nodes);
            let after = split_fold(nodes.push(SectionNode::Element(e)));
            &&& after.2 == before.2
            &&& (after.1 matches Some(t) ==> before.1 matches Some(s) && t.body == s.body)
            &&& (opt_view(e.data_multiple) == Some("true"@) ==> {
                &&& after.1 is None
                &&& after.0.drop_last() == close(before.0, before.1)
                &&& after.0.last().typ == BuildSectionType::Compat
                &&& after.0.last().query == opt_view(e.data_query)
                &&& after.0.last().body.len() == 0
                &&& after.0.last().heading is None
            })
            &&& (opt_view(e.data_multiple) != Some("true"@) && before.1 is None ==> after == before)
            &&& (opt_view(e.data_multiple) != Some("true"@) ==> (before.1 matches Some(s) ==> {
                let sec = if s.body.len() == 0 {
                    after.1->0
                } else {
                    after.0.last()
                };
                &&& after.1 is Some
                &&& sec.typ == BuildSectionType::Compat
                &&& sec.query == opt_view(e.data_query)
                &&& sec.heading == s.heading
                &&& (s.body.len() == 0 ==> sec.spec_urls == s.spec_urls && after.0 == before.0)
                &&& (s.body.len() > 0 ==> after.0.drop_last() == before.0 && sec.body.len() == 0)
            }))
        }),
{
    assert(nodes.push(SectionNode::Element(e)).drop_last() =~= nodes);
    assert(nodes.push(SectionNode::Element(e)).last() == SectionNode::Element(e));
    let before = split_fold(nodes);
    let after = split_fold(nodes.push(SectionNode::Element(e)));
    assert(after == split_step(before, nodes.len() as int, SectionNode::Element(e)));
    if opt_view(e.data_multiple) == Some("true"@) {
        assert(after.0.drop_last() =~= close(before.0, before.1));
    } else {
        match before.1 {
            Some(s) => {
                if s.body.len() > 0 {
                    assert(after.0.drop_last() =~= before.0);
                }
            },
            None => {},
        }
    }
}

} // verus!
