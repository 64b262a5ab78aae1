//! The JavaScript reference sidebar: which global object a page belongs to, what it
//! inherits from, and which related objects are listed beside it.
use vstd::prelude::*;
use crate::page::{PageRef, PageType};
use crate::sidebar::{Details, MetaChildren, MetaSidebar, SidebarL10n, SidebarMetaEntry, SidebarMetaEntryContent};
use crate::text::{
    views, reversed, rfind_char, rsplit_once, replace_str, push_str, last_index,
    chars_of, find_char, is_ascii_lowercase, replace, replace_vec, seq_eq, slice_of,
    starts_with, str_eq, string_of, strip_prefix, first_index,
};

verus! {

/// The prefix of the slugs of global objects.
pub open spec fn global_objects_prefix() -> Seq<char> {
    "Web/JavaScript/Reference/Global_Objects/"@
}

/// What `slug_to_object_name` gives for the part of a slug after the global-objects
/// prefix: inside a namespace (`Intl/`, `Temporal/`) a lower-case member belongs to the
/// namespace itself and a class is `Namespace.Class`; elsewhere the first segment.
pub open spec fn spec_object_name(sub_path: Seq<char>) -> Seq<char> {
    if "Intl/"@.is_prefix_of(sub_path) {
        namespace_object(sub_path, "Intl/"@)
    } else if "Temporal/"@.is_prefix_of(sub_path) {
        namespace_object(sub_path, "Temporal/"@)
    } else {
        match first_index(sub_path, '/') {
            Some(i) => sub_path.take(i),
            None => sub_path,
        }
    }
}

/// The object named under namespace `ns` (which ends in `/`).
pub open spec fn namespace_object(sub_path: Seq<char>, ns: Seq<char>) -> Seq<char> {
    let rest = sub_path.skip(ns.len() as int);
    if rest.len() > 0 && is_ascii_lowercase(rest[0]) {
        ns.drop_last()
    } else {
        replace(
            sub_path.take(
                match first_index(rest, '/') {
                    Some(i) => i + ns.len(),
                    None => sub_path.len() as int,
                },
            ),
            seq!['/'],
            seq!['.'],
        )
    }
}

/// The global object a JavaScript reference slug belongs to.
pub open spec fn spec_slug_to_object_name(slug: Seq<char>) -> Seq<char> {
    spec_object_name(
        match strip_prefix(slug, global_objects_prefix()) {
            Some(s) => s,
            None => Seq::<char>::empty(),
        },
    )
}

fn namespace_object_exec(sub: &Vec<char>, ns: &str) -> (r: Vec<char>)
    requires
        ns@.len() > 0,
        ns@.is_prefix_of(sub@),
    ensures
        r@ == namespace_object(sub@, ns@),
{
    let nsv = chars_of(ns);
    let nl = nsv.len();
    let rest = slice_of(sub.as_slice(), nl, sub.len());
    assert(rest@ =~= sub@.skip(nl as int));
    if rest.len() > 0 && 'a' <= rest[0] && rest[0] <= 'z' {
        let r = slice_of(nsv.as_slice(), 0, nl - 1);
        assert(r@ =~= ns@.drop_last());
        return r;
    }
    let end = match find_char(rest.as_slice(), '/') {
        Some(i) => i + nl,
        None => sub.len(),
    };
    let head = slice_of(sub.as_slice(), 0, end);
    assert(head@ =~= sub@.take(end as int));
    let slash: Vec<char> = vec!['/'];
    let dot: Vec<char> = vec!['.'];
    assert(slash@ =~= seq!['/']);
    assert(dot@ =~= seq!['.']);
    replace_vec(head.as_slice(), slash.as_slice(), dot.as_slice())
}

/// The global object a JavaScript reference slug belongs to, e.g. `Intl.Collator` for
/// `.../Global_Objects/Intl/Collator/compare`.
pub fn slug_to_object_name(slug: &str) -> (r: String)
    ensures
        r@ == spec_slug_to_object_name(slug@),
{
    let v = chars_of(slug);
    let pre = chars_of("Web/JavaScript/Reference/Global_Objects/");
    let sub: Vec<char> = if starts_with(v.as_slice(), pre.as_slice()) {
        let s = slice_of(v.as_slice(), pre.len(), v.len());
        assert(s@ =~= v@.skip(pre@.len() as int));
        s
    } else {
        Vec::new()
    };
    assert(sub@ == (match strip_prefix(slug@, global_objects_prefix()) {
        Some(s) => s,
        None => Seq::<char>::empty(),
    }));
    let intl = chars_of("Intl/");
    let temporal = chars_of("Temporal/");
    proof {
        reveal_strlit("Intl/");
        reveal_strlit("Temporal/");
    }
    if starts_with(sub.as_slice(), intl.as_slice()) {
        let r = namespace_object_exec(&sub, "Intl/");
        return string_of(r.as_slice());
    }
    if starts_with(sub.as_slice(), temporal.as_slice()) {
        let r = namespace_object_exec(&sub, "Temporal/");
        return string_of(r.as_slice());
    }
    let end = match find_char(sub.as_slice(), '/') {
        Some(i) => i,
        None => sub.len(),
    };
    let r = slice_of(sub.as_slice(), 0, end);
    proof {
        if first_index(sub@, '/') is None {
            assert(r@ =~= sub@);
        }
    }
    string_of(r.as_slice())
}

/// The error classes.
pub open spec fn error_group() -> Seq<Seq<char>> {
    seq![
        "Error"@,
        "AggregateError"@,
        "EvalError"@,
        "InternalError"@,
        "RangeError"@,
        "ReferenceError"@,
        "SyntaxError"@,
        "TypeError"@,
        "URIError"@,
    ]
}

/// The typed-array classes.
pub open spec fn typed_array_group() -> Seq<Seq<char>> {
    seq![
        "TypedArray"@,
        "BigInt64Array"@,
        "BigUint64Array"@,
        "Float16Array"@,
        "Float32Array"@,
        "Float64Array"@,
        "Int8Array"@,
        "Int16Array"@,
        "Int32Array"@,
        "Uint8Array"@,
        "Uint8ClampedArray"@,
        "Uint16Array"@,
        "Uint32Array"@,
    ]
}

fn strings_of(lits: &[&str]) -> (r: Vec<String>)
    ensures
        r@.len() == lits@.len(),
        forall|i: int| 0 <= i < r@.len() ==> #[trigger] r@[i]@ == lits@[i]@,
{
    let mut r: Vec<String> = Vec::new();
    let n = lits.len();
    let mut i: usize = 0;
    while i < n
        invariant
            n == lits@.len(),
            i <= n,
            r@.len() == i,
            forall|j: int| 0 <= j < i ==> #[trigger] r@[j]@ == lits@[j]@,
        decreases n - i,
    {
        r.push(lits[i].to_owned());
        i += 1;
    }
    r
}

fn error_group_exec() -> (r: Vec<String>)
    ensures
        views(r@) == error_group(),
{
    let lits: [&str; 9] = [
        "Error",
        "AggregateError",
        "EvalError",
        "InternalError",
        "RangeError",
        "ReferenceError",
        "SyntaxError",
        "TypeError",
        "URIError",
    ];
    let r = strings_of(&lits);
    assert(views(r@) =~= error_group());
    r
}

fn typed_array_group_exec() -> (r: Vec<String>)
    ensures
        views(r@) == typed_array_group(),
{
    let lits: [&str; 13] = [
        "TypedArray",
        "BigInt64Array",
        "BigUint64Array",
        "Float16Array",
        "Float32Array",
        "Float64Array",
        "Int8Array",
        "Int16Array",
        "Int32Array",
        "Uint8Array",
        "Uint8ClampedArray",
        "Uint16Array",
        "Uint32Array",
    ];
    let r = strings_of(&lits);
    assert(views(r@) =~= typed_array_group());
    r
}

fn contains_str(v: &[String], s: &str) -> (r: bool)
    ensures
        r == views(v@).contains(s@),
{
    let n = v.len();
    let mut i: usize = 0;
    while i < n
        invariant
            n == v@.len(),
            i <= n,
            forall|j: int| 0 <= j < i ==> v@[j]@ != s@,
        decreases n - i,
    {
        if str_eq(v[i].as_str(), s) {
            assert(views(v@)[i as int] == s@);
            return true;
        }
        i += 1;
    }
    proof {
        if views(v@).contains(s@) {
            let j = choose|j: int| 0 <= j < v@.len() && #[trigger] views(v@)[j] == s@;
            assert(v@[j]@ == s@);
        }
    }
    false
}

/// The inherited-from object of the derived built-ins.
pub open spec fn spec_inheritance_data(obj: Seq<char>) -> Option<Seq<char>> {
    if obj == "AsyncGenerator"@ {
        Some("AsyncIterator"@)
    } else if obj == "AsyncFunction"@ || obj == "AsyncGeneratorFunction"@ || obj
        == "GeneratorFunction"@ {
        Some("Function"@)
    } else if obj == "Generator"@ {
        Some("Iterator"@)
    } else if typed_array_group().drop_first().contains(obj) {
        Some("TypedArray"@)
    } else if error_group().drop_first().contains(obj) {
        Some("Error"@)
    } else {
        None
    }
}

/// The object that `obj` inherits from, for the built-ins that extend another one.
pub fn inheritance_data(obj: &str) -> (r: Option<&'static str>)
    ensures
        match r {
            Some(s) => spec_inheritance_data(obj@) == Some(s@),
            None => spec_inheritance_data(obj@) is None,
        },
{
    if str_eq(obj, "AsyncGenerator") {
        return Some("AsyncIterator");
    }
    if str_eq(obj, "AsyncFunction") || str_eq(obj, "AsyncGeneratorFunction") || str_eq(
        obj,
        "GeneratorFunction",
    ) {
        return Some("Function");
    }
    if str_eq(obj, "Generator") {
        return Some("Iterator");
    }
    let ta = typed_array_group_exec();
    let ta_rest = slice_vec_from(ta.as_slice(), 1);
    proof {
        assert(views(ta_rest@) =~= typed_array_group().drop_first());
    }
    if contains_str(ta_rest.as_slice(), obj) {
        return Some("TypedArray");
    }
    let er = error_group_exec();
    let er_rest = slice_vec_from(er.as_slice(), 1);
    proof {
        assert(views(er_rest@) =~= error_group().drop_first());
    }
    if contains_str(er_rest.as_slice(), obj) {
        return Some("Error");
    }
    None
}

fn slice_vec_from(v: &[String], k: usize) -> (r: Vec<String>)
    requires
        k <= v@.len(),
    ensures
        r@ == v@.skip(k as int),
{
    let mut r: Vec<String> = Vec::new();
    let n = v.len();
    let mut i = k;
    while i < n
        invariant
            n == v@.len(),
            k <= i <= n,
            r@ == v@.subrange(k as int, i as int),
        decreases n - i,
    {
        r.push(v[i].clone());
        assert(v@.subrange(k as int, i as int).push(v@[i as int]) =~= v@.subrange(
            k as int,
            i + 1,
        ));
        i += 1;
    }
    r
}

/// The related-pages groups: errors, the `Intl` classes, the `Temporal` classes and the
/// typed arrays.
pub open spec fn groups(intl: Seq<Seq<char>>, temporal: Seq<Seq<char>>) -> Seq<Seq<Seq<char>>> {
    seq![error_group(), intl, temporal, typed_array_group()]
}

/// The first group among `gs` that contains `obj`.
pub open spec fn first_group_with(gs: Seq<Seq<Seq<char>>>, obj: Seq<char>) -> Option<
    Seq<Seq<char>>,
>
    decreases gs.len(),
{
    if gs.len() == 0 {
        None
    } else if gs[0].contains(obj) {
        Some(gs[0])
    } else {
        first_group_with(gs.drop_first(), obj)
    }
}

/// The related objects of `main_obj`: the other members of its group that are not in
/// its inheritance chain.
pub open spec fn spec_get_group(
    main_obj: Seq<char>,
    inheritance: Seq<Seq<char>>,
    intl: Seq<Seq<char>>,
    temporal: Seq<Seq<char>>,
) -> Seq<Seq<char>> {
    match first_group_with(groups(intl, temporal), main_obj) {
        Some(g) => g.filter(|x: Seq<char>| !inheritance.contains(x)),
        None => seq![],
    }
}

fn filter_out(g: &[String], inheritance: &[String]) -> (r: Vec<String>)
    ensures
        views(r@) == views(g@).filter(
            |x: Seq<char>| !views(inheritance@).contains(x),
        ),
{
    let ghost gv = views(g@);
    let ghost iv = views(inheritance@);
    let ghost pred = |x: Seq<char>| !iv.contains(x);
    let mut r: Vec<String> = Vec::new();
    let n = g.len();
    let mut i: usize = 0;
    assert(gv.take(0) =~= Seq::<Seq<char>>::empty());
    assert(gv.take(0).filter(pred) =~= Seq::<Seq<char>>::empty());
    while i < n
        invariant
            n == g@.len(),
            gv == views(g@),
            iv == views(inheritance@),
            pred == (|x: Seq<char>| !iv.contains(x)),
            i <= n,
            views(r@) == gv.take(i as int).filter(pred),
        decreases n - i,
    {
        proof {
            assert(gv.take(i + 1).drop_last() =~= gv.take(i as int));
            assert(gv.take(i + 1).last() == g@[i as int]@);
            reveal_with_fuel(Seq::filter, 1);
        }
        if !contains_str(inheritance, g[i].as_str()) {
            let ghost before = r@;
            r.push(g[i].clone());
            assert(views(r@) =~= before.map_values(|s: String| s@).push(
                g@[i as int]@,
            ));
        }
        i += 1;
    }
    assert(gv.take(n as int) =~= gv);
    r
}

/// Related pages of a JavaScript global object: the rest of its group (errors, `Intl`
/// classes given by `intl`, `Temporal` classes given by `temporal`, typed arrays),
/// without the objects in its inheritance chain.
pub fn get_group(main_obj: &str, inheritance: &[String], intl: &[String], temporal: &[String]) -> (r:
    Vec<String>)
    ensures
        views(r@) == spec_get_group(
            main_obj@,
            views(inheritance@),
            views(intl@),
            views(temporal@),
        ),
{
    let ghost iv = views(intl@);
    let ghost tv = views(temporal@);
    let ghost gs = groups(iv, tv);
    let er = error_group_exec();
    let ta = typed_array_group_exec();
    let intl_v = slice_vec_from(intl, 0);
    let temporal_v = slice_vec_from(temporal, 0);
    proof {
        assert(views(intl_v@) =~= iv);
        assert(views(temporal_v@) =~= tv);
        assert(gs.drop_first() =~= seq![iv, tv, typed_array_group()]);
        assert(gs.drop_first().drop_first() =~= seq![tv, typed_array_group()]);
        assert(gs.drop_first().drop_first().drop_first() =~= seq![typed_array_group()]);
        assert(gs.drop_first().drop_first().drop_first().drop_first() =~= Seq::<
            Seq<Seq<char>>,
        >::empty());
    }
    if contains_str(er.as_slice(), main_obj) {
        return filter_out(er.as_slice(), inheritance);
    }
    assert(first_group_with(gs, main_obj@) == first_group_with(gs.drop_first(), main_obj@));
    if contains_str(intl_v.as_slice(), main_obj) {
        return filter_out(intl_v.as_slice(), inheritance);
    }
    assert(first_group_with(gs.drop_first(), main_obj@) == first_group_with(
        gs.drop_first().drop_first(),
        main_obj@,
    ));
    if contains_str(temporal_v.as_slice(), main_obj) {
        return filter_out(temporal_v.as_slice(), inheritance);
    }
    assert(first_group_with(gs.drop_first().drop_first(), main_obj@) == first_group_with(
        gs.drop_first().drop_first().drop_first(),
        main_obj@,
    ));
    if contains_str(ta.as_slice(), main_obj) {
        return filter_out(ta.as_slice(), inheritance);
    }
    assert(first_group_with(gs.drop_first().drop_first().drop_first(), main_obj@)
        == first_group_with(gs.drop_first().drop_first().drop_first().drop_first(), main_obj@));
    let r: Vec<String> = Vec::new();
    assert(views(r@) =~= Seq::<Seq<char>>::empty());
    r
}

/// The entry of the inheritance chain that stands for `Object` and `Function`.
pub open spec fn base_name() -> Seq<char> {
    "%Base%"@
}

/// An entry of the JavaScript reference sidebar: a global object with its members and
/// the pages below its members.
#[derive(Debug)]
pub struct JSRefItem {
    pub title: String,
    pub sub_path: String,
    pub default_opened: bool,
    pub constructors: Vec<PageRef>,
    pub static_methods: Vec<PageRef>,
    pub static_properties: Vec<PageRef>,
    pub instance_methods: Vec<PageRef>,
    pub instance_properties: Vec<PageRef>,
    /// The pages below a member, keyed by the member's slug, each key once.
    pub sub_pages: Vec<(String, Vec<PageRef>)>,
}

/// The slug a page sits under: its slug up to the last `/`.
pub open spec fn parent_slug(p: PageRef) -> Option<Seq<char>> {
    match rsplit_once(p.slug@, '/') {
        Some((a, _)) => Some(a),
        None => None,
    }
}

/// Which list a member of a class goes into: 0 constructors, 1 static methods, 2 static
/// properties, 3 instance methods, 4 instance properties; -1 none.
pub open spec fn member_kind(t: PageType) -> int {
    match t {
        PageType::JavascriptConstructor => 0,
        PageType::JavascriptStaticMethod => 1,
        PageType::JavascriptStaticAccessorProperty | PageType::JavascriptStaticDataProperty => 2,
        PageType::JavascriptInstanceMethod => 3,
        PageType::JavascriptInstanceAccessorProperty | PageType::JavascriptInstanceDataProperty => 4,
        _ => -1,
    }
}

/// Which list a prototype member goes into: 3 methods, 4 properties; -1 none.
pub open spec fn proto_kind(t: PageType) -> int {
    match t {
        PageType::JavascriptInstanceMethod => 3,
        PageType::JavascriptInstanceAccessorProperty | PageType::JavascriptInstanceDataProperty => 4,
        _ => -1,
    }
}

/// The pages right below `class_slug` that go into list `k`.
pub open spec fn members(ps: Seq<PageRef>, class_slug: Seq<char>, k: int) -> Seq<PageRef> {
    ps.filter(|p: PageRef| parent_slug(p) == Some(class_slug) && member_kind(p.page_type) == k)
}

/// The prototype members that go into list `k`.
pub open spec fn proto_members(ps: Seq<PageRef>, k: int) -> Seq<PageRef> {
    ps.filter(|p: PageRef| proto_kind(p.page_type) == k)
}

/// The pages right below `key`.
pub open spec fn children_of(ps: Seq<PageRef>, key: Seq<char>) -> Seq<PageRef> {
    ps.filter(|p: PageRef| parent_slug(p) == Some(key))
}

/// `sp` groups the pages of `ps` that are not right below `class_slug` by the slug they
/// sit under: each such slug once, with its pages in order.
pub open spec fn sub_pages_ok(sp: Seq<(String, Vec<PageRef>)>, ps: Seq<PageRef>, class_slug: Seq<char>) -> bool {
    &&& forall|j: int| 0 <= j < sp.len() ==> (#[trigger] sp[j]).1@ == children_of(ps, sp[j].0@)
        && sp[j].0@ != class_slug && sp[j].1@.len() > 0
    &&& forall|j: int, k: int| 0 <= j < k < sp.len() ==> (#[trigger] sp[j]).0@ != (#[trigger] sp[k]).0@
    &&& forall|q: int| 0 <= q < ps.len() ==> covered(sp, #[trigger] ps[q], class_slug)
}

/// `sp` has key `key`.
pub open spec fn has_key(sp: Seq<(String, Vec<PageRef>)>, key: Seq<char>) -> bool {
    exists|j: int| 0 <= j < sp.len() && (#[trigger] sp[j]).0@ == key
}

/// Page `p` is kept in `sp` unless it is right below `class_slug` or below nothing.
pub open spec fn covered(sp: Seq<(String, Vec<PageRef>)>, p: PageRef, class_slug: Seq<char>) -> bool {
    match parent_slug(p) {
        Some(k) => k != class_slug ==> has_key(sp, k),
        None => true,
    }
}

/// The slug of the page of a global object with sub-path `sub_path`.
pub open spec fn class_slug(sub_path: Seq<char>) -> Seq<char> {
    global_objects_prefix() + sub_path
}

/// The sub-path of an entry of the inheritance chain: `Object` for the base, else its
/// name with `.` as `/`.
pub open spec fn item_sub_path(obj: Seq<char>) -> Seq<char> {
    if obj == base_name() {
        "Object"@
    } else {
        replace(obj, "."@, "/"@)
    }
}

/// The pages found for query `i`, none where it gave nothing.
pub open spec fn found_at(found: Seq<Vec<PageRef>>, i: int) -> Seq<PageRef> {
    if 0 <= i < found.len() { found[i]@ } else { seq![] }
}

/// `item` is the sidebar entry for `obj`, opened or not, built from the pages found for
/// its queries (see `member_queries`).
pub open spec fn item_ok(obj: Seq<char>, open: bool, found: Seq<Vec<PageRef>>, item: JSRefItem) -> bool {
    let sub = item_sub_path(obj);
    &&& item.title@ == (if obj == base_name() { "Object/Function"@ } else { obj })
    &&& item.sub_path@ == sub
    &&& item.default_opened == open
    &&& if obj == base_name() {
        let os = found_at(found, 0);
        let fs = found_at(found, 1);
        &&& item.constructors@.len() == 0
        &&& item.instance_methods@ == proto_members(os, 3)
        &&& item.instance_properties@ == proto_members(os, 4)
        &&& item.static_methods@ == proto_members(fs, 3)
        &&& item.static_properties@ == proto_members(fs, 4)
        &&& item.sub_pages@.len() == 0
    } else {
        let ps = found_at(found, 0);
        let cs = class_slug(sub);
        &&& item.constructors@ == members(ps, cs, 0)
        &&& item.static_methods@ == members(ps, cs, 1)
        &&& item.static_properties@ == members(ps, cs, 2)
        &&& item.instance_methods@ == members(ps, cs, 3)
        &&& item.instance_properties@ == members(ps, cs, 4)
        &&& sub_pages_ok(item.sub_pages@, ps, cs)
    }
}

/// The sub-page queries that `from_obj_str` needs answered, as (URL, depth): for the base,
/// the direct sub-pages of `Object` and of `Function`; for any other object, all pages
/// below its own page.
pub open spec fn spec_member_queries(obj: Seq<char>) -> Seq<(Seq<char>, Option<usize>)> {
    if obj == base_name() {
        seq![
            ("/en-US/docs/Web/JavaScript/Reference/Global_Objects/Object"@, Some(1usize)),
            ("/en-US/docs/Web/JavaScript/Reference/Global_Objects/Function"@, Some(1usize)),
        ]
    } else {
        seq![("/en-US/docs/"@ + class_slug(item_sub_path(obj)), None)]
    }
}

fn item_sub_path_exec(obj: &str) -> (r: String)
    ensures
        r@ == item_sub_path(obj@),
{
    if str_eq(obj, "%Base%") {
        string_of(chars_of("Object").as_slice())
    } else {
        proof {
            reveal_strlit(".");
        }
        replace_str(obj, ".", "/")
    }
}

/// The sub-page queries for `obj` (see `spec_member_queries`).
pub fn member_queries(obj: &str) -> (r: Vec<(String, Option<usize>)>)
    ensures
        r@.len() == spec_member_queries(obj@).len(),
        forall|i: int| 0 <= i < r@.len() ==> (#[trigger] r@[i]).0@ == spec_member_queries(obj@)[i].0
            && r@[i].1 == spec_member_queries(obj@)[i].1,
{
    let mut r: Vec<(String, Option<usize>)> = Vec::new();
    if str_eq(obj, "%Base%") {
        r.push((string_of(chars_of("/en-US/docs/Web/JavaScript/Reference/Global_Objects/Object").as_slice()), Some(1)));
        r.push((string_of(chars_of("/en-US/docs/Web/JavaScript/Reference/Global_Objects/Function").as_slice()), Some(1)));
    } else {
        let sub = item_sub_path_exec(obj);
        let mut u = String::new();
        push_str(&mut u, "/en-US/docs/");
        push_str(&mut u, "Web/JavaScript/Reference/Global_Objects/");
        push_str(&mut u, sub.as_str());
        proof {
            reveal_strlit("/en-US/docs/");
            reveal_strlit("Web/JavaScript/Reference/Global_Objects/");
            assert(u@ =~= "/en-US/docs/"@ + class_slug(item_sub_path(obj@)));
        }
        r.push((u, None));
    }
    r
}

fn parent_of(p: &PageRef) -> (r: Option<String>)
    ensures
        match r {
            Some(s) => parent_slug(*p) == Some(s@),
            None => parent_slug(*p) is None,
        },
{
    let v = chars_of(p.slug.as_str());
    match rfind_char(v.as_slice(), '/') {
        Some(i) => {
            let a = slice_of(v.as_slice(), 0, i);
            assert(a@ =~= v@.take(i as int));
            Some(string_of(a.as_slice()))
        },
        None => None,
    }
}

proof fn lemma_members_push(ps: Seq<PageRef>, p: PageRef, cs: Seq<char>, k: int)
    ensures
        members(ps.push(p), cs, k) == if parent_slug(p) == Some(cs) && member_kind(p.page_type) == k {
            members(ps, cs, k).push(p)
        } else {
            members(ps, cs, k)
        },
{
    ps.lemma_filter_push(p, |p: PageRef| parent_slug(p) == Some(cs) && member_kind(p.page_type) == k);
}

proof fn lemma_proto_push(ps: Seq<PageRef>, p: PageRef, k: int)
    ensures
        proto_members(ps.push(p), k) == if proto_kind(p.page_type) == k {
            proto_members(ps, k).push(p)
        } else {
            proto_members(ps, k)
        },
{
    ps.lemma_filter_push(p, |p: PageRef| proto_kind(p.page_type) == k);
}

proof fn lemma_children_push(ps: Seq<PageRef>, p: PageRef, key: Seq<char>)
    ensures
        children_of(ps.push(p), key) == if parent_slug(p) == Some(key) {
            children_of(ps, key).push(p)
        } else {
            children_of(ps, key)
        },
{
    ps.lemma_filter_push(p, |p: PageRef| parent_slug(p) == Some(key));
}

proof fn lemma_children_none(ps: Seq<PageRef>, key: Seq<char>)
    requires
        forall|q: int| 0 <= q < ps.len() ==> #[trigger] parent_slug(ps[q]) != Some(key),
    ensures
        children_of(ps, key).len() == 0,
    decreases ps.len(),
{
    if ps.len() > 0 {
        assert(ps.drop_last().push(ps.last()) =~= ps);
        assert forall|q: int| 0 <= q < ps.drop_last().len() implies #[trigger] parent_slug(ps.drop_last()[q]) != Some(key) by {
            assert(ps.drop_last()[q] == ps[q]);
        }
        lemma_children_none(ps.drop_last(), key);
        lemma_children_push(ps.drop_last(), ps.last(), key);
        assert(parent_slug(ps[ps.len() - 1]) != Some(key));
    }
}

fn find_key(sp: &Vec<(String, Vec<PageRef>)>, key: &str) -> (r: Option<usize>)
    ensures
        match r {
            Some(j) => j < sp@.len() && sp@[j as int].0@ == key@
                && forall|k: int| 0 <= k < j ==> (#[trigger] sp@[k]).0@ != key@,
            None => forall|j: int| 0 <= j < sp@.len() ==> (#[trigger] sp@[j]).0@ != key@,
        },
{
    let n = sp.len();
    let mut i: usize = 0;
    while i < n
        invariant
            n == sp@.len(),
            i <= n,
            forall|j: int| 0 <= j < i ==> (#[trigger] sp@[j]).0@ != key@,
        decreases n - i,
    {
        if str_eq(sp[i].0.as_str(), key) {
            return Some(i);
        }
        i += 1;
    }
    None
}

fn take_found(found: &mut Vec<Vec<PageRef>>, i: usize) -> (r: Vec<PageRef>)
    ensures
        r@ == found_at(old(found)@, i as int),
        i < old(found)@.len() ==> final(found)@ == old(found)@.remove(i as int),
        i >= old(found)@.len() ==> final(found)@ == old(found)@,
{
    if i < found.len() {
        let mut v: Vec<PageRef> = Vec::new();
        let ghost f0 = old(found)@;
        let mut t = found.remove(i);
        std::mem::swap(&mut v, &mut t);
        assert(v@ == f0[i as int]@);
        v
    } else {
        Vec::new()
    }
}

impl JSRefItem {
    /// The sidebar entry for `obj` (`%Base%` for `Object` and `Function`), opened if
    /// `open`, from the pages found for its queries (`member_queries`, in that order).
    ///
    /// For the base, the prototype members of `Object` are its instance members and those
    /// of `Function` its static ones. For any other object, the pages right below its
    /// page go into the list their type calls for, and any page further down is kept
    /// under the slug it sits under.
    pub fn from_obj_str(obj: &str, open: bool, found: Vec<Vec<PageRef>>) -> (r: JSRefItem)
        ensures
            item_ok(obj@, open, found@, r),
    {
        let ghost fv = found@;
        let mut found = found;
        let sub_path = item_sub_path_exec(obj);
        if str_eq(obj, "%Base%") {
            let object_pages = take_found(&mut found, 0);
            let ghost f1 = found@;
            let function_pages = if found.len() > 0 { take_found(&mut found, 0) } else { Vec::new() };
            proof {
                if fv.len() > 1 {
                    assert(f1[0] == fv[1]);
                    assert(function_pages@ == found_at(fv, 1));
                } else {
                    assert(function_pages@ == found_at(fv, 1));
                }
            }
            let (instance_methods, instance_properties) = proto_split(object_pages);
            let (static_methods, static_properties) = proto_split(function_pages);
            JSRefItem {
                title: string_of(chars_of("Object/Function").as_slice()),
                sub_path,
                default_opened: open,
                constructors: Vec::new(),
                static_methods,
                static_properties,
                instance_methods,
                instance_properties,
                sub_pages: Vec::new(),
            }
        } else {
            let pages = take_found(&mut found, 0);
            let mut cs = String::new();
            push_str(&mut cs, "Web/JavaScript/Reference/Global_Objects/");
            push_str(&mut cs, sub_path.as_str());
            assert(cs@ =~= class_slug(sub_path@));
            let item = classify(pages, cs.as_str());
            JSRefItem {
                title: string_of(chars_of(obj).as_slice()),
                sub_path,
                default_opened: open,
                constructors: item.0,
                static_methods: item.1,
                static_properties: item.2,
                instance_methods: item.3,
                instance_properties: item.4,
                sub_pages: item.5,
            }
        }
    }
}

/// The prototype methods and properties among `pages`.
fn proto_split(pages: Vec<PageRef>) -> (r: (Vec<PageRef>, Vec<PageRef>))
    ensures
        r.0@ == proto_members(pages@, 3),
        r.1@ == proto_members(pages@, 4),
{
    let ghost ps = pages@;
    let mut rev = reversed(pages);
    let mut methods: Vec<PageRef> = Vec::new();
    let mut props: Vec<PageRef> = Vec::new();
    let ghost mut i: int = 0;
    assert(ps.take(0) =~= Seq::<PageRef>::empty());
    while rev.len() > 0
        invariant
            0 <= i <= ps.len(),
            i + rev@.len() == ps.len(),
            rev@.reverse() == ps.skip(i),
            methods@ == proto_members(ps.take(i), 3),
            props@ == proto_members(ps.take(i), 4),
        decreases rev@.len(),
    {
        let ghost old_rev = rev@;
        proof {
            assert(rev@.reverse()[0] == ps[i]);
            assert(rev@[rev@.len() - 1] == rev@.reverse()[0]);
        }
        let p = rev.pop().unwrap();
        proof {
            assert(rev@.reverse() =~= old_rev.reverse().skip(1));
            assert(ps.skip(i).skip(1) =~= ps.skip(i + 1));
            assert(ps.take(i + 1) =~= ps.take(i).push(p));
            lemma_proto_push(ps.take(i), p, 3);
            lemma_proto_push(ps.take(i), p, 4);
        }
        match p.page_type {
            PageType::JavascriptInstanceMethod => methods.push(p),
            PageType::JavascriptInstanceAccessorProperty | PageType::JavascriptInstanceDataProperty => props.push(p),
            _ => {},
        }
        proof {
            i = i + 1;
        }
    }
    assert(ps.take(ps.len() as int) =~= ps);
    (methods, props)
}

/// The members of the class at `class_slug` among `pages`, by list, and the pages further
/// down by the slug they sit under.
fn classify(pages: Vec<PageRef>, class_slug: &str) -> (r: (Vec<PageRef>, Vec<PageRef>, Vec<PageRef>, Vec<PageRef>, Vec<PageRef>, Vec<(String, Vec<PageRef>)>))
    ensures
        r.0@ == members(pages@, class_slug@, 0),
        r.1@ == members(pages@, class_slug@, 1),
        r.2@ == members(pages@, class_slug@, 2),
        r.3@ == members(pages@, class_slug@, 3),
        r.4@ == members(pages@, class_slug@, 4),
        sub_pages_ok(r.5@, pages@, class_slug@),
{
    let ghost ps = pages@;
    let ghost cs = class_slug@;
    let mut rev = reversed(pages);
    let mut l0: Vec<PageRef> = Vec::new();
    let mut l1: Vec<PageRef> = Vec::new();
    let mut l2: Vec<PageRef> = Vec::new();
    let mut l3: Vec<PageRef> = Vec::new();
    let mut l4: Vec<PageRef> = Vec::new();
    let mut sub: Vec<(String, Vec<PageRef>)> = Vec::new();
    let ghost mut i: int = 0;
    assert(ps.take(0) =~= Seq::<PageRef>::empty());
    while rev.len() > 0
        invariant
            0 <= i <= ps.len(),
            i + rev@.len() == ps.len(),
            rev@.reverse() == ps.skip(i),
            cs == class_slug@,
            l0@ == members(ps.take(i), cs, 0),
            l1@ == members(ps.take(i), cs, 1),
            l2@ == members(ps.take(i), cs, 2),
            l3@ == members(ps.take(i), cs, 3),
            l4@ == members(ps.take(i), cs, 4),
            sub_pages_ok(sub@, ps.take(i), cs),
        decreases rev@.len(),
    {
        let ghost old_rev = rev@;
        proof {
            assert(rev@.reverse()[0] == ps[i]);
            assert(rev@[rev@.len() - 1] == rev@.reverse()[0]);
        }
        let p = rev.pop().unwrap();
        let ghost pre = ps.take(i);
        let ghost cur = ps.take(i + 1);
        proof {
            assert(rev@.reverse() =~= old_rev.reverse().skip(1));
            assert(ps.skip(i).skip(1) =~= ps.skip(i + 1));
            assert(cur =~= pre.push(p));
            lemma_members_push(pre, p, cs, 0);
            lemma_members_push(pre, p, cs, 1);
            lemma_members_push(pre, p, cs, 2);
            lemma_members_push(pre, p, cs, 3);
            lemma_members_push(pre, p, cs, 4);
        }
        let ghost old_sub = sub@;
        match parent_of(&p) {
            None => {
                proof {
                    assert forall|j: int| 0 <= j < sub@.len() implies (#[trigger] sub@[j]).1@ == children_of(cur, sub@[j].0@)
                        && sub@[j].0@ != cs && sub@[j].1@.len() > 0 by {
                        lemma_children_push(pre, p, sub@[j].0@);
                    }
                    assert forall|q: int| 0 <= q < cur.len() implies covered(sub@, #[trigger] cur[q], cs) by {
                        if q < pre.len() {
                            assert(cur[q] == pre[q]);
                        }
                    }
                }
            },
            Some(parent) => {
                if str_eq(parent.as_str(), class_slug) {
                    match p.page_type {
                        PageType::JavascriptConstructor => l0.push(p),
                        PageType::JavascriptStaticMethod => l1.push(p),
                        PageType::JavascriptStaticAccessorProperty | PageType::JavascriptStaticDataProperty => l2.push(p),
                        PageType::JavascriptInstanceMethod => l3.push(p),
                        PageType::JavascriptInstanceAccessorProperty | PageType::JavascriptInstanceDataProperty => l4.push(p),
                        _ => {},
                    }
                    proof {
                        assert forall|j: int| 0 <= j < sub@.len() implies (#[trigger] sub@[j]).1@ == children_of(cur, sub@[j].0@)
                            && sub@[j].0@ != cs && sub@[j].1@.len() > 0 by {
                            lemma_children_push(pre, p, sub@[j].0@);
                        }
                        assert forall|q: int| 0 <= q < cur.len() implies covered(sub@, #[trigger] cur[q], cs) by {
                            if q < pre.len() {
                                assert(cur[q] == pre[q]);
                            }
                        }
                    }
                } else {
                    let ghost key = parent@;
                    match find_key(&sub, parent.as_str()) {
                        Some(j) => {
                            let mut entry = sub.remove(j);
                            entry.1.push(p);
                            sub.insert(j, entry);
                            proof {
                                assert forall|m: int| 0 <= m < sub@.len() implies (#[trigger] sub@[m]).1@ == children_of(cur, sub@[m].0@)
                                    && sub@[m].0@ != cs && sub@[m].1@.len() > 0 by {
                                    lemma_children_push(pre, p, sub@[m].0@);
                                    if m != j {
                                        assert(sub@[m] == old_sub[m]);
                                        assert(old_sub[m].0@ != old_sub[j as int].0@);
                                    }
                                }
                                assert forall|a: int, b: int| 0 <= a < b < sub@.len() implies (#[trigger] sub@[a]).0@ != (#[trigger] sub@[b]).0@ by {
                                    assert(sub@[a].0 == old_sub[a].0);
                                    assert(sub@[b].0 == old_sub[b].0);
                                }
                                assert forall|q: int| 0 <= q < cur.len() implies covered(sub@, #[trigger] cur[q], cs) by {
                                    if q < pre.len() {
                                        assert(cur[q] == pre[q]);
                                        assert(covered(old_sub, pre[q], cs));
                                        if parent_slug(pre[q]) is Some && parent_slug(pre[q])->0 != cs {
                                            let k = parent_slug(pre[q])->0;
                                            let m = choose|m: int| 0 <= m < old_sub.len() && (#[trigger] old_sub[m]).0@ == k;
                                            assert(sub@[m].0 == old_sub[m].0);
                                        }
                                    } else {
                                        assert(sub@[j as int].0@ == key);
                                    }
                                }
                            }
                        },
                        None => {
                            let mut v: Vec<PageRef> = Vec::new();
                            v.push(p);
                            sub.push((parent, v));
                            proof {
                                assert forall|q: int| 0 <= q < pre.len() implies #[trigger] parent_slug(pre[q]) != Some(key) by {
                                    if parent_slug(pre[q]) == Some(key) {
                                        assert(covered(old_sub, pre[q], cs));
                                        let m = choose|m: int| 0 <= m < old_sub.len() && (#[trigger] old_sub[m]).0@ == key;
                                        assert(false);
                                    }
                                }
                                lemma_children_none(pre, key);
                                assert forall|m: int| 0 <= m < sub@.len() implies (#[trigger] sub@[m]).1@ == children_of(cur, sub@[m].0@)
                                    && sub@[m].0@ != cs && sub@[m].1@.len() > 0 by {
                                    lemma_children_push(pre, p, sub@[m].0@);
                                    if m < old_sub.len() {
                                        assert(sub@[m] == old_sub[m]);
                                    } else {
                                        assert(children_of(pre, key) =~= Seq::<PageRef>::empty());
                                        assert(sub@[m].1@ =~= seq![p]);
                                    }
                                }
                                assert forall|a: int, b: int| 0 <= a < b < sub@.len() implies (#[trigger] sub@[a]).0@ != (#[trigger] sub@[b]).0@ by {
                                    assert(sub@[a] == old_sub[a]);
                                    if b < old_sub.len() {
                                        assert(sub@[b] == old_sub[b]);
                                    }
                                }
                                assert forall|q: int| 0 <= q < cur.len() implies covered(sub@, #[trigger] cur[q], cs) by {
                                    if q < pre.len() {
                                        assert(cur[q] == pre[q]);
                                        assert(covered(old_sub, pre[q], cs));
                                        if parent_slug(pre[q]) is Some && parent_slug(pre[q])->0 != cs {
                                            let k = parent_slug(pre[q])->0;
                                            let m = choose|m: int| 0 <= m < old_sub.len() && (#[trigger] old_sub[m]).0@ == k;
                                            assert(sub@[m] == old_sub[m]);
                                        }
                                    } else {
                                        assert(sub@[old_sub.len() as int].0@ == key);
                                    }
                                }
                            }
                        },
                    }
                }
            },
        }
        proof {
            i = i + 1;
        }
    }
    assert(ps.take(ps.len() as int) =~= ps);
    (l0, l1, l2, l3, l4, sub)
}

/// Every page listed under a key sits right below that key.
pub open spec fn sub_wf(sp: Seq<(String, Vec<PageRef>)>) -> bool {
    forall|j: int, q: int| 0 <= j < sp.len() && 0 <= q < sp[j].1@.len() ==> parent_slug(#[trigger] sp[j].1@[q]) == Some(sp[j].0@)
}

/// The longest slug among `v`.
pub open spec fn list_max(v: Seq<PageRef>) -> nat
    decreases v.len(),
{
    if v.len() == 0 {
        0
    } else {
        let a = list_max(v.drop_last());
        let b = v.last().slug@.len();
        if a >= b { a } else { b }
    }
}

/// The longest slug among the pages of `sp`.
pub open spec fn max_len(sp: Seq<(String, Vec<PageRef>)>) -> nat
    decreases sp.len(),
{
    if sp.len() == 0 {
        0
    } else {
        let a = max_len(sp.drop_last());
        let b = list_max(sp.last().1@);
        if a >= b { a } else { b }
    }
}

/// The pages kept under `key`: those of its first entry, or none.
pub open spec fn lookup_sub(sp: Seq<(String, Vec<PageRef>)>, key: Seq<char>) -> Seq<PageRef>
    decreases sp.len(),
{
    if sp.len() == 0 {
        seq![]
    } else if sp[0].0@ == key {
        sp[0].1@
    } else {
        lookup_sub(sp.drop_first(), key)
    }
}

proof fn lemma_list_max(v: Seq<PageRef>)
    ensures
        forall|q: int| 0 <= q < v.len() ==> (#[trigger] v[q]).slug@.len() <= list_max(v),
    decreases v.len(),
{
    if v.len() > 0 {
        lemma_list_max(v.drop_last());
        assert forall|q: int| 0 <= q < v.len() implies (#[trigger] v[q]).slug@.len() <= list_max(v) by {
            if q < v.len() - 1 {
                assert(v.drop_last()[q] == v[q]);
            }
        }
    }
}

proof fn lemma_max_len(sp: Seq<(String, Vec<PageRef>)>)
    ensures
        forall|j: int, q: int| 0 <= j < sp.len() && 0 <= q < sp[j].1@.len() ==> (#[trigger] sp[j].1@[q]).slug@.len() <= max_len(sp),
    decreases sp.len(),
{
    if sp.len() > 0 {
        lemma_max_len(sp.drop_last());
        lemma_list_max(sp.last().1@);
        assert forall|j: int, q: int| 0 <= j < sp.len() && 0 <= q < sp[j].1@.len() implies (#[trigger] sp[j].1@[q]).slug@.len() <= max_len(sp) by {
            if j < sp.len() - 1 {
                assert(sp.drop_last()[j] == sp[j]);
            }
        }
    }
}

/// Every page kept under `key` sits right below it, and no slug is longer than the
/// longest.
proof fn lemma_lookup_sub(sp: Seq<(String, Vec<PageRef>)>, key: Seq<char>)
    requires
        sub_wf(sp),
    ensures
        forall|q: int| 0 <= q < lookup_sub(sp, key).len() ==> parent_slug(#[trigger] lookup_sub(sp, key)[q]) == Some(key)
            && lookup_sub(sp, key)[q].slug@.len() <= max_len(sp),
    decreases sp.len(),
{
    lemma_max_len(sp);
    if sp.len() > 0 && sp[0].0@ != key {
        let t = sp.drop_first();
        assert forall|j: int, q: int| 0 <= j < t.len() && 0 <= q < t[j].1@.len() implies parent_slug(#[trigger] t[j].1@[q]) == Some(t[j].0@) by {
            assert(t[j] == sp[j + 1]);
        }
        lemma_lookup_sub(t, key);
        lemma_max_len(t);
        assert forall|q: int| 0 <= q < lookup_sub(t, key).len() implies lookup_sub(t, key)[q].slug@.len() <= max_len(sp) by {
            let x = lookup_sub(t, key)[q];
            assert(lookup_sub(t, key)[q].slug@.len() <= max_len(t));
            lemma_max_len_drop_first(sp);
        }
    } else if sp.len() > 0 {
        assert forall|q: int| 0 <= q < sp[0].1@.len() implies parent_slug(#[trigger] sp[0].1@[q]) == Some(key) by {
            assert(parent_slug(sp[0].1@[q]) == Some(sp[0].0@));
        }
    }
}

proof fn lemma_max_len_drop_first(sp: Seq<(String, Vec<PageRef>)>)
    requires
        sp.len() > 0,
    ensures
        max_len(sp.drop_first()) <= max_len(sp),
{
    lemma_max_len(sp.drop_first());
    lemma_max_len(sp);
    lemma_max_len_bounded(sp.drop_first(), max_len(sp));
}

/// A bound on every slug is a bound on the longest.
proof fn lemma_max_len_bounded(sp: Seq<(String, Vec<PageRef>)>, b: nat)
    requires
        forall|j: int, q: int| 0 <= j < sp.len() && 0 <= q < sp[j].1@.len() ==> (#[trigger] sp[j].1@[q]).slug@.len() <= b,
    ensures
        max_len(sp) <= b,
    decreases sp.len(),
{
    if sp.len() > 0 {
        assert forall|j: int, q: int| 0 <= j < sp.drop_last().len() && 0 <= q < sp.drop_last()[j].1@.len() implies (#[trigger] sp.drop_last()[j].1@[q]).slug@.len() <= b by {
            assert(sp.drop_last()[j] == sp[j]);
        }
        lemma_max_len_bounded(sp.drop_last(), b);
        lemma_list_max_bounded(sp.last().1@, b);
    }
}

proof fn lemma_list_max_bounded(v: Seq<PageRef>, b: nat)
    requires
        forall|q: int| 0 <= q < v.len() ==> (#[trigger] v[q]).slug@.len() <= b,
    ensures
        list_max(v) <= b,
    decreases v.len(),
{
    if v.len() > 0 {
        assert forall|q: int| 0 <= q < v.drop_last().len() implies (#[trigger] v.drop_last()[q]).slug@.len() <= b by {
            assert(v.drop_last()[q] == v[q]);
        }
        lemma_list_max_bounded(v.drop_last(), b);
    }
}

proof fn lemma_parent_shorter(p: PageRef, key: Seq<char>)
    requires
        parent_slug(p) == Some(key),
    ensures
        key.len() < p.slug@.len(),
{
    crate::text::lemma_last_index(p.slug@, '/');
}

#[via_fn]
proof fn member_ok_decreases(p: PageRef, sp: Seq<(String, Vec<PageRef>)>, m: SidebarMetaEntry) {
    if sub_wf(sp) {
        lemma_lookup_sub(sp, p.slug@);
        let kids = lookup_sub(sp, p.slug@);
        assert forall|i: int| 0 <= i < kids.len() implies (max_len(sp) + 1 - (#[trigger] kids[i]).slug@.len() < max_len(sp) + 1 - p.slug@.len()) && (max_len(sp) + 1 - kids[i].slug@.len() >= 0) by {
            lemma_parent_shorter(kids[i], p.slug@);
        }
    }
}

/// The link of a member page: its URL without the `/en-US/docs` prefix.
pub open spec fn member_link(p: PageRef) -> Option<Seq<char>> {
    strip_prefix(p.url@, "/en-US/docs"@)
}

/// `m` is the sidebar entry of member page `p`, with the pages kept below it in `sp` as
/// entries below it, at any depth.
pub open spec fn member_ok(p: PageRef, sp: Seq<(String, Vec<PageRef>)>, m: SidebarMetaEntry) -> bool
    decreases max_len(sp) + 1 - p.slug@.len() when sub_wf(sp) via member_ok_decreases
{
    let kids = lookup_sub(sp, p.slug@);
    &&& m.code
    &&& !m.section
    &&& m.content matches SidebarMetaEntryContent::Link { link, title } && title is None && match link {
        Some(l) => member_link(p) == Some(l@),
        None => member_link(p) is None,
    }
    &&& if kids.len() == 0 {
        m.details is Unset && m.children is NoChildren
    } else {
        &&& m.details is Closed
        &&& m.children matches MetaChildren::Children(cs) && cs@.len() == kids.len()
            && forall|i: int| 0 <= i < kids.len() ==> member_ok(#[trigger] kids[i], sp, cs@[i])
    }
}

proof fn lemma_lookup_first(sp: Seq<(String, Vec<PageRef>)>, key: Seq<char>, j: int)
    requires
        0 <= j < sp.len(),
        sp[j].0@ == key,
        forall|k: int| 0 <= k < j ==> (#[trigger] sp[k]).0@ != key,
    ensures
        lookup_sub(sp, key) == sp[j].1@,
    decreases j,
{
    if j > 0 {
        assert forall|k: int| 0 <= k < j - 1 implies (#[trigger] sp.drop_first()[k]).0@ != key by {
            assert(sp.drop_first()[k] == sp[k + 1]);
        }
        assert(sp[0].0@ != key);
        lemma_lookup_first(sp.drop_first(), key, j - 1);
    }
}

proof fn lemma_lookup_none(sp: Seq<(String, Vec<PageRef>)>, key: Seq<char>)
    requires
        forall|k: int| 0 <= k < sp.len() ==> (#[trigger] sp[k]).0@ != key,
    ensures
        lookup_sub(sp, key).len() == 0,
    decreases sp.len(),
{
    if sp.len() > 0 {
        assert forall|k: int| 0 <= k < sp.drop_first().len() implies (#[trigger] sp.drop_first()[k]).0@ != key by {
            assert(sp.drop_first()[k] == sp[k + 1]);
        }
        assert(sp[0].0@ != key);
        lemma_lookup_none(sp.drop_first(), key);
    }
}

fn member_link_exec(url: &String) -> (r: Option<String>)
    ensures
        match r {
            Some(l) => strip_prefix(url@, "/en-US/docs"@) == Some(l@),
            None => strip_prefix(url@, "/en-US/docs"@) is None,
        },
{
    let v = chars_of(url.as_str());
    let pre = chars_of("/en-US/docs");
    if starts_with(v.as_slice(), pre.as_slice()) {
        let rest = slice_of(v.as_slice(), pre.len(), v.len());
        assert(rest@ =~= v@.skip(pre@.len() as int));
        Some(string_of(rest.as_slice()))
    } else {
        None
    }
}

/// The sidebar entry of member page `page`, with the pages kept below it in `sub_pages`
/// (by the slug they sit under) nested as entries below it, at any depth; an entry with
/// entries below it is a closed `<details>` element.
pub fn build_member_entry(page: &PageRef, sub_pages: &Vec<(String, Vec<PageRef>)>) -> (r: SidebarMetaEntry)
    requires
        sub_wf(sub_pages@),
    ensures
        member_ok(*page, sub_pages@, r),
    decreases max_len(sub_pages@) + 1 - page.slug@.len(),
{
    let ghost sp = sub_pages@;
    let link = member_link_exec(&page.url);
    let content = SidebarMetaEntryContent::Link { link, title: None };
    match find_key(sub_pages, page.slug.as_str()) {
        None => {
            proof {
                lemma_lookup_none(sp, page.slug@);
            }
            SidebarMetaEntry { code: true, section: false, details: Details::Unset, content, children: MetaChildren::NoChildren }
        },
        Some(j) => {
            proof {
                lemma_lookup_first(sp, page.slug@, j as int);
                lemma_lookup_sub(sp, page.slug@);
            }
            let subs = &sub_pages[j].1;
            let ghost kids = subs@;
            let n = subs.len();
            let mut children: Vec<SidebarMetaEntry> = Vec::new();
            let mut i: usize = 0;
            while i < n
                invariant
                    n == kids.len(),
                    kids == subs@,
                    kids == lookup_sub(sp, page.slug@),
                    sp == sub_pages@,
                    sub_wf(sp),
                    i <= n,
                    children@.len() == i,
                    forall|q: int| 0 <= q < kids.len() ==> parent_slug(#[trigger] kids[q]) == Some(page.slug@)
                        && kids[q].slug@.len() <= max_len(sp),
                    forall|k: int| 0 <= k < i ==> member_ok(#[trigger] kids[k], sp, children@[k]),
                decreases n - i,
            {
                proof {
                    lemma_parent_shorter(kids[i as int], page.slug@);
                }
                let c = build_member_entry(&subs[i], sub_pages);
                children.push(c);
                i += 1;
            }
            if n == 0 {
                SidebarMetaEntry { code: true, section: false, details: Details::Unset, content, children: MetaChildren::NoChildren }
            } else {
                SidebarMetaEntry { code: true, section: false, details: Details::Closed, content, children: MetaChildren::Children(children) }
            }
        },
    }
}

/// The namespaces and objects that inherit from nothing (neither `Object` nor
/// `Function`).
pub open spec fn no_base(obj: Seq<char>) -> bool {
    obj == "Proxy"@ || obj == "Atomics"@ || obj == "Math"@ || obj == "Intl"@ || obj == "JSON"@
        || obj == "Reflect"@ || obj == "Temporal"@
}

/// The inheritance chain shown for `main`: itself, what it inherits from, and the base
/// unless it is a namespace or an object without prototype.
pub open spec fn spec_chain(main: Seq<char>) -> Seq<Seq<char>> {
    seq![main] + match spec_inheritance_data(main) {
        Some(d) => seq![d],
        None => seq![],
    } + if no_base(main) {
        seq![]
    } else {
        seq![base_name()]
    }
}

/// The inheritance chain shown for `main_object` (see `spec_chain`).
pub fn inheritance_chain(main_object: &str) -> (r: Vec<String>)
    ensures
        views(r@) == spec_chain(main_object@),
{
    let mut r: Vec<String> = Vec::new();
    r.push(string_of(chars_of(main_object).as_slice()));
    match inheritance_data(main_object) {
        Some(d) => r.push(string_of(chars_of(d).as_slice())),
        None => {},
    }
    let nb = str_eq(main_object, "Proxy") || str_eq(main_object, "Atomics") || str_eq(main_object, "Math")
        || str_eq(main_object, "Intl") || str_eq(main_object, "JSON") || str_eq(main_object, "Reflect")
        || str_eq(main_object, "Temporal");
    if !nb {
        r.push(string_of(chars_of("%Base%").as_slice()));
    }
    assert(views(r@) =~= spec_chain(main_object@));
    r
}

/// The labels of the JavaScript reference sidebar, in the sidebar's locale.
pub struct JsRefLabels {
    pub constructor: String,
    pub static_methods: String,
    pub static_properties: String,
    pub instance_methods: String,
    pub instance_properties: String,
    pub inheritance: String,
    pub related: String,
}

/// The link of a global object with sub-path `sub_path`.
pub open spec fn object_link(sub_path: Seq<char>) -> Seq<char> {
    "/Web/JavaScript/Reference/Global_Objects/"@ + sub_path
}

/// `e` is a section heading that reads `title` and links nowhere.
pub open spec fn label_entry_ok(e: SidebarMetaEntry, title: Seq<char>) -> bool {
    &&& e.section && !e.code && e.details is Unset && e.children is NoChildren
    &&& e.content matches SidebarMetaEntryContent::Link { link: None, title: Some(t) } && t@ == title
}

/// `e` is a section heading in code font that reads `title` and links to `link`.
pub open spec fn code_link_entry_ok(e: SidebarMetaEntry, title: Seq<char>, link: Seq<char>) -> bool {
    &&& e.section && e.code && e.details is Unset && e.children is NoChildren
    &&& e.content matches SidebarMetaEntryContent::Link { link: Some(l), title: Some(t) } && t@ == title && l@ == link
}

/// `e` is the group of members `list` under label `label`: a `<details>` element (as
/// `details` says) with an entry for each member.
pub open spec fn member_group_ok(e: SidebarMetaEntry, list: Seq<PageRef>, label: Seq<char>, sp: Seq<(String, Vec<PageRef>)>, details: Details) -> bool {
    &&& e.details == details && !e.section && !e.code
    &&& e.content matches SidebarMetaEntryContent::Link { link: None, title: Some(t) } && t@ == label
    &&& e.children matches MetaChildren::Children(cs) && cs@.len() == list.len()
        && forall|q: int| 0 <= q < list.len() ==> member_ok(#[trigger] list[q], sp, cs@[q])
}

/// `es` are the member groups of the non-empty lists among `lists`, labelled by `labels`.
pub open spec fn groups_ok(lists: Seq<Seq<PageRef>>, labels: Seq<Seq<char>>, sp: Seq<(String, Vec<PageRef>)>, details: Details, es: Seq<SidebarMetaEntry>) -> bool
    decreases lists.len(),
{
    if lists.len() == 0 {
        es.len() == 0
    } else if lists[0].len() == 0 {
        groups_ok(lists.drop_first(), labels.drop_first(), sp, details, es)
    } else {
        es.len() > 0 && member_group_ok(es[0], lists[0], labels[0], sp, details)
            && groups_ok(lists.drop_first(), labels.drop_first(), sp, details, es.drop_first())
    }
}

/// The member lists of an item, in the order they are shown.
pub open spec fn item_lists(item: JSRefItem) -> Seq<Seq<PageRef>> {
    seq![item.constructors@, item.static_methods@, item.static_properties@, item.instance_methods@, item.instance_properties@]
}

/// The labels of the member lists, in the same order.
pub open spec fn list_labels(labels: JsRefLabels) -> Seq<Seq<char>> {
    seq![labels.constructor@, labels.static_methods@, labels.static_properties@, labels.instance_methods@, labels.instance_properties@]
}

/// `es` are the entries of item `k` of the chain: the inheritance heading before the
/// second item, the item's heading, and its member groups (open for the main object).
pub open spec fn item_entries_ok(item: JSRefItem, k: int, labels: JsRefLabels, es: Seq<SidebarMetaEntry>) -> bool {
    let off: int = if k == 1 { 1 } else { 0 };
    &&& es.len() >= off + 1
    &&& k == 1 ==> label_entry_ok(es[0], labels.inheritance@)
    &&& code_link_entry_ok(es[off], item.title@, object_link(item.sub_path@))
    &&& groups_ok(item_lists(item), list_labels(labels), item.sub_pages@,
        if item.default_opened { Details::Open } else { Details::Closed }, es.skip(off + 1))
}

/// `es` are the entries of the items of the chain, one after the other.
pub open spec fn chain_entries_ok(items: Seq<JSRefItem>, labels: JsRefLabels, es: Seq<SidebarMetaEntry>) -> bool
    decreases items.len(),
{
    if items.len() == 0 {
        es.len() == 0
    } else {
        exists|c: int| #![trigger es.take(c)] 0 <= c <= es.len() && chain_entries_ok(items.drop_last(), labels, es.take(c))
            && item_entries_ok(items.last(), items.len() - 1, labels, es.skip(c))
    }
}

/// `es` are the related objects: a heading and a linked entry for each, or nothing.
pub open spec fn related_ok(group: Seq<Seq<char>>, label: Seq<char>, es: Seq<SidebarMetaEntry>) -> bool {
    if group.len() == 0 {
        es.len() == 0
    } else {
        &&& es.len() == group.len() + 1
        &&& label_entry_ok(es[0], label)
        &&& forall|g: int| 0 <= g < group.len() ==> code_link_entry_ok(#[trigger] es[g + 1], group[g], object_link(replace(group[g], "."@, "/"@)))
    }
}

/// `r` is the JavaScript reference sidebar of the page with slug `slug`: the link to the
/// global objects page, the entries of each object of the inheritance chain (built from
/// the pages found for its queries, `found[k]` for object `k`), and the related objects.
pub open spec fn jsref_sidebar_ok(slug: Seq<char>, labels: JsRefLabels, global_objects: PageRef, found: Seq<Vec<Vec<PageRef>>>, intl: Seq<Seq<char>>, temporal: Seq<Seq<char>>, r: MetaSidebar) -> bool {
    let main = spec_slug_to_object_name(slug);
    let chain = spec_chain(main);
    let group = spec_get_group(main, chain, intl, temporal);
    let es = r.entries@;
    &&& r.l10n.l10n@.len() == 0
    &&& es.len() >= 1
    &&& es[0].section && !es[0].code && es[0].details is Unset && es[0].children is NoChildren
    &&& es[0].content == SidebarMetaEntryContent::Page(global_objects)
    &&& exists|items: Seq<JSRefItem>, m: int| {
        &&& items.len() == chain.len()
        &&& forall|k: int| 0 <= k < chain.len() ==> item_ok(chain[k], chain[k] == main,
            if 0 <= k < found.len() { found[k]@ } else { seq![] }, #[trigger] items[k])
        &&& 1 <= m <= es.len()
        &&& chain_entries_ok(items, labels, es.subrange(1, m))
        &&& related_ok(group, labels.related@, es.skip(m))
    }
}

fn label_entry(title: &String) -> (e: SidebarMetaEntry)
    ensures
        label_entry_ok(e, title@),
{
    SidebarMetaEntry {
        details: Details::Unset,
        section: true,
        code: false,
        content: SidebarMetaEntryContent::Link { link: None, title: Some(title.clone()) },
        children: MetaChildren::NoChildren,
    }
}

fn code_link_entry(title: &str, sub_path: &str) -> (e: SidebarMetaEntry)
    ensures
        code_link_entry_ok(e, title@, object_link(sub_path@)),
{
    let mut l = String::new();
    push_str(&mut l, "/Web/JavaScript/Reference/Global_Objects/");
    push_str(&mut l, sub_path);
    SidebarMetaEntry {
        details: Details::Unset,
        section: true,
        code: true,
        content: SidebarMetaEntryContent::Link { link: Some(l), title: Some(string_of(chars_of(title).as_slice())) },
        children: MetaChildren::NoChildren,
    }
}

proof fn lemma_item_sub_wf(obj: Seq<char>, open: bool, found: Seq<Vec<PageRef>>, item: JSRefItem)
    requires
        item_ok(obj, open, found, item),
    ensures
        sub_wf(item.sub_pages@),
{
    if obj != base_name() {
        let ps = found_at(found, 0);
        let cs = class_slug(item_sub_path(obj));
        let sp = item.sub_pages@;
        assert forall|j: int, q: int| 0 <= j < sp.len() && 0 <= q < sp[j].1@.len() implies parent_slug(#[trigger] sp[j].1@[q]) == Some(sp[j].0@) by {
            assert(sp[j].1@ == children_of(ps, sp[j].0@));
            let key = sp[j].0@;
            let x = sp[j].1@[q];
            assert(children_of(ps, key).contains(x));
            assert(children_of(ps, key)[q] == x);
        }
    }
}

fn member_group(list: &Vec<PageRef>, label: &String, sp: &Vec<(String, Vec<PageRef>)>, details: Details) -> (e: SidebarMetaEntry)
    requires
        sub_wf(sp@),
    ensures
        member_group_ok(e, list@, label@, sp@, details),
{
    let mut cs: Vec<SidebarMetaEntry> = Vec::new();
    let n = list.len();
    let mut i: usize = 0;
    while i < n
        invariant
            n == list@.len(),
            i <= n,
            sub_wf(sp@),
            cs@.len() == i,
            forall|q: int| 0 <= q < i ==> member_ok(#[trigger] list@[q], sp@, cs@[q]),
        decreases n - i,
    {
        let c = build_member_entry(&list[i], sp);
        cs.push(c);
        i += 1;
    }
    SidebarMetaEntry {
        details,
        section: false,
        code: false,
        content: SidebarMetaEntryContent::Link { link: None, title: Some(label.clone()) },
        children: MetaChildren::Children(cs),
    }
}

/// The group entry that a member list adds: none for an empty list.
pub open spec fn group_added(a: Seq<SidebarMetaEntry>, list: Seq<PageRef>, label: Seq<char>, sp: Seq<(String, Vec<PageRef>)>, details: Details) -> bool {
    if list.len() == 0 {
        a.len() == 0
    } else {
        a.len() == 1 && member_group_ok(a[0], list, label, sp, details)
    }
}

proof fn lemma_groups_cons(
    l: Seq<PageRef>,
    lab: Seq<char>,
    rest_lists: Seq<Seq<PageRef>>,
    rest_labs: Seq<Seq<char>>,
    sp: Seq<(String, Vec<PageRef>)>,
    d: Details,
    a: Seq<SidebarMetaEntry>,
    rest: Seq<SidebarMetaEntry>,
)
    requires
        group_added(a, l, lab, sp, d),
        groups_ok(rest_lists, rest_labs, sp, d, rest),
    ensures
        groups_ok(seq![l] + rest_lists, seq![lab] + rest_labs, sp, d, a + rest),
{
    let ls = seq![l] + rest_lists;
    let bs = seq![lab] + rest_labs;
    assert(ls.drop_first() =~= rest_lists);
    assert(bs.drop_first() =~= rest_labs);
    assert(ls[0] == l);
    assert(bs[0] == lab);
    if l.len() == 0 {
        assert(a + rest =~= rest);
    } else {
        assert((a + rest).drop_first() =~= rest);
        assert((a + rest)[0] == a[0]);
    }
}

fn push_group(out: &mut Vec<SidebarMetaEntry>, list: &Vec<PageRef>, label: &String, sp: &Vec<(String, Vec<PageRef>)>, details: Details)
    requires
        sub_wf(sp@),
    ensures
        final(out)@.len() >= old(out)@.len(),
        final(out)@ == old(out)@ + final(out)@.skip(old(out)@.len() as int),
        group_added(final(out)@.skip(old(out)@.len() as int), list@, label@, sp@, details),
{
    if list.len() > 0 {
        let e = member_group(list, label, sp, details);
        out.push(e);
        assert(out@.skip(old(out)@.len() as int) =~= seq![out@.last()]);
    } else {
        assert(out@.skip(old(out)@.len() as int) =~= Seq::<SidebarMetaEntry>::empty());
    }
    assert(out@ =~= old(out)@ + out@.skip(old(out)@.len() as int));
}

#[verifier::spinoff_prover]
#[verifier::rlimit(50)]
fn push_item_entries(out: &mut Vec<SidebarMetaEntry>, item: &JSRefItem, k: usize, labels: &JsRefLabels)
    requires
        sub_wf(item.sub_pages@),
    ensures
        final(out)@.len() >= old(out)@.len(),
        final(out)@.take(old(out)@.len() as int) == old(out)@,
        item_entries_ok(*item, k as int, *labels, final(out)@.skip(old(out)@.len() as int)),
{
    let ghost o = old(out)@;
    if k == 1 {
        out.push(label_entry(&labels.inheritance));
    }
    let ghost off: int = if k == 1 { 1 } else { 0 };
    out.push(code_link_entry(item.title.as_str(), item.sub_path.as_str()));
    let ghost head = out@;
    assert(head.take(o.len() as int) =~= o);
    let details = if item.default_opened { Details::Open } else { Details::Closed };
    let ghost sp = item.sub_pages@;
    push_group(out, &item.constructors, &labels.constructor, &item.sub_pages, details);
    let ghost o1 = out@;
    push_group(out, &item.static_methods, &labels.static_methods, &item.sub_pages, details);
    let ghost o2 = out@;
    push_group(out, &item.static_properties, &labels.static_properties, &item.sub_pages, details);
    let ghost o3 = out@;
    push_group(out, &item.instance_methods, &labels.instance_methods, &item.sub_pages, details);
    let ghost o4 = out@;
    push_group(out, &item.instance_properties, &labels.instance_properties, &item.sub_pages, details);
    let ghost o5 = out@;
    proof {
        let a1 = o1.skip(head.len() as int);
        let a2 = o2.skip(o1.len() as int);
        let a3 = o3.skip(o2.len() as int);
        let a4 = o4.skip(o3.len() as int);
        let a5 = o5.skip(o4.len() as int);
        lemma_item_groups(*item, *labels, details, a1, a2, a3, a4, a5);
        assert(o5 =~= head + (a1 + (a2 + (a3 + (a4 + a5)))));
        lemma_item_entries(*item, k as int, *labels, o, head, a1 + (a2 + (a3 + (a4 + a5))), o5);
    }
}

proof fn lemma_item_entries(item: JSRefItem, k: int, labels: JsRefLabels, o: Seq<SidebarMetaEntry>, head: Seq<SidebarMetaEntry>, gs: Seq<SidebarMetaEntry>, all: Seq<SidebarMetaEntry>)
    requires
        head.len() == o.len() + (if k == 1 { 2int } else { 1int }),
        head.take(o.len() as int) == o,
        k == 1 ==> label_entry_ok(head[o.len() as int], labels.inheritance@),
        code_link_entry_ok(head.last(), item.title@, object_link(item.sub_path@)),
        groups_ok(item_lists(item), list_labels(labels), item.sub_pages@,
            if item.default_opened { Details::Open } else { Details::Closed }, gs),
        all == head + gs,
    ensures
        all.len() >= o.len(),
        all.take(o.len() as int) == o,
        item_entries_ok(item, k, labels, all.skip(o.len() as int)),
{
    let off: int = if k == 1 { 1 } else { 0 };
    let es = all.skip(o.len() as int);
    assert(es.skip(off + 1) =~= gs);
    assert(es[off] == head.last());
    if k == 1 {
        assert(es[0] == head[o.len() as int]);
    }
    assert(all.take(o.len() as int) =~= head.take(o.len() as int));
}

proof fn lemma_item_groups(item: JSRefItem, labels: JsRefLabels, d: Details, a1: Seq<SidebarMetaEntry>, a2: Seq<SidebarMetaEntry>, a3: Seq<SidebarMetaEntry>, a4: Seq<SidebarMetaEntry>, a5: Seq<SidebarMetaEntry>)
    requires
        group_added(a1, item.constructors@, labels.constructor@, item.sub_pages@, d),
        group_added(a2, item.static_methods@, labels.static_methods@, item.sub_pages@, d),
        group_added(a3, item.static_properties@, labels.static_properties@, item.sub_pages@, d),
        group_added(a4, item.instance_methods@, labels.instance_methods@, item.sub_pages@, d),
        group_added(a5, item.instance_properties@, labels.instance_properties@, item.sub_pages@, d),
    ensures
        groups_ok(item_lists(item), list_labels(labels), item.sub_pages@, d, a1 + (a2 + (a3 + (a4 + a5)))),
{
    let sp = item.sub_pages@;
    let e: Seq<Seq<PageRef>> = seq![];
    let eb: Seq<Seq<char>> = seq![];
    assert(groups_ok(e, eb, sp, d, Seq::<SidebarMetaEntry>::empty()));
    lemma_groups_cons(item.instance_properties@, labels.instance_properties@, e, eb, sp, d, a5, seq![]);
    assert(a5 + seq![] =~= a5);
    let l5 = seq![item.instance_properties@] + e;
    let b5 = seq![labels.instance_properties@] + eb;
    lemma_groups_cons(item.instance_methods@, labels.instance_methods@, l5, b5, sp, d, a4, a5);
    let l4 = seq![item.instance_methods@] + l5;
    let b4 = seq![labels.instance_methods@] + b5;
    lemma_groups_cons(item.static_properties@, labels.static_properties@, l4, b4, sp, d, a3, a4 + a5);
    let l3 = seq![item.static_properties@] + l4;
    let b3 = seq![labels.static_properties@] + b4;
    lemma_groups_cons(item.static_methods@, labels.static_methods@, l3, b3, sp, d, a2, a3 + (a4 + a5));
    let l2 = seq![item.static_methods@] + l3;
    let b2 = seq![labels.static_methods@] + b3;
    lemma_groups_cons(item.constructors@, labels.constructor@, l2, b2, sp, d, a1, a2 + (a3 + (a4 + a5)));
    assert(seq![item.constructors@] + l2 =~= item_lists(item));
    assert(seq![labels.constructor@] + b2 =~= list_labels(labels));
}

proof fn lemma_chain_push(items: Seq<JSRefItem>, item: JSRefItem, labels: JsRefLabels, es: Seq<SidebarMetaEntry>, c: int)
    requires
        0 <= c <= es.len(),
        chain_entries_ok(items, labels, es.take(c)),
        item_entries_ok(item, items.len() as int, labels, es.skip(c)),
    ensures
        chain_entries_ok(items.push(item), labels, es),
{
    let its = items.push(item);
    assert(its.drop_last() =~= items);
    assert(its.last() == item);
    assert(chain_entries_ok(its.drop_last(), labels, es.take(c)));
}

fn take_found_at(found: &mut Vec<Vec<Vec<PageRef>>>) -> (r: Vec<Vec<PageRef>>)
    ensures
        old(found)@.len() > 0 ==> r@ == old(found)@[0]@ && final(found)@ == old(found)@.drop_first(),
        old(found)@.len() == 0 ==> r@.len() == 0 && final(found)@.len() == 0,
{
    if found.len() > 0 {
        let r = found.remove(0);
        assert(found@ =~= old(found)@.drop_first());
        r
    } else {
        Vec::new()
    }
}

/// The JavaScript reference sidebar of the page with slug `slug` (see
/// `jsref_sidebar_ok`): `global_objects` is the page of the global objects, `found[k]`
/// the pages found for the queries of object `k` of the inheritance chain, `intl` and
/// `temporal` the classes of those namespaces.
pub fn sidebar(slug: &str, labels: &JsRefLabels, global_objects: PageRef, found: Vec<Vec<Vec<PageRef>>>, intl: &[String], temporal: &[String]) -> (r: MetaSidebar)
    ensures
        jsref_sidebar_ok(slug@, *labels, global_objects, found@, views(intl@), views(temporal@), r),
{
    let ghost fv = found@;
    let mut found = found;
    let main = slug_to_object_name(slug);
    let chain = inheritance_chain(main.as_str());
    let group = get_group(main.as_str(), chain.as_slice(), intl, temporal);
    let ghost cv = views(chain@);
    let mut entries: Vec<SidebarMetaEntry> = Vec::new();
    let ghost g0 = global_objects;
    entries.push(SidebarMetaEntry {
        details: Details::Unset,
        section: true,
        code: false,
        content: SidebarMetaEntryContent::Page(global_objects),
        children: MetaChildren::NoChildren,
    });
    let ghost mut items: Seq<JSRefItem> = seq![];
    let n = chain.len();
    let mut k: usize = 0;
    assert(entries@.subrange(1, 1) =~= Seq::<SidebarMetaEntry>::empty());
    while k < n
        invariant
            n == chain@.len(),
            cv == views(chain@),
            cv == spec_chain(main@),
            k <= n,
            items.len() == k,
            entries@.len() >= 1,
            entries@[0].section && !entries@[0].code && entries@[0].details is Unset && entries@[0].children is NoChildren,
            entries@[0].content == SidebarMetaEntryContent::Page(g0),
            found@ == if k <= fv.len() { fv.skip(k as int) } else { seq![] },
            forall|j: int| 0 <= j < k ==> item_ok(cv[j], cv[j] == main@,
                if 0 <= j < fv.len() { fv[j]@ } else { seq![] }, #[trigger] items[j]),
            chain_entries_ok(items, *labels, entries@.subrange(1, entries@.len() as int)),
        decreases n - k,
    {
        let ghost before = entries@;
        let f = take_found_at(&mut found);
        proof {
            if k < fv.len() {
                assert(fv.skip(k as int)[0] == fv[k as int]);
                assert(fv.skip(k as int).drop_first() =~= fv.skip(k + 1));
            }
        }
        let is_main = str_eq(chain[k].as_str(), main.as_str());
        let item = JSRefItem::from_obj_str(chain[k].as_str(), is_main, f);
        proof {
            lemma_item_sub_wf(cv[k as int], is_main, if (k as int) < fv.len() { fv[k as int]@ } else { seq![] }, item);
        }
        push_item_entries(&mut entries, &item, k, labels);
        proof {
            let old_items = items;
            items = items.push(item);
            let es = entries@.subrange(1, entries@.len() as int);
            let c = before.len() - 1;
            assert(items.drop_last() =~= old_items);
            assert(es.take(c) =~= before.subrange(1, before.len() as int));
            assert(es.skip(c) =~= entries@.skip(before.len() as int));
            assert(chain_entries_ok(old_items, *labels, es.take(c)));
            assert(item_entries_ok(item, old_items.len() as int, *labels, es.skip(c)));
            lemma_chain_push(old_items, item, *labels, es, c);
            assert(entries@[0] == before[0]);
            assert forall|j: int| 0 <= j < k + 1 implies item_ok(cv[j], cv[j] == main@,
                if 0 <= j < fv.len() { fv[j]@ } else { seq![] }, #[trigger] items[j]) by {
                if j < k {
                    assert(items[j] == old_items[j]);
                }
            }
        }
        k += 1;
    }
    let m = entries.len();
    let ghost before_rel = entries@;
    if group.len() > 0 {
        entries.push(label_entry(&labels.related));
        let gn = group.len();
        let mut g: usize = 0;
        while g < gn
            invariant
                gn == group@.len(),
                g <= gn,
                entries@.len() == m + 1 + g,
                entries@.take(m as int) == before_rel,
                label_entry_ok(entries@[m as int], labels.related@),
                forall|q: int| 0 <= q < g ==> code_link_entry_ok(#[trigger] entries@[m + 1 + q], group@[q]@, object_link(replace(group@[q]@, "."@, "/"@))),
            decreases gn - g,
        {
            proof {
                reveal_strlit(".");
            }
            let sp = replace_str(group[g].as_str(), ".", "/");
            let ghost e0 = entries@;
            entries.push(code_link_entry(group[g].as_str(), sp.as_str()));
            assert(entries@.take(m as int) =~= e0.take(m as int));
            assert forall|q: int| 0 <= q < g + 1 implies code_link_entry_ok(#[trigger] entries@[m + 1 + q], group@[q]@, object_link(replace(group@[q]@, "."@, "/"@))) by {
                if q < g {
                    assert(entries@[m + 1 + q] == e0[m + 1 + q]);
                }
            }
            g += 1;
        }
    }
    proof {
        let es = entries@;
        let grp = spec_get_group(main@, cv, views(intl@), views(temporal@));
        assert(views(group@) == grp);
        assert(es.subrange(1, m as int) =~= before_rel.subrange(1, m as int));
        if group@.len() > 0 {
            assert forall|gi: int| 0 <= gi < grp.len() implies code_link_entry_ok(#[trigger] es.skip(m as int)[gi + 1], grp[gi], object_link(replace(grp[gi], "."@, "/"@))) by {
                assert(es.skip(m as int)[gi + 1] == es[m + 1 + gi]);
                assert(grp[gi] == group@[gi]@);
            }
            assert(es.skip(m as int)[0] == es[m as int]);
        } else {
            assert(es.skip(m as int) =~= Seq::<SidebarMetaEntry>::empty());
        }
        assert(related_ok(grp, labels.related@, es.skip(m as int)));
        assert(es[0] == before_rel[0]);
        assert(items.len() == spec_chain(main@).len());
    }
    MetaSidebar { entries, l10n: SidebarL10n { l10n: Vec::new() } }
}

proof fn lemma_in_members(ps: Seq<PageRef>, cs: Seq<char>, k: int, p: PageRef)
    ensures
        members(ps, cs, k).contains(p) <==> ps.contains(p) && parent_slug(p) == Some(cs) && member_kind(p.page_type) == k,
{
    let m = members(ps, cs, k);
    assert(m == ps.filter(|q: PageRef| parent_slug(q) == Some(cs) && member_kind(q.page_type) == k));
    assert(exists|f: spec_fn(PageRef) -> bool| #![trigger ps.filter(f)]
        members(ps, cs, k) == ps.filter(f) && forall|q: PageRef| #[trigger] f(q) == (parent_slug(q) == Some(cs) && member_kind(q.page_type) == k));
    let f = choose|f: spec_fn(PageRef) -> bool| #![trigger ps.filter(f)]
        members(ps, cs, k) == ps.filter(f) && forall|q: PageRef| #[trigger] f(q) == (parent_slug(q) == Some(cs) && member_kind(q.page_type) == k);
    crate::text::lemma_filter_member(ps, f, p);
}

proof fn lemma_in_proto(ps: Seq<PageRef>, k: int, p: PageRef)
    ensures
        proto_members(ps, k).contains(p) <==> ps.contains(p) && proto_kind(p.page_type) == k,
{
    let m = proto_members(ps, k);
    assert(m == ps.filter(|q: PageRef| proto_kind(q.page_type) == k));
    assert(exists|f: spec_fn(PageRef) -> bool| #![trigger ps.filter(f)]
        proto_members(ps, k) == ps.filter(f) && forall|q: PageRef| #[trigger] f(q) == (proto_kind(q.page_type) == k));
    let f = choose|f: spec_fn(PageRef) -> bool| #![trigger ps.filter(f)]
        proto_members(ps, k) == ps.filter(f) && forall|q: PageRef| #[trigger] f(q) == (proto_kind(q.page_type) == k);
    crate::text::lemma_filter_member(ps, f, p);
}

/// Each member of a global object is listed by its type, and only there: a page found
/// right below the object's page is among its constructors, static methods, static
/// properties (accessor or data), instance methods or instance properties (accessor or
/// data) exactly when its type is the one of that list. For the base entry, the
/// prototype members of `Object` (found first) are its instance methods and properties,
/// those of `Function` (found second) its static ones.
pub proof fn law_js_members_by_type(obj: Seq<char>, open: bool, found: Seq<Vec<PageRef>>, item: JSRefItem, p: PageRef)
    requires
        item_ok(obj, open, found, item),
    ensures
        obj != base_name() ==> {
            let ps = found_at(found, 0);
            let below = ps.contains(p) && parent_slug(p) == Some(class_slug(item_sub_path(obj)));
            &&& item.constructors@.contains(p) <==> below && p.page_type == PageType::JavascriptConstructor
            &&& item.static_methods@.contains(p) <==> below && p.page_type == PageType::JavascriptStaticMethod
            &&& item.static_properties@.contains(p) <==> below && (p.page_type == PageType::JavascriptStaticAccessorProperty
                || p.page_type == PageType::JavascriptStaticDataProperty)
            &&& item.instance_methods@.contains(p) <==> below && p.page_type == PageType::JavascriptInstanceMethod
            &&& item.instance_properties@.contains(p) <==> below && (p.page_type == PageType::JavascriptInstanceAccessorProperty
                || p.page_type == PageType::JavascriptInstanceDataProperty)
        },
        obj == base_name() ==> {
            let os = found_at(found, 0);
            let fs = found_at(found, 1);
            &&& item.constructors@.len() == 0
            &&& item.instance_methods@.contains(p) <==> os.contains(p) && p.page_type == PageType::JavascriptInstanceMethod
            &&& item.instance_properties@.contains(p) <==> os.contains(p) && (p.page_type
                == PageType::JavascriptInstanceAccessorProperty || p.page_type == PageType::JavascriptInstanceDataProperty)
            &&& item.static_methods@.contains(p) <==> fs.contains(p) && p.page_type == PageType::JavascriptInstanceMethod
            &&& item.static_properties@.contains(p) <==> fs.contains(p) && (p.page_type
                == PageType::JavascriptInstanceAccessorProperty || p.page_type == PageType::JavascriptInstanceDataProperty)
        },
{
    if obj != base_name() {
        let ps = found_at(found, 0);
        let cs = class_slug(item_sub_path(obj));
        lemma_in_members(ps, cs, 0, p);
        lemma_in_members(ps, cs, 1, p);
        lemma_in_members(ps, cs, 2, p);
        lemma_in_members(ps, cs, 3, p);
        lemma_in_members(ps, cs, 4, p);
    } else {
        lemma_in_proto(found_at(found, 0), 3, p);
        lemma_in_proto(found_at(found, 0), 4, p);
        lemma_in_proto(found_at(found, 1), 3, p);
        lemma_in_proto(found_at(found, 1), 4, p);
    }
}

} // verus!
