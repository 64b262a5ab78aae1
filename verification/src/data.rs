//! Data read from the content's JSON files: interface inheritance, API groups,
//! translations of labels, and the WebExtension examples.
use vstd::prelude::*;
use crate::locale::{spec_url_str, Locale};
use crate::text::{chars_of, find_char, first_index, reversed, slice_of, str_eq, string_of};

verus! {

/// What the interface data says of an interface: the interface it inherits from (empty
/// for none).
#[derive(Debug, Default, Clone)]
pub struct InterfaceData {
    pub inh: String,
}

/// The pages of an API group.
#[derive(Debug, Default, Clone)]
pub struct GroupData {
    pub overview: Vec<String>,
    pub guides: Vec<String>,
    pub interfaces: Vec<String>,
    pub methods: Vec<String>,
    pub properties: Vec<String>,
    pub events: Vec<String>,
    pub tutorial: Vec<String>,
}

/// What interface `name` inherits from: the first entry for it, when its `inh` is not
/// empty.
pub open spec fn inherits(data: Seq<(String, InterfaceData)>, name: Seq<char>) -> Option<Seq<char>>
    decreases data.len(),
{
    if data.len() == 0 {
        None
    } else if data[0].0@ == name {
        if data[0].1.inh@.len() > 0 {
            Some(data[0].1.inh@)
        } else {
            None
        }
    } else {
        inherits(data.drop_first(), name)
    }
}

/// The chain of interfaces that `name` inherits from, followed for at most `fuel` steps;
/// none where it goes on longer.
pub open spec fn inh_chain(data: Seq<(String, InterfaceData)>, name: Seq<char>, fuel: nat) -> Option<Seq<Seq<char>>>
    decreases fuel,
{
    if fuel == 0 {
        None
    } else {
        match inherits(data, name) {
            None => Some(seq![]),
            Some(d) => match inh_chain(data, d, (fuel - 1) as nat) {
                Some(c) => Some(seq![d] + c),
                None => None,
            },
        }
    }
}

/// The chain of `name` ends: it inherits from an interface that inherits from nothing
/// after finitely many steps.
pub open spec fn chain_ends(data: Seq<(String, InterfaceData)>, name: Seq<char>) -> bool {
    exists|fuel: nat| #[trigger] inh_chain(data, name, fuel) is Some
}

proof fn lemma_inh_chain_more(data: Seq<(String, InterfaceData)>, name: Seq<char>, f: nat, g: nat)
    requires
        inh_chain(data, name, f) is Some,
        f <= g,
    ensures
        inh_chain(data, name, g) == inh_chain(data, name, f),
    decreases f,
{
    match inherits(data, name) {
        None => {},
        Some(d) => {
            lemma_inh_chain_more(data, d, (f - 1) as nat, (g - 1) as nat);
        },
    }
}

/// The chain of `name` (see `inh_chain`), whatever fuel lets it end.
pub open spec fn spec_inheritance(data: Seq<(String, InterfaceData)>, name: Seq<char>) -> Seq<Seq<char>> {
    inh_chain(data, name, choose|fuel: nat| #[trigger] inh_chain(data, name, fuel) is Some)->0
}

fn inherits_exec<'a>(data: &'a [(String, InterfaceData)], name: &str) -> (r: Option<&'a String>)
    ensures
        match r {
            Some(d) => inherits(data@, name@) == Some(d@),
            None => inherits(data@, name@) is None,
        },
{
    let n = data.len();
    let mut i: usize = 0;
    assert(data@.skip(0) =~= data@);
    while i < n
        invariant
            n == data@.len(),
            i <= n,
            inherits(data@, name@) == inherits(data@.skip(i as int), name@),
        decreases n - i,
    {
        assert(data@.skip(i as int).drop_first() =~= data@.skip(i + 1));
        assert(data@.skip(i as int)[0] == data@[i as int]);
        if str_eq(data[i].0.as_str(), name) {
            if data[i].1.inh.as_str().is_empty() {
                return None;
            }
            return Some(&data[i].1.inh);
        }
        i += 1;
    }
    None
}

/// The interfaces that `main_if` inherits from, nearest first, as the interface data
/// says; the chain must end.
pub fn inheritance(main_if: &str, data: &[(String, InterfaceData)]) -> (r: Vec<String>)
    requires
        chain_ends(data@, main_if@),
    ensures
        r@.map_values(|s: String| s@) == spec_inheritance(data@, main_if@),
{
    let ghost f0: nat = choose|fuel: nat| #[trigger] inh_chain(data@, main_if@, fuel) is Some;
    let ghost whole = inh_chain(data@, main_if@, f0)->0;
    let mut out: Vec<String> = Vec::new();
    let mut interface = string_of(chars_of(main_if).as_slice());
    let ghost mut f: nat = f0;
    let mut done = false;
    assert(out@.map_values(|s: String| s@) =~= seq![]);
    while !done
        invariant
            inh_chain(data@, interface@, f) is Some,
            !done ==> out@.map_values(|s: String| s@) + inh_chain(data@, interface@, f)->0 == whole,
            done ==> out@.map_values(|s: String| s@) == whole,
        decreases f, if done { 0int } else { 1int },
    {
        match inherits_exec(data, interface.as_str()) {
            Some(d) => {
                let ghost old_out = out@.map_values(|s: String| s@);
                let dv = d.clone();
                out.push(d.clone());
                interface = dv;
                proof {
                    let prev = f;
                    f = (f - 1) as nat;
                    assert(out@.map_values(|s: String| s@) =~= old_out.push(interface@));
                    assert(old_out + (seq![interface@] + inh_chain(data@, interface@, f)->0) =~= old_out.push(interface@) + inh_chain(data@, interface@, f)->0);
                }
            },
            None => {
                done = true;
                assert(out@.map_values(|s: String| s@) =~= out@.map_values(|s: String| s@) + seq![]);
            },
        }
    }
    out
}

/// Why a translation could not be found.
#[derive(Debug, Clone, PartialEq)]
pub enum L10nError {
    /// No translations for the key.
    InvalidKey(String),
    /// No en-US translation to fall back to.
    NoEnUs,
}

/// The message of a translation error.
pub open spec fn l10n_message(e: L10nError) -> Seq<char> {
    match e {
        L10nError::InvalidKey(k) => "Invalid key for L10n json data: "@ + k@,
        L10nError::NoEnUs => "EnUS missing in L10n json data"@,
    }
}

impl L10nError {
    /// The error as a message.
    pub fn to_string(&self) -> (r: String)
        ensures
            r@ == l10n_message(*self),
    {
        let mut out = String::new();
        match self {
            L10nError::InvalidKey(k) => {
                crate::text::push_str(&mut out, "Invalid key for L10n json data: ");
                crate::text::push_str(&mut out, k.as_str());
            },
            L10nError::NoEnUs => {
                crate::text::push_str(&mut out, "EnUS missing in L10n json data");
            },
        }
        out
    }
}

/// The translation files: for each type, the keys, and for each key the translation per
/// locale (as its URL spelling).
pub type L10nFiles = Vec<(String, Vec<(String, Vec<(String, String)>)>)>;

/// The value under the first key `k` of `kv`.
pub open spec fn kv_get<V>(kv: Seq<(String, V)>, k: Seq<char>) -> Option<V>
    decreases kv.len(),
{
    if kv.len() == 0 {
        None
    } else if kv[0].0@ == k {
        Some(kv[0].1)
    } else {
        kv_get(kv.drop_first(), k)
    }
}

/// What `l10n_json_data` gives: the translation for `locale`, else the en-US one; an
/// error where the key is unknown or there is no en-US translation.
pub open spec fn spec_l10n(files: Seq<(String, Vec<(String, Vec<(String, String)>)>)>, typ: Seq<char>, key: Seq<char>, locale: Locale) -> Result<Seq<char>, Option<Seq<char>>> {
    match kv_get(files, typ) {
        Some(file) => match kv_get(file@, key) {
            Some(data) => match kv_get(data@, spec_url_str(locale)) {
                Some(v) => Ok(v@),
                None => if locale != Locale::EnUs {
                    match kv_get(data@, "en-US"@) {
                        Some(v) => Ok(v@),
                        None => Err(None),
                    }
                } else {
                    Err(None)
                },
            },
            None => Err(Some(key)),
        },
        None => Err(Some(key)),
    }
}

pub(crate) fn kv_get_exec<'a, V>(kv: &'a [(String, V)], k: &str) -> (r: Option<&'a V>)
    ensures
        match r {
            Some(v) => kv_get(kv@, k@) == Some(*v),
            None => kv_get(kv@, k@) is None,
        },
{
    let n = kv.len();
    let mut i: usize = 0;
    assert(kv@.skip(0) =~= kv@);
    while i < n
        invariant
            n == kv@.len(),
            i <= n,
            kv_get(kv@, k@) == kv_get(kv@.skip(i as int), k@),
        decreases n - i,
    {
        assert(kv@.skip(i as int).drop_first() =~= kv@.skip(i + 1));
        assert(kv@.skip(i as int)[0] == kv@[i as int]);
        if str_eq(kv[i].0.as_str(), k) {
            return Some(&kv[i].1);
        }
        i += 1;
    }
    None
}

/// The translation of `key` in the `L10n-<typ>.json` file for `locale`, falling back to
/// en-US.
pub fn l10n_json_data(typ: &str, key: &str, locale: Locale, files: &L10nFiles) -> (r: Result<String, L10nError>)
    ensures
        match spec_l10n(files@, typ@, key@, locale) {
            Ok(v) => r matches Ok(s) && s@ == v,
            Err(Some(k)) => r matches Err(L10nError::InvalidKey(s)) && s@ == k,
            Err(None) => r matches Err(L10nError::NoEnUs),
        },
{
    match kv_get_exec(files.as_slice(), typ) {
        Some(file) => match kv_get_exec(file.as_slice(), key) {
            Some(data) => match kv_get_exec(data.as_slice(), locale.as_url_str()) {
                Some(v) => Ok(v.clone()),
                None => {
                    if locale != Locale::EnUs {
                        match kv_get_exec(data.as_slice(), "en-US") {
                            Some(v) => Ok(v.clone()),
                            None => Err(L10nError::NoEnUs),
                        }
                    } else {
                        Err(L10nError::NoEnUs)
                    }
                },
            },
            None => Err(L10nError::InvalidKey(string_of(chars_of(key).as_slice()))),
        },
        None => Err(L10nError::InvalidKey(string_of(chars_of(key).as_slice()))),
    }
}

/// A WebExtension example.
#[derive(Debug, Clone)]
pub struct WebExtExample {
    pub description: String,
    pub javascript_apis: Vec<String>,
    pub name: String,
}

/// The WebExtension examples by API module and by API, each key once, as positions in
/// the list of examples.
#[derive(Debug)]
pub struct WebExtExamplesData {
    pub by_module: Vec<(String, Vec<usize>)>,
    pub by_module_and_api: Vec<(String, Vec<usize>)>,
}

/// The WebExtension examples.
pub fn web_ext_examples_json(examples: &Vec<WebExtExample>) -> (r: &[WebExtExample])
    ensures
        r@ == examples@,
{
    examples.as_slice()
}

/// The module of an API: its name up to the first `.`.
pub open spec fn api_module(api: Seq<char>) -> Seq<char> {
    match first_index(api, '.') {
        Some(i) => api.take(i),
        None => api,
    }
}

/// The (key, example) pairs of the examples, in order: for each example, each of its APIs
/// keyed as `key` says.
pub open spec fn api_pairs(examples: Seq<WebExtExample>, by_module: bool) -> Seq<(Seq<char>, usize)>
    decreases examples.len(),
{
    if examples.len() == 0 {
        seq![]
    } else {
        let i = (examples.len() - 1) as usize;
        api_pairs(examples.drop_last(), by_module) + examples.last().javascript_apis@.map_values(
            |a: String| (if by_module { api_module(a@) } else { a@ }, i),
        )
    }
}

/// The examples under `key` among the pairs, in order.
pub open spec fn under_key(pairs: Seq<(Seq<char>, usize)>, key: Seq<char>) -> Seq<usize>
    decreases pairs.len(),
{
    if pairs.len() == 0 {
        seq![]
    } else {
        under_key(pairs.drop_last(), key) + if pairs.last().0 == key {
            seq![pairs.last().1]
        } else {
            seq![]
        }
    }
}

/// `g` groups the pairs by key: each key once, with its examples in order.
pub open spec fn grouped_pairs_ok(g: Seq<(String, Vec<usize>)>, pairs: Seq<(Seq<char>, usize)>) -> bool {
    &&& forall|j: int| 0 <= j < g.len() ==> (#[trigger] g[j]).1@ == under_key(pairs, g[j].0@) && g[j].1@.len() > 0
    &&& forall|j: int, k: int| 0 <= j < k < g.len() ==> (#[trigger] g[j]).0@ != (#[trigger] g[k]).0@
    &&& forall|q: int| 0 <= q < pairs.len() ==> has_group(g, #[trigger] pairs[q].0)
}

/// `g` has key `key`.
pub open spec fn has_group(g: Seq<(String, Vec<usize>)>, key: Seq<char>) -> bool {
    exists|j: int| 0 <= j < g.len() && (#[trigger] g[j]).0@ == key
}

proof fn lemma_under_key_push(pairs: Seq<(Seq<char>, usize)>, p: (Seq<char>, usize), key: Seq<char>)
    ensures
        under_key(pairs.push(p), key) == if p.0 == key {
            under_key(pairs, key).push(p.1)
        } else {
            under_key(pairs, key)
        },
{
    assert(pairs.push(p).drop_last() =~= pairs);
    assert(pairs.push(p).last() == p);
    if p.0 == key {
        assert(under_key(pairs, key) + seq![p.1] =~= under_key(pairs, key).push(p.1));
    } else {
        assert(under_key(pairs, key) + seq![] =~= under_key(pairs, key));
    }
}

proof fn lemma_under_key_none(pairs: Seq<(Seq<char>, usize)>, key: Seq<char>)
    requires
        forall|q: int| 0 <= q < pairs.len() ==> (#[trigger] pairs[q]).0 != key,
    ensures
        under_key(pairs, key).len() == 0,
    decreases pairs.len(),
{
    if pairs.len() > 0 {
        assert(pairs.drop_last().push(pairs.last()) =~= pairs);
        assert forall|q: int| 0 <= q < pairs.drop_last().len() implies (#[trigger] pairs.drop_last()[q]).0 != key by {
            assert(pairs.drop_last()[q] == pairs[q]);
        }
        lemma_under_key_none(pairs.drop_last(), key);
        lemma_under_key_push(pairs.drop_last(), pairs.last(), key);
    }
}

fn find_group(g: &Vec<(String, Vec<usize>)>, key: &str) -> (r: Option<usize>)
    ensures
        match r {
            Some(j) => j < g@.len() && g@[j as int].0@ == key@,
            None => forall|j: int| 0 <= j < g@.len() ==> (#[trigger] g@[j]).0@ != key@,
        },
{
    let n = g.len();
    let mut i: usize = 0;
    while i < n
        invariant
            n == g@.len(),
            i <= n,
            forall|j: int| 0 <= j < i ==> (#[trigger] g@[j]).0@ != key@,
        decreases n - i,
    {
        if str_eq(g[i].0.as_str(), key) {
            return Some(i);
        }
        i += 1;
    }
    None
}

/// The keys with their values in order.
pub open spec fn pair_views(pairs: Seq<(String, usize)>) -> Seq<(Seq<char>, usize)> {
    pairs.map_values(|p: (String, usize)| (p.0@, p.1))
}

/// Groups (key, value) pairs by key: each key once, with its values in order.
fn group_pairs(pairs: Vec<(String, usize)>) -> (r: Vec<(String, Vec<usize>)>)
    ensures
        grouped_pairs_ok(r@, pair_views(pairs@)),
{
    let ghost ps = pair_views(pairs@);
    let ghost raw = pairs@;
    let mut rev = reversed(pairs);
    let mut g: Vec<(String, Vec<usize>)> = Vec::new();
    let ghost mut i: int = 0;
    assert(ps.take(0) =~= Seq::<(Seq<char>, usize)>::empty());
    while rev.len() > 0
        invariant
            0 <= i <= ps.len(),
            ps.len() == raw.len(),
            ps == pair_views(raw),
            i + rev@.len() == ps.len(),
            rev@.reverse() == raw.skip(i),
            grouped_pairs_ok(g@, ps.take(i)),
        decreases rev@.len(),
    {
        let ghost old_rev = rev@;
        proof {
            assert(rev@.reverse()[0] == raw[i]);
            assert(rev@[rev@.len() - 1] == rev@.reverse()[0]);
        }
        let (key, value) = rev.pop().unwrap();
        let ghost pre = ps.take(i);
        let ghost cur = ps.take(i + 1);
        let ghost p = (key@, value);
        proof {
            assert(rev@.reverse() =~= old_rev.reverse().skip(1));
            assert(raw.skip(i).skip(1) =~= raw.skip(i + 1));
            assert(ps[i] == p);
            assert(cur =~= pre.push(p));
        }
        let ghost old_g = g@;
        match find_group(&g, key.as_str()) {
            Some(j) => {
                let mut entry = g.remove(j);
                entry.1.push(value);
                g.insert(j, entry);
                proof {
                    assert forall|m: int| 0 <= m < g@.len() implies (#[trigger] g@[m]).1@ == under_key(cur, g@[m].0@) && g@[m].1@.len() > 0 by {
                        lemma_under_key_push(pre, p, g@[m].0@);
                        if m != j {
                            assert(g@[m] == old_g[m]);
                            assert(old_g[m].0@ != old_g[j as int].0@);
                        }
                    }
                    assert forall|a: int, b: int| 0 <= a < b < g@.len() implies (#[trigger] g@[a]).0@ != (#[trigger] g@[b]).0@ by {
                        assert(g@[a].0 == old_g[a].0);
                        assert(g@[b].0 == old_g[b].0);
                    }
                    assert forall|q: int| 0 <= q < cur.len() implies has_group(g@, #[trigger] cur[q].0) by {
                        if q < pre.len() {
                            assert(cur[q] == pre[q]);
                            assert(has_group(old_g, pre[q].0));
                            let m = choose|m: int| 0 <= m < old_g.len() && (#[trigger] old_g[m]).0@ == pre[q].0;
                            assert(g@[m].0 == old_g[m].0);
                        } else {
                            assert(g@[j as int].0@ == key@);
                        }
                    }
                }
            },
            None => {
                let mut v: Vec<usize> = Vec::new();
                v.push(value);
                g.push((key, v));
                proof {
                    assert forall|q: int| 0 <= q < pre.len() implies (#[trigger] pre[q]).0 != p.0 by {
                        if pre[q].0 == p.0 {
                            assert(has_group(old_g, pre[q].0));
                            let m = choose|m: int| 0 <= m < old_g.len() && (#[trigger] old_g[m]).0@ == pre[q].0;
                            assert(false);
                        }
                    }
                    lemma_under_key_none(pre, p.0);
                    assert forall|m: int| 0 <= m < g@.len() implies (#[trigger] g@[m]).1@ == under_key(cur, g@[m].0@) && g@[m].1@.len() > 0 by {
                        lemma_under_key_push(pre, p, g@[m].0@);
                        if m < old_g.len() {
                            assert(g@[m] == old_g[m]);
                        } else {
                            assert(under_key(pre, p.0) =~= Seq::<usize>::empty());
                            assert(g@[m].1@ =~= seq![value]);
                        }
                    }
                    assert forall|a: int, b: int| 0 <= a < b < g@.len() implies (#[trigger] g@[a]).0@ != (#[trigger] g@[b]).0@ by {
                        assert(g@[a] == old_g[a]);
                        if b < old_g.len() {
                            assert(g@[b] == old_g[b]);
                        }
                    }
                    assert forall|q: int| 0 <= q < cur.len() implies has_group(g@, #[trigger] cur[q].0) by {
                        if q < pre.len() {
                            assert(cur[q] == pre[q]);
                            assert(has_group(old_g, pre[q].0));
                            let m = choose|m: int| 0 <= m < old_g.len() && (#[trigger] old_g[m]).0@ == pre[q].0;
                            assert(g@[m] == old_g[m]);
                        } else {
                            assert(g@[old_g.len() as int].0@ == key@);
                        }
                    }
                }
            },
        }
        proof {
            i = i + 1;
        }
    }
    assert(ps.take(ps.len() as int) =~= ps);
    g
}

fn module_of(api: &String) -> (r: String)
    ensures
        r@ == api_module(api@),
{
    let v = chars_of(api.as_str());
    match find_char(v.as_slice(), '.') {
        Some(i) => {
            let h = slice_of(v.as_slice(), 0, i);
            assert(h@ =~= v@.take(i as int));
            string_of(h.as_slice())
        },
        None => api.clone(),
    }
}

fn collect_pairs(examples: &[WebExtExample], by_module: bool) -> (r: Vec<(String, usize)>)
    ensures
        pair_views(r@) == api_pairs(examples@, by_module),
{
    let mut r: Vec<(String, usize)> = Vec::new();
    let n = examples.len();
    let mut i: usize = 0;
    assert(examples@.take(0) =~= Seq::<WebExtExample>::empty());
    assert(pair_views(r@) =~= seq![]);
    while i < n
        invariant
            n == examples@.len(),
            i <= n,
            pair_views(r@) == api_pairs(examples@.take(i as int), by_module),
        decreases n - i,
    {
        let apis = &examples[i].javascript_apis;
        let m = apis.len();
        let mut j: usize = 0;
        let ghost base = pair_views(r@);
        let ghost f = |a: String| (if by_module { api_module(a@) } else { a@ }, i);
        while j < m
            invariant
                m == apis@.len(),
                j <= m,
                f == (|a: String| (if by_module { api_module(a@) } else { a@ }, i)),
                pair_views(r@) == base + apis@.take(j as int).map_values(f),
            decreases m - j,
        {
            let key = if by_module { module_of(&apis[j]) } else { apis[j].clone() };
            let ghost before = r@;
            r.push((key, i));
            assert(apis@.take(j + 1).map_values(f) =~= apis@.take(j as int).map_values(f).push(f(apis@[j as int])));
            assert(pair_views(r@) =~= pair_views(before).push((key@, i)));
            j += 1;
        }
        assert(apis@.take(m as int) =~= apis@);
        assert(examples@.take(i + 1).drop_last() =~= examples@.take(i as int));
        assert(examples@.take(i + 1).last() == examples@[i as int]);
        i += 1;
    }
    assert(examples@.take(n as int) =~= examples@);
    r
}

impl WebExtExamplesData {
    /// The examples by module (an API's name up to the first `.`) and by API, as
    /// positions in `examples`; an example is listed once for each of its APIs.
    pub fn from_examples(examples: &[WebExtExample]) -> (r: WebExtExamplesData)
        requires
            examples@.len() <= usize::MAX,
        ensures
            grouped_pairs_ok(r.by_module@, api_pairs(examples@, true)),
            grouped_pairs_ok(r.by_module_and_api@, api_pairs(examples@, false)),
    {
        let by_module = group_pairs(collect_pairs(examples, true));
        let by_module_and_api = group_pairs(collect_pairs(examples, false));
        WebExtExamplesData { by_module, by_module_and_api }
    }
}

} // verus!
