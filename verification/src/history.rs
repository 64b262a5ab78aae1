//! The git history of documents: the last change of each file, carried over to the
//! files that redirects moved.
use vstd::prelude::*;
use crate::page::SiteIndex;
use crate::site::{spec_url_to_history_key, url_to_history_key};
use crate::text::str_eq;

verus! {

/// A map from paths to values; inserting a key that is present replaces its value.
pub struct PathMap<V> {
    entries: Vec<(String, V)>,
}

/// The keys of `e` are pairwise different.
pub open spec fn path_keys_unique<V>(e: Seq<(String, V)>) -> bool {
    forall|i: int, j: int| 0 <= i < j < e.len() ==> e[i].0@ != e[j].0@
}

impl<V> View for PathMap<V> {
    type V = Map<Seq<char>, V>;

    closed spec fn view(&self) -> Map<Seq<char>, V> {
        Map::new(
            |k: Seq<char>| exists|i: int| 0 <= i < self.entries@.len() && self.entries@[i].0@ == k,
            |k: Seq<char>|
                self.entries@[choose|i: int|
                    0 <= i < self.entries@.len() && self.entries@[i].0@ == k].1,
        )
    }
}

impl<V> PathMap<V> {
    #[verifier::type_invariant]
    spec fn inv(self) -> bool {
        path_keys_unique(self.entries@)
    }

    /// An empty map.
    pub fn new() -> (r: PathMap<V>)
        ensures
            r@ == Map::<Seq<char>, V>::empty(),
    {
        let r = PathMap { entries: Vec::new() };
        assert(r@ =~= Map::<Seq<char>, V>::empty());
        r
    }

    fn index_of(&self, key: &str) -> (r: Option<usize>)
        ensures
            match r {
                Some(i) => i < self.entries@.len() && self.entries@[i as int].0@ == key@,
                None => forall|i: int| 0 <= i < self.entries@.len() ==> self.entries@[i].0@ != key@,
            },
    {
        let n = self.entries.len();
        let mut i: usize = 0;
        while i < n
            invariant
                n == self.entries@.len(),
                i <= n,
                forall|j: int| 0 <= j < i ==> self.entries@[j].0@ != key@,
            decreases n - i,
        {
            if str_eq(self.entries[i].0.as_str(), key) {
                return Some(i);
            }
            i += 1;
        }
        None
    }

    /// The value stored for `key`.
    pub fn get(&self, key: &str) -> (r: Option<&V>)
        ensures
            match r {
                Some(v) => self@.contains_key(key@) && self@[key@] == *v,
                None => !self@.contains_key(key@),
            },
    {
        proof {
            use_type_invariant(self);
        }
        match self.index_of(key) {
            Some(i) => {
                proof {
                    let c = choose|j: int|
                        0 <= j < self.entries@.len() && self.entries@[j].0@ == key@;
                    assert(c == i);
                }
                Some(&self.entries[i].1)
            },
            None => None,
        }
    }

    /// Stores `value` for `key`, replacing what was there.
    pub fn insert(&mut self, key: String, value: V)
        ensures
            final(self)@ == old(self)@.insert(key@, value),
    {
        proof {
            use_type_invariant(&*self);
        }
        let ghost k = key@;
        let ghost v = value;
        let ghost old_e = self.entries@;
        match self.index_of(key.as_str()) {
            Some(i) => {
                let mut entries: Vec<(String, V)> = Vec::new();
                std::mem::swap(&mut entries, &mut self.entries);
                entries.set(i, (key, value));
                let ghost e = entries@;
                assert(e == old_e.update(i as int, e[i as int]));
                assert(path_keys_unique(e)) by {
                    assert forall|a: int, b: int| 0 <= a < b < e.len() implies e[a].0@ != e[b].0@ by {
                        if a != i && b != i {
                            assert(e[a] == old_e[a] && e[b] == old_e[b]);
                        } else if a == i {
                            assert(e[b] == old_e[b]);
                        } else {
                            assert(e[a] == old_e[a]);
                        }
                    }
                }
                self.entries = entries;
                proof {
                    assert forall|x: Seq<char>| #[trigger] self@.contains_key(x) == old(
                        self,
                    )@.insert(k, v).contains_key(x) by {
                        if exists|j: int| 0 <= j < old_e.len() && old_e[j].0@ == x {
                            let j = choose|j: int| 0 <= j < old_e.len() && old_e[j].0@ == x;
                            if j == i {
                                assert(e[j].0@ == x);
                            } else {
                                assert(e[j] == old_e[j]);
                            }
                        }
                        if exists|j: int| 0 <= j < e.len() && e[j].0@ == x {
                            let j = choose|j: int| 0 <= j < e.len() && e[j].0@ == x;
                            if j != i {
                                assert(e[j] == old_e[j]);
                            }
                        }
                    }
                    assert forall|x: Seq<char>| #[trigger] self@.contains_key(x) implies self@[x]
                        == old(self)@.insert(k, v)[x] by {
                        let j = choose|j: int| 0 <= j < e.len() && e[j].0@ == x;
                        if x == k {
                            assert(j == i);
                        } else {
                            assert(e[j] == old_e[j]);
                            let jo = choose|jo: int| 0 <= jo < old_e.len() && old_e[jo].0@ == x;
                            assert(jo == j);
                        }
                    }
                    assert(self@ =~= old(self)@.insert(k, v));
                }
            },
            None => {
                let mut entries: Vec<(String, V)> = Vec::new();
                std::mem::swap(&mut entries, &mut self.entries);
                entries.push((key, value));
                let ghost e = entries@;
                assert(path_keys_unique(e)) by {
                    assert forall|a: int, b: int| 0 <= a < b < e.len() implies e[a].0@ != e[b].0@ by {
                        assert(e[a] == old_e[a]);
                        if b < old_e.len() {
                            assert(e[b] == old_e[b]);
                        }
                    }
                }
                self.entries = entries;
                proof {
                    let n = old_e.len() as int;
                    assert forall|x: Seq<char>| #[trigger] self@.contains_key(x) == old(
                        self,
                    )@.insert(k, v).contains_key(x) by {
                        if exists|j: int| 0 <= j < old_e.len() && old_e[j].0@ == x {
                            let j = choose|j: int| 0 <= j < old_e.len() && old_e[j].0@ == x;
                            assert(e[j] == old_e[j]);
                        }
                        if x == k {
                            assert(e[n].0@ == x);
                        }
                        if exists|j: int| 0 <= j < e.len() && e[j].0@ == x {
                            let j = choose|j: int| 0 <= j < e.len() && e[j].0@ == x;
                            if j < n {
                                assert(e[j] == old_e[j]);
                            }
                        }
                    }
                    assert forall|x: Seq<char>| #[trigger] self@.contains_key(x) implies self@[x]
                        == old(self)@.insert(k, v)[x] by {
                        let j = choose|j: int| 0 <= j < e.len() && e[j].0@ == x;
                        if x == k {
                            assert(j == n);
                        } else {
                            assert(e[j] == old_e[j]);
                            let jo = choose|jo: int| 0 <= jo < old_e.len() && old_e[jo].0@ == x;
                            assert(jo == j);
                        }
                    }
                    assert(self@ =~= old(self)@.insert(k, v));
                }
            },
        }
    }

    /// Whether `key` has a value.
    pub fn contains_key(&self, key: &str) -> (r: bool)
        ensures
            r == self@.contains_key(key@),
    {
        self.get(key).is_some()
    }

    /// Whether the map is empty.
    pub fn is_empty(&self) -> (r: bool)
        ensures
            r == (self@.dom().len() == 0),
    {
        proof {
            use_type_invariant(self);
            self.lemma_len();
        }
        self.entries.len() == 0
    }

    /// The number of keys.
    pub fn len(&self) -> (r: usize)
        ensures
            r == self@.dom().len(),
    {
        proof {
            use_type_invariant(self);
            self.lemma_len();
        }
        self.entries.len()
    }

    proof fn lemma_len(&self)
        requires
            path_keys_unique(self.entries@),
        ensures
            self@.dom().len() == self.entries@.len(),
    {
        let ks = self.entries@.map_values(|e: (String, V)| e.0@);
        assert(ks.no_duplicates()) by {
            assert forall|i: int, j: int| 0 <= i < ks.len() && 0 <= j < ks.len() && i != j implies ks[i] != ks[j] by {
                if i < j {
                    assert(self.entries@[i].0@ != self.entries@[j].0@);
                } else {
                    assert(self.entries@[j].0@ != self.entries@[i].0@);
                }
            }
        }
        ks.unique_seq_to_set();
        assert(self@.dom() =~= ks.to_set()) by {
            assert forall|k: Seq<char>| #[trigger] self@.dom().contains(k) == ks.to_set().contains(k) by {
                if self@.dom().contains(k) {
                    let i = choose|i: int| 0 <= i < self.entries@.len() && self.entries@[i].0@ == k;
                    assert(ks[i] == k);
                }
                if ks.to_set().contains(k) {
                    let i = choose|i: int| 0 <= i < ks.len() && ks[i] == k;
                    assert(self.entries@[i].0@ == k);
                }
            }
        }
    }
}

/// When a file last changed, and in which commit.
#[derive(Debug, Clone, PartialEq, Eq)]
pub struct HistoryEntry {
    /// Seconds since the Unix epoch.
    pub modified: i64,
    pub hash: String,
}

/// The history after one redirect from `old_url` to `new_url`: where both URLs name
/// documents with different keys, the old document has history and the new one has none,
/// the new one gets the old one's.
pub open spec fn apply_one(m: Map<Seq<char>, HistoryEntry>, old_url: Seq<char>, new_url: Seq<char>, site: &SiteIndex) -> Map<Seq<char>, HistoryEntry> {
    match (spec_url_to_history_key(old_url, site), spec_url_to_history_key(new_url, site)) {
        (Some(old_path), Some(new_path)) => if old_path == new_path || m.contains_key(new_path) {
            m
        } else if m.contains_key(old_path) {
            m.insert(new_path, m[old_path])
        } else {
            m
        },
        _ => m,
    }
}

/// The history after the redirects, in order.
pub open spec fn apply_all(m: Map<Seq<char>, HistoryEntry>, redirects: Seq<(String, String)>, site: &SiteIndex) -> Map<Seq<char>, HistoryEntry>
    decreases redirects.len(),
{
    if redirects.len() == 0 {
        m
    } else {
        apply_one(apply_all(m, redirects.drop_last(), site), redirects.last().0@, redirects.last().1@, site)
    }
}

/// Carries the history of moved documents over to where they now live: for each
/// redirect, in order, the new document gets the old one's history unless it has its
/// own.
pub fn apply_redirects(map: &mut PathMap<HistoryEntry>, redirects: &[(String, String)], site: &SiteIndex)
    ensures
        final(map)@ == apply_all(old(map)@, redirects@, site),
{
    let n = redirects.len();
    let mut i: usize = 0;
    assert(redirects@.take(0) =~= Seq::<(String, String)>::empty());
    while i < n
        invariant
            n == redirects@.len(),
            i <= n,
            map@ == apply_all(old(map)@, redirects@.take(i as int), site),
        decreases n - i,
    {
        assert(redirects@.take(i + 1).drop_last() =~= redirects@.take(i as int));
        assert(redirects@.take(i + 1).last() == redirects@[i as int]);
        let old_url = redirects[i].0.as_str();
        let new_url = redirects[i].1.as_str();
        match (url_to_history_key(old_url, site), url_to_history_key(new_url, site)) {
            (Some(old_path), Some(new_path)) => {
                if !str_eq(old_path.as_str(), new_path.as_str()) && map.get(new_path.as_str()).is_none() {
                    let entry = match map.get(old_path.as_str()) {
                        Some(e) => Some(HistoryEntry { modified: e.modified, hash: e.hash.clone() }),
                        None => None,
                    };
                    match entry {
                        Some(e) => map.insert(new_path, e),
                        None => {},
                    }
                }
            },
            _ => {},
        }
        i += 1;
    }
    assert(redirects@.take(n as int) =~= redirects@);
}

} // verus!
