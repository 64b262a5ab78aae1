//! Unique element ids within a page.
use vstd::prelude::*;
use crate::numbers::{all_digits, i64_to_string, int_repr, parse_i64, parse_i64_chars};
use crate::text::{
    chars_of, is_ascii_digit, lemma_last_index, push_char, push_str, rfind_char, rsplit_once,
    slice_of, str_eq, string_of,
};

verus! {

/// The ids already used on a page.
pub struct IdSet {
    ids: Vec<String>,
}

impl View for IdSet {
    type V = Set<Seq<char>>;

    closed spec fn view(&self) -> Set<Seq<char>> {
        Set::new(|s: Seq<char>| exists|i: int| 0 <= i < self.ids@.len() && self.ids@[i]@ == s)
    }
}

impl IdSet {
    /// An empty set of ids.
    pub fn new() -> (r: IdSet)
        ensures
            r@ == Set::<Seq<char>>::empty(),
    {
        let r = IdSet { ids: Vec::new() };
        assert(r@ =~= Set::<Seq<char>>::empty());
        r
    }

    /// Whether `id` is used.
    pub fn contains(&self, id: &str) -> (r: bool)
        ensures
            r == self@.contains(id@),
    {
        let n = self.ids.len();
        let mut i: usize = 0;
        while i < n
            invariant
                n == self.ids@.len(),
                i <= n,
                forall|j: int| 0 <= j < i ==> self.ids@[j]@ != id@,
            decreases n - i,
        {
            if str_eq(self.ids[i].as_str(), id) {
                return true;
            }
            i += 1;
        }
        false
    }

    /// Marks `id` as used.
    pub fn insert(&mut self, id: String)
        ensures
            final(self)@ == old(self)@.insert(id@),
    {
        let ghost s = id@;
        self.ids.push(id);
        assert forall|x: Seq<char>| #[trigger] self@.contains(x) == old(self)@.insert(s).contains(
            x,
        ) by {
            if x == s {
                assert(self.ids@[self.ids@.len() - 1]@ == s);
            }
            if old(self)@.contains(x) {
                let i = choose|i: int| 0 <= i < old(self).ids@.len() && old(self).ids@[i]@ == x;
                assert(self.ids@[i] == old(self).ids@[i]);
            }
            if self@.contains(x) && x != s {
                let i = choose|i: int| 0 <= i < self.ids@.len() && self.ids@[i]@ == x;
                assert(i < old(self).ids@.len());
                assert(self.ids@[i] == old(self).ids@[i]);
            }
        }
        assert(self@ =~= old(self)@.insert(s));
    }
}

/// The candidate id `prefix_k`.
pub open spec fn candidate(prefix: Seq<char>, k: int) -> Seq<char> {
    prefix + seq!['_'] + int_repr(k)
}

/// The first counter from `k` on whose candidate is free, giving up at 666.
pub open spec fn pick_counter(ids: Set<Seq<char>>, prefix: Seq<char>, k: int) -> int
    decreases 666 - k,
{
    if k >= 666 || !ids.contains(candidate(prefix, k)) {
        k
    } else {
        pick_counter(ids, prefix, k + 1)
    }
}

/// The prefix and first counter tried for an id that is taken: a trailing `_digits`
/// counts on from those digits, anything else starts at `prefix_2`.
pub open spec fn start_of(id: Seq<char>) -> (Seq<char>, int) {
    match rsplit_once(id, '_') {
        Some((prefix, counter)) => if all_digits(counter) {
            (
                prefix,
                match parse_i64(counter) {
                    Some(v) => v as int,
                    None => 0,
                } + 1,
            )
        } else {
            (id, 2)
        },
        None => (id, 2),
    }
}

/// What `uniquify_id` returns.
pub open spec fn spec_uniquify(ids: Set<Seq<char>>, id: Seq<char>) -> Seq<char> {
    if ids.contains(id) {
        let (prefix, count) = start_of(id);
        candidate(prefix, pick_counter(ids, prefix, count))
    } else {
        id
    }
}

/// The counter does not overflow: a taken id does not end in `_` and `i64::MAX`.
pub open spec fn uniquify_fits(ids: Set<Seq<char>>, id: Seq<char>) -> bool {
    ids.contains(id) ==> start_of(id).1 <= i64::MAX
}

fn all_digits_exec(v: &[char]) -> (r: bool)
    ensures
        r == all_digits(v@),
{
    let n = v.len();
    let mut i: usize = 0;
    while i < n
        invariant
            n == v@.len(),
            i <= n,
            forall|j: int| 0 <= j < i ==> is_ascii_digit(#[trigger] v@[j]),
        decreases n - i,
    {
        if !('0' <= v[i] && v[i] <= '9') {
            return false;
        }
        i += 1;
    }
    true
}

fn candidate_exec(prefix: &[char], count: i64) -> (r: String)
    ensures
        r@ == candidate(prefix@, count as int),
{
    let mut s = string_of(prefix);
    push_char(&mut s, '_');
    let d = i64_to_string(count);
    push_str(&mut s, d.as_str());
    s
}

/// The first free candidate for the taken id `id` and its counter (see `start_of` and
/// `pick_counter`).
pub(crate) fn next_free_id(ids: &IdSet, id: &str) -> (r: (String, i64))
    requires
        start_of(id@).1 <= i64::MAX,
    ensures
        r.1 == pick_counter(ids@, start_of(id@).0, start_of(id@).1),
        r.0@ == candidate(start_of(id@).0, r.1 as int),
{
    let v = chars_of(id);
    let vs = v.as_slice();
    let n = vs.len();
    let (prefix, mut count): (Vec<char>, i64) = match rfind_char(vs, '_') {
        Some(i) => {
            let p = slice_of(vs, 0, i);
            let c = slice_of(vs, i + 1, n);
            proof {
                assert(p@ =~= v@.take(i as int));
                assert(c@ =~= v@.skip(i + 1));
            }
            if all_digits_exec(c.as_slice()) {
                let base = match parse_i64_chars(c.as_slice()) {
                    Some(x) => x,
                    None => 0,
                };
                (p, base + 1)
            } else {
                (v.clone(), 2)
            }
        },
        None => (v.clone(), 2),
    };
    let ghost start = count as int;
    proof {
        assert(prefix@ == start_of(id@).0);
        assert(start == start_of(id@).1);
    }
    let mut new_id = candidate_exec(prefix.as_slice(), count);
    while ids.contains(new_id.as_str()) && count < 666
        invariant
            start <= count <= (if start >= 666 {
                start
            } else {
                666
            }),
            new_id@ == candidate(prefix@, count as int),
            pick_counter(ids@, prefix@, start) == pick_counter(ids@, prefix@, count as int),
        decreases 666 - count,
    {
        count += 1;
        new_id = candidate_exec(prefix.as_slice(), count);
    }
    (new_id, count)
}

/// Makes `id` unique among `ids` and records it there. A taken id gets a counter
/// suffix `_n`: it continues a trailing `_digits` counter, or starts at `_2`, and
/// counts up to the first free one (giving up at 666).
pub fn uniquify_id(ids: &mut IdSet, id: &str) -> (r: String)
    requires
        uniquify_fits(old(ids)@, id@),
    ensures
        r@ == spec_uniquify(old(ids)@, id@),
        final(ids)@ == old(ids)@.insert(r@),
{
    if ids.contains(id) {
        let (new_id, _) = next_free_id(ids, id);
        ids.insert(new_id.clone());
        return new_id;
    }
    let r = id.to_owned();
    ids.insert(r.clone());
    r
}

proof fn lemma_pick_counter(ids: Set<Seq<char>>, prefix: Seq<char>, k: int)
    ensures
        pick_counter(ids, prefix, k) >= k,
        pick_counter(ids, prefix, k) < 666 ==> !ids.contains(candidate(prefix, pick_counter(ids, prefix, k))),
    decreases 666 - k,
{
    if !(k >= 666 || !ids.contains(candidate(prefix, k))) {
        lemma_pick_counter(ids, prefix, k + 1);
    }
}

/// An id made unique is not used yet, unless its counter ran up to 666 (where the
/// search gives up).
pub proof fn law_uniquify_fresh(ids: Set<Seq<char>>, id: Seq<char>)
    ensures
        !ids.contains(spec_uniquify(ids, id))
            || pick_counter(ids, start_of(id).0, start_of(id).1) >= 666,
{
    if ids.contains(id) {
        lemma_pick_counter(ids, start_of(id).0, start_of(id).1);
    }
}

} // verus!
