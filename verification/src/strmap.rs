//! Sorted string sets and string-keyed maps, ordered as `String` is ordered.
use vstd::prelude::*;

use crate::text::{key_equal, key_less, key_lt, lemma_key_lt_irreflexive, lemma_key_lt_total, lemma_key_lt_transitive, strictly_sorted, str_views};

verus! {

/// Position of a key in a sequence of keys that holds it.
pub open spec fn key_index(keys: Seq<Seq<char>>, k: Seq<char>) -> int {
    choose|i: int| 0 <= i < keys.len() && keys[i] == k
}

/// In a strictly sorted key sequence a key occurs at one position only.
pub proof fn lemma_sorted_index(keys: Seq<Seq<char>>, k: Seq<char>, i: int)
    requires
        strictly_sorted(keys),
        0 <= i < keys.len(),
        keys[i] == k,
    ensures
        key_index(keys, k) == i,
{
    let j = key_index(keys, k);
    assert(0 <= j < keys.len() && keys[j] == k);
    if j < i {
        assert(key_lt(keys[j], keys[i]));
        lemma_key_lt_irreflexive(k);
    } else if i < j {
        assert(key_lt(keys[i], keys[j]));
        lemma_key_lt_irreflexive(k);
    }
}

/// Where a key sits, or would be inserted, in a strictly sorted sequence of keys.
pub open spec fn search_result(keys: Seq<Seq<char>>, k: Seq<char>, r: Result<usize, usize>) -> bool {
    match r {
        Ok(i) => i < keys.len() && keys[i as int] == k,
        Err(p) => {
            &&& p <= keys.len()
            &&& !keys.contains(k)
            &&& forall|j: int| 0 <= j < p ==> key_lt(#[trigger] keys[j], k)
            &&& forall|j: int| p <= j < keys.len() ==> key_lt(k, #[trigger] keys[j])
        },
    }
}

/// Binary search over a strictly sorted vector of strings.
pub fn search_keys(items: &Vec<String>, k: &str) -> (r: Result<usize, usize>)
    requires
        strictly_sorted(str_views(items@)),
    ensures
        search_result(str_views(items@), k@, r),
{
    let ghost keys = str_views(items@);
    let mut lo: usize = 0;
    let mut hi: usize = items.len();
    while lo < hi
        invariant
            lo <= hi <= items@.len(),
            keys == str_views(items@),
            strictly_sorted(keys),
            forall|j: int| 0 <= j < lo ==> key_lt(#[trigger] keys[j], k@),
            forall|j: int| hi <= j < keys.len() ==> key_lt(k@, #[trigger] keys[j]),
        decreases hi - lo,
    {
        let mid = lo + (hi - lo) / 2;
        let mk: &String = &items[mid];
        assert(mk@ == keys[mid as int]);
        if key_less(mk.as_str(), k) {
            assert forall|j: int| 0 <= j < mid + 1 implies key_lt(#[trigger] keys[j], k@) by {
                if j < mid {
                    lemma_key_lt_transitive(keys[j], keys[mid as int], k@);
                }
            }
            lo = mid + 1;
        } else if key_less(k, mk.as_str()) {
            assert forall|j: int| mid <= j < keys.len() implies key_lt(k@, #[trigger] keys[j]) by {
                if j > mid {
                    lemma_key_lt_transitive(k@, keys[mid as int], keys[j]);
                }
            }
            hi = mid;
        } else {
            proof {
                if mk@ != k@ {
                    lemma_key_lt_total(mk@, k@);
                }
            }
            return Ok(mid);
        }
    }
    assert(!keys.contains(k@)) by {
        if keys.contains(k@) {
            let j = choose|j: int| 0 <= j < keys.len() && keys[j] == k@;
            lemma_key_lt_irreflexive(k@);
        }
    }
    Err(lo)
}

/// Inserting a key at its search position keeps a key sequence strictly sorted.
pub proof fn lemma_sorted_insert(keys: Seq<Seq<char>>, p: int, k: Seq<char>)
    requires
        strictly_sorted(keys),
        0 <= p <= keys.len(),
        forall|j: int| 0 <= j < p ==> key_lt(#[trigger] keys[j], k),
        forall|j: int| p <= j < keys.len() ==> key_lt(k, #[trigger] keys[j]),
    ensures
        strictly_sorted(keys.insert(p, k)),
{
    let n = keys.insert(p, k);
    assert forall|i: int, j: int| 0 <= i < j < n.len() implies key_lt(#[trigger] n[i], #[trigger] n[j]) by {
        if i < p && j < p {
        } else if i < p && j == p {
        } else if i < p && j > p {
            assert(n[j] == keys[j - 1]);
        } else if i == p {
            assert(n[j] == keys[j - 1]);
        } else {
            assert(n[i] == keys[i - 1]);
            assert(n[j] == keys[j - 1]);
        }
    }
}

/// A set of strings, kept in the order of `String`.
pub struct StrSet {
    items: Vec<String>,
}

impl StrSet {
    /// The elements in increasing order.
    pub closed spec fn elems(self) -> Seq<Seq<char>> {
        str_views(self.items@)
    }

    pub open spec fn wf(self) -> bool {
        strictly_sorted(self.elems())
    }

    pub open spec fn has(self, k: Seq<char>) -> bool {
        self.elems().contains(k)
    }

    pub fn new() -> (r: Self)
        ensures
            r.wf(),
            r.elems() == Seq::<Seq<char>>::empty(),
    {
        let r = StrSet { items: Vec::new() };
        assert(r.elems() =~= Seq::<Seq<char>>::empty());
        r
    }

    pub fn len(&self) -> (r: usize)
        ensures
            r == self.elems().len(),
    {
        self.items.len()
    }

    pub fn get(&self, i: usize) -> (r: &String)
        requires
            i < self.elems().len(),
        ensures
            r@ == self.elems()[i as int],
    {
        &self.items[i]
    }

    pub fn contains(&self, k: &str) -> (r: bool)
        requires
            self.wf(),
        ensures
            r == self.has(k@),
    {
        match search_keys(&self.items, k) {
            Ok(_) => true,
            Err(_) => false,
        }
    }

    /// Adds an element; returns whether it was absent.
    pub fn insert(&mut self, k: String) -> (r: bool)
        requires
            old(self).wf(),
        ensures
            final(self).wf(),
            r == !old(self).has(k@),
            forall|x: Seq<char>| #[trigger] final(self).has(x) <==> (old(self).has(x) || x == k@),
            final(self).elems().len() == old(self).elems().len() + if r { 1int } else { 0int },
    {
        match search_keys(&self.items, k.as_str()) {
            Ok(_) => false,
            Err(p) => {
                let ghost old_elems = self.elems();
                let ghost kv = k@;
                proof {
                    lemma_sorted_insert(old_elems, p as int, kv);
                }
                self.items.insert(p, k);
                assert(self.elems() =~= old_elems.insert(p as int, kv));
                assert forall|x: Seq<char>| #[trigger] self.has(x) <==> (old_elems.contains(x) || x == kv) by {
                    if old_elems.contains(x) {
                        let j = choose|j: int| 0 <= j < old_elems.len() && old_elems[j] == x;
                        if j < p {
                            assert(self.elems()[j] == x);
                        } else {
                            assert(self.elems()[j + 1] == x);
                        }
                    }
                    if x == kv {
                        assert(self.elems()[p as int] == x);
                    }
                    if self.has(x) {
                        let j = choose|j: int| 0 <= j < self.elems().len() && self.elems()[j] == x;
                        if j < p {
                            assert(old_elems[j] == x);
                        } else if j > p {
                            assert(old_elems[j - 1] == x);
                        }
                    }
                }
                true
            },
        }
    }

    /// The elements in increasing order.
    pub fn into_vec(self) -> (r: Vec<String>)
        ensures
            str_views(r@) == self.elems(),
    {
        self.items
    }
}

/// A map keyed by strings, kept in the order of `String`.
pub struct StrMap<V> {
    ks: Vec<String>,
    vs: Vec<V>,
}

impl<V> StrMap<V> {
    /// The keys in increasing order.
    pub closed spec fn keys(self) -> Seq<Seq<char>> {
        str_views(self.ks@)
    }

    /// The values, in the order of their keys.
    pub closed spec fn vals(self) -> Seq<V> {
        self.vs@
    }

    pub open spec fn wf(self) -> bool {
        &&& self.keys().len() == self.vals().len()
        &&& strictly_sorted(self.keys())
    }

    pub open spec fn has(self, k: Seq<char>) -> bool {
        self.keys().contains(k)
    }

    /// The value stored under a key that the map holds.
    pub open spec fn value_of(self, k: Seq<char>) -> V {
        self.vals()[key_index(self.keys(), k)]
    }

    /// The map as a mathematical map.
    pub open spec fn to_map(self) -> Map<Seq<char>, V> {
        Map::new(|k: Seq<char>| self.has(k), |k: Seq<char>| self.value_of(k))
    }

    pub fn new() -> (r: Self)
        ensures
            r.wf(),
            r.keys() == Seq::<Seq<char>>::empty(),
            r.vals() == Seq::<V>::empty(),
    {
        let r = StrMap { ks: Vec::new(), vs: Vec::new() };
        assert(r.keys() =~= Seq::<Seq<char>>::empty());
        r
    }

    pub fn len(&self) -> (r: usize)
        requires
            self.wf(),
        ensures
            r == self.keys().len(),
    {
        self.ks.len()
    }

    pub fn key_at(&self, i: usize) -> (r: &String)
        requires
            i < self.keys().len(),
        ensures
            r@ == self.keys()[i as int],
    {
        &self.ks[i]
    }

    pub fn value_at(&self, i: usize) -> (r: &V)
        requires
            self.wf(),
            i < self.keys().len(),
        ensures
            *r == self.vals()[i as int],
    {
        &self.vs[i]
    }

    /// Where a key is stored, if the map holds it.
    pub fn index_of(&self, k: &str) -> (r: Option<usize>)
        requires
            self.wf(),
        ensures
            match r {
                Some(i) => i < self.keys().len() && self.keys()[i as int] == k@ && key_index(self.keys(), k@) == i,
                None => !self.has(k@),
            },
    {
        match search_keys(&self.ks, k) {
            Ok(i) => {
                proof {
                    lemma_sorted_index(self.keys(), k@, i as int);
                }
                Some(i)
            },
            Err(_) => None,
        }
    }

    pub fn get(&self, k: &str) -> (r: Option<&V>)
        requires
            self.wf(),
        ensures
            match r {
                Some(v) => self.has(k@) && *v == self.value_of(k@),
                None => !self.has(k@),
            },
    {
        match self.index_of(k) {
            Some(i) => Some(&self.vs[i]),
            None => None,
        }
    }

    pub fn contains_key(&self, k: &str) -> (r: bool)
        requires
            self.wf(),
        ensures
            r == self.has(k@),
    {
        match self.index_of(k) {
            Some(_) => true,
            None => false,
        }
    }

    /// Puts a value at a position that the map already holds, and returns the value it replaces.
    pub fn replace_at(&mut self, i: usize, v: V) -> (r: V)
        requires
            old(self).wf(),
            i < old(self).keys().len(),
        ensures
            final(self).wf(),
            final(self).keys() == old(self).keys(),
            final(self).vals() == old(self).vals().update(i as int, v),
            r == old(self).vals()[i as int],
    {
        let r = self.vs.remove(i);
        self.vs.insert(i, v);
        assert(self.vs@ =~= old(self).vs@.update(i as int, v));
        r
    }

    /// Adds a key that the map does not hold, at its place in the order.
    fn insert_new(&mut self, p: usize, k: String, v: V)
        requires
            old(self).wf(),
            search_result(old(self).keys(), k@, Err(p)),
        ensures
            final(self).wf(),
            final(self).keys() == old(self).keys().insert(p as int, k@),
            final(self).vals() == old(self).vals().insert(p as int, v),
            final(self).to_map() == old(self).to_map().insert(k@, v),
    {
        let ghost old_keys = self.keys();
        let ghost old_vals = self.vals();
        let ghost old_map = old(self).to_map();
        let ghost kv = k@;
        proof {
            lemma_sorted_insert(old_keys, p as int, kv);
        }
        self.ks.insert(p, k);
        self.vs.insert(p, v);
        assert(self.keys() =~= old_keys.insert(p as int, kv));
        let ghost new_keys = self.keys();
        assert forall|x: Seq<char>| #[trigger] self.has(x) <==> (old_keys.contains(x) || x == kv) by {
            if old_keys.contains(x) {
                let j = choose|j: int| 0 <= j < old_keys.len() && old_keys[j] == x;
                if j < p {
                    assert(new_keys[j] == x);
                } else {
                    assert(new_keys[j + 1] == x);
                }
            }
            if x == kv {
                assert(new_keys[p as int] == x);
            }
            if self.has(x) {
                let j = choose|j: int| 0 <= j < new_keys.len() && new_keys[j] == x;
                if j < p {
                    assert(old_keys[j] == x);
                } else if j > p {
                    assert(old_keys[j - 1] == x);
                }
            }
        }
        assert forall|x: Seq<char>| #[trigger] self.has(x) && x != kv implies self.value_of(x) == old_map[x] by {
            let j = choose|j: int| 0 <= j < old_keys.len() && old_keys[j] == x;
            lemma_sorted_index(old_keys, x, j);
            if j < p {
                assert(new_keys[j] == x);
                lemma_sorted_index(new_keys, x, j);
            } else {
                assert(new_keys[j + 1] == x);
                lemma_sorted_index(new_keys, x, j + 1);
            }
        }
        assert(new_keys[p as int] == kv);
        proof {
            lemma_sorted_index(new_keys, kv, p as int);
        }
        assert(self.to_map() =~= old_map.insert(kv, v));
    }

    /// Adds a key that the map does not hold; returns where it was put.
    pub fn insert_absent(&mut self, k: String, v: V) -> (r: usize)
        requires
            old(self).wf(),
            !old(self).has(k@),
        ensures
            final(self).wf(),
            r <= old(self).keys().len(),
            final(self).keys() == old(self).keys().insert(r as int, k@),
            final(self).vals() == old(self).vals().insert(r as int, v),
            final(self).to_map() == old(self).to_map().insert(k@, v),
            key_index(final(self).keys(), k@) == r,
    {
        match search_keys(&self.ks, k.as_str()) {
            Ok(i) => {
                assert(self.keys().contains(k@)) by {
                    assert(self.keys()[i as int] == k@);
                }
                i
            },
            Err(p) => {
                let ghost kv = k@;
                self.insert_new(p, k, v);
                proof {
                    lemma_sorted_index(self.keys(), kv, p as int);
                }
                p
            },
        }
    }

    /// Stores a value under a key, replacing what the key held.
    pub fn insert(&mut self, k: String, v: V) -> (r: bool)
        requires
            old(self).wf(),
        ensures
            final(self).wf(),
            r == !old(self).has(k@),
            final(self).to_map() == old(self).to_map().insert(k@, v),
    {
        match search_keys(&self.ks, k.as_str()) {
            Ok(i) => {
                let ghost old_map = self.to_map();
                let ghost kv = k@;
                proof {
                    lemma_sorted_index(self.keys(), kv, i as int);
                }
                let _ = self.replace_at(i, v);
                assert forall|x: Seq<char>| #[trigger] self.has(x) && x != kv implies self.value_of(x) == old_map[x] by {
                    let j = key_index(self.keys(), x);
                    assert(0 <= j < self.keys().len() && self.keys()[j] == x);
                    assert(j != i);
                }
                assert(self.to_map() =~= old_map.insert(kv, v));
                false
            },
            Err(p) => {
                self.insert_new(p, k, v);
                true
            },
        }
    }

    /// Stores a value under a key only if the map does not hold the key yet.
    pub fn insert_if_absent(&mut self, k: String, v: V) -> (r: bool)
        requires
            old(self).wf(),
        ensures
            final(self).wf(),
            r == !old(self).has(k@),
            r ==> final(self).to_map() == old(self).to_map().insert(k@, v),
            !r ==> *final(self) == *old(self),
    {
        match search_keys(&self.ks, k.as_str()) {
            Ok(_) => false,
            Err(p) => {
                self.insert_new(p, k, v);
                true
            },
        }
    }

    /// The keys and the values, in increasing order of the keys.
    pub fn into_parts(self) -> (r: (Vec<String>, Vec<V>))
        ensures
            str_views(r.0@) == self.keys(),
            r.1@ == self.vals(),
    {
        (self.ks, self.vs)
    }
}

} // verus!
