//! A map keyed by strings, kept in key order.
use crate::text::{
    lemma_str_lt_order, lemma_strictly_sorted_unique, less, same, str_lt, strictly_sorted,
};
use vstd::prelude::*;

verus! {

/// A map from strings to values whose entries stand in key order.
pub struct StrMap<V> {
    entries: Vec<(String, V)>,
}

impl<V> StrMap<V> {
    /// The keys in the order in which the entries stand.
    pub closed spec fn keys_seq(self) -> Seq<Seq<char>> {
        Seq::new(self.entries@.len(), |i: int| self.entries@[i].0@)
    }

    /// The values in the order of their keys.
    pub closed spec fn values_seq(self) -> Seq<V> {
        Seq::new(self.entries@.len(), |i: int| self.entries@[i].1)
    }

    spec fn position(self, key: Seq<char>) -> int {
        choose|i: int| 0 <= i < self.entries@.len() && self.entries@[i].0@ == key
    }

    spec fn has(self, key: Seq<char>) -> bool {
        exists|i: int| 0 <= i < self.entries@.len() && #[trigger] self.entries@[i].0@ == key
    }

    #[verifier::type_invariant]
    spec fn ordered(self) -> bool {
        strictly_sorted(self.keys_seq())
    }

    pub closed spec fn as_map(self) -> Map<Seq<char>, V> {
        Map::new(|k: Seq<char>| self.has(k), |k: Seq<char>| self.entries@[self.position(k)].1)
    }

    proof fn lemma_at(self, i: int)
        requires
            strictly_sorted(self.keys_seq()),
            0 <= i < self.entries@.len(),
        ensures
            self.as_map().contains_key(self.entries@[i].0@),
            self.as_map()[self.entries@[i].0@] == self.entries@[i].1,
    {
        let k = self.entries@[i].0@;
        let p = self.position(k);
        assert(self.entries@[i].0@ == k);
        assert(self.keys_seq()[i] == k && self.keys_seq()[p] == k);
        lemma_str_lt_order(k, k, k);
    }

    /// An empty map.
    pub fn new() -> (r: Self)
        ensures
            r@ == Map::<Seq<char>, V>::empty(),
    {
        let r = StrMap { entries: Vec::new() };
        assert(r@ =~= Map::<Seq<char>, V>::empty());
        r
    }

    /// The number of entries, which stand in strict key order, one for each key.
    pub fn len(&self) -> (n: usize)
        ensures
            n == self.keys_seq().len(),
            n == self.values_seq().len(),
            strictly_sorted(self.keys_seq()),
            forall|i: int|
                0 <= i < n ==> self@.contains_key(#[trigger] self.keys_seq()[i])
                    && self@[self.keys_seq()[i]] == self.values_seq()[i],
            forall|k: Seq<char>| #[trigger] self@.contains_key(k) ==> self.keys_seq().contains(k),
    {
        proof {
            use_type_invariant(&*self);
            assert forall|i: int| 0 <= i < self.entries@.len() implies self@.contains_key(
                #[trigger] self.keys_seq()[i],
            ) && self@[self.keys_seq()[i]] == self.values_seq()[i] by {
                self.lemma_at(i);
            }
            assert forall|k: Seq<char>| #[trigger] self@.contains_key(k) implies self.keys_seq().contains(
                k,
            ) by {
                assert(self.keys_seq()[self.position(k)] == k);
            }
        }
        self.entries.len()
    }

    /// The value of a key.
    pub fn get(&self, key: &str) -> (r: Option<&V>)
        ensures
            match r {
                Some(v) => self@.contains_key(key@) && *v == self@[key@],
                None => !self@.contains_key(key@),
            },
    {
        proof {
            use_type_invariant(&*self);
        }
        let mut lo: usize = 0;
        let mut hi: usize = self.entries.len();
        while lo < hi
            invariant
                lo <= hi <= self.entries@.len(),
                strictly_sorted(self.keys_seq()),
                forall|j: int| 0 <= j < lo ==> str_lt(#[trigger] self.entries@[j].0@, key@),
                forall|j: int| hi <= j < self.entries@.len() ==> str_lt(key@, #[trigger] self.entries@[j].0@),
            decreases hi - lo,
        {
            let mid: usize = lo + (hi - lo) / 2;
            let ghost m = self.entries@[mid as int].0@;
            if same(self.entries[mid].0.as_str(), key) {
                proof {
                    self.lemma_at(mid as int);
                }
                return Some(&self.entries[mid].1);
            }
            if less(self.entries[mid].0.as_str(), key) {
                proof {
                    assert forall|j: int| 0 <= j < mid + 1 implies str_lt(
                        #[trigger] self.entries@[j].0@,
                        key@,
                    ) by {
                        if j < mid {
                            assert(str_lt(self.keys_seq()[j], self.keys_seq()[mid as int]));
                            lemma_str_lt_order(self.entries@[j].0@, m, key@);
                        }
                    }
                }
                lo = mid + 1;
            } else {
                proof {
                    lemma_str_lt_order(key@, m, m);
                    assert forall|j: int| mid <= j < self.entries@.len() implies str_lt(
                        key@,
                        #[trigger] self.entries@[j].0@,
                    ) by {
                        if j > mid {
                            assert(str_lt(self.keys_seq()[mid as int], self.keys_seq()[j]));
                            lemma_str_lt_order(key@, m, self.entries@[j].0@);
                        }
                    }
                }
                hi = mid;
            }
        }
        proof {
            lemma_str_lt_order(key@, key@, key@);
        }
        None
    }

    /// Whether a key has a value.
    pub fn contains_key(&self, key: &str) -> (r: bool)
        ensures
            r == self@.contains_key(key@),
    {
        self.get(key).is_some()
    }

    /// The key at a position of the key order.
    pub fn key_at(&self, i: usize) -> (r: &String)
        requires
            i < self.keys_seq().len(),
        ensures
            r@ == self.keys_seq()[i as int],
    {
        &self.entries[i].0
    }

    /// The value at a position of the key order.
    pub fn value_at(&self, i: usize) -> (r: &V)
        requires
            i < self.keys_seq().len(),
        ensures
            *r == self.values_seq()[i as int],
    {
        &self.entries[i].1
    }

    /// Sets the value of a key.
    pub fn insert(&mut self, key: String, value: V)
        ensures
            final(self)@ == old(self)@.insert(key@, value),
    {
        proof {
            use_type_invariant(&*self);
        }
        let ghost before = *self;
        let mut entries: Vec<(String, V)> = Vec::new();
        std::mem::swap(&mut entries, &mut self.entries);
        let mut p: usize = 0;
        while p < entries.len() && less(entries[p].0.as_str(), key.as_str())
            invariant
                p <= entries@.len(),
                forall|j: int| 0 <= j < p ==> str_lt((#[trigger] entries@[j]).0@, key@),
            decreases entries@.len() - p,
        {
            p = p + 1;
        }
        let ghost k = key@;
        let ghost e = entries@;
        assert(e == before.entries@);
        if p < entries.len() && same(entries[p].0.as_str(), key.as_str()) {
            entries.set(p, (key, value));
            proof {
                let after = StrMap { entries };
                assert(after.keys_seq() =~= before.keys_seq());
            }
        } else {
            proof {
                assert forall|j: int| p <= j < e.len() implies str_lt(k, #[trigger] e[j].0@) by {
                    lemma_str_lt_order(k, e[p as int].0@, e[j].0@);
                    if j > p {
                        assert(str_lt(before.keys_seq()[p as int], before.keys_seq()[j]));
                    }
                }
            }
            entries.insert(p, (key, value));
            proof {
                let after = StrMap { entries };
                assert(after.keys_seq() =~= before.keys_seq().insert(p as int, k));
                assert forall|i: int, j: int| 0 <= i < j < after.keys_seq().len() implies str_lt(
                    #[trigger] after.keys_seq()[i],
                    #[trigger] after.keys_seq()[j],
                ) by {
                    let bi = if i < p {
                        i
                    } else {
                        i - 1
                    };
                    let bj = if j < p {
                        j
                    } else {
                        j - 1
                    };
                    if i != p && j != p {
                        assert(str_lt(before.keys_seq()[bi], before.keys_seq()[bj]));
                    } else if i == p {
                        assert(str_lt(k, e[bj].0@));
                    } else {
                        assert(str_lt(e[bi].0@, k));
                    }
                }
            }
        }
        self.entries = entries;
        proof {
            let after = *self;
            assert(after.entries@[p as int].0@ == k);
            after.lemma_at(p as int);
            assert forall|x: Seq<char>| #[trigger] after.as_map().contains_key(x) == before.as_map().insert(
                k,
                value,
            ).contains_key(x) by {
                if after.has(x) && x != k {
                    let i = after.position(x);
                    if after.entries@.len() == e.len() || i < p {
                        assert(e[i].0@ == x);
                    } else {
                        assert(e[i - 1].0@ == x);
                    }
                }
                if before.has(x) {
                    let i = before.position(x);
                    if after.entries@.len() == e.len() || i < p {
                        assert(after.entries@[i].0@ == x);
                    } else {
                        assert(after.entries@[i + 1].0@ == x);
                    }
                }
            }
            assert forall|x: Seq<char>| #[trigger] after.as_map().contains_key(x) implies after.as_map()[x]
                == before.as_map().insert(k, value)[x] by {
                if x != k {
                    let i = after.position(x);
                    after.lemma_at(i);
                    if after.entries@.len() == e.len() || i < p {
                        before.lemma_at(i);
                    } else {
                        before.lemma_at(i - 1);
                    }
                }
            }
            assert(after.as_map() =~= before.as_map().insert(k, value));
        }
    }
}

/// A map from strings to strings.
pub struct TextMap {
    map: StrMap<String>,
}

impl View for TextMap {
    type V = Map<Seq<char>, Seq<char>>;

    closed spec fn view(&self) -> Map<Seq<char>, Seq<char>> {
        self.map@.map_values(|s: String| s@)
    }
}

impl TextMap {
    /// An empty map.
    pub fn new() -> (r: Self)
        ensures
            r@ == Map::<Seq<char>, Seq<char>>::empty(),
    {
        let r = TextMap { map: StrMap::new() };
        assert(r@ =~= Map::<Seq<char>, Seq<char>>::empty());
        r
    }

    /// The value of a key.
    pub fn get(&self, key: &str) -> (r: Option<&String>)
        ensures
            match r {
                Some(v) => self@.contains_key(key@) && v@ == self@[key@],
                None => !self@.contains_key(key@),
            },
    {
        self.map.get(key)
    }

    /// Whether a key has a value.
    pub fn contains_key(&self, key: &str) -> (r: bool)
        ensures
            r == self@.contains_key(key@),
    {
        self.map.contains_key(key)
    }

    /// Sets the value of a key.
    pub fn insert(&mut self, key: String, value: String)
        ensures
            final(self)@ == old(self)@.insert(key@, value@),
    {
        let ghost before = self@;
        let ghost k = key@;
        let ghost v = value@;
        self.map.insert(key, value);
        assert(self@ =~= before.insert(k, v));
    }
}

/// The sequence holds the keys of a map, in order, each once.
pub open spec fn lists_keys<V>(s: Seq<Seq<char>>, m: Map<Seq<char>, V>) -> bool {
    strictly_sorted(s) && forall|k: Seq<char>| #[trigger] s.contains(k) <==> m.contains_key(k)
}

/// The keys of a map in order.
pub open spec fn sorted_keys<V>(m: Map<Seq<char>, V>) -> Seq<Seq<char>> {
    choose|s: Seq<Seq<char>>| lists_keys(s, m)
}

/// There is one sequence of the keys of a map in order.
pub proof fn lemma_sorted_keys<V>(s: Seq<Seq<char>>, m: Map<Seq<char>, V>)
    requires
        lists_keys(s, m),
    ensures
        sorted_keys(m) == s,
{
    let t = sorted_keys(m);
    assert(lists_keys(t, m));
    assert forall|k: Seq<char>| #[trigger] s.contains(k) <==> t.contains(k) by {
        assert(s.contains(k) <==> m.contains_key(k));
        assert(t.contains(k) <==> m.contains_key(k));
    }
    lemma_strictly_sorted_unique(s, t);
}

impl<V> View for StrMap<V> {
    type V = Map<Seq<char>, V>;

    open spec fn view(&self) -> Map<Seq<char>, V> {
        self.as_map()
    }
}

} // verus!
