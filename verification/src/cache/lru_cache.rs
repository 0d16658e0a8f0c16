//! A bounded cache that evicts the least recently used entry.
//!
//! The cache is modelled as a sequence of `(key view, value)` pairs ordered
//! from least to most recently touched. Both `get` and `put` move the touched
//! entry to the most recent end; a `put` of a new key at capacity first drops
//! the entry at the least recent end.
//!
//! Lookups walk the entry list, so operations cost time linear in the
//! capacity; the cache is meant for small, fixed bounds.

use vstd::prelude::*;

use crate::cache::key::CacheKey;
use crate::cache::model::{
    distinct_keys, has_key, key_index, key_set, lemma_evict_push, lemma_key_index_of,
    lemma_key_set_contains, lemma_push_new, lemma_reinsert_back,
    value_of,
};

verus! {

/// How a `get` that touches key `k` rewrites the entry sequence: a hit moves
/// the entry to the most recent end, a miss changes nothing.
pub open spec fn lru_get_t<KT, VT>(s: Seq<(KT, VT)>, k: KT) -> Seq<(KT, VT)> {
    if has_key(s, k) {
        let i = key_index(s, k);
        s.remove(i).push(s[i])
    } else {
        s
    }
}

/// How a `put` of `(k, v)` rewrites the entry sequence: an existing key is
/// rewritten in place at the most recent end; a new key is appended, after
/// evicting the least recently used entry when the cache is full.
pub open spec fn lru_put_t<KT, VT>(s: Seq<(KT, VT)>, cap: nat, k: KT, v: VT) -> Seq<(KT, VT)> {
    if has_key(s, k) {
        s.remove(key_index(s, k)).push((k, v))
    } else if s.len() < cap {
        s.push((k, v))
    } else {
        s.remove(0).push((k, v))
    }
}

/// A fixed-capacity key-value cache with least-recently-used eviction.
pub struct LRUCache<K: CacheKey, V> {
    capacity: usize,
    entries: Vec<(K, V)>,
}

impl<K: CacheKey, V> View for LRUCache<K, V> {
    type V = Seq<(<K as View>::V, V)>;

    closed spec fn view(&self) -> Seq<(<K as View>::V, V)> {
        self.entries@.map_values(|e: (K, V)| (e.0@, e.1))
    }
}

impl<K: CacheKey, V> LRUCache<K, V> {
    /// The bound fixed at construction.
    pub closed spec fn spec_capacity(&self) -> nat {
        self.capacity as nat
    }

    /// The cache invariant: positive capacity, never more entries than the
    /// capacity allows, and no key stored twice.
    pub open spec fn wf(&self) -> bool {
        &&& 1 <= self.spec_capacity()
        &&& self@.len() <= self.spec_capacity()
        &&& distinct_keys(self@)
    }

    /// Creates an empty cache. A cache must be able to hold at least one
    /// entry, so zero is not a capacity.
    pub fn new(capacity: usize) -> (c: Self)
        requires
            1 <= capacity,
        ensures
            c.wf(),
            c@ == Seq::<(<K as View>::V, V)>::empty(),
            c.spec_capacity() == capacity,
    {
        let c = LRUCache { capacity, entries: Vec::new() };
        proof {
            assert(c@ =~= Seq::<(<K as View>::V, V)>::empty());
        }
        c
    }

    /// Creates an empty cache, or reports the one construction error: a
    /// capacity of zero.
    pub fn try_new(capacity: usize) -> (r: Option<Self>)
        ensures
            r is Some <==> 1 <= capacity,
            r matches Some(c) ==> c.wf() && c@ == Seq::<(<K as View>::V, V)>::empty()
                && c.spec_capacity() == capacity,
    {
        if capacity == 0 {
            None
        } else {
            Some(Self::new(capacity))
        }
    }

    /// How many entries the cache currently holds.
    pub fn len(&self) -> (n: usize)
        ensures
            n == self@.len(),
    {
        self.entries.len()
    }

    /// The bound fixed at construction.
    pub fn capacity(&self) -> (c: usize)
        ensures
            c == self.spec_capacity(),
    {
        self.capacity
    }

    /// The position of the entry carrying `key`, if any.
    fn find_index(&self, key: &K) -> (r: Option<usize>)
        ensures
            match r {
                Some(i) => 0 <= i < self@.len() && self@[i as int].0 == key@,
                None => !has_key(self@, key@),
            },
    {
        let n = self.entries.len();
        let mut i: usize = 0;
        while i < n
            invariant
                i <= n,
                n == self.entries.len(),
                forall|j: int| 0 <= j < i ==> self@[j].0 != key@,
            decreases n - i,
        {
            if self.entries[i].0.key_eq(key) {
                proof {
                    assert(self@[i as int].0 == self.entries@[i as int].0@);
                }
                return Some(i);
            }
            proof {
                assert(self@[i as int].0 == self.entries@[i as int].0@);
            }
            i += 1;
        }
        None
    }

    /// Looks the key up. A hit returns the stored value and marks the entry
    /// most recently used; a miss returns nothing and changes nothing.
    pub fn get(&mut self, key: &K) -> (r: Option<&V>)
        requires
            old(self).wf(),
        ensures
            final(self).wf(),
            final(self).spec_capacity() == old(self).spec_capacity(),
            final(self)@ == lru_get_t(old(self)@, key@),
            final(self)@.len() == old(self)@.len(),
            key_set(final(self)@) == key_set(old(self)@),
            match r {
                Some(v) => has_key(old(self)@, key@) && *v == value_of(old(self)@, key@),
                None => !has_key(old(self)@, key@),
            },
    {
        proof {
            lemma_key_set_contains(old(self)@);
        }
        match self.find_index(key) {
            None => {
                assert(final(self)@ =~= lru_get_t(old(self)@, key@));
                None
            },
            Some(i) => {
                let ghost s0 = self@;
                proof {
                    lemma_key_index_of(s0, key@, i as int);
                    lemma_reinsert_back(s0, i as int, s0[i as int].1);
                }
                let e = self.entries.remove(i);
                self.entries.push(e);
                proof {
                    assert(self@ =~= s0.remove(i as int).push(s0[i as int]));
                    assert((s0[i as int].0, s0[i as int].1) == s0[i as int]);
                }
                let m = self.entries.len();
                let r = Some(&self.entries[m - 1].1);
                proof {
                    assert(self@[m - 1] == s0[i as int]);
                }
                r
            },
        }
    }

    /// Inserts or updates. An existing key keeps its entry, takes the new
    /// value and becomes most recently used; a new key is inserted, evicting
    /// the least recently used entry when the cache is already full.
    pub fn put(&mut self, key: K, value: V)
        requires
            old(self).wf(),
        ensures
            final(self).wf(),
            final(self).spec_capacity() == old(self).spec_capacity(),
            final(self)@ == lru_put_t(old(self)@, old(self).spec_capacity(), key@, value),
            has_key(final(self)@, key@),
            value_of(final(self)@, key@) == value,
            has_key(old(self)@, key@) ==> final(self)@.len() == old(self)@.len(),
            !has_key(old(self)@, key@) && old(self)@.len() < old(self).spec_capacity()
                ==> final(self)@.len() == old(self)@.len() + 1,
            !has_key(old(self)@, key@) && old(self)@.len() == old(self).spec_capacity()
                ==> final(self)@.len() == old(self)@.len(),
    {
        let ghost s0 = self@;
        let ghost cap = self.spec_capacity();
        match self.find_index(&key) {
            Some(i) => {
                proof {
                    lemma_key_index_of(s0, key@, i as int);
                    lemma_reinsert_back(s0, i as int, value);
                }
                self.entries.remove(i);
                self.entries.push((key, value));
                proof {
                    assert(self@ =~= s0.remove(i as int).push((key@, value)));
                    assert(s0[i as int].0 == key@);
                    lemma_key_index_of(self@, key@, self@.len() - 1);
                }
            },
            None => {
                if self.entries.len() == self.capacity {
                    proof {
                        lemma_evict_push(s0, 0, key@, value);
                    }
                    self.entries.remove(0);
                    self.entries.push((key, value));
                    proof {
                        assert(self@ =~= s0.remove(0).push((key@, value)));
                    }
                } else {
                    proof {
                        lemma_push_new(s0, key@, value);
                    }
                    self.entries.push((key, value));
                    proof {
                        assert(self@ =~= s0.push((key@, value)));
                    }
                }
            },
        }
    }
}

} // verus!
