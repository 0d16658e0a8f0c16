//! A bounded cache that evicts the least frequently used entry.
//!
//! Every entry carries an access count, set to one on insertion and raised by
//! one on every later hit. The entry sequence is ordered from least to most
//! recently touched, exactly as in the least-recently-used cache, so that a
//! frequency tie is broken against the least recently touched entry: eviction
//! removes the first entry, in recency order, whose count is minimal.
//!
//! Lookups and eviction walk the entry list, so operations cost time linear
//! in the capacity; the cache is meant for small, fixed bounds.

use vstd::prelude::*;

use crate::cache::key::CacheKey;
use crate::cache::model::{
    distinct_keys, has_key, key_index, key_set, lemma_evict_push, lemma_key_index_of,
    lemma_key_set_contains, lemma_push_new, lemma_reinsert_back, value_of,
};

verus! {

/// An access count one higher, stopping at the largest count a machine word
/// holds (a bound no real access sequence reaches).
pub open spec fn bump(f: u64) -> u64 {
    if f < u64::MAX {
        (f + 1) as u64
    } else {
        f
    }
}

/// The position of the first entry, in recency order, whose access count is
/// minimal: the entry the cache evicts when full.
pub open spec fn min_freq_index<KT, VT>(s: Seq<(KT, (VT, u64))>) -> int
    decreases s.len(),
{
    if s.len() <= 1 {
        0
    } else {
        let r = min_freq_index(s.drop_last());
        if s.last().1.1 < s[r].1.1 {
            s.len() - 1
        } else {
            r
        }
    }
}

/// `min_freq_index` names a valid position, its count is minimal, and every
/// earlier (less recently touched) entry has a strictly larger count.
pub proof fn lemma_min_freq_index<KT, VT>(s: Seq<(KT, (VT, u64))>)
    requires
        1 <= s.len(),
    ensures
        0 <= min_freq_index(s) < s.len(),
        forall|j: int| 0 <= j < s.len() ==> s[min_freq_index(s)].1.1 <= #[trigger] s[j].1.1,
        forall|j: int| 0 <= j < min_freq_index(s) ==> #[trigger] s[j].1.1 > s[min_freq_index(s)].1.1,
    decreases s.len(),
{
    if s.len() > 1 {
        lemma_min_freq_index(s.drop_last());
        assert forall|j: int| 0 <= j < s.len() - 1 implies s.drop_last()[j] == s[j] by {}
    }
}

/// How a `get` that touches key `k` rewrites the entries: a hit raises the
/// entry's count by one and moves it to the most recent end, a miss changes
/// nothing.
pub open spec fn lfu_get_t<KT, VT>(s: Seq<(KT, (VT, u64))>, k: KT) -> Seq<(KT, (VT, u64))> {
    if has_key(s, k) {
        let i = key_index(s, k);
        s.remove(i).push((k, (s[i].1.0, bump(s[i].1.1))))
    } else {
        s
    }
}

/// How a `put` of `(k, v)` rewrites the entries: an existing key takes the
/// new value, a one higher count and the most recent position; a new key is
/// appended with count one, evicting the least frequently used entry when the
/// cache is full.
pub open spec fn lfu_put_t<KT, VT>(s: Seq<(KT, (VT, u64))>, cap: nat, k: KT, v: VT) -> Seq<
    (KT, (VT, u64)),
> {
    if has_key(s, k) {
        let i = key_index(s, k);
        s.remove(i).push((k, (v, bump(s[i].1.1))))
    } else if s.len() < cap {
        s.push((k, (v, 1u64)))
    } else {
        s.remove(min_freq_index(s)).push((k, (v, 1u64)))
    }
}

/// A fixed-capacity key-value cache with least-frequently-used eviction.
pub struct LFUCache<K: CacheKey, V> {
    capacity: usize,
    entries: Vec<(K, (V, u64))>,
}

impl<K: CacheKey, V> View for LFUCache<K, V> {
    type V = Seq<(<K as View>::V, (V, u64))>;

    closed spec fn view(&self) -> Seq<(<K as View>::V, (V, u64))> {
        self.entries@.map_values(|e: (K, (V, u64))| (e.0@, e.1))
    }
}

impl<K: CacheKey, V> LFUCache<K, V> {
    /// The bound fixed at construction.
    pub closed spec fn spec_capacity(&self) -> nat {
        self.capacity as nat
    }

    /// The cache invariant: positive capacity, never more entries than the
    /// capacity allows, no key stored twice, and every count at least one.
    pub open spec fn wf(&self) -> bool {
        &&& 1 <= self.spec_capacity()
        &&& self@.len() <= self.spec_capacity()
        &&& distinct_keys(self@)
        &&& forall|i: int| 0 <= i < self@.len() ==> 1 <= #[trigger] self@[i].1.1
    }

    /// Creates an empty cache. A cache must be able to hold at least one
    /// entry, so zero is not a capacity.
    pub fn new(capacity: usize) -> (c: Self)
        requires
            1 <= capacity,
        ensures
            c.wf(),
            c@ == Seq::<(<K as View>::V, (V, u64))>::empty(),
            c.spec_capacity() == capacity,
    {
        let c = LFUCache { capacity, entries: Vec::new() };
        proof {
            assert(c@ =~= Seq::<(<K as View>::V, (V, u64))>::empty());
        }
        c
    }

    /// Creates an empty cache, or reports the one construction error: a
    /// capacity of zero.
    pub fn try_new(capacity: usize) -> (r: Option<Self>)
        ensures
            r is Some <==> 1 <= capacity,
            r matches Some(c) ==> c.wf() && c@ == Seq::<(<K as View>::V, (V, u64))>::empty()
                && c.spec_capacity() == capacity,
    {
        if capacity == 0 {
            None
        } else {
            Some(Self::new(capacity))
        }
    }

    /// How many entries the cache currently holds.
    pub fn len(&self) -> (n: usize)
        ensures
            n == self@.len(),
    {
        self.entries.len()
    }

    /// The bound fixed at construction.
    pub fn capacity(&self) -> (c: usize)
        ensures
            c == self.spec_capacity(),
    {
        self.capacity
    }

    /// The position of the entry carrying `key`, if any.
    fn find_index(&self, key: &K) -> (r: Option<usize>)
        ensures
            match r {
                Some(i) => 0 <= i < self@.len() && self@[i as int].0 == key@,
                None => !has_key(self@, key@),
            },
    {
        let n = self.entries.len();
        let mut i: usize = 0;
        while i < n
            invariant
                i <= n,
                n == self.entries.len(),
                forall|j: int| 0 <= j < i ==> self@[j].0 != key@,
            decreases n - i,
        {
            if self.entries[i].0.key_eq(key) {
                proof {
                    assert(self@[i as int].0 == self.entries@[i as int].0@);
                }
                return Some(i);
            }
            proof {
                assert(self@[i as int].0 == self.entries@[i as int].0@);
            }
            i += 1;
        }
        None
    }

    /// Looks the key up. A hit returns the stored value, raises the entry's
    /// access count by one and marks it most recently used; a miss returns
    /// nothing and changes nothing.
    pub fn get(&mut self, key: &K) -> (r: Option<&V>)
        requires
            old(self).wf(),
        ensures
            final(self).wf(),
            final(self).spec_capacity() == old(self).spec_capacity(),
            final(self)@ == lfu_get_t(old(self)@, key@),
            final(self)@.len() == old(self)@.len(),
            key_set(final(self)@) == key_set(old(self)@),
            match r {
                Some(v) => has_key(old(self)@, key@) && *v == value_of(old(self)@, key@).0,
                None => !has_key(old(self)@, key@),
            },
    {
        proof {
            lemma_key_set_contains(old(self)@);
        }
        match self.find_index(key) {
            None => {
                assert(final(self)@ =~= lfu_get_t(old(self)@, key@));
                None
            },
            Some(i) => {
                let ghost s0 = self@;
                proof {
                    lemma_key_index_of(s0, key@, i as int);
                    lemma_reinsert_back(s0, i as int, (s0[i as int].1.0, bump(s0[i as int].1.1)));
                }
                let e = self.entries.remove(i);
                let f: u64 = if e.1.1 < u64::MAX {
                    e.1.1 + 1
                } else {
                    e.1.1
                };
                self.entries.push((e.0, (e.1.0, f)));
                proof {
                    assert(self@ =~= s0.remove(i as int).push(
                        (s0[i as int].0, (s0[i as int].1.0, bump(s0[i as int].1.1))),
                    ));
                }
                let m = self.entries.len();
                let r = Some(&self.entries[m - 1].1.0);
                proof {
                    assert(self@[m - 1].1.0 == s0[i as int].1.0);
                }
                r
            },
        }
    }

    /// Inserts or updates. An existing key keeps its entry, takes the new
    /// value, a one higher access count and the most recent position; a new
    /// key is inserted with count one, evicting the least frequently used
    /// entry (oldest first on a tie) when the cache is already full.
    pub fn put(&mut self, key: K, value: V)
        requires
            old(self).wf(),
        ensures
            final(self).wf(),
            final(self).spec_capacity() == old(self).spec_capacity(),
            final(self)@ == lfu_put_t(old(self)@, old(self).spec_capacity(), key@, value),
            has_key(final(self)@, key@),
            value_of(final(self)@, key@).0 == value,
            has_key(old(self)@, key@) ==> final(self)@.len() == old(self)@.len(),
            !has_key(old(self)@, key@) && old(self)@.len() < old(self).spec_capacity()
                ==> final(self)@.len() == old(self)@.len() + 1,
            !has_key(old(self)@, key@) && old(self)@.len() == old(self).spec_capacity()
                ==> final(self)@.len() == old(self)@.len(),
    {
        let ghost s0 = self@;
        match self.find_index(&key) {
            Some(i) => {
                let e = self.entries.remove(i);
                let f: u64 = if e.1.1 < u64::MAX {
                    e.1.1 + 1
                } else {
                    e.1.1
                };
                self.entries.push((key, (value, f)));
                proof {
                    lemma_key_index_of(s0, key@, i as int);
                    lemma_reinsert_back(s0, i as int, (value, bump(s0[i as int].1.1)));
                    assert(self@ =~= s0.remove(i as int).push(
                        (s0[i as int].0, (value, bump(s0[i as int].1.1))),
                    ));
                    lemma_key_index_of(self@, key@, self@.len() - 1);
                }
            },
            None => {
                if self.entries.len() == self.capacity {
                    let n = self.entries.len();
                    let mut best: usize = 0;
                    let mut j: usize = 1;
                    while j < n
                        invariant
                            1 <= j <= n,
                            best < j,
                            n == self.entries.len(),
                            self@ == s0,
                            best == min_freq_index(s0.take(j as int)),
                        decreases n - j,
                    {
                        proof {
                            let t = s0.take(j as int + 1);
                            assert(t.drop_last() =~= s0.take(j as int));
                            assert(t.last() == s0[j as int]);
                            assert(t[min_freq_index(t.drop_last())]
                                == s0[min_freq_index(s0.take(j as int))]);
                            assert(self@[j as int].1.1 == self.entries@[j as int].1.1);
                            assert(self@[best as int].1.1 == self.entries@[best as int].1.1);
                        }
                        if self.entries[j].1.1 < self.entries[best].1.1 {
                            best = j;
                        }
                        j += 1;
                    }
                    proof {
                        assert(s0.take(n as int) =~= s0);
                        lemma_min_freq_index(s0);
                        lemma_evict_push(s0, best as int, key@, (value, 1u64));
                    }
                    self.entries.remove(best);
                    self.entries.push((key, (value, 1)));
                    proof {
                        assert(self@ =~= s0.remove(best as int).push((key@, (value, 1u64))));
                    }
                } else {
                    proof {
                        lemma_push_new(s0, key@, (value, 1u64));
                    }
                    self.entries.push((key, (value, 1)));
                    proof {
                        assert(self@ =~= s0.push((key@, (value, 1u64))));
                    }
                }
            },
        }
    }
}

} // verus!
