//! Laws the two eviction policies obey, stated over the entry-sequence model
//! and proved once and for all. The caches' `get` and `put` tie their results
//! to the transition functions `lru_get_t`, `lru_put_t`, `lfu_get_t` and
//! `lfu_put_t`, so each law below speaks about every run of the executable
//! caches.

use vstd::prelude::*;

use crate::cache::lfu_cache::{bump, lfu_get_t, lfu_put_t, min_freq_index};
use crate::cache::lru_cache::{lru_get_t, lru_put_t};
use crate::cache::model::{
    distinct_keys, has_key, key_index, key_set, lemma_evict_push, lemma_key_index_of,
    lemma_key_set_contains, lemma_len_is_key_count, lemma_push_new, lemma_reinsert_back,
    value_of,
};

verus! {

/// The entry sequence after a whole run of `put` operations, applied in
/// order, under least-recently-used eviction.
pub open spec fn apply_lru_puts<KT, VT>(s: Seq<(KT, VT)>, cap: nat, ops: Seq<(KT, VT)>) -> Seq<
    (KT, VT),
>
    decreases ops.len(),
{
    if ops.len() == 0 {
        s
    } else {
        apply_lru_puts(lru_put_t(s, cap, ops[0].0, ops[0].1), cap, ops.skip(1))
    }
}

/// The entry sequence after a whole run of `put` operations, applied in
/// order, under least-frequently-used eviction.
pub open spec fn apply_lfu_puts<KT, VT>(
    s: Seq<(KT, (VT, u64))>,
    cap: nat,
    ops: Seq<(KT, VT)>,
) -> Seq<(KT, (VT, u64))>
    decreases ops.len(),
{
    if ops.len() == 0 {
        s
    } else {
        apply_lfu_puts(lfu_put_t(s, cap, ops[0].0, ops[0].1), cap, ops.skip(1))
    }
}

/// The distinct keys a run of puts mentions.
pub open spec fn put_keys<KT, VT>(ops: Seq<(KT, VT)>) -> Set<KT> {
    ops.map_values(|p: (KT, VT)| p.0).to_set()
}

proof fn lemma_put_keys_skip<KT, VT>(ops: Seq<(KT, VT)>)
    requires
        0 < ops.len(),
    ensures
        put_keys(ops) =~= put_keys(ops.skip(1)).insert(ops[0].0),
        put_keys(ops).finite(),
        put_keys(ops).contains(ops[0].0),
{
    broadcast use vstd::seq_lib::seq_to_set_is_finite;
    broadcast use vstd::set::group_set_axioms;

    let m = ops.map_values(|p: (KT, VT)| p.0);
    let m1 = ops.skip(1).map_values(|p: (KT, VT)| p.0);
    assert forall|k: KT| put_keys(ops).contains(k) implies put_keys(ops.skip(1)).insert(
        ops[0].0,
    ).contains(k) by {
        let i = choose|i: int| 0 <= i < m.len() && m[i] == k;
        if i > 0 {
            assert(m1[i - 1] == k);
        }
    }
    assert forall|k: KT| put_keys(ops.skip(1)).insert(ops[0].0).contains(k) implies put_keys(
        ops,
    ).contains(k) by {
        if k == ops[0].0 {
            assert(m[0] == k);
        } else {
            let i = choose|i: int| 0 <= i < m1.len() && m1[i] == k;
            assert(m[i + 1] == k);
        }
    }
    assert(m[0] == ops[0].0);
}

proof fn lemma_put_keys_finite<KT, VT>(ops: Seq<(KT, VT)>)
    ensures
        put_keys(ops).finite(),
{
    broadcast use vstd::seq_lib::seq_to_set_is_finite;

}

proof fn lemma_apply_lru_puts<KT, VT>(s: Seq<(KT, VT)>, cap: nat, ops: Seq<(KT, VT)>)
    requires
        1 <= cap,
        distinct_keys(s),
        s.len() <= cap,
        key_set(s).union(put_keys(ops)).len() <= cap,
    ensures
        ({
            let t = apply_lru_puts(s, cap, ops);
            &&& distinct_keys(t)
            &&& t.len() <= cap
            &&& key_set(t) =~= key_set(s).union(put_keys(ops))
        }),
    decreases ops.len(),
{
    broadcast use vstd::set::group_set_axioms;

    lemma_key_set_contains(s);
    lemma_put_keys_finite(ops);
    if ops.len() == 0 {
        assert(key_set(s) =~= key_set(s).union(put_keys(ops))) by {
            assert(forall|k: KT| !put_keys(ops).contains(k));
        }
    } else {
        let k = ops[0].0;
        let v = ops[0].1;
        lemma_put_keys_skip(ops);
        lemma_put_keys_finite(ops.skip(1));
        let t1 = lru_put_t(s, cap, k, v);
        if has_key(s, k) {
            let i = key_index(s, k);
            lemma_key_index_of(s, k, i);
            lemma_reinsert_back(s, i, v);
            assert(t1 == s.remove(i).push((s[i].0, v)));
            assert(key_set(t1).union(put_keys(ops.skip(1))) =~= key_set(s).union(put_keys(ops)));
            lemma_apply_lru_puts(t1, cap, ops.skip(1));
        } else {
            lemma_len_is_key_count(s);
            assert(key_set(s).insert(k).subset_of(key_set(s).union(put_keys(ops))));
            vstd::set_lib::lemma_len_subset(
                key_set(s).insert(k),
                key_set(s).union(put_keys(ops)),
            );
            assert(key_set(s).insert(k).len() == key_set(s).len() + 1);
            assert(s.len() < cap);
            lemma_push_new(s, k, v);
            assert(t1 == s.push((k, v)));
            assert(key_set(t1).union(put_keys(ops.skip(1))) =~= key_set(s).union(put_keys(ops)));
            lemma_apply_lru_puts(t1, cap, ops.skip(1));
        }
    }
}

proof fn lemma_apply_lfu_puts<KT, VT>(s: Seq<(KT, (VT, u64))>, cap: nat, ops: Seq<(KT, VT)>)
    requires
        1 <= cap,
        distinct_keys(s),
        s.len() <= cap,
        key_set(s).union(put_keys(ops)).len() <= cap,
    ensures
        ({
            let t = apply_lfu_puts(s, cap, ops);
            &&& distinct_keys(t)
            &&& t.len() <= cap
            &&& key_set(t) =~= key_set(s).union(put_keys(ops))
        }),
    decreases ops.len(),
{
    broadcast use vstd::set::group_set_axioms;

    lemma_key_set_contains(s);
    lemma_put_keys_finite(ops);
    if ops.len() == 0 {
        assert(key_set(s) =~= key_set(s).union(put_keys(ops))) by {
            assert(forall|k: KT| !put_keys(ops).contains(k));
        }
    } else {
        let k = ops[0].0;
        let v = ops[0].1;
        lemma_put_keys_skip(ops);
        lemma_put_keys_finite(ops.skip(1));
        let t1 = lfu_put_t(s, cap, k, v);
        if has_key(s, k) {
            let i = key_index(s, k);
            lemma_key_index_of(s, k, i);
            lemma_reinsert_back(s, i, (v, bump(s[i].1.1)));
            assert(t1 == s.remove(i).push((s[i].0, (v, bump(s[i].1.1)))));
            assert(key_set(t1).union(put_keys(ops.skip(1))) =~= key_set(s).union(put_keys(ops)));
            lemma_apply_lfu_puts(t1, cap, ops.skip(1));
        } else {
            lemma_len_is_key_count(s);
            assert(key_set(s).insert(k).subset_of(key_set(s).union(put_keys(ops))));
            vstd::set_lib::lemma_len_subset(
                key_set(s).insert(k),
                key_set(s).union(put_keys(ops)),
            );
            assert(key_set(s).insert(k).len() == key_set(s).len() + 1);
            assert(s.len() < cap);
            lemma_push_new(s, k, (v, 1u64));
            assert(t1 == s.push((k, (v, 1u64))));
            assert(key_set(t1).union(put_keys(ops.skip(1))) =~= key_set(s).union(put_keys(ops)));
            lemma_apply_lfu_puts(t1, cap, ops.skip(1));
        }
    }
}

/// Law: a run of puts whose distinct keys fit the capacity fills a fresh
/// least-recently-used cache with exactly those keys, so the length equals
/// the number of distinct keys put.
pub proof fn lemma_lru_puts_within_capacity<KT, VT>(cap: nat, ops: Seq<(KT, VT)>)
    requires
        1 <= cap,
        put_keys(ops).len() <= cap,
    ensures
        ({
            let t = apply_lru_puts(Seq::<(KT, VT)>::empty(), cap, ops);
            &&& key_set(t) =~= put_keys(ops)
            &&& t.len() == put_keys(ops).len()
        }),
{
    broadcast use vstd::set::group_set_axioms;

    let e = Seq::<(KT, VT)>::empty();
    lemma_key_set_contains(e);
    assert(key_set(e) =~= Set::<KT>::empty());
    assert(key_set(e).union(put_keys(ops)) =~= put_keys(ops));
    lemma_apply_lru_puts(e, cap, ops);
    let t = apply_lru_puts(e, cap, ops);
    lemma_len_is_key_count(t);
}

/// Law: a run of puts whose distinct keys fit the capacity fills a fresh
/// least-frequently-used cache with exactly those keys, so the length equals
/// the number of distinct keys put.
pub proof fn lemma_lfu_puts_within_capacity<KT, VT>(cap: nat, ops: Seq<(KT, VT)>)
    requires
        1 <= cap,
        put_keys(ops).len() <= cap,
    ensures
        ({
            let t = apply_lfu_puts(Seq::<(KT, (VT, u64))>::empty(), cap, ops);
            &&& key_set(t) =~= put_keys(ops)
            &&& t.len() == put_keys(ops).len()
        }),
{
    broadcast use vstd::set::group_set_axioms;

    let e = Seq::<(KT, (VT, u64))>::empty();
    lemma_key_set_contains(e);
    assert(key_set(e) =~= Set::<KT>::empty());
    assert(key_set(e).union(put_keys(ops)) =~= put_keys(ops));
    lemma_apply_lfu_puts(e, cap, ops);
    let t = apply_lfu_puts(e, cap, ops);
    lemma_len_is_key_count(t);
}

/// Law: at capacity, a put of a new key evicts exactly one entry — the least
/// recently used one — keeps every other association, and leaves the length
/// at the capacity.
pub proof fn lemma_lru_put_at_capacity<KT, VT>(s: Seq<(KT, VT)>, cap: nat, k: KT, v: VT)
    requires
        1 <= cap,
        distinct_keys(s),
        s.len() == cap,
        !has_key(s, k),
    ensures
        ({
            let t = lru_put_t(s, cap, k, v);
            &&& t.len() == cap
            &&& has_key(t, k)
            &&& value_of(t, k) == v
            &&& !has_key(t, s[0].0)
            &&& forall|k2: KT|
                has_key(s, k2) && k2 != s[0].0 ==> #[trigger] has_key(t, k2) && value_of(t, k2)
                    == value_of(s, k2)
            &&& key_set(t) =~= key_set(s).remove(s[0].0).insert(k)
        }),
{
    lemma_evict_push(s, 0, k, v);
}

/// Law: at capacity, a put of a new key evicts exactly one entry — the first,
/// in recency order, among those of minimal access count — keeps every other
/// association, and leaves the length at the capacity.
pub proof fn lemma_lfu_put_at_capacity<KT, VT>(s: Seq<(KT, (VT, u64))>, cap: nat, k: KT, v: VT)
    requires
        1 <= cap,
        distinct_keys(s),
        s.len() == cap,
        !has_key(s, k),
    ensures
        ({
            let t = lfu_put_t(s, cap, k, v);
            let evicted = s[min_freq_index(s)];
            &&& t.len() == cap
            &&& has_key(t, k)
            &&& value_of(t, k).0 == v
            &&& !has_key(t, evicted.0)
            &&& forall|j: int| 0 <= j < s.len() ==> s[min_freq_index(s)].1.1 <= #[trigger] s[j].1.1
            &&& forall|j: int|
                0 <= j < min_freq_index(s) ==> #[trigger] s[j].1.1 > s[min_freq_index(s)].1.1
            &&& forall|k2: KT|
                has_key(s, k2) && k2 != evicted.0 ==> #[trigger] has_key(t, k2) && value_of(t, k2)
                    == value_of(s, k2)
            &&& key_set(t) =~= key_set(s).remove(evicted.0).insert(k)
        }),
{
    crate::cache::lfu_cache::lemma_min_freq_index(s);
    lemma_evict_push(s, min_freq_index(s), k, (v, 1u64));
}

/// Law: a hit of `get` changes no association and no length, so repeated
/// `get`s of a present key return the same value every time.
pub proof fn lemma_lru_get_idempotent<KT, VT>(s: Seq<(KT, VT)>, k: KT)
    requires
        distinct_keys(s),
        has_key(s, k),
    ensures
        ({
            let t = lru_get_t(s, k);
            &&& t.len() == s.len()
            &&& distinct_keys(t)
            &&& has_key(t, k)
            &&& value_of(t, k) == value_of(s, k)
            &&& forall|k2: KT| has_key(t, k2) <==> has_key(s, k2)
            &&& forall|k2: KT|
                has_key(s, k2) ==> #[trigger] value_of(t, k2) == value_of(s, k2)
            &&& value_of(lru_get_t(t, k), k) == value_of(s, k)
        }),
{
    let i = key_index(s, k);
    lemma_key_index_of(s, k, i);
    lemma_reinsert_back(s, i, s[i].1);
    let t = lru_get_t(s, k);
    assert((s[i].0, s[i].1) == s[i]);
    assert(value_of(t, k) == value_of(s, k));
    let j = key_index(t, k);
    lemma_key_index_of(t, k, j);
    lemma_reinsert_back(t, j, t[j].1);
    assert((t[j].0, t[j].1) == t[j]);
}

/// Law: a hit of `get` changes no stored value and no length, so repeated
/// `get`s of a present key return the same value every time (only the access
/// counts grow).
pub proof fn lemma_lfu_get_idempotent<KT, VT>(s: Seq<(KT, (VT, u64))>, k: KT)
    requires
        distinct_keys(s),
        has_key(s, k),
    ensures
        ({
            let t = lfu_get_t(s, k);
            &&& t.len() == s.len()
            &&& distinct_keys(t)
            &&& has_key(t, k)
            &&& value_of(t, k).0 == value_of(s, k).0
            &&& forall|k2: KT| has_key(t, k2) <==> has_key(s, k2)
            &&& forall|k2: KT|
                has_key(s, k2) && k2 != k ==> #[trigger] value_of(t, k2) == value_of(s, k2)
            &&& value_of(lfu_get_t(t, k), k).0 == value_of(s, k).0
        }),
{
    let i = key_index(s, k);
    lemma_key_index_of(s, k, i);
    lemma_reinsert_back(s, i, (s[i].1.0, bump(s[i].1.1)));
    let t = lfu_get_t(s, k);
    assert(value_of(t, k).0 == value_of(s, k).0);
    let j = key_index(t, k);
    lemma_key_index_of(t, k, j);
    lemma_reinsert_back(t, j, (t[j].1.0, bump(t[j].1.1)));
}

/// Law: a put of a present key replaces that key's value and nothing else —
/// no length change, no eviction, every other association kept.
pub proof fn lemma_lru_put_update<KT, VT>(s: Seq<(KT, VT)>, cap: nat, k: KT, v: VT)
    requires
        distinct_keys(s),
        has_key(s, k),
    ensures
        ({
            let t = lru_put_t(s, cap, k, v);
            &&& t.len() == s.len()
            &&& distinct_keys(t)
            &&& has_key(t, k)
            &&& value_of(t, k) == v
            &&& forall|k2: KT| has_key(t, k2) <==> has_key(s, k2)
            &&& forall|k2: KT|
                has_key(s, k2) && k2 != k ==> #[trigger] value_of(t, k2) == value_of(s, k2)
            &&& key_set(t) =~= key_set(s)
        }),
{
    let i = key_index(s, k);
    lemma_key_index_of(s, k, i);
    lemma_reinsert_back(s, i, v);
}

/// Law: a put of a present key replaces that key's value and raises its
/// access count by one, and nothing else — no length change, no eviction,
/// every other association kept.
pub proof fn lemma_lfu_put_update<KT, VT>(s: Seq<(KT, (VT, u64))>, cap: nat, k: KT, v: VT)
    requires
        distinct_keys(s),
        has_key(s, k),
    ensures
        ({
            let t = lfu_put_t(s, cap, k, v);
            &&& t.len() == s.len()
            &&& distinct_keys(t)
            &&& has_key(t, k)
            &&& value_of(t, k) == (v, bump(value_of(s, k).1))
            &&& forall|k2: KT| has_key(t, k2) <==> has_key(s, k2)
            &&& forall|k2: KT|
                has_key(s, k2) && k2 != k ==> #[trigger] value_of(t, k2) == value_of(s, k2)
            &&& key_set(t) =~= key_set(s)
        }),
{
    let i = key_index(s, k);
    lemma_key_index_of(s, k, i);
    lemma_reinsert_back(s, i, (v, bump(s[i].1.1)));
}

/// Law: a cache of capacity one holds, after any put, exactly the pair just
/// put, and a hit of `get` keeps that single entry; so it always holds
/// exactly the most recently touched key.
pub proof fn lemma_lru_capacity_one<KT, VT>(s: Seq<(KT, VT)>, k: KT, v: VT)
    requires
        distinct_keys(s),
        s.len() <= 1,
    ensures
        lru_put_t(s, 1, k, v) =~= seq![(k, v)],
        has_key(s, k) ==> lru_get_t(s, k) =~= s && s =~= seq![(k, value_of(s, k))],
{
    if has_key(s, k) {
        let i = key_index(s, k);
        lemma_key_index_of(s, k, i);
        assert(i == 0);
        assert((s[0].0, s[0].1) == s[0]);
    }
}

/// Law: a cache of capacity one holds, after any put, exactly the key and
/// value just put, and a hit of `get` keeps that single key; so it always
/// holds exactly the most recently touched key.
pub proof fn lemma_lfu_capacity_one<KT, VT>(s: Seq<(KT, (VT, u64))>, k: KT, v: VT)
    requires
        distinct_keys(s),
        s.len() <= 1,
    ensures
        ({
            let t = lfu_put_t(s, 1, k, v);
            &&& t.len() == 1
            &&& t[0].0 == k
            &&& t[0].1.0 == v
        }),
        has_key(s, k) ==> lfu_get_t(s, k).len() == s.len() && lfu_get_t(s, k)[0].0 == k,
{
    if has_key(s, k) {
        let i = key_index(s, k);
        lemma_key_index_of(s, k, i);
        assert(i == 0);
    }
}

} // verus!
