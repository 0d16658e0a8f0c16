//! The mathematical model shared by the bounded caches: a cache is a sequence
//! of keyed entries ordered from least to most recently touched, with no key
//! occurring twice.

use vstd::prelude::*;

verus! {

/// Does some entry of `s` carry key `k`?
pub open spec fn has_key<KT, VT>(s: Seq<(KT, VT)>, k: KT) -> bool {
    exists|i: int| 0 <= i < s.len() && s[i].0 == k
}

/// No two entries of `s` carry the same key.
pub open spec fn distinct_keys<KT, VT>(s: Seq<(KT, VT)>) -> bool {
    forall|i: int, j: int| 0 <= i < j < s.len() ==> s[i].0 != s[j].0
}

/// The position of the entry carrying key `k`: meaningful only when
/// `has_key(s, k)` holds, and unique when the keys of `s` are distinct.
pub open spec fn key_index<KT, VT>(s: Seq<(KT, VT)>, k: KT) -> int {
    choose|i: int| 0 <= i < s.len() && s[i].0 == k
}

/// What the entry carrying key `k` stores.
pub open spec fn value_of<KT, VT>(s: Seq<(KT, VT)>, k: KT) -> VT {
    s[key_index(s, k)].1
}

/// The keys of the entries of `s`, in entry order.
pub open spec fn keys_seq<KT, VT>(s: Seq<(KT, VT)>) -> Seq<KT> {
    s.map_values(|e: (KT, VT)| e.0)
}

/// The set of keys stored in `s`.
pub open spec fn key_set<KT, VT>(s: Seq<(KT, VT)>) -> Set<KT> {
    keys_seq(s).to_set()
}

/// When keys are distinct, `key_index` names the one position that carries `k`.
pub proof fn lemma_key_index_of<KT, VT>(s: Seq<(KT, VT)>, k: KT, i: int)
    requires
        distinct_keys(s),
        0 <= i < s.len(),
        s[i].0 == k,
    ensures
        has_key(s, k),
        key_index(s, k) == i,
{
    assert(has_key(s, k));
    let j = key_index(s, k);
    assert(0 <= j < s.len() && s[j].0 == k);
    if i < j {
        assert(s[i].0 != s[j].0);
    } else if j < i {
        assert(s[j].0 != s[i].0);
    }
}

/// Membership in the key set is the same as carrying the key.
pub proof fn lemma_key_set_contains<KT, VT>(s: Seq<(KT, VT)>)
    ensures
        forall|k: KT| #[trigger] key_set(s).contains(k) <==> has_key(s, k),
        key_set(s).finite(),
{
    broadcast use vstd::seq_lib::seq_to_set_is_finite;

    assert forall|k: KT| #[trigger] key_set(s).contains(k) <==> has_key(s, k) by {
        if has_key(s, k) {
            let i = choose|i: int| 0 <= i < s.len() && s[i].0 == k;
            assert(keys_seq(s)[i] == k);
            assert(keys_seq(s).contains(k));
        }
        if key_set(s).contains(k) {
            let i = choose|i: int| 0 <= i < keys_seq(s).len() && keys_seq(s)[i] == k;
            assert(s[i].0 == k);
        }
    }
}

/// With distinct keys the entry count is the key count.
pub proof fn lemma_len_is_key_count<KT, VT>(s: Seq<(KT, VT)>)
    requires
        distinct_keys(s),
    ensures
        key_set(s).len() == s.len(),
{
    assert forall|i: int, j: int|
        0 <= i < keys_seq(s).len() && 0 <= j < keys_seq(s).len() && i != j
        implies keys_seq(s)[i] != keys_seq(s)[j] by {
        if i < j {
            assert(s[i].0 != s[j].0);
        } else {
            assert(s[j].0 != s[i].0);
        }
    }
    assert(keys_seq(s).no_duplicates());
    keys_seq(s).unique_seq_to_set();
}

/// Taking the entry at position `i` out and putting `w` back under the same
/// key at the most recent end permutes the entries: every association but the
/// touched one is kept, and the touched key now stores `w`.
pub proof fn lemma_reinsert_back<KT, VT>(s: Seq<(KT, VT)>, i: int, w: VT)
    requires
        distinct_keys(s),
        0 <= i < s.len(),
    ensures
        ({
            let t = s.remove(i).push((s[i].0, w));
            &&& t.len() == s.len()
            &&& distinct_keys(t)
            &&& forall|k: KT| has_key(t, k) <==> has_key(s, k)
            &&& has_key(t, s[i].0)
            &&& value_of(t, s[i].0) == w
            &&& forall|k: KT|
                has_key(s, k) && k != s[i].0 ==> #[trigger] value_of(t, k) == value_of(s, k)
            &&& key_set(t) =~= key_set(s)
        }),
{
    let t = s.remove(i).push((s[i].0, w));
    let n = s.len() as int;
    assert forall|j: int| 0 <= j < n implies #[trigger] t[j] == (if j < i {
        s[j]
    } else if j < n - 1 {
        s[j + 1]
    } else {
        (s[i].0, w)
    }) by {
        if j < n - 1 {
            assert(t[j] == s.remove(i)[j]);
        }
    }
    assert(distinct_keys(t)) by {
        assert forall|a: int, b: int| 0 <= a < b < n implies t[a].0 != t[b].0 by {
            let oa: int = if a < i { a } else { a + 1 };
            if b < n - 1 {
                let ob: int = if b < i { b } else { b + 1 };
                assert(t[a].0 == s[oa].0 && t[b].0 == s[ob].0);
            } else {
                assert(t[b].0 == s[i].0);
                assert(t[a].0 == s[oa].0);
                assert(oa != i);
            }
        }
    }
    assert forall|k: KT| has_key(t, k) <==> has_key(s, k) by {
        if has_key(s, k) {
            let a = choose|a: int| 0 <= a < n && s[a].0 == k;
            if a == i {
                assert(t[n - 1].0 == k);
            } else if a < i {
                assert(t[a].0 == k);
            } else {
                assert(t[a - 1].0 == k);
            }
        }
        if has_key(t, k) {
            let a = choose|a: int| 0 <= a < n && t[a].0 == k;
            if a == n - 1 {
                assert(s[i].0 == k);
            } else if a < i {
                assert(s[a].0 == k);
            } else {
                assert(s[a + 1].0 == k);
            }
        }
    }
    assert(t[n - 1].0 == s[i].0);
    lemma_key_index_of(t, s[i].0, n - 1);
    assert forall|k: KT| has_key(s, k) && k != s[i].0 implies #[trigger] value_of(t, k)
        == value_of(s, k) by {
        let a = key_index(s, k);
        assert(0 <= a < n && s[a].0 == k);
        assert(a != i);
        let b: int = if a < i { a } else { a - 1 };
        assert(t[b] == s[a]);
        lemma_key_index_of(s, k, a);
        lemma_key_index_of(t, k, b);
    }
    lemma_key_set_contains(s);
    lemma_key_set_contains(t);
}

/// Appending an entry under a fresh key keeps every old association and adds
/// the new one at the most recent end.
pub proof fn lemma_push_new<KT, VT>(s: Seq<(KT, VT)>, k: KT, v: VT)
    requires
        distinct_keys(s),
        !has_key(s, k),
    ensures
        ({
            let t = s.push((k, v));
            &&& t.len() == s.len() + 1
            &&& distinct_keys(t)
            &&& has_key(t, k)
            &&& value_of(t, k) == v
            &&& forall|k2: KT| #[trigger] has_key(t, k2) <==> has_key(s, k2) || k2 == k
            &&& forall|k2: KT|
                has_key(s, k2) ==> #[trigger] value_of(t, k2) == value_of(s, k2)
            &&& key_set(t) =~= key_set(s).insert(k)
        }),
{
    let t = s.push((k, v));
    let n = s.len() as int;
    assert(t[n] == (k, v));
    assert(distinct_keys(t)) by {
        assert forall|a: int, b: int| 0 <= a < b < n + 1 implies t[a].0 != t[b].0 by {
            if b < n {
                assert(t[a] == s[a] && t[b] == s[b]);
            } else {
                assert(t[a] == s[a]);
                assert(!(s[a].0 == k));
            }
        }
    }
    lemma_key_index_of(t, k, n);
    assert forall|k2: KT| #[trigger] has_key(t, k2) <==> has_key(s, k2) || k2 == k by {
        if has_key(t, k2) {
            let a = choose|a: int| 0 <= a < n + 1 && t[a].0 == k2;
            if a < n {
                assert(s[a].0 == k2);
            }
        }
        if has_key(s, k2) {
            let a = choose|a: int| 0 <= a < n && s[a].0 == k2;
            assert(t[a].0 == k2);
        }
    }
    assert forall|k2: KT| has_key(s, k2) implies #[trigger] value_of(t, k2) == value_of(s, k2) by {
        let a = key_index(s, k2);
        assert(0 <= a < n && s[a].0 == k2);
        lemma_key_index_of(s, k2, a);
        lemma_key_index_of(t, k2, a);
    }
    lemma_key_set_contains(s);
    lemma_key_set_contains(t);
}

/// Evicting the entry at position `i` and appending a fresh key: one
/// association leaves, one arrives, the rest are kept.
pub proof fn lemma_evict_push<KT, VT>(s: Seq<(KT, VT)>, i: int, k: KT, v: VT)
    requires
        distinct_keys(s),
        0 <= i < s.len(),
        !has_key(s, k),
    ensures
        ({
            let t = s.remove(i).push((k, v));
            &&& t.len() == s.len()
            &&& distinct_keys(t)
            &&& has_key(t, k)
            &&& value_of(t, k) == v
            &&& !has_key(t, s[i].0)
            &&& forall|k2: KT|
                #[trigger] has_key(t, k2) <==> (has_key(s, k2) && k2 != s[i].0) || k2 == k
            &&& forall|k2: KT|
                has_key(s, k2) && k2 != s[i].0 ==> #[trigger] value_of(t, k2) == value_of(s, k2)
            &&& key_set(t) =~= key_set(s).remove(s[i].0).insert(k)
        }),
{
    let t = s.remove(i).push((k, v));
    let n = s.len() as int;
    assert forall|j: int| 0 <= j < n implies #[trigger] t[j] == (if j < i {
        s[j]
    } else if j < n - 1 {
        s[j + 1]
    } else {
        (k, v)
    }) by {
        if j < n - 1 {
            assert(t[j] == s.remove(i)[j]);
        }
    }
    assert(distinct_keys(t)) by {
        assert forall|a: int, b: int| 0 <= a < b < n implies t[a].0 != t[b].0 by {
            let oa: int = if a < i { a } else { a + 1 };
            if b < n - 1 {
                let ob: int = if b < i { b } else { b + 1 };
                assert(t[a].0 == s[oa].0 && t[b].0 == s[ob].0);
            } else {
                assert(t[a].0 == s[oa].0);
                assert(!(s[oa].0 == k));
            }
        }
    }
    lemma_key_index_of(t, k, n - 1);
    assert forall|k2: KT|
        #[trigger] has_key(t, k2) <==> (has_key(s, k2) && k2 != s[i].0) || k2 == k by {
        if has_key(t, k2) {
            let a = choose|a: int| 0 <= a < n && t[a].0 == k2;
            if a == n - 1 {
            } else if a < i {
                assert(s[a].0 == k2);
                assert(a != i && s[a].0 != s[i].0);
            } else {
                assert(s[a + 1].0 == k2);
                assert(s[a + 1].0 != s[i].0);
            }
        }
        if has_key(s, k2) && k2 != s[i].0 {
            let a = choose|a: int| 0 <= a < n && s[a].0 == k2;
            if a < i {
                assert(t[a].0 == k2);
            } else {
                assert(a != i);
                assert(t[a - 1].0 == k2);
            }
        }
    }
    assert(!has_key(t, s[i].0)) by {
        assert(!(s[i].0 == k));
    }
    assert forall|k2: KT| has_key(s, k2) && k2 != s[i].0 implies #[trigger] value_of(t, k2)
        == value_of(s, k2) by {
        let a = key_index(s, k2);
        assert(0 <= a < n && s[a].0 == k2);
        assert(a != i);
        let b: int = if a < i { a } else { a - 1 };
        assert(t[b] == s[a]);
        lemma_key_index_of(s, k2, a);
        lemma_key_index_of(t, k2, b);
    }
    lemma_key_set_contains(s);
    lemma_key_set_contains(t);
}

} // verus!
