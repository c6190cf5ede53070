//! Specification helpers for association sequences: sequences of `(key, value)`
//! pairs with pairwise distinct keys, the executable stand-in this crate uses
//! for its lookup tables.
use vstd::prelude::*;

verus! {

/// All keys of `s` are pairwise distinct.
pub open spec fn unique_keys<K, V>(s: Seq<(K, V)>) -> bool {
    forall|i: int, j: int| 0 <= i < j < s.len() ==> (#[trigger] s[i]).0 != (#[trigger] s[j]).0
}

/// Some pair of `s` carries the key `k`.
pub open spec fn has_key<K, V>(s: Seq<(K, V)>, k: K) -> bool {
    exists|i: int| 0 <= i < s.len() && (#[trigger] s[i]).0 == k
}

/// The index of the pair carrying `k`, meaningful only when `has_key(s, k)`.
pub open spec fn idx_of<K, V>(s: Seq<(K, V)>, k: K) -> int {
    choose|i: int| 0 <= i < s.len() && (#[trigger] s[i]).0 == k
}

/// The value stored under `k`, meaningful only when `has_key(s, k)`.
pub open spec fn val_of<K, V>(s: Seq<(K, V)>, k: K) -> V {
    s[idx_of(s, k)].1
}

/// The mathematical map that `s` represents.
pub open spec fn as_map<K, V>(s: Seq<(K, V)>) -> Map<K, V> {
    Map::new(|k: K| has_key(s, k), |k: K| val_of(s, k))
}

/// The represented map binds `k` exactly as `has_key` and `val_of` say.
pub proof fn lemma_map_binding<K, V>(s: Seq<(K, V)>, k: K)
    ensures
        has_key(s, k) == as_map(s).dom().contains(k),
        has_key(s, k) ==> val_of(s, k) == as_map(s)[k],
{
}

/// With distinct keys, every pair of `s` is the one that `idx_of` finds.
pub proof fn lemma_idx_of_unique<K, V>(s: Seq<(K, V)>, i: int)
    requires
        unique_keys(s),
        0 <= i < s.len(),
    ensures
        idx_of(s, s[i].0) == i,
        val_of(s, s[i].0) == s[i].1,
{
    assert(has_key(s, s[i].0));
    let j = idx_of(s, s[i].0);
    if i != j {
        assert(s[i].0 != s[j].0);
    }
}

/// Appending a pair with a fresh key keeps the keys distinct and adds
/// exactly that binding to the represented map.
pub proof fn lemma_push_fresh<K, V>(s: Seq<(K, V)>, k: K, v: V)
    requires
        unique_keys(s),
        !has_key(s, k),
    ensures
        unique_keys(s.push((k, v))),
        as_map(s.push((k, v))) == as_map(s).insert(k, v),
{
    let t = s.push((k, v));
    assert forall|i: int, j: int| 0 <= i < j < t.len() implies (#[trigger] t[i]).0 != (
    #[trigger] t[j]).0 by {
        if j < s.len() {
            assert(s[i].0 != s[j].0);
        } else {
            assert(t[j] == (k, v));
            if t[i].0 == k {
                assert(has_key(s, k));
            }
        }
    }
    assert forall|x: K| #![auto] true implies {
        (has_key(t, x) <==> as_map(s).insert(k, v).dom().contains(x))
        && (has_key(t, x) ==> val_of(t, x) == as_map(s).insert(k, v)[x])
    } by {
        if x == k {
            assert(t[s.len() as int].0 == k);
            assert(has_key(t, x));
            lemma_idx_of_unique(t, s.len() as int);
        } else {
            if has_key(s, x) {
                let i = idx_of(s, x);
                assert(t[i].0 == x);
                lemma_idx_of_unique(s, i);
                lemma_idx_of_unique(t, i);
            } else {
                if has_key(t, x) {
                    let i = idx_of(t, x);
                    if i < s.len() {
                        assert(s[i].0 == x);
                    }
                }
            }
        }
    }
    assert(as_map(t) =~= as_map(s).insert(k, v));
}

/// Updating the value at position `i` in place keeps the keys distinct and
/// updates exactly that binding of the represented map.
pub proof fn lemma_update_value<K, V>(s: Seq<(K, V)>, i: int, v: V)
    requires
        unique_keys(s),
        0 <= i < s.len(),
    ensures
        unique_keys(s.update(i, (s[i].0, v))),
        as_map(s.update(i, (s[i].0, v))) == as_map(s).insert(s[i].0, v),
{
    let k = s[i].0;
    let t = s.update(i, (k, v));
    assert forall|p: int, q: int| 0 <= p < q < t.len() implies (#[trigger] t[p]).0 != (
    #[trigger] t[q]).0 by {
        assert(s[p].0 != s[q].0);
        assert(t[p].0 == s[p].0 && t[q].0 == s[q].0);
    }
    assert forall|x: K| #![auto] true implies {
        (has_key(t, x) <==> as_map(s).insert(k, v).dom().contains(x))
        && (has_key(t, x) ==> val_of(t, x) == as_map(s).insert(k, v)[x])
    } by {
        if x == k {
            assert(t[i].0 == k);
            lemma_idx_of_unique(t, i);
        } else {
            if has_key(s, x) {
                let p = idx_of(s, x);
                lemma_idx_of_unique(s, p);
                assert(t[p].0 == x);
                lemma_idx_of_unique(t, p);
            } else {
                if has_key(t, x) {
                    let p = idx_of(t, x);
                    assert(s[p].0 == t[p].0);
                }
            }
        }
    }
    assert(as_map(t) =~= as_map(s).insert(k, v));
}

/// Removing the pair at position `i` keeps the keys distinct and removes
/// exactly that binding from the represented map.
pub proof fn lemma_remove_at<K, V>(s: Seq<(K, V)>, i: int)
    requires
        unique_keys(s),
        0 <= i < s.len(),
    ensures
        unique_keys(s.remove(i)),
        as_map(s.remove(i)) == as_map(s).remove(s[i].0),
{
    let k = s[i].0;
    let t = s.remove(i);
    assert forall|p: int, q: int| 0 <= p < q < t.len() implies (#[trigger] t[p]).0 != (
    #[trigger] t[q]).0 by {
        let p0 = if p < i { p } else { p + 1 };
        let q0 = if q < i { q } else { q + 1 };
        assert(t[p] == s[p0] && t[q] == s[q0]);
        assert(s[p0].0 != s[q0].0);
    }
    assert forall|x: K| #![auto] true implies {
        (has_key(t, x) <==> as_map(s).remove(k).dom().contains(x))
        && (has_key(t, x) ==> val_of(t, x) == as_map(s).remove(k)[x])
    } by {
        if has_key(t, x) {
            let p = idx_of(t, x);
            let p0 = if p < i { p } else { p + 1 };
            assert(t[p] == s[p0]);
            lemma_idx_of_unique(t, p);
            lemma_idx_of_unique(s, p0);
            if x == k {
                assert(s[p0].0 == s[i].0 && p0 != i);
            }
            assert(has_key(s, x));
        }
        if x != k && has_key(s, x) {
            let p0 = idx_of(s, x);
            assert(p0 != i);
            let p = if p0 < i { p0 } else { p0 - 1 };
            assert(t[p] == s[p0]);
            assert(has_key(t, x));
        }
    }
    assert(as_map(t) =~= as_map(s).remove(k));
}

} // verus!
