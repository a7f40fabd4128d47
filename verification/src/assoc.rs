//! Tables kept as vectors of entries with distinct keys, seen as maps.
use vstd::prelude::*;

verus! {

/// No two entries of `s` have the same key.
pub open spec fn distinct_keys<T, K>(s: Seq<T>, key: spec_fn(T) -> K) -> bool {
    forall|i: int, j: int| 0 <= i < j < s.len() ==> key(#[trigger] s[i]) != key(#[trigger] s[j])
}

/// The map from the key of each entry of `s` to its value; a later entry
/// wins over an earlier one with the same key.
pub open spec fn keyed_map<T, K, V>(s: Seq<T>, key: spec_fn(T) -> K, val: spec_fn(T) -> V) -> Map<K, V>
    decreases s.len(),
{
    if s.len() == 0 {
        Map::empty()
    } else {
        keyed_map(s.drop_last(), key, val).insert(key(s.last()), val(s.last()))
    }
}

/// The keys of `s` are those of its entries, and with distinct keys each
/// entry's key maps to its value.
pub proof fn lemma_keyed_map<T, K, V>(s: Seq<T>, key: spec_fn(T) -> K, val: spec_fn(T) -> V)
    ensures
        forall|k: K|
            #[trigger] keyed_map(s, key, val).dom().contains(k) <==> exists|i: int|
                0 <= i < s.len() && key(#[trigger] s[i]) == k,
        distinct_keys(s, key) ==> forall|i: int|
            0 <= i < s.len() ==> #[trigger] keyed_map(s, key, val)[key(s[i])] == val(s[i]),
        keyed_map(s, key, val).dom().finite(),
    decreases s.len(),
{
    if s.len() > 0 {
        let t = s.drop_last();
        lemma_keyed_map(t, key, val);
        assert forall|k: K| #[trigger] keyed_map(s, key, val).dom().contains(k) <==> exists|i: int|
            0 <= i < s.len() && key(#[trigger] s[i]) == k by {
            if keyed_map(s, key, val).dom().contains(k) {
                if k == key(s.last()) {
                    assert(key(s[s.len() - 1]) == k);
                } else {
                    assert(keyed_map(t, key, val).dom().contains(k));
                    let i = choose|i: int| 0 <= i < t.len() && key(#[trigger] t[i]) == k;
                    assert(s[i] == t[i]);
                }
            }
            if exists|i: int| 0 <= i < s.len() && key(#[trigger] s[i]) == k {
                let i = choose|i: int| 0 <= i < s.len() && key(#[trigger] s[i]) == k;
                if i < s.len() - 1 {
                    assert(t[i] == s[i]);
                    assert(keyed_map(t, key, val).dom().contains(k));
                }
            }
        }
        if distinct_keys(s, key) {
            assert(distinct_keys(t, key)) by {
                assert forall|i: int, j: int| 0 <= i < j < t.len() implies key(#[trigger] t[i]) != key(
                    #[trigger] t[j],
                ) by {
                    assert(t[i] == s[i] && t[j] == s[j]);
                }
            }
            assert forall|i: int| 0 <= i < s.len() implies #[trigger] keyed_map(s, key, val)[key(s[i])]
                == val(s[i]) by {
                if i < s.len() - 1 {
                    assert(t[i] == s[i]);
                    assert(key(s[i]) != key(s[s.len() - 1]));
                }
            }
        }
    }
}

/// Appending an entry with a new key adds it to the map.
pub proof fn lemma_keyed_map_push<T, K, V>(s: Seq<T>, x: T, key: spec_fn(T) -> K, val: spec_fn(T) -> V)
    ensures
        keyed_map(s.push(x), key, val) == keyed_map(s, key, val).insert(key(x), val(x)),
        distinct_keys(s, key) && !keyed_map(s, key, val).dom().contains(key(x)) ==> distinct_keys(
            s.push(x),
            key,
        ),
{
    let t = s.push(x);
    assert(t.drop_last() =~= s);
    lemma_keyed_map(s, key, val);
    if distinct_keys(s, key) && !keyed_map(s, key, val).dom().contains(key(x)) {
        assert forall|i: int, j: int| 0 <= i < j < t.len() implies key(#[trigger] t[i]) != key(
            #[trigger] t[j],
        ) by {
            if j == s.len() {
                assert(t[i] == s[i]);
                if key(s[i]) == key(x) {
                    assert(keyed_map(s, key, val).dom().contains(key(x)));
                }
            }
        }
    }
}

/// Replacing an entry by one with the same key updates its value.
pub proof fn lemma_keyed_map_update<T, K, V>(
    s: Seq<T>,
    i: int,
    x: T,
    key: spec_fn(T) -> K,
    val: spec_fn(T) -> V,
)
    requires
        distinct_keys(s, key),
        0 <= i < s.len(),
        key(x) == key(s[i]),
    ensures
        keyed_map(s.update(i, x), key, val) == keyed_map(s, key, val).insert(key(x), val(x)),
        distinct_keys(s.update(i, x), key),
{
    let t = s.update(i, x);
    assert(distinct_keys(t, key)) by {
        assert forall|a: int, b: int| 0 <= a < b < t.len() implies key(#[trigger] t[a]) != key(
            #[trigger] t[b],
        ) by {
            assert(key(t[a]) == key(s[a]));
            assert(key(t[b]) == key(s[b]));
        }
    }
    lemma_keyed_map(s, key, val);
    lemma_keyed_map(t, key, val);
    let m1 = keyed_map(t, key, val);
    let m2 = keyed_map(s, key, val).insert(key(x), val(x));
    assert forall|k: K| m1.dom().contains(k) <==> m2.dom().contains(k) by {
        if m1.dom().contains(k) {
            let a = choose|a: int| 0 <= a < t.len() && key(#[trigger] t[a]) == k;
            if a != i {
                assert(t[a] == s[a]);
                assert(key(s[a]) == k);
                assert(keyed_map(s, key, val).dom().contains(k));
            }
        }
        if m2.dom().contains(k) {
            if k == key(x) {
                assert(t[i] == x);
                assert(key(t[i]) == k);
            } else {
                let a = choose|a: int| 0 <= a < s.len() && key(#[trigger] s[a]) == k;
                assert(t[a] == s[a]);
                assert(key(t[a]) == k);
            }
        }
    }
    assert forall|k: K| m1.dom().contains(k) implies m1[k] == m2[k] by {
        let a = choose|a: int| 0 <= a < t.len() && key(#[trigger] t[a]) == k;
        if a != i {
            assert(t[a] == s[a]);
        }
    }
    assert(m1 =~= m2);
}

/// Removing an entry removes its key from the map.
pub proof fn lemma_keyed_map_remove<T, K, V>(s: Seq<T>, i: int, key: spec_fn(T) -> K, val: spec_fn(T) -> V)
    requires
        distinct_keys(s, key),
        0 <= i < s.len(),
    ensures
        keyed_map(s.remove(i), key, val) == keyed_map(s, key, val).remove(key(s[i])),
        distinct_keys(s.remove(i), key),
{
    let t = s.remove(i);
    assert(distinct_keys(t, key)) by {
        assert forall|a: int, b: int| 0 <= a < b < t.len() implies key(#[trigger] t[a]) != key(
            #[trigger] t[b],
        ) by {
            let a2 = if a < i {
                a
            } else {
                a + 1
            };
            let b2 = if b < i {
                b
            } else {
                b + 1
            };
            assert(t[a] == s[a2] && t[b] == s[b2]);
        }
    }
    lemma_keyed_map(s, key, val);
    lemma_keyed_map(t, key, val);
    let m1 = keyed_map(t, key, val);
    let m2 = keyed_map(s, key, val).remove(key(s[i]));
    assert forall|k: K| m1.dom().contains(k) <==> m2.dom().contains(k) by {
        if m1.dom().contains(k) {
            let a = choose|a: int| 0 <= a < t.len() && key(#[trigger] t[a]) == k;
            let a2 = if a < i {
                a
            } else {
                a + 1
            };
            assert(t[a] == s[a2]);
        }
        if m2.dom().contains(k) {
            let a = choose|a: int| 0 <= a < s.len() && key(#[trigger] s[a]) == k;
            if a < i {
                assert(t[a] == s[a]);
            } else {
                assert(a != i);
                assert(t[a - 1] == s[a]);
            }
        }
    }
    assert forall|k: K| m1.dom().contains(k) implies m1[k] == m2[k] by {
        let a = choose|a: int| 0 <= a < t.len() && key(#[trigger] t[a]) == k;
        let a2 = if a < i {
            a
        } else {
            a + 1
        };
        assert(t[a] == s[a2]);
    }
    assert(m1 =~= m2);
}

} // verus!
