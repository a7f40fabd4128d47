//! Stable sorting by an integer key, as the leaderboards and catalogue use it.
use vstd::prelude::*;

verus! {

/// Puts `x` into `s` just before the first element whose key is greater
/// than the key of `x`: after every element with a key at most its own.
pub open spec fn insert_by_key<T>(s: Seq<T>, x: T, key: spec_fn(T) -> int) -> Seq<T>
    decreases s.len(),
{
    if s.len() == 0 {
        seq![x]
    } else if key(s[0]) > key(x) {
        seq![x] + s
    } else {
        seq![s[0]] + insert_by_key(s.drop_first(), x, key)
    }
}

/// The stable sort of `s` by ascending key: elements with equal keys keep
/// the order they had in `s`.
pub open spec fn sort_by_key<T>(s: Seq<T>, key: spec_fn(T) -> int) -> Seq<T>
    decreases s.len(),
{
    if s.len() == 0 {
        s
    } else {
        insert_by_key(sort_by_key(s.drop_last(), key), s.last(), key)
    }
}

/// Keys never decrease along `s`.
pub open spec fn sorted_by_key<T>(s: Seq<T>, key: spec_fn(T) -> int) -> bool {
    forall|i: int, j: int| 0 <= i < j < s.len() ==> key(#[trigger] s[i]) <= key(#[trigger] s[j])
}

proof fn lemma_insert_at<T>(s: Seq<T>, x: T, key: spec_fn(T) -> int, j: int)
    requires
        0 <= j <= s.len(),
        forall|i: int| 0 <= i < j ==> key(#[trigger] s[i]) <= key(x),
        j < s.len() ==> key(s[j]) > key(x),
    ensures
        insert_by_key(s, x, key) == s.take(j) + seq![x] + s.skip(j),
    decreases j,
{
    if j == 0 {
        assert(s.take(0) + seq![x] + s.skip(0) =~= seq![x] + s);
    } else {
        let t = s.drop_first();
        assert forall|i: int| 0 <= i < j - 1 implies key(#[trigger] t[i]) <= key(x) by {
            assert(t[i] == s[i + 1]);
        }
        lemma_insert_at(t, x, key, j - 1);
        assert(seq![s[0]] + (t.take(j - 1) + seq![x] + t.skip(j - 1)) =~= s.take(j) + seq![x]
            + s.skip(j));
    }
}

proof fn lemma_insert_props<T>(s: Seq<T>, x: T, key: spec_fn(T) -> int)
    ensures
        insert_by_key(s, x, key).len() == s.len() + 1,
        insert_by_key(s, x, key).to_multiset() == s.to_multiset().insert(x),
        sorted_by_key(s, key) ==> sorted_by_key(insert_by_key(s, x, key), key),
        forall|y: T| #[trigger] insert_by_key(s, x, key).contains(y) <==> (s.contains(y) || y == x),
    decreases s.len(),
{
    broadcast use vstd::seq_lib::group_to_multiset_ensures;
    let r = insert_by_key(s, x, key);
    if s.len() == 0 {
        assert(r =~= seq![x]);
        assert(seq![x].to_multiset() =~= s.to_multiset().insert(x)) by {
            assert(s.to_multiset() =~= vstd::multiset::Multiset::empty());
            assert(seq![x] =~= Seq::<T>::empty().push(x));
        }
        assert forall|y: T| r.contains(y) <==> (s.contains(y) || y == x) by {
            if y == x {
                assert(r[0] == x);
            }
        }
    } else if key(s[0]) > key(x) {
        assert((seq![x] + s).to_multiset() =~= s.to_multiset().insert(x)) by {
            vstd::seq_lib::lemma_multiset_commutative(seq![x], s);
            assert(seq![x] =~= Seq::<T>::empty().push(x));
        }
        assert forall|y: T| r.contains(y) <==> (s.contains(y) || y == x) by {
            if y == x {
                assert(r[0] == x);
            }
            if s.contains(y) {
                let k = choose|k: int| 0 <= k < s.len() && s[k] == y;
                assert(r[k + 1] == y);
            }
            if r.contains(y) && y != x {
                let k = choose|k: int| 0 <= k < r.len() && r[k] == y;
                assert(s[k - 1] == y);
            }
        }
        if sorted_by_key(s, key) {
            assert forall|i: int, j: int| 0 <= i < j < r.len() implies key(#[trigger] r[i]) <= key(
                #[trigger] r[j],
            ) by {
                if i == 0 {
                    assert(key(s[0]) <= key(s[j - 1]) || j - 1 == 0);
                } else {
                    assert(r[i] == s[i - 1] && r[j] == s[j - 1]);
                }
            }
        }
    } else {
        let t = s.drop_first();
        lemma_insert_props(t, x, key);
        let rt = insert_by_key(t, x, key);
        assert(s =~= seq![s[0]] + t);
        assert((seq![s[0]] + rt).to_multiset() =~= s.to_multiset().insert(x)) by {
            vstd::seq_lib::lemma_multiset_commutative(seq![s[0]], rt);
            vstd::seq_lib::lemma_multiset_commutative(seq![s[0]], t);
        }
        assert forall|y: T| r.contains(y) <==> (s.contains(y) || y == x) by {
            if r.contains(y) {
                let k = choose|k: int| 0 <= k < r.len() && r[k] == y;
                if k > 0 {
                    assert(rt[k - 1] == y);
                    assert(rt.contains(y));
                    if y != x {
                        assert(t.contains(y));
                        let m = choose|m: int| 0 <= m < t.len() && t[m] == y;
                        assert(s[m + 1] == y);
                    }
                } else {
                    assert(s[0] == y);
                }
            }
            if s.contains(y) {
                let k = choose|k: int| 0 <= k < s.len() && s[k] == y;
                if k > 0 {
                    assert(t[k - 1] == y);
                    assert(t.contains(y));
                    assert(rt.contains(y));
                    let m = choose|m: int| 0 <= m < rt.len() && rt[m] == y;
                    assert(r[m + 1] == y);
                } else {
                    assert(r[0] == y);
                }
            }
            if y == x {
                assert(insert_by_key(t, x, key).contains(x));
                let m = choose|m: int| 0 <= m < rt.len() && rt[m] == x;
                assert(r[m + 1] == x);
            }
        }
        if sorted_by_key(s, key) {
            assert(sorted_by_key(t, key)) by {
                assert forall|i: int, j: int| 0 <= i < j < t.len() implies key(#[trigger] t[i])
                    <= key(#[trigger] t[j]) by {
                    assert(t[i] == s[i + 1] && t[j] == s[j + 1]);
                }
            }
            assert forall|i: int, j: int| 0 <= i < j < r.len() implies key(#[trigger] r[i]) <= key(
                #[trigger] r[j],
            ) by {
                if i == 0 {
                    assert(rt.contains(r[j])) by {
                        assert(rt[j - 1] == r[j]);
                    }
                    if r[j] == x {
                    } else {
                        assert(t.contains(r[j]));
                        let k = choose|k: int| 0 <= k < t.len() && t[k] == r[j];
                        assert(s[k + 1] == t[k]);
                    }
                } else {
                    assert(r[i] == rt[i - 1] && r[j] == rt[j - 1]);
                }
            }
        }
    }
}

/// The stable sort holds the same elements as its input, in ascending key
/// order.
pub proof fn lemma_sort_props<T>(s: Seq<T>, key: spec_fn(T) -> int)
    ensures
        sort_by_key(s, key).len() == s.len(),
        sort_by_key(s, key).to_multiset() == s.to_multiset(),
        sorted_by_key(sort_by_key(s, key), key),
        forall|y: T| #[trigger] sort_by_key(s, key).contains(y) <==> s.contains(y),
    decreases s.len(),
{
    broadcast use vstd::seq_lib::group_to_multiset_ensures;
    if s.len() > 0 {
        lemma_sort_props(s.drop_last(), key);
        lemma_insert_props(sort_by_key(s.drop_last(), key), s.last(), key);
        assert(s =~= s.drop_last().push(s.last()));
        assert forall|y: T| s.contains(y) <==> (s.drop_last().contains(y) || y == s.last()) by {
            if s.contains(y) && y != s.last() {
                let k = choose|k: int| 0 <= k < s.len() && s[k] == y;
                assert(s.drop_last()[k] == y);
            }
            if s.drop_last().contains(y) {
                let k = choose|k: int| 0 <= k < s.len() - 1 && s.drop_last()[k] == y;
                assert(s[k] == y);
            }
        }
    } else {
        assert(s.to_multiset() =~= vstd::multiset::Multiset::empty());
    }
}

proof fn lemma_insert_map<T, U>(
    s: Seq<T>,
    x: T,
    f: spec_fn(T) -> U,
    kt: spec_fn(T) -> int,
    ku: spec_fn(U) -> int,
)
    requires
        forall|y: T| #[trigger] ku(f(y)) == kt(y),
    ensures
        insert_by_key(s.map_values(f), f(x), ku) == insert_by_key(s, x, kt).map_values(f),
    decreases s.len(),
{
    let m = s.map_values(f);
    if s.len() == 0 {
        assert(insert_by_key(m, f(x), ku) =~= insert_by_key(s, x, kt).map_values(f));
    } else {
        assert(m[0] == f(s[0]));
        assert(ku(m[0]) == kt(s[0]));
        assert(ku(f(x)) == kt(x));
        if kt(s[0]) > kt(x) {
            assert(insert_by_key(m, f(x), ku) =~= insert_by_key(s, x, kt).map_values(f));
        } else {
            lemma_insert_map(s.drop_first(), x, f, kt, ku);
            assert(m.drop_first() =~= s.drop_first().map_values(f));
            assert(insert_by_key(m, f(x), ku) =~= insert_by_key(s, x, kt).map_values(f));
        }
    }
}

/// Sorting commutes with a map that keeps the keys: sorting the images by
/// their key gives the images of the sorted elements.
pub proof fn lemma_sort_map<T, U>(
    s: Seq<T>,
    f: spec_fn(T) -> U,
    kt: spec_fn(T) -> int,
    ku: spec_fn(U) -> int,
)
    requires
        forall|y: T| #[trigger] ku(f(y)) == kt(y),
    ensures
        sort_by_key(s.map_values(f), ku) == sort_by_key(s, kt).map_values(f),
    decreases s.len(),
{
    let m = s.map_values(f);
    if s.len() == 0 {
        assert(sort_by_key(m, ku) =~= sort_by_key(s, kt).map_values(f));
    } else {
        lemma_sort_map(s.drop_last(), f, kt, ku);
        assert(m.drop_last() =~= s.drop_last().map_values(f));
        assert(m.last() == f(s.last()));
        lemma_insert_map(sort_by_key(s.drop_last(), kt), s.last(), f, kt, ku);
    }
}

/// Sorts `v` stably by the key that `key` computes, which agrees with the
/// ghost `spec_key`.
pub fn sort_stable_by_key<T, F: Fn(&T) -> i128>(
    v: Vec<T>,
    key: F,
    Ghost(spec_key): Ghost<spec_fn(T) -> int>,
) -> (sorted: Vec<T>)
    requires
        forall|x: &T| #[trigger] key.requires((x,)),
        forall|x: &T, r: i128| key.ensures((x,), r) ==> r == spec_key(*x),
    ensures
        sorted@ == sort_by_key(v@, spec_key),
{
    let ghost orig = v@;
    let n = v.len();
    let mut input = v;
    let mut out: Vec<T> = Vec::new();
    let mut done: usize = 0;
    assert(orig.take(0) =~= Seq::<T>::empty());
    assert(orig.skip(0) =~= orig);
    while done < n
        invariant
            n == orig.len(),
            done <= n,
            input@ == orig.skip(done as int),
            out@ == sort_by_key(orig.take(done as int), spec_key),
            out@.len() == done,
            forall|x: &T| #[trigger] key.requires((x,)),
            forall|x: &T, r: i128| key.ensures((x,), r) ==> r == spec_key(*x),
        decreases n - done,
    {
        let x = input.remove(0);
        let kx = key(&x);
        let mut j: usize = 0;
        loop
            invariant
                j <= out@.len(),
                kx == spec_key(x),
                forall|i: int| 0 <= i < j ==> spec_key(#[trigger] out@[i]) <= spec_key(x),
                forall|x: &T| #[trigger] key.requires((x,)),
                forall|x: &T, r: i128| key.ensures((x,), r) ==> r == spec_key(*x),
            ensures
                j <= out@.len(),
                forall|i: int| 0 <= i < j ==> spec_key(#[trigger] out@[i]) <= spec_key(x),
                j < out@.len() ==> spec_key(out@[j as int]) > spec_key(x),
            decreases out@.len() - j,
        {
            if j >= out.len() {
                break;
            }
            let kj = key(&out[j]);
            if kj > kx {
                break;
            }
            j = j + 1;
        }
        proof {
            lemma_insert_at(out@, x, spec_key, j as int);
            let t = orig.take(done + 1);
            assert(t.drop_last() =~= orig.take(done as int));
            assert(t.last() == x);
            assert(input@ =~= orig.skip(done + 1));
        }
        out.insert(j, x);
        done = done + 1;
        proof {
            assert(out@ =~= sort_by_key(orig.take(done as int), spec_key));
        }
    }
    assert(orig.take(n as int) =~= orig);
    out
}

} // verus!
