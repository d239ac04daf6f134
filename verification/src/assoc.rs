//! Sequences of key-value pairs with distinct keys, read as finite maps.

use vstd::prelude::*;

verus! {

/// No key occurs at two places.
pub open spec fn distinct_keys<K, V>(s: Seq<(K, V)>) -> bool {
    forall|i: int, j: int| 0 <= i < j < s.len() ==> (#[trigger] s[i]).0 != (#[trigger] s[j]).0
}

/// `i` is a place where `k` is kept.
pub open spec fn keeps<K, V>(s: Seq<(K, V)>, k: K, i: int) -> bool {
    0 <= i < s.len() && s[i].0 == k
}

/// Whether `k` is kept somewhere in `s`.
pub open spec fn has_key<K, V>(s: Seq<(K, V)>, k: K) -> bool {
    exists|i: int| keeps(s, k, i)
}

/// A place where `k` is kept: the place, where the keys are distinct.
pub open spec fn position<K, V>(s: Seq<(K, V)>, k: K) -> int {
    choose|i: int| keeps(s, k, i)
}

/// The map that sends each key of `s` to the value kept beside it.
pub open spec fn as_map<K, V>(s: Seq<(K, V)>) -> Map<K, V> {
    Map::new(|k: K| has_key(s, k), |k: K| s[position(s, k)].1)
}

/// With distinct keys, every pair of the sequence is an entry of the map.
pub proof fn lemma_as_map_at<K, V>(s: Seq<(K, V)>, i: int)
    requires
        distinct_keys(s),
        0 <= i < s.len(),
    ensures
        as_map(s).contains_key(s[i].0),
        as_map(s)[s[i].0] == s[i].1,
        position(s, s[i].0) == i,
{
    assert(keeps(s, s[i].0, i));
    let p = position(s, s[i].0);
    assert(keeps(s, s[i].0, p));
    if p < i {
        assert(s[p].0 != s[i].0);
    } else if i < p {
        assert(s[i].0 != s[p].0);
    }
}

/// Every entry of the map is a pair of the sequence.
pub proof fn lemma_as_map_entry<K, V>(s: Seq<(K, V)>, k: K)
    requires
        as_map(s).contains_key(k),
    ensures
        keeps(s, k, position(s, k)),
        as_map(s)[k] == s[position(s, k)].1,
{
}

/// No pairs, no entries.
pub proof fn lemma_as_map_empty<K, V>()
    ensures
        as_map(Seq::<(K, V)>::empty()) == Map::<K, V>::empty(),
        distinct_keys(Seq::<(K, V)>::empty()),
{
    let s = Seq::<(K, V)>::empty();
    assert forall|k: K| !has_key(s, k) by {
        if has_key(s, k) {
            let i = choose|i: int| keeps(s, k, i);
            assert(keeps(s, k, i));
        }
    }
    assert(as_map(s) =~= Map::<K, V>::empty());
}

/// Putting a new key anywhere into the sequence inserts it into the map.
pub proof fn lemma_as_map_insert<K, V>(s: Seq<(K, V)>, p: int, k: K, v: V)
    requires
        distinct_keys(s),
        !has_key(s, k),
        0 <= p <= s.len(),
    ensures
        distinct_keys(s.insert(p, (k, v))),
        as_map(s.insert(p, (k, v))) == as_map(s).insert(k, v),
{
    let t = s.insert(p, (k, v));
    assert forall|i: int, j: int| 0 <= i < j < t.len() implies (#[trigger] t[i]).0 != (#[trigger] t[j]).0 by {
        let oi = if i < p { i } else { i - 1 };
        let oj = if j < p { j } else { j - 1 };
        if i == p {
            assert(keeps(s, s[oj].0, oj));
        } else if j == p {
            assert(keeps(s, s[oi].0, oi));
        } else {
            assert(s[oi].0 != s[oj].0);
        }
    }
    assert forall|x: K| #[trigger] has_key(t, x) == (has_key(s, x) || x == k) by {
        if has_key(t, x) {
            let i = choose|i: int| keeps(t, x, i);
            if i != p {
                let oi = if i < p { i } else { i - 1 };
                assert(keeps(s, x, oi));
            }
        }
        if has_key(s, x) {
            let i = choose|i: int| keeps(s, x, i);
            let ni = if i < p { i } else { i + 1 };
            assert(keeps(t, x, ni));
        }
        if x == k {
            assert(keeps(t, x, p));
        }
    }
    assert forall|x: K| has_key(t, x) implies #[trigger] as_map(t)[x] == as_map(s).insert(k, v)[x] by {
        if x == k {
            assert(t[p].0 == k);
            lemma_as_map_at(t, p);
        } else {
            let i = choose|i: int| keeps(s, x, i);
            let ni = if i < p { i } else { i + 1 };
            lemma_as_map_at(s, i);
            assert(t[ni] == s[i]);
            lemma_as_map_at(t, ni);
        }
    }
    assert(as_map(t) =~= as_map(s).insert(k, v));
}

/// Replacing the value kept beside a key updates the map at that key.
pub proof fn lemma_as_map_update<K, V>(s: Seq<(K, V)>, p: int, v: V)
    requires
        distinct_keys(s),
        0 <= p < s.len(),
    ensures
        distinct_keys(s.update(p, (s[p].0, v))),
        as_map(s.update(p, (s[p].0, v))) == as_map(s).insert(s[p].0, v),
{
    let k = s[p].0;
    let t = s.update(p, (k, v));
    assert forall|i: int, j: int| 0 <= i < j < t.len() implies (#[trigger] t[i]).0 != (#[trigger] t[j]).0 by {
        assert(s[i].0 != s[j].0);
    }
    assert forall|x: K| #[trigger] has_key(t, x) == (has_key(s, x) || x == k) by {
        if has_key(t, x) {
            let i = choose|i: int| keeps(t, x, i);
            assert(keeps(s, x, i));
        }
        if has_key(s, x) {
            let i = choose|i: int| keeps(s, x, i);
            assert(keeps(t, x, i));
        }
        if x == k {
            assert(keeps(t, x, p));
        }
    }
    assert forall|x: K| has_key(t, x) implies #[trigger] as_map(t)[x] == as_map(s).insert(k, v)[x] by {
        let i = choose|i: int| keeps(t, x, i);
        lemma_as_map_at(t, i);
        if i != p {
            assert(s[i].0 != s[p].0 || i == p) by {
                if i < p {
                    assert(s[i].0 != s[p].0);
                } else {
                    assert(s[p].0 != s[i].0);
                }
            }
            lemma_as_map_at(s, i);
        }
    }
    assert(as_map(t) =~= as_map(s).insert(k, v));
}

/// Taking a pair out of the sequence removes its key from the map.
pub proof fn lemma_as_map_remove<K, V>(s: Seq<(K, V)>, p: int)
    requires
        distinct_keys(s),
        0 <= p < s.len(),
    ensures
        distinct_keys(s.remove(p)),
        !has_key(s.remove(p), s[p].0),
        as_map(s.remove(p)) == as_map(s).remove(s[p].0),
{
    let k = s[p].0;
    let t = s.remove(p);
    assert forall|i: int, j: int| 0 <= i < j < t.len() implies (#[trigger] t[i]).0 != (#[trigger] t[j]).0 by {
        let oi = if i < p { i } else { i + 1 };
        let oj = if j < p { j } else { j + 1 };
        assert(s[oi].0 != s[oj].0);
    }
    assert forall|x: K| #[trigger] has_key(t, x) == (has_key(s, x) && x != k) by {
        if has_key(t, x) {
            let i = choose|i: int| keeps(t, x, i);
            let oi = if i < p { i } else { i + 1 };
            assert(keeps(s, x, oi));
            if oi < p {
                assert(s[oi].0 != s[p].0);
            } else {
                assert(s[p].0 != s[oi].0);
            }
        }
        if has_key(s, x) && x != k {
            let i = choose|i: int| keeps(s, x, i);
            let ni = if i < p { i } else { i - 1 };
            assert(keeps(t, x, ni));
        }
    }
    assert forall|x: K| has_key(t, x) implies #[trigger] as_map(t)[x] == as_map(s).remove(k)[x] by {
        let i = choose|i: int| keeps(t, x, i);
        let oi = if i < p { i } else { i + 1 };
        lemma_as_map_at(t, i);
        assert(t[i] == s[oi]);
        lemma_as_map_at(s, oi);
    }
    assert(as_map(t) =~= as_map(s).remove(k));
}

} // verus!
