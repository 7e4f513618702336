//! Maps kept as two parallel sequences of distinct keys and their values,
//! the model of the library's small string-keyed tables.

use vstd::prelude::*;

verus! {

/// No key occurs twice.
pub open spec fn spec_unique_keys(keys: Seq<Seq<char>>) -> bool {
    forall|i: int, j: int| 0 <= i < keys.len() && 0 <= j < keys.len() && i != j ==> keys[i] != keys[j]
}

/// The position of `k` among `keys` (meaningful when `k` occurs).
pub open spec fn spec_key_index(keys: Seq<Seq<char>>, k: Seq<char>) -> int {
    choose|i: int| 0 <= i < keys.len() && keys[i] == k
}

/// The map from each key to the value at its position.
pub open spec fn spec_keyed_map<V>(keys: Seq<Seq<char>>, vals: Seq<V>) -> Map<Seq<char>, V> {
    Map::new(|k: Seq<char>| keys.contains(k), |k: Seq<char>| vals[spec_key_index(keys, k)])
}

/// The value of the key at position `i` is the value at `i`.
pub proof fn lemma_keyed_index<V>(keys: Seq<Seq<char>>, vals: Seq<V>, i: int)
    requires
        spec_unique_keys(keys),
        keys.len() == vals.len(),
        0 <= i < keys.len(),
    ensures
        spec_keyed_map(keys, vals).contains_key(keys[i]),
        spec_keyed_map(keys, vals)[keys[i]] == vals[i],
{
    assert(keys.contains(keys[i]));
    let j = spec_key_index(keys, keys[i]);
    assert(0 <= j < keys.len() && keys[j] == keys[i]);
}

/// Appending a new key adds it to the map.
pub proof fn lemma_keyed_push<V>(keys: Seq<Seq<char>>, vals: Seq<V>, k: Seq<char>, v: V)
    requires
        spec_unique_keys(keys),
        keys.len() == vals.len(),
        !keys.contains(k),
    ensures
        spec_unique_keys(keys.push(k)),
        spec_keyed_map(keys.push(k), vals.push(v)) == spec_keyed_map(keys, vals).insert(k, v),
{
    let nk = keys.push(k);
    let nv = vals.push(v);
    assert(spec_unique_keys(nk)) by {
        assert forall|i: int, j: int| 0 <= i < nk.len() && 0 <= j < nk.len() && i != j implies nk[i] != nk[j] by {
            if i == keys.len() {
                assert(nk[j] == keys[j]);
                assert(keys.contains(keys[j]));
            } else if j == keys.len() {
                assert(nk[i] == keys[i]);
                assert(keys.contains(keys[i]));
            }
        }
    }
    let m1 = spec_keyed_map(nk, nv);
    let m2 = spec_keyed_map(keys, vals).insert(k, v);
    assert forall|x: Seq<char>| #[trigger] m1.contains_key(x) <==> m2.contains_key(x) by {
        if nk.contains(x) {
            let i = choose|i: int| 0 <= i < nk.len() && nk[i] == x;
            if i < keys.len() {
                assert(keys[i] == x);
            }
        }
        if keys.contains(x) {
            let i = choose|i: int| 0 <= i < keys.len() && keys[i] == x;
            assert(nk[i] == x);
        }
        if x == k {
            assert(nk[keys.len() as int] == x);
        }
    }
    assert forall|x: Seq<char>| #[trigger] m1.contains_key(x) implies m1[x] == m2[x] by {
        let i = choose|i: int| 0 <= i < nk.len() && nk[i] == x;
        lemma_keyed_index(nk, nv, i);
        if i < keys.len() {
            assert(nk[i] == keys[i]);
            lemma_keyed_index(keys, vals, i);
        }
    }
    assert(m1 =~= m2);
}

/// Replacing the value at position `i` rebinds that key.
pub proof fn lemma_keyed_update<V>(keys: Seq<Seq<char>>, vals: Seq<V>, i: int, v: V)
    requires
        spec_unique_keys(keys),
        keys.len() == vals.len(),
        0 <= i < keys.len(),
    ensures
        spec_keyed_map(keys, vals.update(i, v)) == spec_keyed_map(keys, vals).insert(keys[i], v),
{
    let nv = vals.update(i, v);
    let m1 = spec_keyed_map(keys, nv);
    let m2 = spec_keyed_map(keys, vals).insert(keys[i], v);
    assert(keys.contains(keys[i]));
    assert forall|x: Seq<char>| #[trigger] m1.contains_key(x) implies m1[x] == m2[x] by {
        let j = choose|j: int| 0 <= j < keys.len() && keys[j] == x;
        lemma_keyed_index(keys, nv, j);
        lemma_keyed_index(keys, vals, j);
    }
    assert(m1 =~= m2);
}

/// Removing the entry at position `i` removes its key.
pub proof fn lemma_keyed_remove<V>(keys: Seq<Seq<char>>, vals: Seq<V>, i: int)
    requires
        spec_unique_keys(keys),
        keys.len() == vals.len(),
        0 <= i < keys.len(),
    ensures
        spec_unique_keys(keys.remove(i)),
        spec_keyed_map(keys.remove(i), vals.remove(i)) == spec_keyed_map(keys, vals).remove(keys[i]),
{
    let nk = keys.remove(i);
    let nv = vals.remove(i);
    assert forall|a: int| 0 <= a < nk.len() implies nk[a] == keys[if a < i { a } else { a + 1 }] && nv[a]
        == vals[if a < i { a } else { a + 1 }] by {
    }
    assert(spec_unique_keys(nk)) by {
        assert forall|p: int, q: int| 0 <= p < nk.len() && 0 <= q < nk.len() && p != q implies nk[p] != nk[q] by {
            let pp = if p < i { p } else { p + 1 };
            let qq = if q < i { q } else { q + 1 };
            assert(nk[p] == keys[pp] && nk[q] == keys[qq]);
        }
    }
    let m1 = spec_keyed_map(nk, nv);
    let m2 = spec_keyed_map(keys, vals).remove(keys[i]);
    assert forall|x: Seq<char>| #[trigger] m1.contains_key(x) <==> m2.contains_key(x) by {
        if nk.contains(x) {
            let a = choose|a: int| 0 <= a < nk.len() && nk[a] == x;
            let aa = if a < i { a } else { a + 1 };
            assert(keys[aa] == x);
            assert(keys.contains(x));
        }
        if keys.contains(x) && x != keys[i] {
            let b = choose|b: int| 0 <= b < keys.len() && keys[b] == x;
            assert(b != i);
            let bb = if b < i { b } else { b - 1 };
            assert(nk[bb] == x);
        }
    }
    assert forall|x: Seq<char>| #[trigger] m1.contains_key(x) implies m1[x] == m2[x] by {
        let a = choose|a: int| 0 <= a < nk.len() && nk[a] == x;
        let aa = if a < i { a } else { a + 1 };
        lemma_keyed_index(nk, nv, a);
        lemma_keyed_index(keys, vals, aa);
    }
    assert(m1 =~= m2);
}

/// The empty map.
pub proof fn lemma_keyed_empty<V>(keys: Seq<Seq<char>>, vals: Seq<V>)
    requires
        keys.len() == 0,
    ensures
        spec_unique_keys(keys),
        spec_keyed_map(keys, vals) == Map::<Seq<char>, V>::empty(),
{
    assert(spec_keyed_map(keys, vals) =~= Map::<Seq<char>, V>::empty());
}

} // verus!
