//! Keyed entries held in a list, read as the map they stand for.
//!
//! A table keeps its entries in a `Vec` whose keys are pairwise distinct. The
//! lemmas here say what the three ways of changing such a list (appending,
//! overwriting in place, removing) do to the map.

use vstd::prelude::*;

verus! {

/// The map that sends `keys[i]` to `vals[i]`.
pub open spec fn table<K, V>(keys: Seq<K>, vals: Seq<V>) -> Map<K, V> {
    Map::new(|k: K| keys.contains(k), |k: K| vals[keys.index_of(k)])
}

/// With distinct keys, the entry at position `i` is what the map holds under
/// `keys[i]`.
pub proof fn lemma_table_entry<K, V>(keys: Seq<K>, vals: Seq<V>, i: int)
    requires
        keys.no_duplicates(),
        keys.len() == vals.len(),
        0 <= i < keys.len(),
    ensures
        table(keys, vals).dom().contains(keys[i]),
        table(keys, vals)[keys[i]] == vals[i],
        keys.index_of(keys[i]) == i,
{
    assert(keys.contains(keys[i]));
}

/// Every key of the map sits at some position of the list.
pub proof fn lemma_table_position<K, V>(keys: Seq<K>, vals: Seq<V>, k: K) -> (i: int)
    requires
        keys.len() == vals.len(),
        table(keys, vals).dom().contains(k),
    ensures
        0 <= i < keys.len(),
        keys[i] == k,
        table(keys, vals)[k] == vals[i],
{
    keys.index_of(k)
}

/// Appending an entry under a new key inserts it into the map.
pub proof fn lemma_table_push<K, V>(keys: Seq<K>, vals: Seq<V>, k: K, v: V)
    requires
        keys.no_duplicates(),
        keys.len() == vals.len(),
        !keys.contains(k),
    ensures
        keys.push(k).no_duplicates(),
        table(keys.push(k), vals.push(v)) == table(keys, vals).insert(k, v),
{
    let keys2 = keys.push(k);
    let vals2 = vals.push(v);
    assert(keys2.no_duplicates()) by {
        assert forall|i: int, j: int|
            0 <= i < keys2.len() && 0 <= j < keys2.len() && i != j implies keys2[i] != keys2[j] by {
            if i < keys.len() && j < keys.len() {
                assert(keys[i] != keys[j]);
            } else if i < keys.len() {
                assert(keys.contains(keys[i]));
            } else {
                assert(keys.contains(keys[j]));
            }
        }
    }
    let want = table(keys, vals).insert(k, v);
    assert forall|x: K| table(keys2, vals2).dom().contains(x) <==> want.dom().contains(x) by {
        if keys2.contains(x) {
            let j = keys2.index_of(x);
            if j < keys.len() {
                assert(keys[j] == x);
            }
        }
        if keys.contains(x) {
            let j = keys.index_of(x);
            assert(keys2[j] == x);
        }
        if x == k {
            assert(keys2[keys.len() as int] == x);
        }
    }
    assert forall|x: K| table(keys2, vals2).dom().contains(x) implies table(keys2, vals2)[x]
        == want[x] by {
        let j = keys2.index_of(x);
        if x == k {
            assert(keys2[keys.len() as int] == k);
            assert(j == keys.len());
        } else {
            assert(keys[j] == x);
            lemma_table_entry(keys, vals, j);
        }
    }
    assert(table(keys2, vals2) =~= want);
}

/// Overwriting the entry at position `i` replaces what the map holds under
/// `keys[i]`.
pub proof fn lemma_table_update<K, V>(keys: Seq<K>, vals: Seq<V>, i: int, v: V)
    requires
        keys.no_duplicates(),
        keys.len() == vals.len(),
        0 <= i < keys.len(),
    ensures
        table(keys, vals.update(i, v)) == table(keys, vals).insert(keys[i], v),
{
    let vals2 = vals.update(i, v);
    let want = table(keys, vals).insert(keys[i], v);
    assert(keys.contains(keys[i]));
    assert forall|x: K| table(keys, vals2).dom().contains(x) implies table(keys, vals2)[x]
        == want[x] by {
        let j = keys.index_of(x);
        lemma_table_entry(keys, vals, j);
    }
    assert(table(keys, vals2) =~= want);
}

/// Removing the entry at position `i` removes `keys[i]` from the map.
pub proof fn lemma_table_remove<K, V>(keys: Seq<K>, vals: Seq<V>, i: int)
    requires
        keys.no_duplicates(),
        keys.len() == vals.len(),
        0 <= i < keys.len(),
    ensures
        keys.remove(i).no_duplicates(),
        table(keys.remove(i), vals.remove(i)) == table(keys, vals).remove(keys[i]),
{
    let keys2 = keys.remove(i);
    let vals2 = vals.remove(i);
    let want = table(keys, vals).remove(keys[i]);
    assert forall|a: int| 0 <= a < keys2.len() implies keys2[a] == keys[if a < i { a } else { a + 1 }]
        && vals2[a] == vals[if a < i { a } else { a + 1 }] by {}
    assert(keys2.no_duplicates());
    assert forall|x: K| table(keys2, vals2).dom().contains(x) <==> want.dom().contains(x) by {
        if keys2.contains(x) {
            let a = keys2.index_of(x);
            let b = if a < i { a } else { a + 1 };
            assert(keys[b] == x);
        }
        if keys.contains(x) && x != keys[i] {
            let b = keys.index_of(x);
            let a = if b < i { b } else { b - 1 };
            assert(keys2[a] == x);
        }
    }
    assert forall|x: K| table(keys2, vals2).dom().contains(x) implies table(keys2, vals2)[x]
        == want[x] by {
        let a = keys2.index_of(x);
        let b = if a < i { a } else { a + 1 };
        assert(keys[b] == x);
        lemma_table_entry(keys, vals, b);
    }
    assert(table(keys2, vals2) =~= want);
}

} // verus!
