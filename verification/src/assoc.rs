//! Maps kept as a list of keys beside a list of values.

use vstd::prelude::*;

verus! {

/// The map that sends `keys[i]` to `values[i]`.
pub open spec fn assoc<K, V>(keys: Seq<K>, values: Seq<V>) -> Map<K, V> {
    Map::new(|k: K| keys.contains(k), |k: K| values[keys.index_of(k)])
}

/// Under distinct keys the map holds `values[i]` at `keys[i]`.
pub proof fn lemma_assoc_at<K, V>(keys: Seq<K>, values: Seq<V>, i: int)
    requires
        keys.no_duplicates(),
        0 <= i < keys.len(),
    ensures
        keys.contains(keys[i]),
        keys.index_of(keys[i]) == i,
        assoc(keys, values).dom().contains(keys[i]),
        assoc(keys, values)[keys[i]] == values[i],
{
}

/// Replacing `values[i]` is inserting at `keys[i]`.
pub proof fn lemma_assoc_update<K, V>(keys: Seq<K>, values: Seq<V>, i: int, v: V)
    requires
        keys.no_duplicates(),
        keys.len() == values.len(),
        0 <= i < keys.len(),
    ensures
        assoc(keys, values.update(i, v)) == assoc(keys, values).insert(keys[i], v),
{
    let before = assoc(keys, values);
    let after = assoc(keys, values.update(i, v));
    lemma_assoc_at(keys, values, i);
    assert forall|k: K| after.dom().contains(k) implies #[trigger] after[k] == before.insert(
        keys[i],
        v,
    )[k] by {
        let j = keys.index_of(k);
        lemma_assoc_at(keys, values, j);
    }
    assert(after =~= before.insert(keys[i], v));
}

/// Appending a fresh key with its value is inserting it.
pub proof fn lemma_assoc_push<K, V>(keys: Seq<K>, values: Seq<V>, k: K, v: V)
    requires
        keys.no_duplicates(),
        keys.len() == values.len(),
        !keys.contains(k),
    ensures
        keys.push(k).no_duplicates(),
        assoc(keys.push(k), values.push(v)) == assoc(keys, values).insert(k, v),
{
    let longer = keys.push(k);
    let before = assoc(keys, values);
    let after = assoc(longer, values.push(v));
    assert forall|i: int, j: int|
        0 <= i < longer.len() && 0 <= j < longer.len() && i != j implies longer[i] != longer[j] by {
        if i < keys.len() {
            assert(keys[i] == longer[i]);
        }
        if j < keys.len() {
            assert(keys[j] == longer[j]);
        }
    }
    assert forall|x: K| after.dom().contains(x) <==> before.insert(k, v).dom().contains(x) by {
        if keys.contains(x) {
            let i = keys.index_of(x);
            assert(longer[i] == x);
        }
        if x == k {
            assert(longer[keys.len() as int] == k);
        }
        if longer.contains(x) {
            let i = longer.index_of(x);
            if i < keys.len() {
                assert(keys[i] == x);
            }
        }
    }
    assert forall|x: K| after.dom().contains(x) implies #[trigger] after[x] == before.insert(
        k,
        v,
    )[x] by {
        let i = longer.index_of(x);
        if i < keys.len() {
            assert(keys[i] == x);
            lemma_assoc_at(keys, values, i);
        }
    }
    assert(after =~= before.insert(k, v));
}

} // verus!
