use vstd::prelude::*;

verus! {

/// The map that a list of key-value pairs stands for; a later pair wins
/// over an earlier one with the same key.
pub open spec fn assoc_map<K, V>(v: Seq<(K, V)>) -> Map<K, V>
    decreases v.len(),
{
    if v.len() == 0 {
        Map::empty()
    } else {
        assoc_map(v.drop_last()).insert(v.last().0, v.last().1)
    }
}

/// No key occurs twice.
pub open spec fn keys_unique<K, V>(v: Seq<(K, V)>) -> bool {
    forall|i: int, j: int| 0 <= i < v.len() && 0 <= j < v.len() && i != j ==> #[trigger] v[i].0 != #[trigger] v[j].0
}

/// The key occurs in the list.
pub open spec fn has_key<K, V>(v: Seq<(K, V)>, k: K) -> bool {
    exists|i: int| 0 <= i < v.len() && #[trigger] v[i].0 == k
}

pub proof fn lemma_assoc_contains<K, V>(v: Seq<(K, V)>, k: K)
    ensures
        assoc_map(v).contains_key(k) <==> has_key(v, k),
    decreases v.len(),
{
    if v.len() > 0 {
        lemma_assoc_contains(v.drop_last(), k);
        if has_key(v.drop_last(), k) {
            let i = choose|i: int| 0 <= i < v.drop_last().len() && #[trigger] v.drop_last()[i].0 == k;
            assert(v[i].0 == k);
        }
        if has_key(v, k) && v.last().0 != k {
            let i = choose|i: int| 0 <= i < v.len() && #[trigger] v[i].0 == k;
            assert(i != v.len() - 1);
            assert(v.drop_last()[i].0 == k);
        }
        if v.last().0 == k {
            assert(v[v.len() - 1].0 == k);
        }
    }
}

pub proof fn lemma_assoc_get<K, V>(v: Seq<(K, V)>, i: int)
    requires
        keys_unique(v),
        0 <= i < v.len(),
    ensures
        assoc_map(v).contains_key(v[i].0),
        assoc_map(v)[v[i].0] == v[i].1,
    decreases v.len(),
{
    if i < v.len() - 1 {
        lemma_assoc_get(v.drop_last(), i);
        assert(v.drop_last()[i] == v[i]);
        assert(v[v.len() - 1].0 != v[i].0);
    }
}

pub proof fn lemma_assoc_unique_drop_last<K, V>(v: Seq<(K, V)>)
    requires
        keys_unique(v),
        v.len() > 0,
    ensures
        keys_unique(v.drop_last()),
        !has_key(v.drop_last(), v.last().0),
{
    let d = v.drop_last();
    assert forall|i: int, j: int| 0 <= i < d.len() && 0 <= j < d.len() && i != j implies #[trigger] d[i].0
        != #[trigger] d[j].0 by {
        assert(d[i] == v[i]);
        assert(d[j] == v[j]);
    }
    if has_key(d, v.last().0) {
        let i = choose|i: int| 0 <= i < d.len() && #[trigger] d[i].0 == v.last().0;
        assert(v[i].0 == v[v.len() - 1].0);
    }
}

/// Replacing the value of the pair at `i`.
pub proof fn lemma_assoc_update<K, V>(v: Seq<(K, V)>, i: int, val: V)
    requires
        keys_unique(v),
        0 <= i < v.len(),
    ensures
        keys_unique(v.update(i, (v[i].0, val))),
        assoc_map(v.update(i, (v[i].0, val))) == assoc_map(v).insert(v[i].0, val),
    decreases v.len(),
{
    let u = v.update(i, (v[i].0, val));
    assert forall|a: int, b: int| 0 <= a < u.len() && 0 <= b < u.len() && a != b implies #[trigger] u[a].0
        != #[trigger] u[b].0 by {
        assert(u[a].0 == v[a].0);
        assert(u[b].0 == v[b].0);
    }
    lemma_assoc_unique_drop_last(v);
    if i == v.len() - 1 {
        assert(u.drop_last() =~= v.drop_last());
        lemma_assoc_contains(v.drop_last(), v[i].0);
        assert(assoc_map(u) =~= assoc_map(v).insert(v[i].0, val));
    } else {
        assert(u.drop_last() =~= v.drop_last().update(i, (v[i].0, val)));
        lemma_assoc_update(v.drop_last(), i, val);
        assert(v[v.len() - 1].0 != v[i].0);
        assert(assoc_map(u) =~= assoc_map(v).insert(v[i].0, val));
    }
}

/// Removing the pair at `i`.
pub proof fn lemma_assoc_remove<K, V>(v: Seq<(K, V)>, i: int)
    requires
        keys_unique(v),
        0 <= i < v.len(),
    ensures
        keys_unique(v.remove(i)),
        assoc_map(v.remove(i)) == assoc_map(v).remove(v[i].0),
    decreases v.len(),
{
    let r = v.remove(i);
    assert forall|a: int, b: int| 0 <= a < r.len() && 0 <= b < r.len() && a != b implies #[trigger] r[a].0
        != #[trigger] r[b].0 by {
        let a2 = if a < i { a } else { a + 1 };
        let b2 = if b < i { b } else { b + 1 };
        assert(r[a] == v[a2]);
        assert(r[b] == v[b2]);
    }
    lemma_assoc_unique_drop_last(v);
    lemma_assoc_contains(v.drop_last(), v.last().0);
    if i == v.len() - 1 {
        assert(r =~= v.drop_last());
        assert(assoc_map(r) =~= assoc_map(v).remove(v[i].0));
    } else {
        assert(r.drop_last() =~= v.drop_last().remove(i));
        assert(r.last() == v.last());
        lemma_assoc_remove(v.drop_last(), i);
        assert(v[v.len() - 1].0 != v[i].0);
        assert(assoc_map(r) =~= assoc_map(v).remove(v[i].0));
    }
}

/// Appending a pair with a new key.
pub proof fn lemma_assoc_push<K, V>(v: Seq<(K, V)>, k: K, val: V)
    requires
        keys_unique(v),
        !has_key(v, k),
    ensures
        keys_unique(v.push((k, val))),
        assoc_map(v.push((k, val))) == assoc_map(v).insert(k, val),
{
    let p = v.push((k, val));
    assert forall|a: int, b: int| 0 <= a < p.len() && 0 <= b < p.len() && a != b implies #[trigger] p[a].0
        != #[trigger] p[b].0 by {
        if a == v.len() {
            assert(v[b].0 == p[b].0);
        } else if b == v.len() {
            assert(v[a].0 == p[a].0);
        } else {
            assert(p[a] == v[a]);
            assert(p[b] == v[b]);
        }
    }
    assert(p.drop_last() =~= v);
}

/// With unique keys, the map has exactly one key per pair.
pub proof fn lemma_assoc_len<K, V>(v: Seq<(K, V)>)
    requires
        keys_unique(v),
    ensures
        assoc_map(v).dom().finite(),
        assoc_map(v).dom().len() == v.len(),
    decreases v.len(),
{
    if v.len() > 0 {
        lemma_assoc_unique_drop_last(v);
        lemma_assoc_len(v.drop_last());
        lemma_assoc_contains(v.drop_last(), v.last().0);
    }
}

} // verus!
