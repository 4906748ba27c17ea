//! Association lists read as maps: the mathematical model shared by every
//! structure of the crate that stores key-value pairs in a vector.

use vstd::prelude::*;

verus! {

/// Whether some entry of `es` carries the key `k`.
pub open spec fn keys_contain<K, V>(es: Seq<(K, V)>, k: K) -> bool {
    exists|t: int| 0 <= t < es.len() && es[t].0 == k
}

/// No two entries carry the same key.
pub open spec fn distinct_keys<K, V>(es: Seq<(K, V)>) -> bool {
    forall|a: int, b: int| 0 <= a < b < es.len() ==> es[a].0 != es[b].0
}

/// The entries read as a map. Later entries win, though a list with distinct
/// keys never needs that rule.
pub open spec fn map_of<K, V>(es: Seq<(K, V)>) -> Map<K, V>
    decreases es.len(),
{
    if es.len() == 0 {
        Map::empty()
    } else {
        map_of(es.drop_last()).insert(es.last().0, es.last().1)
    }
}

/// A key is in the map exactly when some entry carries it.
pub proof fn lemma_map_of_contains<K, V>(es: Seq<(K, V)>, k: K)
    ensures
        map_of(es).contains_key(k) <==> keys_contain(es, k),
    decreases es.len(),
{
    if es.len() > 0 {
        lemma_map_of_contains(es.drop_last(), k);
        if map_of(es).contains_key(k) {
            if es.last().0 == k {
                assert(es[es.len() - 1].0 == k);
            } else {
                let t = choose|t: int|
                    0 <= t < es.drop_last().len() && (#[trigger] es.drop_last()[t]).0 == k;
                assert(es[t].0 == k);
            }
        }
        if keys_contain(es, k) {
            let t = choose|t: int| 0 <= t < es.len() && (#[trigger] es[t]).0 == k;
            if t < es.len() - 1 {
                assert(es.drop_last()[t].0 == k);
            }
        }
    }
}

/// With distinct keys, each entry is read back exactly.
pub proof fn lemma_map_of_index<K, V>(es: Seq<(K, V)>, i: int)
    requires
        distinct_keys(es),
        0 <= i < es.len(),
    ensures
        map_of(es).contains_key(es[i].0),
        map_of(es)[es[i].0] == es[i].1,
    decreases es.len(),
{
    if i == es.len() - 1 {
    } else {
        assert(distinct_keys(es.drop_last()));
        lemma_map_of_index(es.drop_last(), i);
        assert(es.drop_last()[i] == es[i]);
        assert(es[i].0 != es.last().0);
    }
}

/// Replacing the value carried by the entry at `i` updates the map at its key.
pub proof fn lemma_map_of_update<K, V>(es: Seq<(K, V)>, i: int, x: V)
    requires
        distinct_keys(es),
        0 <= i < es.len(),
    ensures
        map_of(es.update(i, (es[i].0, x))) =~= map_of(es).insert(es[i].0, x),
    decreases es.len(),
{
    let k = es[i].0;
    let es2 = es.update(i, (k, x));
    if i == es.len() - 1 {
        assert(es2.drop_last() =~= es.drop_last());
        assert(es2.last() == (k, x));
    } else {
        assert(distinct_keys(es.drop_last()));
        lemma_map_of_update(es.drop_last(), i, x);
        assert(es2.drop_last() =~= es.drop_last().update(i, (k, x)));
        assert(es.drop_last()[i] == es[i]);
        assert(es2.last() == es.last());
        assert(k != es.last().0);
    }
}

/// Removing the entry at `i` removes exactly its key from the map.
pub proof fn lemma_map_of_remove<K, V>(es: Seq<(K, V)>, i: int)
    requires
        distinct_keys(es),
        0 <= i < es.len(),
    ensures
        map_of(es.remove(i)) =~= map_of(es).remove(es[i].0),
    decreases es.len(),
{
    let k = es[i].0;
    let es2 = es.remove(i);
    if i == es.len() - 1 {
        assert(es2 =~= es.drop_last());
        lemma_map_of_contains(es.drop_last(), k);
        assert(!keys_contain(es.drop_last(), k)) by {
            if keys_contain(es.drop_last(), k) {
                let t = choose|t: int|
                    0 <= t < es.drop_last().len() && (#[trigger] es.drop_last()[t]).0 == k;
                assert(es[t].0 == k);
            }
        }
        assert(map_of(es.drop_last()) =~= map_of(es.drop_last()).insert(k, es[i].1).remove(k));
    } else {
        assert(distinct_keys(es.drop_last()));
        lemma_map_of_remove(es.drop_last(), i);
        assert(es2.drop_last() =~= es.drop_last().remove(i));
        assert(es.drop_last()[i] == es[i]);
        assert(es2.last() == es.last());
        assert(k != es.last().0);
    }
}

/// Removing an index keeps the remaining keys distinct.
pub proof fn lemma_distinct_remove<K, V>(es: Seq<(K, V)>, i: int)
    requires
        distinct_keys(es),
        0 <= i < es.len(),
    ensures
        distinct_keys(es.remove(i)),
{
    let es2 = es.remove(i);
    assert forall|a: int, b: int| 0 <= a < b < es2.len() implies es2[a].0 != es2[b].0 by {
        let a0 = if a < i {
            a
        } else {
            a + 1
        };
        let b0 = if b < i {
            b
        } else {
            b + 1
        };
        assert(es2[a] == es[a0]);
        assert(es2[b] == es[b0]);
    }
}

/// With distinct keys, dropping the last entry removes exactly its key.
pub proof fn lemma_distinct_drop_last<K, V>(es: Seq<(K, V)>)
    requires
        distinct_keys(es),
        es.len() > 0,
    ensures
        distinct_keys(es.drop_last()),
        !keys_contain(es.drop_last(), es.last().0),
        map_of(es.drop_last()) =~= map_of(es).remove(es.last().0),
{
    let k = es.last().0;
    assert(!keys_contain(es.drop_last(), k)) by {
        if keys_contain(es.drop_last(), k) {
            let t = choose|t: int|
                0 <= t < es.drop_last().len() && (#[trigger] es.drop_last()[t]).0 == k;
            assert(es[t].0 == k);
        }
    }
    lemma_map_of_contains(es.drop_last(), k);
    assert(map_of(es.drop_last()) =~= map_of(es.drop_last()).insert(k, es.last().1).remove(k));
}

/// The index of the entry keyed `id`, if one exists.
pub fn find_index<V>(v: &Vec<(u64, V)>, id: u64) -> (r: Option<usize>)
    ensures
        match r {
            Some(t) => t < v@.len() && v@[t as int].0 == id,
            None => !keys_contain(v@, id),
        },
{
    let mut i: usize = 0;
    while i < v.len()
        invariant
            i <= v@.len(),
            forall|t: int| 0 <= t < i ==> (#[trigger] v@[t]).0 != id,
        decreases v@.len() - i,
    {
        if v[i].0 == id {
            return Some(i);
        }
        i = i + 1;
    }
    proof {
        if keys_contain(v@, id) {
            let t = choose|t: int| 0 <= t < v@.len() && (#[trigger] v@[t]).0 == id;
        }
    }
    None
}

/// Creates or replaces the entry keyed `id`.
pub fn put<V>(v: &mut Vec<(u64, V)>, id: u64, value: V)
    requires
        distinct_keys(old(v)@),
    ensures
        distinct_keys(final(v)@),
        map_of(final(v)@) == map_of(old(v)@).insert(id, value),
{
    let ghost es = v@;
    match find_index(v, id) {
        Some(t) => {
            v.set(t, (id, value));
            proof {
                assert(v@ =~= es.update(t as int, (es[t as int].0, value)));
                lemma_map_of_update(es, t as int, value);
                assert(distinct_keys(v@)) by {
                    assert(forall|a: int| 0 <= a < es.len() ==> (#[trigger] v@[a]).0 == es[a].0);
                }
            }
        },
        None => {
            v.push((id, value));
            proof {
                assert(v@.drop_last() =~= es);
                assert(distinct_keys(v@)) by {
                    assert(forall|a: int| 0 <= a < es.len() ==> (#[trigger] v@[a]) == es[a]);
                }
                lemma_map_of_contains(es, id);
                assert(map_of(v@) =~= map_of(es).insert(id, value));
            }
        },
    }
}

} // verus!
