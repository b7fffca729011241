//! Laws of the table's model.
//!
//! The table's operations are specified against a `Map` from key views to
//! values: `insert` yields `m.insert(k, v)`, `remove` yields `m.remove(k)`,
//! and `get` looks a key up in `m`. The proofs here state how those
//! operations compose, for every map, key and value.

use vstd::prelude::*;

verus! {

/// Looking a key up right after inserting it yields the inserted value.
pub proof fn lemma_insert_then_get<KV, V>(m: Map<KV, V>, k: KV, v: V)
    ensures
        m.insert(k, v).contains_key(k),
        m.insert(k, v)[k] == v,
{
}

/// Inserting the same key twice leaves the association that one insert of
/// the newest value produces: the older value is gone, the bound keys are
/// the same.
pub proof fn lemma_insert_overwrite<KV, V>(m: Map<KV, V>, k: KV, v1: V, v2: V)
    ensures
        m.insert(k, v1).insert(k, v2) == m.insert(k, v2),
        m.insert(k, v1).dom() == m.insert(k, v2).dom(),
{
    assert(m.insert(k, v1).insert(k, v2) =~= m.insert(k, v2));
    assert(m.insert(k, v1).dom() =~= m.insert(k, v2).dom());
}

/// Removing a key right after inserting it leaves the key unbound, and the
/// result is what removing the key from the association as it stood before
/// the insert gives.
pub proof fn lemma_insert_then_remove<KV, V>(m: Map<KV, V>, k: KV, v: V)
    ensures
        !m.insert(k, v).remove(k).contains_key(k),
        m.insert(k, v).remove(k) == m.remove(k),
{
    assert(m.insert(k, v).remove(k) =~= m.remove(k));
}

/// The association after inserting `keys[0], ..` with `vals[0], ..` in turn.
pub open spec fn insert_all<KV, V>(m: Map<KV, V>, keys: Seq<KV>, vals: Seq<V>) -> Map<KV, V>
    decreases keys.len(),
{
    if keys.len() == 0 || vals.len() == 0 {
        m
    } else {
        insert_all(m, keys.drop_last(), vals.drop_last()).insert(keys.last(), vals.last())
    }
}

/// Inserting pairwise-distinct keys that the association does not yet bind
/// grows the number of bound keys by exactly the number of inserts, binds
/// every inserted key to its value, and loses no other binding.
pub proof fn lemma_insert_all_distinct<KV, V>(m: Map<KV, V>, keys: Seq<KV>, vals: Seq<V>)
    requires
        keys.len() == vals.len(),
        forall|a: int, b: int| 0 <= a < b < keys.len() ==> keys[a] != keys[b],
        forall|a: int| 0 <= a < keys.len() ==> !m.contains_key(#[trigger] keys[a]),
        m.dom().finite(),
    ensures
        insert_all(m, keys, vals).dom().finite(),
        insert_all(m, keys, vals).dom().len() == m.dom().len() + keys.len(),
        forall|a: int|
            0 <= a < keys.len() ==> insert_all(m, keys, vals).contains_key(#[trigger] keys[a]),
        forall|a: int|
            0 <= a < keys.len() ==> insert_all(m, keys, vals)[#[trigger] keys[a]] == vals[a],
        forall|k2: KV|
            !keys.contains(k2) ==> insert_all(m, keys, vals).contains_key(k2) == m.contains_key(
                k2,
            ),
        forall|k2: KV|
            !keys.contains(k2) && m.contains_key(k2) ==> insert_all(m, keys, vals)[k2] == m[k2],
    decreases keys.len(),
{
    if keys.len() > 0 {
        let kp = keys.drop_last();
        let vp = vals.drop_last();
        let k = keys.last();
        let v = vals.last();
        let m1 = insert_all(m, kp, vp);
        assert forall|a: int| 0 <= a < kp.len() implies kp[a] == keys[a] by {}
        lemma_insert_all_distinct(m, kp, vp);
        assert(!kp.contains(k)) by {
            if kp.contains(k) {
                let a = choose|a: int| 0 <= a < kp.len() && kp[a] == k;
                assert(keys[a] == keys[keys.len() - 1]);
            }
        }
        assert(!m1.contains_key(k));
        assert(m1.insert(k, v).dom() =~= m1.dom().insert(k));
        assert forall|a: int| 0 <= a < keys.len() implies insert_all(m, keys, vals)[#[trigger] keys[a]]
            == vals[a] by {
            if a < keys.len() - 1 {
                assert(keys[a] != k);
                assert(m1[kp[a]] == vp[a]);
            }
        }
        assert forall|k2: KV| !keys.contains(k2) implies insert_all(m, keys, vals).contains_key(k2)
            == m.contains_key(k2) && (m.contains_key(k2) ==> insert_all(m, keys, vals)[k2]
            == m[k2]) by {
            assert(k2 != k) by {
                assert(keys[keys.len() - 1] == k);
            }
            assert(!kp.contains(k2)) by {
                if kp.contains(k2) {
                    let a = choose|a: int| 0 <= a < kp.len() && kp[a] == k2;
                    assert(keys[a] == k2);
                }
            }
        }
    }
}

} // verus!
