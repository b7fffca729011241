//! The hash table itself: a sequence of buckets, each a small vector of
//! key-value entries (separate chaining).
//!
//! The abstract model of a table is a `Map` from key views to values. The
//! well-formedness invariant `wf` says that every entry sits in the bucket
//! selected by its key's hash modulo the bucket count, that no bucket holds
//! two entries with equal key views, and that the stored length equals the
//! number of keys in the model.

use vstd::prelude::*;

verus! {

use crate::key::TableKey;

pub(crate) struct Bucket<K, V> {
    pub(crate) data: Vec<(K, V)>,
}

/// The bucket that a key with view `vk` belongs to, among `n` buckets.
pub(crate) open spec fn slot_of<K: TableKey>(vk: K::V, n: int) -> int {
    K::view_hash(vk) as int % n
}

/// Whether some entry of the bucket `s` has key view `vk`.
pub(crate) open spec fn bucket_has<K: TableKey, V>(s: Seq<(K, V)>, vk: K::V) -> bool {
    exists|j: int| 0 <= j < s.len() && s[j].0@ == vk
}

/// The value stored beside key view `vk` in the bucket `s`.
pub(crate) open spec fn bucket_value<K: TableKey, V>(s: Seq<(K, V)>, vk: K::V) -> V {
    let j = choose|j: int| 0 <= j < s.len() && s[j].0@ == vk;
    s[j].1
}

/// No two entries of the bucket `s` have equal key views.
pub(crate) open spec fn bucket_distinct<K: TableKey, V>(s: Seq<(K, V)>) -> bool {
    forall|j1: int, j2: int| 0 <= j1 < j2 < s.len() ==> s[j1].0@ != s[j2].0@
}

/// Every entry of every bucket sits in the bucket its key hashes to.
pub(crate) open spec fn placed<K: TableKey, V>(bs: Seq<Bucket<K, V>>) -> bool {
    forall|i: int, j: int|
        0 <= i < bs.len() && 0 <= j < bs[i].data@.len() ==> slot_of::<K>(
            bs[i].data@[j].0@,
            bs.len() as int,
        ) == i
}

pub(crate) open spec fn buckets_wf<K: TableKey, V>(bs: Seq<Bucket<K, V>>) -> bool {
    &&& placed(bs)
    &&& forall|i: int| 0 <= i < bs.len() ==> bucket_distinct(#[trigger] bs[i].data@)
}

/// The association that a bucket sequence represents.
pub(crate) open spec fn buckets_map<K: TableKey, V>(bs: Seq<Bucket<K, V>>) -> Map<K::V, V> {
    Map::new(
        |vk: K::V| bs.len() > 0 && bucket_has(bs[slot_of::<K>(vk, bs.len() as int)].data@, vk),
        |vk: K::V| bucket_value(bs[slot_of::<K>(vk, bs.len() as int)].data@, vk),
    )
}

/// In a duplicate-free bucket, an entry with key view `vk` at index `j`
/// pins both membership and the stored value.
pub(crate) proof fn lemma_bucket_value<K: TableKey, V>(s: Seq<(K, V)>, vk: K::V, j: int)
    requires
        bucket_distinct(s),
        0 <= j < s.len(),
        s[j].0@ == vk,
    ensures
        bucket_has(s, vk),
        bucket_value(s, vk) == s[j].1,
{
    let j2 = choose|j2: int| 0 <= j2 < s.len() && s[j2].0@ == vk;
    if j2 != j {
        assert(s[j].0@ != s[j2].0@);
    }
}

/// Removing the entry at index `j` of a duplicate-free bucket by swapping
/// in the last entry and dropping the tail keeps the other entries and
/// loses exactly the key view at `j`.
pub(crate) proof fn lemma_bucket_swap_remove<K: TableKey, V>(s: Seq<(K, V)>, vk: K::V, j: int)
    requires
        bucket_distinct(s),
        0 <= j < s.len(),
        s[j].0@ == vk,
    ensures
        bucket_distinct(s.update(j, s.last()).drop_last()),
        !bucket_has(s.update(j, s.last()).drop_last(), vk),
        forall|vk2: K::V|
            vk2 != vk ==> #[trigger] bucket_has(s.update(j, s.last()).drop_last(), vk2)
                == bucket_has(s, vk2),
        forall|vk2: K::V|
            vk2 != vk && bucket_has(s, vk2) ==> #[trigger] bucket_value(
                s.update(j, s.last()).drop_last(),
                vk2,
            ) == bucket_value(s, vk2),
{
    let t = s.update(j, s.last()).drop_last();
    let n = s.len() as int;
    assert(t.len() == n - 1);
    assert forall|j2: int| 0 <= j2 < n - 1 implies #[trigger] t[j2] == (if j2 == j {
        s[n - 1]
    } else {
        s[j2]
    }) by {}
    assert forall|vk2: K::V| vk2 != vk implies #[trigger] bucket_has(t, vk2) == bucket_has(
        s,
        vk2,
    ) by {
        if bucket_has(t, vk2) {
            let j2 = choose|j2: int| 0 <= j2 < t.len() && t[j2].0@ == vk2;
            if j2 == j {
                assert(s[n - 1].0@ == vk2);
            } else {
                assert(s[j2].0@ == vk2);
            }
        }
        if bucket_has(s, vk2) {
            let j2 = choose|j2: int| 0 <= j2 < s.len() && s[j2].0@ == vk2;
            if j2 == n - 1 {
                assert(j < n - 1);
                assert(t[j].0@ == vk2);
            } else {
                assert(t[j2].0@ == vk2);
            }
        }
    }
    assert forall|vk2: K::V| vk2 != vk && bucket_has(s, vk2) implies #[trigger] bucket_value(
        t,
        vk2,
    ) == bucket_value(s, vk2) by {
        let j2 = choose|j2: int| 0 <= j2 < s.len() && s[j2].0@ == vk2;
        lemma_bucket_value(s, vk2, j2);
        if j2 == n - 1 {
            assert(t[j].0@ == vk2);
            assert(bucket_distinct(t));
            lemma_bucket_value(t, vk2, j);
        } else {
            lemma_bucket_value(t, vk2, j2);
        }
    }
}

/// Appending an entry with a fresh key view to a duplicate-free bucket
/// keeps the other entries and adds exactly that key.
pub(crate) proof fn lemma_bucket_push<K: TableKey, V>(s: Seq<(K, V)>, k: K, v: V)
    requires
        bucket_distinct(s),
        !bucket_has(s, k@),
    ensures
        bucket_distinct(s.push((k, v))),
        bucket_has(s.push((k, v)), k@),
        bucket_value(s.push((k, v)), k@) == v,
        forall|vk2: K::V|
            vk2 != k@ ==> #[trigger] bucket_has(s.push((k, v)), vk2) == bucket_has(s, vk2),
        forall|vk2: K::V|
            vk2 != k@ && bucket_has(s, vk2) ==> #[trigger] bucket_value(s.push((k, v)), vk2)
                == bucket_value(s, vk2),
{
    let t = s.push((k, v));
    let n = s.len() as int;
    assert(t[n] == (k, v));
    assert(t[n].0@ == k@);
    assert(bucket_distinct(t));
    lemma_bucket_value(t, k@, n);
    assert forall|vk2: K::V| vk2 != k@ implies #[trigger] bucket_has(t, vk2) == bucket_has(
        s,
        vk2,
    ) by {
        if bucket_has(t, vk2) {
            let j2 = choose|j2: int| 0 <= j2 < t.len() && t[j2].0@ == vk2;
            assert(j2 != n);
            assert(s[j2].0@ == vk2);
        }
        if bucket_has(s, vk2) {
            let j2 = choose|j2: int| 0 <= j2 < s.len() && s[j2].0@ == vk2;
            assert(t[j2].0@ == vk2);
        }
    }
    assert forall|vk2: K::V| vk2 != k@ && bucket_has(s, vk2) implies #[trigger] bucket_value(
        t,
        vk2,
    ) == bucket_value(s, vk2) by {
        let j2 = choose|j2: int| 0 <= j2 < s.len() && s[j2].0@ == vk2;
        lemma_bucket_value(s, vk2, j2);
        lemma_bucket_value(t, vk2, j2);
    }
}

/// Replacing the bucket at the slot of `vk` with its swap-removed form
/// removes exactly `vk` from the represented association.
pub(crate) proof fn lemma_buckets_remove<K: TableKey, V>(
    bs1: Seq<Bucket<K, V>>,
    bs2: Seq<Bucket<K, V>>,
    vk: K::V,
    j: int,
)
    requires
        buckets_wf(bs1),
        bs1.len() > 0,
        bs2.len() == bs1.len(),
        0 <= slot_of::<K>(vk, bs1.len() as int) < bs1.len(),
        0 <= j < bs1[slot_of::<K>(vk, bs1.len() as int)].data@.len(),
        bs1[slot_of::<K>(vk, bs1.len() as int)].data@[j].0@ == vk,
        bs2[slot_of::<K>(vk, bs1.len() as int)].data@ == bs1[slot_of::<K>(
            vk,
            bs1.len() as int,
        )].data@.update(j, bs1[slot_of::<K>(vk, bs1.len() as int)].data@.last()).drop_last(),
        forall|i: int|
            0 <= i < bs1.len() && i != slot_of::<K>(vk, bs1.len() as int) ==> #[trigger] bs2[i]
                == bs1[i],
    ensures
        buckets_wf(bs2),
        buckets_map(bs2) == buckets_map(bs1).remove(vk),
        buckets_map(bs1).contains_key(vk),
        buckets_map(bs1)[vk] == bs1[slot_of::<K>(vk, bs1.len() as int)].data@[j].1,
{
    let b = slot_of::<K>(vk, bs1.len() as int);
    let s = bs1[b].data@;
    let t = bs2[b].data@;
    lemma_bucket_value(s, vk, j);
    lemma_bucket_swap_remove(s, vk, j);
    assert(placed(bs2)) by {
        assert forall|i: int, j2: int|
            0 <= i < bs2.len() && 0 <= j2 < bs2[i].data@.len() implies slot_of::<K>(
            bs2[i].data@[j2].0@,
            bs2.len() as int,
        ) == i by {
            if i == b {
                let n = s.len() as int;
                if j2 == j {
                    assert(bs2[i].data@[j2] == s[n - 1]);
                } else {
                    assert(bs2[i].data@[j2] == s[j2]);
                }
            }
        }
    }
    assert(buckets_map(bs2) =~= buckets_map(bs1).remove(vk)) by {
        assert forall|vk2: K::V| true implies {
            &&& buckets_map(bs2).contains_key(vk2) == buckets_map(bs1).remove(vk).contains_key(vk2)
            &&& (buckets_map(bs2).contains_key(vk2) ==> buckets_map(bs2)[vk2] == buckets_map(
                bs1,
            ).remove(vk)[vk2])
        } by {
            let b2 = slot_of::<K>(vk2, bs1.len() as int);
            if vk2 == vk {
                assert(!bucket_has(t, vk));
            } else if b2 == b {
                assert(bucket_has(t, vk2) == bucket_has(s, vk2));
            } else {
                assert(bs2[b2] == bs1[b2]);
            }
        }
    }
}

/// Pushing an entry with a fresh key view into the bucket its key hashes to
/// inserts exactly that binding into the represented association.
pub(crate) proof fn lemma_buckets_insert<K: TableKey, V>(
    bs1: Seq<Bucket<K, V>>,
    bs2: Seq<Bucket<K, V>>,
    k: K,
    v: V,
)
    requires
        buckets_wf(bs1),
        bs1.len() > 0,
        bs2.len() == bs1.len(),
        0 <= slot_of::<K>(k@, bs1.len() as int) < bs1.len(),
        !bucket_has(bs1[slot_of::<K>(k@, bs1.len() as int)].data@, k@),
        bs2[slot_of::<K>(k@, bs1.len() as int)].data@ == bs1[slot_of::<K>(
            k@,
            bs1.len() as int,
        )].data@.push((k, v)),
        forall|i: int|
            0 <= i < bs1.len() && i != slot_of::<K>(k@, bs1.len() as int) ==> #[trigger] bs2[i]
                == bs1[i],
    ensures
        buckets_wf(bs2),
        buckets_map(bs2) == buckets_map(bs1).insert(k@, v),
        !buckets_map(bs1).contains_key(k@),
{
    let b = slot_of::<K>(k@, bs1.len() as int);
    let s = bs1[b].data@;
    let t = bs2[b].data@;
    lemma_bucket_push(s, k, v);
    assert(placed(bs2)) by {
        assert forall|i: int, j2: int|
            0 <= i < bs2.len() && 0 <= j2 < bs2[i].data@.len() implies slot_of::<K>(
            bs2[i].data@[j2].0@,
            bs2.len() as int,
        ) == i by {
            if i == b {
                if j2 == s.len() as int {
                    assert(bs2[i].data@[j2] == (k, v));
                } else {
                    assert(bs2[i].data@[j2] == s[j2]);
                }
            }
        }
    }
    assert(buckets_map(bs2) =~= buckets_map(bs1).insert(k@, v)) by {
        assert forall|vk2: K::V| true implies {
            &&& buckets_map(bs2).contains_key(vk2) == buckets_map(bs1).insert(k@, v).contains_key(
                vk2,
            )
            &&& (buckets_map(bs2).contains_key(vk2) ==> buckets_map(bs2)[vk2] == buckets_map(
                bs1,
            ).insert(k@, v)[vk2])
        } by {
            let b2 = slot_of::<K>(vk2, bs1.len() as int);
            if vk2 == k@ {
                assert(bucket_has(t, k@));
                assert(bucket_value(t, k@) == v);
            } else if b2 == b {
                assert(bucket_has(t, vk2) == bucket_has(s, vk2));
            } else {
                assert(bs2[b2] == bs1[b2]);
            }
        }
    }
}

/// Overwriting an entry in place — swap-removing the entry that holds the
/// key and pushing the key with its new value — rebinds exactly that key in
/// the represented association.
pub(crate) proof fn lemma_buckets_overwrite<K: TableKey, V>(
    bs1: Seq<Bucket<K, V>>,
    bs2: Seq<Bucket<K, V>>,
    k: K,
    v: V,
    j: int,
)
    requires
        buckets_wf(bs1),
        bs1.len() > 0,
        bs2.len() == bs1.len(),
        0 <= slot_of::<K>(k@, bs1.len() as int) < bs1.len(),
        0 <= j < bs1[slot_of::<K>(k@, bs1.len() as int)].data@.len(),
        bs1[slot_of::<K>(k@, bs1.len() as int)].data@[j].0@ == k@,
        bs2[slot_of::<K>(k@, bs1.len() as int)].data@ == bs1[slot_of::<K>(
            k@,
            bs1.len() as int,
        )].data@.update(j, bs1[slot_of::<K>(k@, bs1.len() as int)].data@.last()).drop_last().push(
            (k, v),
        ),
        forall|i: int|
            0 <= i < bs1.len() && i != slot_of::<K>(k@, bs1.len() as int) ==> #[trigger] bs2[i]
                == bs1[i],
    ensures
        buckets_wf(bs2),
        buckets_map(bs2) == buckets_map(bs1).insert(k@, v),
        buckets_map(bs1).contains_key(k@),
        buckets_map(bs1)[k@] == bs1[slot_of::<K>(k@, bs1.len() as int)].data@[j].1,
{
    let b = slot_of::<K>(k@, bs1.len() as int);
    let s = bs1[b].data@;
    let s_mid = s.update(j, s.last()).drop_last();
    let t = bs2[b].data@;
    lemma_bucket_value(s, k@, j);
    lemma_bucket_swap_remove(s, k@, j);
    lemma_bucket_push(s_mid, k, v);
    assert(placed(bs2)) by {
        assert forall|i: int, j2: int|
            0 <= i < bs2.len() && 0 <= j2 < bs2[i].data@.len() implies slot_of::<K>(
            bs2[i].data@[j2].0@,
            bs2.len() as int,
        ) == i by {
            if i == b {
                let n = s.len() as int;
                if j2 == s_mid.len() as int {
                    assert(bs2[i].data@[j2] == (k, v));
                } else if j2 == j {
                    assert(bs2[i].data@[j2] == s[n - 1]);
                } else {
                    assert(bs2[i].data@[j2] == s[j2]);
                }
            }
        }
    }
    assert(buckets_map(bs2) =~= buckets_map(bs1).insert(k@, v)) by {
        assert forall|vk2: K::V| true implies {
            &&& buckets_map(bs2).contains_key(vk2) == buckets_map(bs1).insert(k@, v).contains_key(
                vk2,
            )
            &&& (buckets_map(bs2).contains_key(vk2) ==> buckets_map(bs2)[vk2] == buckets_map(
                bs1,
            ).insert(k@, v)[vk2])
        } by {
            let b2 = slot_of::<K>(vk2, bs1.len() as int);
            if vk2 == k@ {
                assert(bucket_has(t, k@));
                assert(bucket_value(t, k@) == v);
            } else if b2 == b {
                assert(bucket_has(t, vk2) == bucket_has(s_mid, vk2));
                assert(bucket_has(s_mid, vk2) == bucket_has(s, vk2));
                if bucket_has(s, vk2) {
                    assert(bucket_value(s_mid, vk2) == bucket_value(s, vk2));
                    assert(bucket_value(t, vk2) == bucket_value(s_mid, vk2));
                }
            } else {
                assert(bs2[b2] == bs1[b2]);
            }
        }
    }
}

#[verifier::reject_recursive_types(K)]
#[verifier::reject_recursive_types(V)]
pub struct HashMap<K: TableKey, V> {
    buckets: Vec<Bucket<K, V>>,
    len: usize,
}

impl<K: TableKey, V> View for HashMap<K, V> {
    type V = Map<K::V, V>;

    closed spec fn view(&self) -> Map<K::V, V> {
        buckets_map(self.buckets@)
    }
}

impl<K: TableKey, V> HashMap<K, V> {
    /// The number of entries the table holds.
    pub closed spec fn spec_len(&self) -> usize {
        self.len
    }

    /// The current capacity: how many buckets the table has.
    pub closed spec fn spec_capacity(&self) -> usize {
        self.buckets.len()
    }

    /// The table's internal invariant: every entry is in the bucket its key
    /// hashes to, key views are unique, and the stored length counts the
    /// keys of the model.
    pub closed spec fn wf(&self) -> bool {
        &&& buckets_wf(self.buckets@)
        &&& self@.dom().finite()
        &&& self.len as int == self@.dom().len()
    }

    /// Creates an empty table: no buckets, no entries.
    pub fn new() -> (t: Self)
        ensures
            t.wf(),
            t@ == Map::<K::V, V>::empty(),
            t.spec_len() == 0,
            t.spec_capacity() == 0,
    {
        let t = HashMap { buckets: Vec::new(), len: 0 };
        proof {
            assert(t@ =~= Map::<K::V, V>::empty());
        }
        t
    }

    /// The number of key-value pairs in the table.
    pub fn len(&self) -> (n: usize)
        ensures
            n == self.spec_len(),
            self.wf() ==> n as int == self@.dom().len(),
    {
        self.len
    }

    /// Whether the table holds no entries.
    pub fn is_empty(&self) -> (r: bool)
        ensures
            r == (self.spec_len() == 0),
            self.wf() ==> r == self@.is_empty(),
    {
        proof {
            if self.wf() {
                if self@.dom().len() == 0 {
                    assert(self@.dom() =~= Set::<K::V>::empty());
                }
                if self@.dom().is_empty() {
                    assert(self@.dom() =~= Set::<K::V>::empty());
                }
            }
        }
        self.len == 0
    }

    /// The number of buckets currently allocated.
    pub fn capacity(&self) -> (n: usize)
        ensures
            n == self.spec_capacity(),
    {
        self.buckets.len()
    }

    /// The bucket index for `key` among `n_buckets` buckets: its hash,
    /// reduced modulo the bucket count.
    fn bucket_index(key: &K, n_buckets: usize) -> (i: usize)
        requires
            n_buckets > 0,
        ensures
            i as int == slot_of::<K>(key@, n_buckets as int),
            i < n_buckets,
    {
        let h = key.hash_code();
        (h % (n_buckets as u64)) as usize
    }

    /// Scans a bucket for an entry whose key equals `key`.
    fn find_in_bucket(data: &Vec<(K, V)>, key: &K) -> (r: Option<usize>)
        ensures
            match r {
                Some(j) => j < data@.len() && data@[j as int].0@ == key@,
                None => !bucket_has(data@, key@),
            },
    {
        let n = data.len();
        let mut j: usize = 0;
        while j < n
            invariant
                j <= n,
                n == data@.len(),
                forall|j2: int| 0 <= j2 < j ==> data@[j2].0@ != key@,
            decreases n - j,
    {
            if data[j].0.key_eq(key) {
                return Some(j);
            }
            j += 1;
        }
        None
    }

    /// Looks the key up without mutating the table.
    pub fn get(&self, key: K) -> (r: Option<&V>)
        requires
            self.wf(),
        ensures
            match r {
                Some(v) => self@.contains_key(key@) && *v == self@[key@],
                None => !self@.contains_key(key@),
            },
    {
        let n_buckets = self.buckets.len();
        if n_buckets == 0 {
            return None;
        }
        let b = Self::bucket_index(&key, n_buckets);
        match Self::find_in_bucket(&self.buckets[b].data, &key) {
            Some(j) => {
                proof {
                    lemma_bucket_value(self.buckets@[b as int].data@, key@, j as int);
                }
                Some(&self.buckets[b].data[j].1)
            },
            None => None,
        }
    }

    /// Whether the table holds an entry for the key.
    pub fn contains_key(&self, key: K) -> (r: bool)
        requires
            self.wf(),
        ensures
            r == self@.contains_key(key@),
    {
        self.get(key).is_some()
    }

    /// Removes the entry for the key, returning its value; a missing key
    /// leaves the table unchanged. Within the bucket, the last entry is
    /// swapped into the vacated position.
    pub fn remove(&mut self, key: K) -> (r: Option<V>)
        requires
            old(self).wf(),
        ensures
            final(self).wf(),
            final(self)@ == old(self)@.remove(key@),
            final(self).spec_capacity() == old(self).spec_capacity(),
            match r {
                Some(v) => {
                    &&& old(self)@.contains_key(key@)
                    &&& v == old(self)@[key@]
                    &&& final(self).spec_len() + 1 == old(self).spec_len()
                },
                None => {
                    &&& !old(self)@.contains_key(key@)
                    &&& final(self).spec_len() == old(self).spec_len()
                },
            },
    {
        let n_buckets = self.buckets.len();
        if n_buckets == 0 {
            proof {
                assert(self@ =~= old(self)@.remove(key@));
            }
            return None;
        }
        let b = Self::bucket_index(&key, n_buckets);
        match Self::find_in_bucket(&self.buckets[b].data, &key) {
            None => {
                proof {
                    assert(self@ =~= old(self)@.remove(key@));
                }
                None
            },
            Some(j) => {
                let bucket = &mut self.buckets[b];
                let pair = bucket.data.swap_remove(j);
                proof {
                    lemma_buckets_remove(old(self).buckets@, self.buckets@, key@, j as int);
                    assert(old(self)@.dom().contains(key@));
                    assert(self@.dom() =~= old(self)@.dom().remove(key@));
                    assert(self.len >= 1);
                }
                self.len = self.len - 1;
                Some(pair.1)
            },
        }
    }

    /// Replaces the bucket array with a fresh one sized to the current
    /// occupancy — one bucket when the table is empty, else twice the number
    /// of stored entries — and rehashes every entry into it. The
    /// represented association is unchanged.
    fn resize(&mut self)
        requires
            old(self).wf(),
            old(self).spec_len() as int * 2 < usize::MAX as int,
        ensures
            final(self).wf(),
            final(self)@ == old(self)@,
            final(self).spec_len() == old(self).spec_len(),
            final(self).spec_capacity() as int == (if old(self).spec_len() == 0 {
                1int
            } else {
                2 * old(self).spec_len() as int
            }),
    {
        let target: usize = if self.len == 0 {
            1
        } else {
            self.len * 2
        };
        let mut new_buckets: Vec<Bucket<K, V>> = Vec::with_capacity(target);
        let mut c: usize = 0;
        while c < target
            invariant
                c <= target,
                new_buckets@.len() == c,
                forall|i: int| 0 <= i < c ==> #[trigger] new_buckets@[i].data@.len() == 0,
            decreases target - c,
        {
            new_buckets.push(Bucket { data: Vec::new() });
            c += 1;
        }
        proof {
            assert(buckets_map::<K, V>(new_buckets@) =~= Map::<K::V, V>::empty());
        }
        let n_buckets = self.buckets.len();
        let mut i: usize = 0;
        while i < n_buckets
            invariant
                target > 0,
                i <= n_buckets,
                n_buckets == self.buckets@.len(),
                new_buckets@.len() == target,
                buckets_wf(self.buckets@),
                buckets_wf(new_buckets@),
                forall|i2: int| 0 <= i2 < i ==> #[trigger] self.buckets@[i2].data@.len() == 0,
                buckets_map::<K, V>(new_buckets@).dom().disjoint(
                    buckets_map::<K, V>(self.buckets@).dom(),
                ),
                old(self)@ == buckets_map::<K, V>(new_buckets@).union_prefer_right(
                    buckets_map::<K, V>(self.buckets@),
                ),
                self.len == old(self).spec_len(),
            decreases n_buckets - i,
        {
            while !self.buckets[i].data.is_empty()
                invariant
                    target > 0,
                    i < n_buckets,
                    n_buckets == self.buckets@.len(),
                    new_buckets@.len() == target,
                    buckets_wf(self.buckets@),
                    buckets_wf(new_buckets@),
                    forall|i2: int| 0 <= i2 < i ==> #[trigger] self.buckets@[i2].data@.len() == 0,
                    buckets_map::<K, V>(new_buckets@).dom().disjoint(
                        buckets_map::<K, V>(self.buckets@).dom(),
                    ),
                    old(self)@ == buckets_map::<K, V>(new_buckets@).union_prefer_right(
                        buckets_map::<K, V>(self.buckets@),
                    ),
                    self.len == old(self).spec_len(),
                decreases self.buckets@[i as int].data@.len(),
            {
                let ghost pre = self.buckets@;
                let bucket = &mut self.buckets[i];
                let pair = bucket.data.pop().unwrap();
                let ghost gpair = pair;
                let ghost cur_map = buckets_map::<K, V>(pre);
                let ghost new_map = buckets_map::<K, V>(new_buckets@);
                proof {
                    let n_i = pre[i as int].data@.len() as int;
                    assert(pre[i as int].data@[n_i - 1] == gpair);
                    assert(slot_of::<K>(gpair.0@, pre.len() as int) == i as int);
                    assert(self.buckets@[i as int].data@ =~= pre[i as int].data@.update(
                        n_i - 1,
                        pre[i as int].data@.last(),
                    ).drop_last());
                    lemma_buckets_remove(pre, self.buckets@, gpair.0@, n_i - 1);
                }
                let b2 = Self::bucket_index(&pair.0, target);
                let ghost pre_new = new_buckets@;
                let nb = &mut new_buckets[b2];
                nb.data.push(pair);
                proof {
                    assert(!new_map.contains_key(gpair.0@));
                    assert(!bucket_has(pre_new[b2 as int].data@, gpair.0@));
                    lemma_buckets_insert(pre_new, new_buckets@, gpair.0, gpair.1);
                    assert(buckets_map::<K, V>(new_buckets@).dom().disjoint(
                        buckets_map::<K, V>(self.buckets@).dom(),
                    )) by {
                        assert(buckets_map::<K, V>(new_buckets@) == new_map.insert(
                            gpair.0@,
                            gpair.1,
                        ));
                        assert(buckets_map::<K, V>(self.buckets@) == cur_map.remove(gpair.0@));
                    }
                    assert(old(self)@ =~= buckets_map::<K, V>(new_buckets@).union_prefer_right(
                        buckets_map::<K, V>(self.buckets@),
                    )) by {
                        assert(cur_map.contains_key(gpair.0@));
                        assert(cur_map[gpair.0@] == gpair.1);
                        assert(old(self)@ == new_map.union_prefer_right(cur_map));
                    }
                }
            }
            i += 1;
        }
        proof {
            assert(buckets_map::<K, V>(self.buckets@) =~= Map::<K::V, V>::empty());
            assert(old(self)@ =~= buckets_map::<K, V>(new_buckets@));
        }
        core::mem::swap(&mut self.buckets, &mut new_buckets);
    }

    /// Inserts the key-value pair. An entry whose key is already present is
    /// overwritten and its old value returned; otherwise the pair is added.
    /// The table first grows whenever it is empty or at least three quarters
    /// full.
    pub fn insert(&mut self, key: K, value: V) -> (prev: Option<V>)
        requires
            old(self).wf(),
            old(self).spec_len() < usize::MAX / 2,
        ensures
            final(self).wf(),
            final(self)@ == old(self)@.insert(key@, value),
            final(self).spec_capacity() > 0,
            final(self).spec_capacity() as int == (if old(self).spec_len() == 0 || 4 * old(
                self,
            ).spec_len() as int >= 3 * old(self).spec_capacity() as int {
                if old(self).spec_len() == 0 {
                    1int
                } else {
                    2 * old(self).spec_len() as int
                }
            } else {
                old(self).spec_capacity() as int
            }),
            match prev {
                Some(v) => {
                    &&& old(self)@.contains_key(key@)
                    &&& v == old(self)@[key@]
                    &&& final(self).spec_len() == old(self).spec_len()
                },
                None => {
                    &&& !old(self)@.contains_key(key@)
                    &&& final(self).spec_len() == old(self).spec_len() + 1
                },
            },
    {
        if self.len == 0 || (self.len as u128) * 4 >= (self.buckets.len() as u128) * 3 {
            self.resize();
        }
        let ghost gk = key;
        let ghost gv = value;
        let n_buckets = self.buckets.len();
        let b = Self::bucket_index(&key, n_buckets);
        let ghost mid_map = self@;
        match Self::find_in_bucket(&self.buckets[b].data, &key) {
            Some(j) => {
                let ghost pre = self.buckets@;
                let bucket = &mut self.buckets[b];
                let pair = bucket.data.swap_remove(j);
                bucket.data.push((key, value));
                proof {
                    lemma_buckets_overwrite(pre, self.buckets@, gk, gv, j as int);
                    assert(self@ =~= mid_map.insert(gk@, gv));
                    assert(self@.dom() =~= mid_map.dom());
                }
                Some(pair.1)
            },
            None => {
                let ghost pre = self.buckets@;
                let bucket = &mut self.buckets[b];
                bucket.data.push((key, value));
                proof {
                    lemma_buckets_insert(pre, self.buckets@, gk, gv);
                    assert(self@.dom() =~= mid_map.dom().insert(gk@));
                }
                self.len = self.len + 1;
                None
            },
        }
    }
}

impl<K: TableKey, V> Default for HashMap<K, V> {
    /// An empty table.
    fn default() -> (t: Self)
        ensures
            t.wf(),
            t@ == Map::<K::V, V>::empty(),
            t.spec_len() == 0,
            t.spec_capacity() == 0,
    {
        Self::new()
    }
}

} // verus!
