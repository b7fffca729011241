//! The table under its owned-key name: `Chained` wraps the
//! separate-chaining table and forwards every operation, so callers that
//! know the container by this name keep the same contracts.

use vstd::prelude::*;

verus! {

use crate::key::TableKey;
use crate::separate_chaining::HashMap;

/// A hash table with separate chaining; the same container as
/// [`HashMap`], under a second name.
#[verifier::reject_recursive_types(K)]
#[verifier::reject_recursive_types(V)]
pub struct Chained<K: TableKey, V> {
    table: HashMap<K, V>,
}

impl<K: TableKey, V> View for Chained<K, V> {
    type V = Map<K::V, V>;

    closed spec fn view(&self) -> Map<K::V, V> {
        self.table@
    }
}

impl<K: TableKey, V> Chained<K, V> {
    /// The table's internal invariant.
    pub closed spec fn wf(&self) -> bool {
        self.table.wf()
    }

    /// The number of entries the table holds.
    pub closed spec fn spec_len(&self) -> usize {
        self.table.spec_len()
    }

    /// The current capacity: how many buckets the table has.
    pub closed spec fn spec_capacity(&self) -> usize {
        self.table.spec_capacity()
    }

    /// Creates an empty table: no buckets, no entries.
    pub fn new() -> (t: Self)
        ensures
            t.wf(),
            t@ == Map::<K::V, V>::empty(),
            t.spec_len() == 0,
            t.spec_capacity() == 0,
    {
        Chained { table: HashMap::new() }
    }

    /// Inserts the key-value pair, returning the value the key was bound to
    /// before, if any.
    pub fn insert(&mut self, key: K, value: V) -> (prev: Option<V>)
        requires
            old(self).wf(),
            old(self).spec_len() < usize::MAX / 2,
        ensures
            final(self).wf(),
            final(self)@ == old(self)@.insert(key@, value),
            final(self).spec_capacity() > 0,
            final(self).spec_capacity() as int == (if old(self).spec_len() == 0 || 4 * old(
                self,
            ).spec_len() as int >= 3 * old(self).spec_capacity() as int {
                if old(self).spec_len() == 0 {
                    1int
                } else {
                    2 * old(self).spec_len() as int
                }
            } else {
                old(self).spec_capacity() as int
            }),
            match prev {
                Some(v) => {
                    &&& old(self)@.contains_key(key@)
                    &&& v == old(self)@[key@]
                    &&& final(self).spec_len() == old(self).spec_len()
                },
                None => {
                    &&& !old(self)@.contains_key(key@)
                    &&& final(self).spec_len() == old(self).spec_len() + 1
                },
            },
    {
        self.table.insert(key, value)
    }

    /// Removes the entry for the key, returning its value.
    pub fn remove(&mut self, key: K) -> (r: Option<V>)
        requires
            old(self).wf(),
        ensures
            final(self).wf(),
            final(self)@ == old(self)@.remove(key@),
            final(self).spec_capacity() == old(self).spec_capacity(),
            match r {
                Some(v) => {
                    &&& old(self)@.contains_key(key@)
                    &&& v == old(self)@[key@]
                    &&& final(self).spec_len() + 1 == old(self).spec_len()
                },
                None => {
                    &&& !old(self)@.contains_key(key@)
                    &&& final(self).spec_len() == old(self).spec_len()
                },
            },
    {
        self.table.remove(key)
    }

    /// Looks the key up without mutating the table.
    pub fn get(&self, key: K) -> (r: Option<&V>)
        requires
            self.wf(),
        ensures
            match r {
                Some(v) => self@.contains_key(key@) && *v == self@[key@],
                None => !self@.contains_key(key@),
            },
    {
        self.table.get(key)
    }

    /// Whether the table holds an entry for the key.
    pub fn contains_key(&self, key: K) -> (r: bool)
        requires
            self.wf(),
        ensures
            r == self@.contains_key(key@),
    {
        self.table.contains_key(key)
    }

    /// The number of key-value pairs in the table.
    pub fn len(&self) -> (n: usize)
        ensures
            n == self.spec_len(),
            self.wf() ==> n as int == self@.dom().len(),
    {
        self.table.len()
    }

    /// Whether the table holds no entries.
    pub fn is_empty(&self) -> (r: bool)
        ensures
            r == (self.spec_len() == 0),
            self.wf() ==> r == self@.is_empty(),
    {
        self.table.is_empty()
    }

    /// The number of buckets currently allocated.
    pub fn capacity(&self) -> (n: usize)
        ensures
            n == self.spec_capacity(),
    {
        self.table.capacity()
    }
}

impl<K: TableKey, V> Default for Chained<K, V> {
    /// An empty table.
    fn default() -> (t: Self)
        ensures
            t.wf(),
            t@ == Map::<K::V, V>::empty(),
            t.spec_len() == 0,
            t.spec_capacity() == 0,
    {
        Self::new()
    }
}

} // verus!
