use vstd::prelude::*;

verus! {

use ic_stable_structures::btreemap::BTreeMap;
use ic_stable_structures::vec_mem::VectorMemory;

/// The persistent keyed store: an ordered map from a numeric key to the byte
/// record stored under it, durable across process restarts, with no
/// partial-write visibility. It is held behind ic_stable_structures'
/// BTreeMap, which Verus does not read; everything the core relies on is
/// stated on the methods below, over `store_contents`.
#[verifier::external_body]
pub struct StableStore {
    map: BTreeMap<u64, Vec<u8>, VectorMemory>,
}

/// What a store holds: each key maps to the exact byte record stored under
/// it.
pub uninterp spec fn store_contents(s: StableStore) -> Map<u64, Seq<u8>>;

/// The contents of a store that holds no entries.
pub open spec fn empty_contents() -> Map<u64, Seq<u8>> {
    Map::empty()
}

impl StableStore {
    /// Relies on BTreeMap::new: a freshly initialized map holds no entries.
    #[verifier::external_body]
    pub fn new() -> (r: StableStore)
        ensures
            store_contents(r) == empty_contents(),
    {
        StableStore { map: BTreeMap::new(VectorMemory::default()) }
    }

    /// Relies on BTreeMap::get: returns the value stored under the key, if
    /// any; byte values are stored and returned verbatim.
    #[verifier::external_body]
    pub fn get(&self, k: u64) -> (r: Option<Vec<u8>>)
        ensures
            match r {
                Some(v) => store_contents(*self).contains_key(k) && store_contents(*self)[k]
                    == v@,
                None => !store_contents(*self).contains_key(k),
            },
    {
        self.map.get(&k)
    }

    /// Relies on BTreeMap::insert: stores the value under the key as one
    /// indivisible update, replacing and returning the previous value if one
    /// was present.
    #[verifier::external_body]
    pub fn insert(&mut self, k: u64, v: Vec<u8>) -> (r: Option<Vec<u8>>)
        ensures
            store_contents(*final(self)) == store_contents(*old(self)).insert(k, v@),
            match r {
                Some(p) => store_contents(*old(self)).contains_key(k) && store_contents(
                    *old(self),
                )[k] == p@,
                None => !store_contents(*old(self)).contains_key(k),
            },
    {
        self.map.insert(k, v)
    }

    /// Relies on BTreeMap::remove: removes the entry under the key, returning
    /// the previous value if one was present.
    #[verifier::external_body]
    pub fn remove(&mut self, k: u64) -> (r: Option<Vec<u8>>)
        ensures
            store_contents(*final(self)) == store_contents(*old(self)).remove(k),
            match r {
                Some(p) => store_contents(*old(self)).contains_key(k) && store_contents(
                    *old(self),
                )[k] == p@,
                None => !store_contents(*old(self)).contains_key(k),
            },
    {
        self.map.remove(&k)
    }

    /// Relies on BTreeMap::iter: yields every entry of the map exactly once,
    /// in ascending key order.
    #[verifier::external_body]
    pub fn entries(&self) -> (r: Vec<(u64, Vec<u8>)>)
        ensures
            forall|i: int|
                0 <= i < r@.len() ==> store_contents(*self).contains_key(r@[i].0)
                    && store_contents(*self)[r@[i].0] == r@[i].1@,
            forall|k: u64|
                store_contents(*self).contains_key(k) ==> exists|i: int|
                    0 <= i < r@.len() && r@[i].0 == k,
            forall|i: int, j: int| 0 <= i < j < r@.len() ==> r@[i].0 < r@[j].0,
    {
        self.map.iter().map(|e| (*e.key(), e.value())).collect()
    }
}

} // verus!
