//! The registries of System V shared-memory segments: which id each key
//! was given, and which segment each id names, system-wide or private to a
//! process.
use vstd::prelude::*;
use std::collections::BTreeMap;

verus! {

broadcast use vstd::std_specs::btree::group_btree_axioms;

/// The ids given to shared-memory keys, and the next id to give.
pub struct ShmKeys {
    key_to_shmid: BTreeMap<i32, i32>,
    next_shmid: i32,
}

impl ShmKeys {
    /// The id each key was last given.
    pub closed spec fn ids(&self) -> Map<i32, i32> {
        self.key_to_shmid@
    }

    /// The next id to give.
    pub closed spec fn next(&self) -> i32 {
        self.next_shmid
    }

    /// No key has an id yet; ids start at 1.
    pub fn new() -> (k: Self)
        ensures
            k.ids() == Map::<i32, i32>::empty(),
            k.next() == 1,
    {
        ShmKeys { key_to_shmid: BTreeMap::new(), next_shmid: 1 }
    }

    /// Gives `key`, which has no id yet, the next id and returns it; the
    /// next id is one more, wrapping around.
    pub fn create_shmid(&mut self, key: i32) -> (id: i32)
        requires
            !old(self).ids().contains_key(key),
        ensures
            id == old(self).next(),
            final(self).next() == if old(self).next() == i32::MAX { i32::MIN } else { (old(self).next() + 1) as i32 },
            final(self).ids() == old(self).ids().insert(key, id),
    {
        let id = self.next_shmid;
        self.next_shmid = self.next_shmid.wrapping_add(1);
        self.key_to_shmid.insert(key, id);
        id
    }

    /// The id given to `key`, if any.
    pub fn shmid_of(&self, key: i32) -> (r: Option<i32>)
        ensures
            r == if self.ids().contains_key(key) { Some(self.ids()[key]) } else { None },
    {
        match self.key_to_shmid.get(&key) {
            Some(id) => Some(*id),
            None => None,
        }
    }
}

/// Shared-memory segments by id.
pub struct ShmTable<M> {
    mems: BTreeMap<i32, M>,
}

impl<M> ShmTable<M> {
    /// The segment of each id.
    pub closed spec fn mems(&self) -> Map<i32, M> {
        self.mems@
    }

    /// A table without segments.
    pub fn new() -> (t: Self)
        ensures
            t.mems() == Map::<i32, M>::empty(),
    {
        ShmTable { mems: BTreeMap::new() }
    }

    /// Records segment `mem` under `shmid`, which no segment has yet.
    pub fn add_shared_mem(&mut self, shmid: i32, mem: M)
        requires
            !old(self).mems().contains_key(shmid),
        ensures
            final(self).mems() == old(self).mems().insert(shmid, mem),
    {
        self.mems.insert(shmid, mem);
    }

    /// The segment recorded under `shmid`, if any.
    pub fn get_shared_mem(&self, shmid: i32) -> (r: Option<&M>)
        ensures
            r == if self.mems().contains_key(shmid) { Some(&self.mems()[shmid]) } else { None },
    {
        self.mems.get(&shmid)
    }
}

/// The id given to a key is what looking the key up then finds, and the
/// ids of other keys stay.
pub proof fn lemma_created_id_found(ids: Map<i32, i32>, key: i32, id: i32, other: i32)
    ensures
        ids.insert(key, id).contains_key(key),
        ids.insert(key, id)[key] == id,
        other != key ==> ids.insert(key, id).contains_key(other) == ids.contains_key(other),
        other != key && ids.contains_key(other) ==> ids.insert(key, id)[other] == ids[other],
{
}

/// The segment added under an id is what getting that id then gives, and
/// the segments of other ids stay.
pub proof fn lemma_added_mem_found<M>(mems: Map<i32, M>, shmid: i32, mem: M, other: i32)
    ensures
        mems.insert(shmid, mem).contains_key(shmid),
        mems.insert(shmid, mem)[shmid] == mem,
        other != shmid ==> mems.insert(shmid, mem).contains_key(other) == mems.contains_key(other),
        other != shmid && mems.contains_key(other) ==> mems.insert(shmid, mem)[other] == mems[other],
{
}

} // verus!
