//! The identity key store: one fixed-size secret per registered user.

use crate::message::messaging::IdKey;
use std::collections::HashMap;
use vstd::prelude::*;

verus! {

broadcast use vstd::std_specs::hash::group_hash_axioms;

/// `m` after the entries of `entries` were written in order; a later entry
/// for the same user replaces an earlier one.
pub open spec fn spec_register(m: Map<u32, Seq<u8>>, entries: Seq<IdKey>) -> Map<u32, Seq<u8>>
    decreases entries.len(),
{
    if entries.len() == 0 {
        m
    } else {
        spec_register(m, entries.drop_last()).insert(entries.last().id, entries.last().key@)
    }
}

/// The identity keys of the registered users. Its view maps each registered
/// user to their key.
pub struct IdKeyStore {
    keys: HashMap<u32, [u8; 16]>,
}

impl View for IdKeyStore {
    type V = Map<u32, Seq<u8>>;

    closed spec fn view(&self) -> Map<u32, Seq<u8>> {
        self.keys@.map_values(|k: [u8; 16]| k@)
    }
}

impl IdKeyStore {
    /// A store with no user.
    pub fn new() -> (store: IdKeyStore)
        ensures
            store@ == Map::<u32, Seq<u8>>::empty(),
    {
        let store = IdKeyStore { keys: HashMap::new() };
        assert(store@ =~= Map::<u32, Seq<u8>>::empty());
        store
    }

    /// Registers the users of `vec_id_key` with their keys.
    pub fn add(&mut self, vec_id_key: &Vec<IdKey>)
        ensures
            final(self)@ == spec_register(old(self)@, vec_id_key@),
    {
        let mut i: usize = 0;
        while i < vec_id_key.len()
            invariant
                i <= vec_id_key@.len(),
                self@ == spec_register(old(self)@, vec_id_key@.subrange(0, i as int)),
            decreases vec_id_key@.len() - i,
        {
            let ghost before = self@;
            let entry = vec_id_key[i];
            self.keys.insert(entry.id, entry.key);
            assert(self@ =~= before.insert(entry.id, entry.key@));
            assert(vec_id_key@.subrange(0, i + 1).drop_last() =~= vec_id_key@.subrange(
                0,
                i as int,
            ));
            i = i + 1;
        }
        assert(vec_id_key@.subrange(0, vec_id_key@.len() as int) =~= vec_id_key@);
    }

    /// The key of user `id`, where they are registered.
    pub fn get(&self, id: u32) -> (key: Option<[u8; 16]>)
        ensures
            match key {
                Some(k) => self@.contains_key(id) && self@[id] == k@,
                None => !self@.contains_key(id),
            },
    {
        match self.keys.get(&id) {
            Some(k) => Some(*k),
            None => None,
        }
    }

    /// The keys of those users of `vec_id` that are registered.
    pub fn query(&self, vec_id: &Vec<u32>) -> (found: HashMap<u32, [u8; 16]>)
        ensures
            forall|id: u32|
                found@.contains_key(id) <==> vec_id@.contains(id) && self@.contains_key(id),
            forall|id: u32| found@.contains_key(id) ==> (#[trigger] found@[id])@ == self@[id],
    {
        let mut found: HashMap<u32, [u8; 16]> = HashMap::new();
        let mut i: usize = 0;
        while i < vec_id.len()
            invariant
                i <= vec_id@.len(),
                forall|id: u32|
                    found@.contains_key(id) <==> vec_id@.subrange(0, i as int).contains(id)
                        && self@.contains_key(id),
                forall|id: u32| found@.contains_key(id) ==> (#[trigger] found@[id])@ == self@[id],
            decreases vec_id@.len() - i,
        {
            let id = vec_id[i];
            let ghost before = found@;
            let ghost seen = vec_id@.subrange(0, i as int);
            assert(vec_id@.subrange(0, i + 1) =~= seen.push(id));
            match self.get(id) {
                Some(k) => {
                    found.insert(id, k);
                    assert forall|other: u32|
                        found@.contains_key(other) <==> seen.push(id).contains(other)
                            && self@.contains_key(other) by {
                        if other == id {
                            assert(seen.push(id)[seen.len() as int] == id);
                        } else {
                            if seen.contains(other) {
                                let j = choose|j: int| 0 <= j < seen.len() && seen[j] == other;
                                assert(seen.push(id)[j] == other);
                            }
                        }
                    }
                },
                None => {
                    assert forall|other: u32|
                        found@.contains_key(other) <==> seen.push(id).contains(other)
                            && self@.contains_key(other) by {
                        if seen.contains(other) {
                            let j = choose|j: int| 0 <= j < seen.len() && seen[j] == other;
                            assert(seen.push(id)[j] == other);
                        }
                    }
                },
            }
            i = i + 1;
        }
        assert(vec_id@.subrange(0, vec_id@.len() as int) =~= vec_id@);
        found
    }

    /// Forgets every user.
    pub fn clear(&mut self)
        ensures
            final(self)@ == Map::<u32, Seq<u8>>::empty(),
    {
        self.keys.clear();
        assert(self@ =~= Map::<u32, Seq<u8>>::empty());
    }
}

} // verus!
