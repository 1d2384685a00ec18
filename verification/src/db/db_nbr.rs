//! The neighbor index: for each user, the users they have exchanged messages
//! with.

use crate::message::messaging::Edge;
use std::collections::HashMap;
use vstd::prelude::*;

verus! {

broadcast use vstd::std_specs::hash::group_hash_axioms;

/// The neighbors of `uid` in `m`; a user without an entry has none.
pub open spec fn neighbors_of(m: Map<u32, Seq<u32>>, uid: u32) -> Seq<u32> {
    if m.contains_key(uid) {
        m[uid]
    } else {
        Seq::empty()
    }
}

/// `m` after `b` was made a neighbor of `a`: appended to the neighbors of `a`
/// unless it is among them already.
pub open spec fn spec_link(m: Map<u32, Seq<u32>>, a: u32, b: u32) -> Map<u32, Seq<u32>> {
    if neighbors_of(m, a).contains(b) {
        m
    } else {
        m.insert(a, neighbors_of(m, a).push(b))
    }
}

/// `m` after the edges of `edges` were registered in order, each in both
/// directions.
pub open spec fn spec_add_edges(m: Map<u32, Seq<u32>>, edges: Seq<Edge>) -> Map<u32, Seq<u32>>
    decreases edges.len(),
{
    if edges.len() == 0 {
        m
    } else {
        let e = edges.last();
        spec_link(spec_link(spec_add_edges(m, edges.drop_last()), e.sid, e.rid), e.rid, e.sid)
    }
}

/// Whether no user occurs twice among the neighbors of any user.
pub open spec fn neighbors_distinct(m: Map<u32, Seq<u32>>) -> bool {
    forall|uid: u32| m.contains_key(uid) ==> (#[trigger] m[uid]).no_duplicates()
}

/// Registering a neighbor lists nobody twice.
pub proof fn lemma_link_keeps_distinct(m: Map<u32, Seq<u32>>, a: u32, b: u32)
    requires
        neighbors_distinct(m),
    ensures
        neighbors_distinct(spec_link(m, a, b)),
{
    let after = spec_link(m, a, b);
    if !neighbors_of(m, a).contains(b) {
        let list = neighbors_of(m, a);
        let longer = list.push(b);
        assert(list.no_duplicates());
        assert forall|i: int, j: int| 0 <= i < longer.len() && 0 <= j < longer.len() && i
            != j implies longer[i] != longer[j] by {
            if i == list.len() {
                assert(list[j] == longer[j]);
            } else if j == list.len() {
                assert(list[i] == longer[i]);
            }
        }
        assert forall|uid: u32| after.contains_key(uid) implies (#[trigger] after[uid]).no_duplicates() by {
            if uid != a {
                assert(after[uid] == m[uid]);
            }
        }
    }
}

/// The neighbor index. Its view maps a user to the list of their neighbors, in
/// the order in which they were first registered.
pub struct NbrIndex {
    nbrs: HashMap<u32, Vec<u32>>,
}

impl View for NbrIndex {
    type V = Map<u32, Seq<u32>>;

    closed spec fn view(&self) -> Map<u32, Seq<u32>> {
        self.nbrs@.map_values(|v: Vec<u32>| v@)
    }
}

/// Whether `uid` is among `list`.
fn list_contains(list: &Vec<u32>, uid: u32) -> (found: bool)
    ensures
        found == list@.contains(uid),
{
    let mut i: usize = 0;
    while i < list.len()
        invariant
            i <= list@.len(),
            forall|j: int| 0 <= j < i ==> list@[j] != uid,
        decreases list@.len() - i,
    {
        if list[i] == uid {
            return true;
        }
        i = i + 1;
    }
    false
}

impl NbrIndex {
    /// An index in which nobody has a neighbor.
    pub fn new() -> (index: NbrIndex)
        ensures
            index@ == Map::<u32, Seq<u32>>::empty(),
            neighbors_distinct(index@),
    {
        let index = NbrIndex { nbrs: HashMap::new() };
        assert(index@ =~= Map::<u32, Seq<u32>>::empty());
        index
    }

    /// Makes `b` a neighbor of `a`.
    fn link(&mut self, a: u32, b: u32)
        ensures
            final(self)@ == spec_link(old(self)@, a, b),
            neighbors_distinct(old(self)@) ==> neighbors_distinct(final(self)@),
    {
        proof {
            if neighbors_distinct(self@) {
                lemma_link_keeps_distinct(self@, a, b);
            }
        }
        let ghost before = self@;
        match self.nbrs.remove(&a) {
            Some(list) => {
                let mut list = list;
                assert(list@ == neighbors_of(before, a));
                if !list_contains(&list, b) {
                    list.push(b);
                }
                self.nbrs.insert(a, list);
                assert(self@ =~= spec_link(before, a, b));
            },
            None => {
                let mut list: Vec<u32> = Vec::new();
                list.push(b);
                self.nbrs.insert(a, list);
                assert(neighbors_of(before, a).push(b) =~= list@);
                assert(self@ =~= spec_link(before, a, b));
            },
        }
    }

    /// Registers the edges of `edges`, each in both directions. A neighbor
    /// that is known already is not listed again.
    pub fn add(&mut self, edges: &Vec<Edge>)
        ensures
            final(self)@ == spec_add_edges(old(self)@, edges@),
            neighbors_distinct(old(self)@) ==> neighbors_distinct(final(self)@),
    {
        let mut i: usize = 0;
        while i < edges.len()
            invariant
                i <= edges@.len(),
                self@ == spec_add_edges(old(self)@, edges@.subrange(0, i as int)),
                neighbors_distinct(old(self)@) ==> neighbors_distinct(self@),
            decreases edges@.len() - i,
        {
            let e = edges[i];
            assert(edges@.subrange(0, i + 1).drop_last() =~= edges@.subrange(0, i as int));
            self.link(e.sid, e.rid);
            self.link(e.rid, e.sid);
            i = i + 1;
        }
        assert(edges@.subrange(0, edges@.len() as int) =~= edges@);
    }

    /// The neighbors of `uid`.
    pub fn neighbors(&self, uid: u32) -> (list: Vec<u32>)
        ensures
            list@ == neighbors_of(self@, uid),
    {
        match self.nbrs.get(&uid) {
            Some(list) => list.clone(),
            None => Vec::new(),
        }
    }

    /// The neighbors of each user of `vec_uid`: an entry for every one of
    /// them, empty where the user has none.
    pub fn query(&self, vec_uid: &Vec<u32>) -> (found: HashMap<u32, Vec<u32>>)
        ensures
            forall|uid: u32| found@.contains_key(uid) <==> vec_uid@.contains(uid),
            forall|uid: u32|
                found@.contains_key(uid) ==> (#[trigger] found@[uid])@ == neighbors_of(
                    self@,
                    uid,
                ),
    {
        let mut found: HashMap<u32, Vec<u32>> = HashMap::new();
        let mut i: usize = 0;
        while i < vec_uid.len()
            invariant
                i <= vec_uid@.len(),
                forall|uid: u32|
                    found@.contains_key(uid) <==> vec_uid@.subrange(0, i as int).contains(uid),
                forall|uid: u32|
                    found@.contains_key(uid) ==> (#[trigger] found@[uid])@ == neighbors_of(
                        self@,
                        uid,
                    ),
            decreases vec_uid@.len() - i,
        {
            let uid = vec_uid[i];
            let ghost seen = vec_uid@.subrange(0, i as int);
            assert(vec_uid@.subrange(0, i + 1) =~= seen.push(uid));
            let list = self.neighbors(uid);
            found.insert(uid, list);
            assert forall|other: u32|
                found@.contains_key(other) <==> seen.push(uid).contains(other) by {
                if other == uid {
                    assert(seen.push(uid)[seen.len() as int] == uid);
                } else if seen.contains(other) {
                    let j = choose|j: int| 0 <= j < seen.len() && seen[j] == other;
                    assert(seen.push(uid)[j] == other);
                }
            }
            i = i + 1;
        }
        assert(vec_uid@.subrange(0, vec_uid@.len() as int) =~= vec_uid@);
        found
    }

    /// Forgets every neighbor.
    pub fn clear(&mut self)
        ensures
            final(self)@ == Map::<u32, Seq<u32>>::empty(),
    {
        self.nbrs.clear();
        assert(self@ =~= Map::<u32, Seq<u32>>::empty());
    }
}

} // verus!
