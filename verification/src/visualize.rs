//! Renumbering the users of a traced path for display.

use crate::message::messaging::Edge;
use std::collections::HashMap;
use vstd::prelude::*;

verus! {

broadcast use vstd::std_specs::hash::group_hash_axioms;

/// The rank of each user among the first `n` of `users`: one more than the
/// user's last position.
pub open spec fn spec_ranks(users: Seq<u32>, n: nat) -> Map<u32, u32>
    decreases n,
{
    if n == 0 {
        Map::empty()
    } else {
        spec_ranks(users, (n - 1) as nat).insert(users[n - 1], n as u32)
    }
}

/// Whether both ends of every edge of `edges` have a rank in `ranks`.
pub open spec fn ends_ranked(ranks: Map<u32, u32>, edges: Seq<Edge>) -> bool {
    forall|k: int|
        0 <= k < edges.len() ==> ranks.contains_key((#[trigger] edges[k]).sid)
            && ranks.contains_key(edges[k].rid)
}

/// Replaces the user ids of a path by their ranks in `users_id`: the users
/// become 1, 2, ..., and each edge runs between the ranks of its ends.
///
/// `None` where an end of an edge is not among `users_id`, or where there are
/// more users than a `u32` counts.
pub fn refine_user_id(users_id: Vec<u32>, edges: Vec<Edge>) -> (out: Option<(Vec<u32>, Vec<Edge>)>)
    ensures
        out is Some <==> users_id@.len() <= u32::MAX && ends_ranked(
            spec_ranks(users_id@, users_id@.len()),
            edges@,
        ),
        out matches Some(refined) ==> {
            let ranks = spec_ranks(users_id@, users_id@.len());
            &&& refined.0@ == Seq::new(users_id@.len(), |i: int| (i + 1) as u32)
            &&& refined.1@ == Seq::new(
                edges@.len(),
                |k: int| Edge { sid: ranks[edges@[k].sid], rid: ranks[edges@[k].rid] },
            )
        },
{
    if users_id.len() > u32::MAX as usize {
        return None;
    }
    let mut users: HashMap<u32, u32> = HashMap::new();
    let mut refined_users: Vec<u32> = Vec::new();
    let mut i: usize = 0;
    while i < users_id.len()
        invariant
            i <= users_id@.len() <= u32::MAX,
            users@ == spec_ranks(users_id@, i as nat),
            refined_users@ == Seq::new(i as nat, |k: int| (k + 1) as u32),
        decreases users_id@.len() - i,
    {
        let rank: u32 = (i + 1) as u32;
        users.insert(users_id[i], rank);
        refined_users.push(rank);
        assert(refined_users@ =~= Seq::new((i + 1) as nat, |k: int| (k + 1) as u32));
        i = i + 1;
    }
    let ghost ranks = spec_ranks(users_id@, users_id@.len());
    let mut refined_edges: Vec<Edge> = Vec::new();
    let mut k: usize = 0;
    while k < edges.len()
        invariant
            k <= edges@.len(),
            users@ == ranks,
            ranks == spec_ranks(users_id@, users_id@.len()),
            ends_ranked(ranks, edges@.subrange(0, k as int)),
            refined_edges@ == Seq::new(
                k as nat,
                |j: int| Edge { sid: ranks[edges@[j].sid], rid: ranks[edges@[j].rid] },
            ),
        decreases edges@.len() - k,
    {
        let e = edges[k];
        let sender = match users.get(&e.sid) {
            Some(rank) => *rank,
            None => {
                assert(!ranks.contains_key(edges@[k as int].sid));
                return None;
            },
        };
        let receiver = match users.get(&e.rid) {
            Some(rank) => *rank,
            None => {
                assert(!ranks.contains_key(edges@[k as int].rid));
                return None;
            },
        };
        refined_edges.push(Edge::new(&sender, &receiver));
        assert(refined_edges@ =~= Seq::new(
            (k + 1) as nat,
            |j: int| Edge { sid: ranks[edges@[j].sid], rid: ranks[edges@[j].rid] },
        ));
        assert forall|j: int| 0 <= j < k + 1 implies ranks.contains_key(
            (#[trigger] edges@.subrange(0, k + 1)[j]).sid,
        ) && ranks.contains_key(edges@.subrange(0, k + 1)[j].rid) by {
            if j < k {
                assert(edges@.subrange(0, k as int)[j] == edges@[j]);
            }
        }
        k = k + 1;
    }
    assert(edges@.subrange(0, edges@.len() as int) =~= edges@);
    Some((refined_users, refined_edges))
}

/// The users met along the first `n` edges of `path`, numbered from 0 in the
/// order in which they are first met, the sender of an edge before its
/// receiver; and how many there are.
pub open spec fn spec_numbering(path: Seq<Edge>, n: nat) -> (Map<u32, u32>, nat)
    decreases n,
{
    if n == 0 {
        (Map::empty(), 0)
    } else {
        let (m, count) = spec_numbering(path, (n - 1) as nat);
        let e = path[n - 1];
        let (m1, count1) = if m.contains_key(e.sid) {
            (m, count)
        } else {
            (m.insert(e.sid, count as u32), count + 1)
        };
        if m1.contains_key(e.rid) {
            (m1, count1)
        } else {
            (m1.insert(e.rid, count1 as u32), count1 + 1)
        }
    }
}

/// Every edge numbers at most two users.
proof fn lemma_numbering_bound(path: Seq<Edge>, n: nat)
    ensures
        spec_numbering(path, n).1 <= 2 * n,
    decreases n,
{
    if n > 0 {
        lemma_numbering_bound(path, (n - 1) as nat);
    }
}

/// Numbers the users of a path from 0 in the order in which they are first
/// met.
pub fn path_to_hmap(path: &Vec<Edge>) -> (sess_map: HashMap<u32, u32>)
    requires
        2 * path@.len() <= u32::MAX,
    ensures
        sess_map@ == spec_numbering(path@, path@.len()).0,
{
    let mut sess_map: HashMap<u32, u32> = HashMap::new();
    let mut index: u32 = 0;
    let mut i: usize = 0;
    while i < path.len()
        invariant
            i <= path@.len(),
            2 * path@.len() <= u32::MAX,
            sess_map@ == spec_numbering(path@, i as nat).0,
            index == spec_numbering(path@, i as nat).1,
        decreases path@.len() - i,
    {
        proof {
            lemma_numbering_bound(path@, i as nat);
        }
        let e = path[i];
        if !sess_map.contains_key(&e.sid) {
            sess_map.insert(e.sid, index);
            index = index + 1;
        }
        if !sess_map.contains_key(&e.rid) {
            sess_map.insert(e.rid, index);
            index = index + 1;
        }
        i = i + 1;
    }
    sess_map
}

} // verus!
