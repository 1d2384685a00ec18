//! Helpers for evaluation runs on recorded graphs.

use crate::db::db_ik::spec_register;
use crate::db::db_nbr::spec_add_edges;
use crate::db::Stores;
use crate::message::messaging::{packet_sealed, send_packet, store_tag, Edge, IdKey, MsgPacket};
use crate::tool::algos::{spec_next_key, spec_tk_gen, tk_gen};
use crate::tool::utils::{decimal, spec_hash};
use vstd::prelude::*;

verus! {

/// The user that starts every evaluation message.
pub const FIRST_SENDER: u32 = 30000;

/// The tag key from which an evaluation message is stepped to its first hop:
/// sixteen bytes of value 1.
pub open spec fn first_hop_key() -> Seq<u8> {
    Seq::new(16, |i: int| 1u8)
}

/// The edges of `vec2` that are not among `vec1`, in the order of `vec2`.
pub fn diff_edges(vec1: &Vec<(usize, usize)>, vec2: &Vec<(usize, usize)>) -> (diff: Vec<
    (usize, usize),
>)
    ensures
        diff@ == vec2@.filter(|e: (usize, usize)| !vec1@.contains(e)),
{
    let ghost keep = |e: (usize, usize)| !vec1@.contains(e);
    let mut diff: Vec<(usize, usize)> = Vec::new();
    let mut i: usize = 0;
    proof {
        assert(vec2@.subrange(0, 0) =~= Seq::<(usize, usize)>::empty());
        reveal(Seq::filter);
    }
    while i < vec2.len()
        invariant
            i <= vec2@.len(),
            keep == (|e: (usize, usize)| !vec1@.contains(e)),
            diff@ == vec2@.subrange(0, i as int).filter(keep),
        decreases vec2@.len() - i,
    {
        let e = vec2[i];
        let mut found = false;
        let mut j: usize = 0;
        while j < vec1.len()
            invariant
                j <= vec1@.len(),
                found == vec1@.subrange(0, j as int).contains(e),
            decreases vec1@.len() - j,
        {
            let ghost seen = vec1@.subrange(0, j as int);
            assert(vec1@.subrange(0, j + 1) =~= seen.push(vec1@[j as int]));
            if vec1[j].0 == e.0 && vec1[j].1 == e.1 {
                found = true;
                assert(seen.push(vec1@[j as int])[j as int] == e);
            } else {
                assert(seen.push(vec1@[j as int]).contains(e) == seen.contains(e)) by {
                    if seen.push(vec1@[j as int]).contains(e) {
                        let k = choose|k: int|
                            0 <= k < seen.len() + 1 && seen.push(vec1@[j as int])[k] == e;
                        assert(seen[k] == e);
                    }
                    if seen.contains(e) {
                        let k = choose|k: int| 0 <= k < seen.len() && seen[k] == e;
                        assert(seen.push(vec1@[j as int])[k] == e);
                    }
                }
            }
            j = j + 1;
        }
        assert(vec1@.subrange(0, vec1@.len() as int) =~= vec1@);
        proof {
            let before = vec2@.subrange(0, i as int);
            assert(vec2@.subrange(0, i + 1) =~= before.push(e));
            assert(before.push(e).drop_last() =~= before);
            reveal(Seq::filter);
        }
        if !found {
            diff.push(e);
        }
        i = i + 1;
    }
    assert(vec2@.subrange(0, vec2@.len() as int) =~= vec2@);
    diff
}

/// Sends `message` over the new edge from `sid` to `rid` and writes its trace
/// tag to the index. `None`, and nothing written, where the sender is not
/// registered.
pub fn new_edge_gen(message: &String, sid: &u32, rid: &u32, stores: &mut Stores) -> (out: Option<
    MsgPacket,
>)
    ensures
        out is Some <==> old(stores)@.keys.contains_key(*sid),
        final(stores)@.keys == old(stores)@.keys,
        final(stores)@.nbrs == old(stores)@.nbrs,
        match out {
            Some(packet) => {
                let tk = spec_tk_gen(old(stores)@.keys[*sid], *rid);
                &&& packet.tag_key@ == spec_next_key(first_hop_key(), tk)
                &&& packet_sealed(packet, message@, tk)
                &&& final(stores)@.tags == old(stores)@.tags.push(packet.p_tag@)
            },
            None => final(stores)@.tags == old(stores)@.tags,
        },
{
    match stores.id_keys.get(*sid) {
        Some(ik) => {
            let tk = tk_gen(&ik, rid);
            let first: [u8; 16] = [1u8; 16];
            assert(first@ =~= first_hop_key());
            assert(first@ != crate::message::messaging::zero_block()) by {
                assert(first@[0] != crate::message::messaging::zero_block()[0]);
            }
            let packet = send_packet(message, &first, &tk);
            store_tag(&packet, &mut stores.tags);
            Some(packet)
        },
        None => None,
    }
}

/// Starts an evaluation message: registers its first sender, makes `root`
/// the sender's neighbor, and sends the message over that edge.
pub fn frist_pkg(message: &String, root: &u32, stores: &mut Stores) -> (out: (u32, MsgPacket))
    ensures
        out.0 == FIRST_SENDER,
        final(stores)@.keys == old(stores)@.keys.insert(
            FIRST_SENDER,
            spec_hash(decimal(FIRST_SENDER as nat)),
        ),
        final(stores)@.nbrs == spec_add_edges(
            old(stores)@.nbrs,
            seq![Edge { sid: FIRST_SENDER, rid: *root }],
        ),
        final(stores)@.tags == old(stores)@.tags.push(out.1.p_tag@),
        out.1.tag_key@ == spec_next_key(
            first_hop_key(),
            spec_tk_gen(spec_hash(decimal(FIRST_SENDER as nat)), *root),
        ),
        packet_sealed(
            out.1,
            message@,
            spec_tk_gen(spec_hash(decimal(FIRST_SENDER as nat)), *root),
        ),
{
    let snd: u32 = FIRST_SENDER;
    let sender = IdKey::id_as_key_gen(snd);
    let mut users: Vec<IdKey> = Vec::new();
    users.push(sender);
    stores.id_keys.add(&users);
    assert(users@.drop_last() =~= Seq::<IdKey>::empty());
    assert(spec_register(old(stores)@.keys, users@) == old(stores)@.keys.insert(
        snd,
        sender.key@,
    )) by {
        assert(spec_register(old(stores)@.keys, users@.drop_last()) == old(stores)@.keys);
    }
    let mut edges: Vec<Edge> = Vec::new();
    edges.push(Edge::new(&snd, root));
    stores.nbrs.add(&edges);
    assert(edges@ =~= seq![Edge { sid: FIRST_SENDER, rid: *root }]);
    let pkg = new_edge_gen(message, &snd, root, stores);
    (snd, pkg.unwrap())
}

} // verus!
