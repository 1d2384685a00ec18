//! Rebuilds the forwarding graph of a reported message.
//!
//! The search starts from one node, the reporter with the reported tag key,
//! and grows a list of confirmed edges in rounds. In each round it steps one
//! hop back along the chain (towards the message's origin) and expands every
//! member of the forward frontier by one hop. A hop is confirmed when the
//! trace tag that it would have left is in the membership index.
//!
//! The search itself asks no store. `TraceState` says which users' neighbors
//! it needs, computes the candidate tags from the neighbors and identity keys
//! it is given, and takes the membership answers. `tracing` runs it to its
//! end against the in-memory stores.

use crate::db::db_ik::IdKeyStore;
use crate::db::db_nbr::{neighbors_of, NbrIndex};
use crate::db::db_tag::tags_view;
use crate::db::{Stores, World};
use crate::message::messaging::{Edge, MsgReport};
use crate::trace::laws::{
    chain_follows, lemma_start_invents_nothing, lemma_start_misses_nothing, lemma_trace_counts,
    lemma_trace_invents_nothing, lemma_trace_keeps_message, lemma_trace_misses_nothing,
    lemma_traced_edges_recorded, path_recorded, reached,
};
use crate::trace::state::{
    answers_fit, candidate_tags, first_hit, hit_lists_view, nbr_lists_view, round_keys_known,
    spec_advance, spec_round, spec_start, tags_of, TraceError, TraceState, TraceView,
};
use crate::tool::algos::{
    next_key, prev_key, proc_tag_gen, spec_next_key, spec_prev_key, spec_proc_tag_gen,
    spec_tk_gen, tk_gen,
};
use crate::tool::utils::{base64_encode, base64_text, bytes_equal, decimal, integer_to_string};
use std::collections::HashMap;
use vstd::prelude::*;
use vstd::string::StringExecFns;

verus! {

broadcast use vstd::std_specs::hash::group_hash_axioms;

/// A node of the search as the contracts see it: a user together with the tag
/// key under which the message reached them. One user who received the
/// message twice stands for two nodes.
#[verifier::ext_equal]
pub struct SearchNode {
    pub uid: u32,
    pub key: Seq<u8>,
}

/// A node of the search.
#[derive(Clone, Copy, Debug, PartialEq, Eq)]
pub struct TraceData {
    pub uid: u32,
    pub key: [u8; 16],
}

impl View for TraceData {
    type V = SearchNode;

    open spec fn view(&self) -> SearchNode {
        SearchNode { uid: self.uid, key: self.key@ }
    }
}

/// The nodes of `list`, as the contracts see them.
pub open spec fn nodes_view(list: Seq<TraceData>) -> Seq<SearchNode> {
    Seq::new(list.len(), |i: int| list[i]@)
}

impl TraceData {
    /// The node of the user `id` at the tag key `trace_key`.
    pub fn new(id: u32, trace_key: [u8; 16]) -> (node: TraceData)
        ensures
            node.uid == id,
            node.key == trace_key,
    {
        TraceData { uid: id, key: trace_key }
    }

    /// A text that names the node: the decimal numeral of the user followed
    /// by the base64 text of the key.
    pub fn hash(&self) -> (text: String)
        ensures
            text@ == decimal(self.uid as nat) + base64_text(self.key@),
    {
        let key_text = base64_encode(self.key.as_slice());
        integer_to_string(self.uid as u64).concat(key_text.as_str())
    }

    /// The node in words, for a log line.
    pub fn describe(&self) -> (text: String)
        ensures
            text@ == "User: "@ + decimal(self.uid as nat) + ", Key: "@ + base64_text(self.key@),
    {
        let key_text = base64_encode(self.key.as_slice());
        let number = integer_to_string(self.uid as u64);
        String::from_str("User: ").concat(number.as_str()).concat(", Key: ").concat(
            key_text.as_str(),
        )
    }

    /// Whether two nodes are the same: the same user under the same key.
    pub fn same(&self, other: &TraceData) -> (equal: bool)
        ensures
            equal == (self@ == other@),
    {
        let equal = self.uid == other.uid && bytes_equal(
            self.key.as_slice(),
            other.key.as_slice(),
        );
        assert(equal == (self@ =~= other@));
        equal
    }
}

/// Whether `node` is among `list`.
pub fn nodes_contain(list: &Vec<TraceData>, node: &TraceData) -> (found: bool)
    ensures
        found == nodes_view(list@).contains(node@),
{
    let mut i: usize = 0;
    while i < list.len()
        invariant
            i <= list@.len(),
            forall|j: int| 0 <= j < i ==> nodes_view(list@)[j] != node@,
        decreases list@.len() - i,
    {
        if list[i].same(node) {
            assert(nodes_view(list@)[i as int] == node@);
            return true;
        }
        i = i + 1;
    }
    false
}

/// Which side of an edge a candidate tag tests.
#[derive(Clone, Copy, Debug, PartialEq, Eq, Structural)]
pub enum Direction {
    /// Did this neighbor send the message to the node, at the node's key?
    Backward,
    /// Did the node send the message on to this neighbor, at the key one step
    /// forward?
    Forward,
}

/// A candidate as the contracts see it: the node that the tested hop would
/// lead to, and the trace tag that the hop would have left.
#[verifier::ext_equal]
pub struct CandidateView {
    pub node: SearchNode,
    pub tag: Seq<u8>,
}

/// One hop under test: the node it would lead to, and the trace tag it would
/// have left in the membership index.
#[derive(Debug)]
pub struct Candidate {
    pub uid: u32,
    pub key: [u8; 16],
    pub tag: Vec<u8>,
}

impl View for Candidate {
    type V = CandidateView;

    open spec fn view(&self) -> CandidateView {
        CandidateView { node: SearchNode { uid: self.uid, key: self.key@ }, tag: self.tag@ }
    }
}

/// The candidates of `list`, as the contracts see them.
pub open spec fn candidates_view(list: Seq<Candidate>) -> Seq<CandidateView> {
    Seq::new(list.len(), |i: int| list[i]@)
}

/// The pairwise secret of the hop between `node_uid` and its neighbor `nbr`
/// in the given direction, from the identity key of the hop's sender: the
/// neighbor for a backward hop, the node for a forward hop.
pub open spec fn spec_edge_secret(
    direction: Direction,
    node_uid: u32,
    nbr: u32,
    sender_ik: Seq<u8>,
) -> Seq<u8> {
    match direction {
        Direction::Backward => spec_tk_gen(sender_ik, node_uid),
        Direction::Forward => spec_tk_gen(sender_ik, nbr),
    }
}

/// The candidate for the hop between `node` and its neighbor `nbr`.
///
/// Backward, the tag is taken at the node's own key and the hop leads to the
/// neighbor at the key one step back. Forward, the key is stepped first: the
/// tag is taken at the stepped key and the hop leads to the neighbor at that
/// key.
pub open spec fn spec_candidate(
    direction: Direction,
    node: SearchNode,
    nbr: u32,
    sender_ik: Seq<u8>,
    message: Seq<char>,
) -> CandidateView {
    let tk = spec_edge_secret(direction, node.uid, nbr, sender_ik);
    match direction {
        Direction::Backward => CandidateView {
            node: SearchNode { uid: nbr, key: spec_prev_key(node.key, tk) },
            tag: spec_proc_tag_gen(node.key, tk, message),
        },
        Direction::Forward => CandidateView {
            node: SearchNode { uid: nbr, key: spec_next_key(node.key, tk) },
            tag: spec_proc_tag_gen(spec_next_key(node.key, tk), tk, message),
        },
    }
}

/// Computes the candidate for the hop between `node` and its neighbor `nbr`;
/// `sender_ik` is the identity key of the hop's sender.
pub fn candidate(
    direction: Direction,
    node: &TraceData,
    nbr: u32,
    sender_ik: &[u8; 16],
    message: &String,
) -> (c: Candidate)
    ensures
        c@ == spec_candidate(direction, node@, nbr, sender_ik@, message@),
{
    match direction {
        Direction::Backward => {
            let tk = tk_gen(sender_ik, &node.uid);
            let key = prev_key(&node.key, &tk);
            let tag = proc_tag_gen(&node.key, &tk, message);
            Candidate { uid: nbr, key, tag }
        },
        Direction::Forward => {
            let tk = tk_gen(sender_ik, &nbr);
            let key = next_key(&node.key, &tk);
            let tag = proc_tag_gen(&key, &tk, message);
            Candidate { uid: nbr, key, tag }
        },
    }
}

/// Whether every user of `uids` has an identity key in `keys`.
pub open spec fn keys_cover(keys: Map<u32, Seq<u8>>, uids: Seq<u32>) -> bool {
    forall|j: int| 0 <= j < uids.len() ==> keys.contains_key(#[trigger] uids[j])
}

/// The backward candidates of `node`: one for each neighbor, in order, each
/// under the neighbor's identity key.
pub open spec fn spec_backward_candidates(
    node: SearchNode,
    nbrs: Seq<u32>,
    keys: Map<u32, Seq<u8>>,
    message: Seq<char>,
) -> Seq<CandidateView> {
    Seq::new(
        nbrs.len(),
        |j: int| spec_candidate(Direction::Backward, node, nbrs[j], keys[nbrs[j]], message),
    )
}

/// The forward candidates of `node`: one for each neighbor, in order, all
/// under the node's own identity key.
pub open spec fn spec_forward_candidates(
    node: SearchNode,
    nbrs: Seq<u32>,
    keys: Map<u32, Seq<u8>>,
    message: Seq<char>,
) -> Seq<CandidateView> {
    Seq::new(
        nbrs.len(),
        |j: int| spec_candidate(Direction::Forward, node, nbrs[j], keys[node.uid], message),
    )
}

/// Computes the backward candidates of `node`; `None` where a neighbor has no
/// identity key in `id_keys`.
pub fn backward_candidates(
    node: &TraceData,
    nbrs: &Vec<u32>,
    id_keys: &IdKeyStore,
    message: &String,
) -> (out: Option<Vec<Candidate>>)
    ensures
        out is Some <==> keys_cover(id_keys@, nbrs@),
        out is Some ==> candidates_view(out->0@) == spec_backward_candidates(
            node@,
            nbrs@,
            id_keys@,
            message@,
        ),
{
    let mut out: Vec<Candidate> = Vec::new();
    let mut j: usize = 0;
    while j < nbrs.len()
        invariant
            j <= nbrs@.len(),
            out@.len() == j,
            keys_cover(id_keys@, nbrs@.subrange(0, j as int)),
            forall|k: int|
                0 <= k < j ==> (#[trigger] out@[k])@ == spec_candidate(
                    Direction::Backward,
                    node@,
                    nbrs@[k],
                    id_keys@[nbrs@[k]],
                    message@,
                ),
        decreases nbrs@.len() - j,
    {
        let nbr = nbrs[j];
        match id_keys.get(nbr) {
            Some(ik) => {
                out.push(candidate(Direction::Backward, node, nbr, &ik, message));
            },
            None => {
                assert(!id_keys@.contains_key(nbrs@[j as int]));
                return None;
            },
        }
        assert forall|k: int| 0 <= k < j + 1 implies id_keys@.contains_key(
            #[trigger] nbrs@.subrange(0, j + 1)[k],
        ) by {
            if k < j {
                assert(nbrs@.subrange(0, j as int)[k] == nbrs@[k]);
            }
        }
        j = j + 1;
    }
    assert(nbrs@.subrange(0, nbrs@.len() as int) =~= nbrs@);
    assert(candidates_view(out@) =~= spec_backward_candidates(
        node@,
        nbrs@,
        id_keys@,
        message@,
    ));
    Some(out)
}

/// Computes the forward candidates of `node`; `None` where the node has
/// neighbors but no identity key in `id_keys`.
pub fn forward_candidates(
    node: &TraceData,
    nbrs: &Vec<u32>,
    id_keys: &IdKeyStore,
    message: &String,
) -> (out: Option<Vec<Candidate>>)
    ensures
        out is Some <==> (nbrs@.len() == 0 || id_keys@.contains_key(node.uid)),
        out is Some ==> candidates_view(out->0@) == spec_forward_candidates(
            node@,
            nbrs@,
            id_keys@,
            message@,
        ),
{
    let mut out: Vec<Candidate> = Vec::new();
    if nbrs.len() == 0 {
        assert(candidates_view(out@) =~= spec_forward_candidates(
            node@,
            nbrs@,
            id_keys@,
            message@,
        ));
        return Some(out);
    }
    let ik = match id_keys.get(node.uid) {
        Some(ik) => ik,
        None => {
            return None;
        },
    };
    let mut j: usize = 0;
    while j < nbrs.len()
        invariant
            j <= nbrs@.len(),
            out@.len() == j,
            id_keys@.contains_key(node.uid),
            ik@ == id_keys@[node.uid],
            forall|k: int|
                0 <= k < j ==> (#[trigger] out@[k])@ == spec_candidate(
                    Direction::Forward,
                    node@,
                    nbrs@[k],
                    id_keys@[node.uid],
                    message@,
                ),
        decreases nbrs@.len() - j,
    {
        out.push(candidate(Direction::Forward, node, nbrs[j], &ik, message));
        j = j + 1;
    }
    assert(candidates_view(out@) =~= spec_forward_candidates(
        node@,
        nbrs@,
        id_keys@,
        message@,
    ));
    Some(out)
}

// ---------------------------------------------------------------------------
// A whole trace against the stores
// ---------------------------------------------------------------------------

/// The neighbors of the backward node of `state` in `w`; none where the chain
/// has ended.
pub open spec fn world_backward_nbrs(w: World, state: TraceView) -> Seq<u32> {
    match state.backward {
        Some(b) => neighbors_of(w.nbrs, b.uid),
        None => Seq::empty(),
    }
}

/// The neighbors of each frontier member of `state` in `w`.
pub open spec fn world_frontier_nbrs(w: World, state: TraceView) -> Seq<Seq<u32>> {
    Seq::new(state.frontier.len(), |i: int| neighbors_of(w.nbrs, state.frontier[i].uid))
}

/// For each candidate of `cands`, whether its tag was written to `w`.
pub open spec fn world_hits(w: World, cands: Seq<CandidateView>) -> Seq<bool> {
    Seq::new(cands.len(), |j: int| w.tags.contains(cands[j].tag))
}

/// For each candidate of each list of `lists`, whether its tag was written to
/// `w`.
pub open spec fn world_hit_lists(w: World, lists: Seq<Seq<CandidateView>>) -> Seq<Seq<bool>> {
    Seq::new(lists.len(), |i: int| world_hits(w, lists[i]))
}

/// The sender that `w` confirms for `node`: the node of the first backward
/// candidate of `node` whose tag was written, if there is one.
pub open spec fn world_parent(w: World, message: Seq<char>, node: SearchNode) -> Option<
    SearchNode,
> {
    let cands = spec_backward_candidates(
        node,
        neighbors_of(w.nbrs, node.uid),
        w.keys,
        message,
    );
    match first_hit(world_hits(w, cands), cands.len()) {
        Some(i) => Some(cands[i].node),
        None => None,
    }
}

/// Whether `w` confirms `child` as a receiver of `node`: `child` is the node
/// of a forward candidate of `node` whose tag was written.
pub open spec fn world_child(w: World, message: Seq<char>, node: SearchNode, child: SearchNode) -> bool {
    let cands = spec_forward_candidates(
        node,
        neighbors_of(w.nbrs, node.uid),
        w.keys,
        message,
    );
    exists|j: int| 0 <= j < cands.len() && w.tags.contains((#[trigger] cands[j]).tag) && cands[j].node
        == child
}

/// The nodes of the first `n` candidates of `cands` whose tag was written to
/// `w`, in order.
pub open spec fn confirmed_nodes(w: World, cands: Seq<CandidateView>, n: nat) -> Seq<SearchNode>
    decreases n,
{
    if n == 0 {
        Seq::empty()
    } else {
        let before = confirmed_nodes(w, cands, (n - 1) as nat);
        if w.tags.contains(cands[n - 1].tag) {
            before.push(cands[n - 1].node)
        } else {
            before
        }
    }
}

/// The receivers that `w` confirms for `node`, in the order of its
/// neighbors.
pub open spec fn world_children(w: World, message: Seq<char>, node: SearchNode) -> Seq<
    SearchNode,
> {
    let cands = spec_forward_candidates(
        node,
        neighbors_of(w.nbrs, node.uid),
        w.keys,
        message,
    );
    confirmed_nodes(w, cands, cands.len())
}

/// One round of the search against `w`: the candidates are computed from the
/// neighbors and identity keys that `w` holds, and confirmed by the tags that
/// `w` holds. The round is given up where an identity key that it needs is
/// missing.
pub open spec fn world_step(w: World, state: TraceView) -> Result<TraceView, TraceError> {
    let backward_nbrs = world_backward_nbrs(w, state);
    let frontier_nbrs = world_frontier_nbrs(w, state);
    if !round_keys_known(state, backward_nbrs, frontier_nbrs, w.keys) {
        Err(TraceError::MissingIdentityKey)
    } else {
        let round = spec_round(state, backward_nbrs, frontier_nbrs, w.keys);
        Ok(
            spec_advance(
                state,
                round,
                world_hits(w, round.backward),
                world_hit_lists(w, round.forward),
            ),
        )
    }
}

/// The search against `w` from `state` on, with `budget` rounds to spend: the
/// state in which it is done, or why it was given up.
pub open spec fn world_trace(w: World, state: TraceView, budget: nat) -> Result<
    TraceView,
    TraceError,
>
    decreases budget,
{
    if state.done() {
        Ok(state)
    } else if budget == 0 {
        Err(TraceError::RoundLimit)
    } else {
        match world_step(w, state) {
            Ok(after) => world_trace(w, after, (budget - 1) as nat),
            Err(e) => Err(e),
        }
    }
}

/// The neighbors of each user of `uids`, in order.
pub fn neighbor_lists(nbrs: &NbrIndex, uids: &Vec<u32>) -> (lists: Vec<Vec<u32>>)
    ensures
        lists@.len() == uids@.len(),
        forall|i: int|
            0 <= i < uids@.len() ==> (#[trigger] lists@[i])@ == neighbors_of(nbrs@, uids@[i]),
{
    let mut lists: Vec<Vec<u32>> = Vec::new();
    let mut i: usize = 0;
    while i < uids.len()
        invariant
            i <= uids@.len(),
            lists@.len() == i,
            forall|k: int|
                0 <= k < i ==> (#[trigger] lists@[k])@ == neighbors_of(nbrs@, uids@[k]),
        decreases uids@.len() - i,
    {
        lists.push(nbrs.neighbors(uids[i]));
        i = i + 1;
    }
    lists
}

/// Looks for the sender of the node `md` of the message `input_msg`: the
/// backward candidate of every neighbor is asked for in one batch, and the
/// first that the membership index confirms is the sender, at the key one
/// step back. `None` where no candidate is confirmed: `md` is the origin of
/// the message, as far as the stores know.
///
/// The search is given up where a neighbor has no identity key.
pub fn par_backward_search(input_msg: &String, md: &TraceData, stores: &Stores) -> (out: Result<
    Option<TraceData>,
    TraceError,
>)
    ensures
        !keys_cover(stores@.keys, neighbors_of(stores@.nbrs, md.uid)) ==> out is Err
            && out->Err_0 == TraceError::MissingIdentityKey,
        keys_cover(stores@.keys, neighbors_of(stores@.nbrs, md.uid)) ==> out is Ok && match world_parent(
            stores@,
            input_msg@,
            md@,
        ) {
            Some(p) => out->Ok_0 is Some && out->Ok_0->0@ == p,
            None => out->Ok_0 is None,
        },
{
    let ghost w = stores@;
    let nbrs = stores.nbrs.neighbors(md.uid);
    let cands = match backward_candidates(md, &nbrs, &stores.id_keys, input_msg) {
        Some(cands) => cands,
        None => {
            return Err(TraceError::MissingIdentityKey);
        },
    };
    let tags = candidate_tags(&cands);
    let hits = stores.tags.mexists(&tags);
    assert(hits@ =~= world_hits(w, candidates_view(cands@))) by {
        assert(tags_view(tags@).len() == tags_of(candidates_view(cands@)).len());
        assert forall|j: int| 0 <= j < tags@.len() implies tags@[j]@ == candidates_view(
            cands@,
        )[j].tag by {
            assert(tags_view(tags@)[j] == tags_of(candidates_view(cands@))[j]);
        }
    }
    let mut i: usize = 0;
    while i < hits.len()
        invariant
            i <= hits@.len(),
            hits@.len() == cands@.len(),
            w == stores@,
            keys_cover(w.keys, neighbors_of(w.nbrs, md.uid)),
            candidates_view(cands@) == spec_backward_candidates(
                md@,
                neighbors_of(w.nbrs, md.uid),
                w.keys,
                input_msg@,
            ),
            hits@ == world_hits(w, candidates_view(cands@)),
            first_hit(hits@, i as nat) is None,
        decreases hits@.len() - i,
    {
        if hits[i] {
            assert(first_hit(hits@, (i + 1) as nat) == Some(i as int));
            proof {
                lemma_first_hit_stays(hits@, (i + 1) as nat, hits@.len());
            }
            return Ok(Some(TraceData { uid: cands[i].uid, key: cands[i].key }));
        }
        i = i + 1;
    }
    Ok(None)
}

/// Once a `true` is met among the answers, it stays the first.
proof fn lemma_first_hit_stays(hits: Seq<bool>, n: nat, m: nat)
    requires
        n <= m,
        first_hit(hits, n) is Some,
    ensures
        first_hit(hits, m) == first_hit(hits, n),
    decreases m,
{
    if n < m {
        lemma_first_hit_stays(hits, n, (m - 1) as nat);
    }
}

/// The nodes of those of `cands` that the membership index confirms, in
/// order.
fn confirmed(cands: &Vec<Candidate>, stores: &Stores) -> (out: Vec<TraceData>)
    ensures
        nodes_view(out@) == confirmed_nodes(stores@, candidates_view(cands@), cands@.len()),
{
    let ghost w = stores@;
    let tags = candidate_tags(cands);
    let hits = stores.tags.mexists(&tags);
    assert(hits@ =~= world_hits(w, candidates_view(cands@))) by {
        assert(tags_view(tags@).len() == tags_of(candidates_view(cands@)).len());
        assert forall|j: int| 0 <= j < tags@.len() implies tags@[j]@ == candidates_view(
            cands@,
        )[j].tag by {
            assert(tags_view(tags@)[j] == tags_of(candidates_view(cands@))[j]);
        }
    }
    let mut out: Vec<TraceData> = Vec::new();
    let mut j: usize = 0;
    assert(nodes_view(out@) =~= confirmed_nodes(w, candidates_view(cands@), 0));
    while j < cands.len()
        invariant
            j <= cands@.len(),
            w == stores@,
            hits@ == world_hits(w, candidates_view(cands@)),
            nodes_view(out@) == confirmed_nodes(w, candidates_view(cands@), j as nat),
        decreases cands@.len() - j,
    {
        if hits[j] {
            let ghost before = nodes_view(out@);
            let node = TraceData { uid: cands[j].uid, key: cands[j].key };
            out.push(node);
            assert(nodes_view(out@) =~= before.push(node@));
        }
        j = j + 1;
    }
    out
}

/// Looks for the receivers of each node of `md` of the message `input_msg`:
/// for every node the forward candidate of each of its neighbors is asked
/// for, and those that the membership index confirms are its receivers, each
/// at the key one step forward.
///
/// The search is given up where a node has neighbors but no identity key.
pub fn par_forward_search(input_msg: &String, md: &Vec<TraceData>, stores: &Stores) -> (out: Result<
    Vec<Vec<TraceData>>,
    TraceError,
>)
    ensures
        out is Ok <==> forall|i: int|
            0 <= i < md@.len() ==> (neighbors_of(stores@.nbrs, (#[trigger] md@[i]).uid).len() == 0
                || stores@.keys.contains_key(md@[i].uid)),
        out matches Ok(found) ==> found@.len() == md@.len() && forall|i: int|
            0 <= i < md@.len() ==> nodes_view((#[trigger] found@[i])@) == world_children(
                stores@,
                input_msg@,
                md@[i]@,
            ),
        out matches Err(e) ==> e == TraceError::MissingIdentityKey,
{
    let mut result: Vec<Vec<TraceData>> = Vec::new();
    let mut i: usize = 0;
    while i < md.len()
        invariant
            i <= md@.len(),
            result@.len() == i,
            forall|k: int|
                0 <= k < i ==> (neighbors_of(stores@.nbrs, (#[trigger] md@[k]).uid).len() == 0
                    || stores@.keys.contains_key(md@[k].uid)),
            forall|k: int|
                0 <= k < i ==> nodes_view((#[trigger] result@[k])@) == world_children(
                    stores@,
                    input_msg@,
                    md@[k]@,
                ),
        decreases md@.len() - i,
    {
        let vec_nbrs = stores.nbrs.neighbors(md[i].uid);
        let cands = match forward_candidates(&md[i], &vec_nbrs, &stores.id_keys, input_msg) {
            Some(cands) => cands,
            None => {
                assert(!(neighbors_of(stores@.nbrs, md@[i as int].uid).len() == 0
                    || stores@.keys.contains_key(md@[i as int].uid)));
                return Err(TraceError::MissingIdentityKey);
            },
        };
        result.push(confirmed(&cands, stores));
        i = i + 1;
    }
    Ok(result)
}

/// The values of a map from places to values, in the order of their places.
/// `None` where the places are not 0, 1, ... without a gap.
pub fn hmap_to_vec_in_squence<T: Copy>(hmap: &HashMap<usize, T>) -> (out: Option<Vec<T>>)
    ensures
        out is Some <==> forall|i: usize| i < hmap@.len() ==> hmap@.contains_key(i),
        out matches Some(list) ==> list@.len() == hmap@.len() && forall|i: int|
            0 <= i < list@.len() ==> list@[i] == hmap@[i as usize],
{
    let mut key_vec: Vec<T> = Vec::new();
    let length = hmap.len();
    let mut i: usize = 0;
    while i < length
        invariant
            i <= length,
            length == hmap@.len(),
            key_vec@.len() == i,
            forall|k: usize| k < i ==> hmap@.contains_key(k),
            forall|k: int| 0 <= k < i ==> key_vec@[k] == hmap@[k as usize],
        decreases length - i,
    {
        match hmap.get(&i) {
            Some(bind) => {
                key_vec.push(*bind);
            },
            None => {
                return None;
            },
        }
        i = i + 1;
    }
    Some(key_vec)
}

/// Whether `id` is one of `vec_uid` or a neighbor of one of them.
pub open spec fn concerned(nbrs: Map<u32, Seq<u32>>, vec_uid: Seq<u32>, id: u32) -> bool {
    vec_uid.contains(id) || exists|i: int|
        0 <= i < vec_uid.len() && neighbors_of(nbrs, #[trigger] vec_uid[i]).contains(id)
}

/// What a list holds once one more element is pushed.
proof fn lemma_push_contains(s: Seq<u32>, x: u32)
    ensures
        forall|y: u32| #[trigger] s.push(x).contains(y) <==> (s.contains(y) || y == x),
{
    assert forall|y: u32| #[trigger] s.push(x).contains(y) <==> (s.contains(y) || y == x) by {
        if s.push(x).contains(y) {
            let k = choose|k: int| 0 <= k < s.push(x).len() && s.push(x)[k] == y;
            if k < s.len() {
                assert(s[k] == y);
            }
        }
        if s.contains(y) {
            let k = choose|k: int| 0 <= k < s.len() && s[k] == y;
            assert(s.push(x)[k] == y);
        }
        if y == x {
            assert(s.push(x)[s.len() as int] == y);
        }
    }
}

/// What a round needs to know of the users `vec_uid`: the neighbors of each,
/// in order, and the identity keys of all of them and of all their neighbors,
/// as far as they have one.
pub fn db_query_nbrs(vec_uid: &Vec<u32>, stores: &Stores) -> (out: (
    Vec<Vec<u32>>,
    HashMap<u32, [u8; 16]>,
))
    ensures
        out.0@.len() == vec_uid@.len(),
        forall|i: int|
            0 <= i < vec_uid@.len() ==> (#[trigger] out.0@[i])@ == neighbors_of(
                stores@.nbrs,
                vec_uid@[i],
            ),
        forall|id: u32|
            out.1@.contains_key(id) <==> concerned(stores@.nbrs, vec_uid@, id)
                && stores@.keys.contains_key(id),
        forall|id: u32|
            out.1@.contains_key(id) ==> stores@.keys.contains_key(id) && (#[trigger] out.1@[id])@
                == stores@.keys[id],
{
    let ghost nbrs = stores@.nbrs;
    let vec_vec_nbrs = neighbor_lists(&stores.nbrs, vec_uid);
    let mut vec_values: Vec<u32> = Vec::new();
    let mut i: usize = 0;
    while i < vec_vec_nbrs.len()
        invariant
            i <= vec_vec_nbrs@.len(),
            nbrs == stores@.nbrs,
            vec_vec_nbrs@.len() == vec_uid@.len(),
            forall|k: int|
                0 <= k < vec_uid@.len() ==> (#[trigger] vec_vec_nbrs@[k])@ == neighbors_of(
                    nbrs,
                    vec_uid@[k],
                ),
            forall|id: u32|
                #[trigger] vec_values@.contains(id) <==> exists|k: int|
                    0 <= k < i && neighbors_of(nbrs, #[trigger] vec_uid@[k]).contains(id),
        decreases vec_vec_nbrs@.len() - i,
    {
        let ghost list = neighbors_of(nbrs, vec_uid@[i as int]);
        let ghost start = vec_values@;
        assert(vec_vec_nbrs@[i as int]@ == list);
        assert(list.subrange(0, 0) =~= Seq::<u32>::empty());
        let mut j: usize = 0;
        while j < vec_vec_nbrs[i].len()
            invariant
                i < vec_vec_nbrs@.len(),
                j <= vec_vec_nbrs@[i as int]@.len(),
                vec_vec_nbrs@[i as int]@ == list,
                forall|id: u32|
                    #[trigger] vec_values@.contains(id) <==> start.contains(id) || list.subrange(
                        0,
                        j as int,
                    ).contains(id),
            decreases vec_vec_nbrs@[i as int]@.len() - j,
        {
            let ghost before = vec_values@;
            let ghost seen = list.subrange(0, j as int);
            let id = vec_vec_nbrs[i][j];
            vec_values.push(id);
            proof {
                assert(list.subrange(0, j + 1) =~= seen.push(id));
                lemma_push_contains(before, id);
                lemma_push_contains(seen, id);
                assert forall|y: u32|
                    #[trigger] vec_values@.contains(y) <==> start.contains(y) || list.subrange(
                        0,
                        j + 1,
                    ).contains(y) by {
                    assert(before.push(id).contains(y) <==> (before.contains(y) || y == id));
                    assert(seen.push(id).contains(y) <==> (seen.contains(y) || y == id));
                    assert(before.contains(y) <==> start.contains(y) || seen.contains(y));
                }
            }
            j = j + 1;
        }
        proof {
            assert(list.subrange(0, list.len() as int) =~= list);
            assert forall|id: u32|
                #[trigger] vec_values@.contains(id) <==> exists|k: int|
                    0 <= k < i + 1 && neighbors_of(nbrs, #[trigger] vec_uid@[k]).contains(
                        id,
                    ) by {
                if start.contains(id) {
                    let k = choose|k: int|
                        0 <= k < i && neighbors_of(nbrs, #[trigger] vec_uid@[k]).contains(id);
                    assert(neighbors_of(nbrs, vec_uid@[k]).contains(id));
                }
                if list.contains(id) {
                    assert(neighbors_of(nbrs, vec_uid@[i as int]).contains(id));
                }
                if exists|k: int|
                    0 <= k < i + 1 && neighbors_of(nbrs, #[trigger] vec_uid@[k]).contains(id) {
                    let k = choose|k: int|
                        0 <= k < i + 1 && neighbors_of(nbrs, #[trigger] vec_uid@[k]).contains(id);
                    if k < i {
                        assert(start.contains(id));
                    }
                }
            }
        }
        i = i + 1;
    }
    let ghost neighbors = vec_values@;
    assert forall|id: u32| #[trigger]
        neighbors.contains(id) <==> exists|m: int|
            0 <= m < vec_uid@.len() && neighbors_of(nbrs, #[trigger] vec_uid@[m]).contains(id) by {
        assert(vec_values@.contains(id) == neighbors.contains(id));
    }
    assert(vec_uid@.subrange(0, 0) =~= Seq::<u32>::empty());
    let mut k: usize = 0;
    while k < vec_uid.len()
        invariant
            k <= vec_uid@.len(),
            forall|id: u32| #[trigger]
                neighbors.contains(id) <==> exists|m: int|
                    0 <= m < vec_uid@.len() && neighbors_of(nbrs, #[trigger] vec_uid@[m]).contains(
                        id,
                    ),
            forall|id: u32|
                #[trigger] vec_values@.contains(id) <==> neighbors.contains(id) || vec_uid@.subrange(
                    0,
                    k as int,
                ).contains(id),
        decreases vec_uid@.len() - k,
    {
        let ghost before = vec_values@;
        let ghost seen = vec_uid@.subrange(0, k as int);
        let id = vec_uid[k];
        vec_values.push(id);
        proof {
            assert(vec_uid@.subrange(0, k + 1) =~= seen.push(id));
            lemma_push_contains(before, id);
            lemma_push_contains(seen, id);
            assert forall|y: u32|
                #[trigger] vec_values@.contains(y) <==> neighbors.contains(y) || vec_uid@.subrange(
                    0,
                    k + 1,
                ).contains(y) by {
                assert(before.push(id).contains(y) <==> (before.contains(y) || y == id));
                assert(seen.push(id).contains(y) <==> (seen.contains(y) || y == id));
                assert(before.contains(y) <==> neighbors.contains(y) || seen.contains(y));
            }
        }
        k = k + 1;
    }
    assert(vec_uid@.subrange(0, vec_uid@.len() as int) =~= vec_uid@);
    let map_id_ik = stores.id_keys.query(&vec_values);
    assert forall|id: u32|
        map_id_ik@.contains_key(id) <==> concerned(nbrs, vec_uid@, id) && stores@.keys.contains_key(
            id,
        ) by {
        assert(vec_values@.contains(id) <==> neighbors.contains(id) || vec_uid@.contains(id));
        assert(stores.id_keys@ == stores@.keys);
        if neighbors.contains(id) {
            let m = choose|m: int|
                0 <= m < vec_uid@.len() && neighbors_of(nbrs, #[trigger] vec_uid@[m]).contains(id);
            assert(neighbors_of(nbrs, vec_uid@[m]).contains(id));
        }
        if concerned(nbrs, vec_uid@, id) && !vec_uid@.contains(id) {
            let m = choose|m: int|
                0 <= m < vec_uid@.len() && neighbors_of(nbrs, #[trigger] vec_uid@[m]).contains(id);
            assert(neighbors.contains(id));
        }
    }
    (vec_vec_nbrs, map_id_ik)
}

/// Runs one round of `state` against `stores`.
pub fn trace_round(state: &mut TraceState, stores: &Stores) -> (out: Result<(), TraceError>)
    ensures
        match world_step(stores@, old(state)@) {
            Ok(after) => out is Ok && final(state)@ == after,
            Err(e) => out is Err && out->Err_0 == e,
        },
        old(state)@.distinct() && out is Ok ==> final(state)@.distinct(),
{
    let ghost w = stores@;
    let ghost before = state@;
    let backward_nbrs = match state.backward_user() {
        Some(uid) => stores.nbrs.neighbors(uid),
        None => Vec::new(),
    };
    assert(backward_nbrs@ =~= world_backward_nbrs(w, before));
    let users = state.frontier_users();
    let frontier_nbrs = neighbor_lists(&stores.nbrs, &users);
    assert(nbr_lists_view(frontier_nbrs@) =~= world_frontier_nbrs(w, before));
    let round = match state.candidates(&backward_nbrs, &frontier_nbrs, &stores.id_keys) {
        Ok(round) => round,
        Err(e) => {
            return Err(e);
        },
    };
    let backward_tags = round.backward_tags();
    let backward_hits = stores.tags.mexists(&backward_tags);
    assert(backward_hits@ =~= world_hits(w, round@.backward)) by {
        assert(tags_view(backward_tags@).len() == tags_of(round@.backward).len());
        assert forall|j: int| 0 <= j < backward_tags@.len() implies backward_tags@[j]@
            == round@.backward[j].tag by {
            assert(tags_view(backward_tags@)[j] == tags_of(round@.backward)[j]);
        }
    }
    let forward_tags = round.forward_tags();
    let forward_hits = stores.tags.mexists_pack(&forward_tags);
    assert(hit_lists_view(forward_hits@) =~= world_hit_lists(w, round@.forward)) by {
        assert forall|i: int| 0 <= i < forward_tags@.len() implies forward_hits@[i]@
            =~= world_hits(w, round@.forward[i]) by {
            assert(tags_view(forward_tags@[i]@).len() == tags_of(round@.forward[i]).len());
            assert forall|j: int| 0 <= j < forward_tags@[i]@.len() implies forward_tags@[i]@[j]@
                == round@.forward[i][j].tag by {
                assert(tags_view(forward_tags@[i]@)[j] == tags_of(round@.forward[i])[j]);
            }
        }
    }
    assert(answers_fit(before, round@, backward_hits@, hit_lists_view(forward_hits@)));
    state.advance(&round, &backward_hits, &forward_hits)
}

/// Traces `report`, handed in by the user `snd_start`, against `stores`, in
/// at most `max_rounds` rounds, and returns the state in which the search was
/// done.
///
/// The trace is given up, and nothing is returned of it, where an identity
/// key that a round needs is missing or the rounds run out.
///
/// Of a finished trace the stores confirm every edge. Its backward chain
/// leads from the reported node from sender to confirmed sender until a node
/// has none. The visited nodes are the nodes of the chain and, with every
/// node, all of its confirmed receivers, and no others; none is visited
/// twice.
pub fn run_trace(report: &MsgReport, snd_start: &u32, stores: &Stores, max_rounds: usize) -> (out:
    Result<TraceState, TraceError>)
    ensures
        match world_trace(
            stores@,
            spec_start(report.payload@, SearchNode { uid: *snd_start, key: report.key@ }),
            max_rounds as nat,
        ) {
            Ok(end) => out is Ok && out->Ok_0@ == end && end.done() && end.distinct(),
            Err(e) => out is Err && out->Err_0 == e,
        },
        out matches Ok(end) ==> {
            let start = SearchNode { uid: *snd_start, key: report.key@ };
            &&& path_recorded(stores@, report.payload@, end.path@)
            &&& chain_follows(stores@, end@, start)
            &&& forall|i: int|
                0 <= i < end@.chain.len() ==> end@.visited.contains(#[trigger] end@.chain[i])
            &&& forall|v: SearchNode, child: SearchNode|
                end@.visited.contains(v) && #[trigger] world_child(
                    stores@,
                    report.payload@,
                    v,
                    child,
                ) ==> end@.visited.contains(child)
            &&& forall|i: int|
                0 <= i < end@.visited.len() ==> reached(stores@, end@, #[trigger] end@.visited[i])
            &&& end@.visited.len() <= end@.path.len() + 1
            &&& end@.path.len() + 2 <= end@.visited.len() + end@.chain.len()
        },
{
    let ghost w = stores@;
    let ghost first = spec_start(
        report.payload@,
        SearchNode { uid: *snd_start, key: report.key@ },
    );
    let mut state = TraceState::start(report, *snd_start);
    proof {
        lemma_traced_edges_recorded(w, first, max_rounds as nat);
        lemma_start_misses_nothing(w, report.payload@, first.chain[0]);
        lemma_trace_misses_nothing(w, first, first.chain[0], max_rounds as nat);
        lemma_trace_keeps_message(w, first, max_rounds as nat);
        lemma_start_invents_nothing(w, report.payload@, first.chain[0]);
        lemma_trace_invents_nothing(w, first, max_rounds as nat);
        lemma_trace_counts(w, first, max_rounds as nat);
    }
    assert(first.distinct()) by {
        assert(first.visited + first.frontier =~= seq![first.frontier[0]]);
    }
    let mut rounds: usize = 0;
    while rounds < max_rounds && !state.is_done()
        invariant
            rounds <= max_rounds,
            w == stores@,
            first == spec_start(report.payload@, SearchNode { uid: *snd_start, key: report.key@ }),
            state@.distinct(),
            world_trace(w, first, max_rounds as nat) == world_trace(
                w,
                state@,
                (max_rounds - rounds) as nat,
            ),
        decreases max_rounds - rounds,
    {
        let ghost before = state@;
        assert(world_trace(w, before, (max_rounds - rounds) as nat) == match world_step(
            w,
            before,
        ) {
            Ok(after) => world_trace(w, after, (max_rounds - rounds - 1) as nat),
            Err(e) => Err(e),
        });
        match trace_round(&mut state, stores) {
            Ok(()) => {},
            Err(e) => {
                return Err(e);
            },
        }
        rounds = rounds + 1;
    }
    if state.is_done() {
        Ok(state)
    } else {
        Err(TraceError::RoundLimit)
    }
}

/// Traces `report`, handed in by the user `snd_start`, against `stores`, in
/// at most `max_rounds` rounds, and returns the confirmed edges in the order
/// of their discovery.
pub fn tracing(report: &MsgReport, snd_start: &u32, stores: &Stores, max_rounds: usize) -> (out:
    Result<Vec<Edge>, TraceError>)
    ensures
        match world_trace(
            stores@,
            spec_start(report.payload@, SearchNode { uid: *snd_start, key: report.key@ }),
            max_rounds as nat,
        ) {
            Ok(end) => out is Ok && out->Ok_0@ == end.path,
            Err(e) => out is Err && out->Err_0 == e,
        },
        out matches Ok(path) ==> path_recorded(stores@, report.payload@, path@),
{
    match run_trace(report, snd_start, stores, max_rounds) {
        Ok(state) => Ok(state.path),
        Err(e) => Err(e),
    }
}

} // verus!
