//! The state of one trace and its rounds.
//!
//! A round has two halves, each closed by an answer from outside. First the
//! state names the users whose neighbors it needs and, given those neighbor
//! lists and the identity keys, computes the candidate hops with their tags.
//! Then, given the membership answer for every candidate tag, it moves on:
//! the first confirmed backward candidate becomes the next backward node,
//! and every confirmed forward candidate that was not met before becomes a
//! member of the next frontier.

use crate::db::db_ik::IdKeyStore;
use crate::message::messaging::{Edge, MsgReport};
use crate::trace::traceback::{
    backward_candidates, candidates_view, forward_candidates, keys_cover, nodes_contain,
    nodes_view, spec_backward_candidates, spec_forward_candidates, Candidate, CandidateView,
    SearchNode, TraceData,
};
use vstd::prelude::*;

verus! {

/// Why a trace was given up. A trace that is given up yields no graph.
#[derive(Clone, Copy, Debug, PartialEq, Eq, Structural)]
pub enum TraceError {
    /// An identity key that the round needs was not supplied.
    MissingIdentityKey,
    /// The neighbor lists or the membership answers do not line up with what
    /// was asked for.
    MalformedAnswer,
    /// The round budget ran out before the search was done.
    RoundLimit,
}

/// Where a search stands.
#[derive(Clone, Copy, Debug, PartialEq, Eq, Structural)]
pub enum SearchPhase {
    /// No report was taken up.
    Idle,
    /// The sender of the backward node is looked for; the frontier, if there
    /// is one, is expanded in the same rounds.
    ExpandingBackward,
    /// The backward chain has ended; the frontier is expanded.
    ExpandingForward,
    /// The backward chain has ended and no frontier is left.
    Done,
}

/// The state of a trace as the contracts see it.
#[verifier::ext_equal]
pub struct TraceView {
    /// The reported message.
    pub message: Seq<char>,
    /// The confirmed edges, in the order of their discovery.
    pub path: Seq<Edge>,
    /// The backward chain: the reported node, its sender, the sender's
    /// sender, and so on, as far as it was followed.
    pub chain: Seq<SearchNode>,
    /// The node whose sender is looked for next, while the chain has not
    /// ended: the last node of the chain.
    pub backward: Option<SearchNode>,
    /// The nodes whose receivers are looked for next.
    pub frontier: Seq<SearchNode>,
    /// The nodes whose receivers were looked for already.
    pub visited: Seq<SearchNode>,
    /// Whether some round confirmed more than one neighbor as the sender.
    pub ambiguous: bool,
}

impl TraceView {
    /// The search is done when the backward chain has ended and no frontier
    /// is left.
    pub open spec fn done(self) -> bool {
        self.backward is None && self.frontier.len() == 0
    }

    /// Where the search stands.
    pub open spec fn phase(self) -> SearchPhase {
        if self.backward is Some {
            SearchPhase::ExpandingBackward
        } else if self.frontier.len() > 0 {
            SearchPhase::ExpandingForward
        } else if self.chain.len() == 0 {
            SearchPhase::Idle
        } else {
            SearchPhase::Done
        }
    }

    /// No node is expanded forward twice: the visited nodes and the frontier
    /// hold no node twice.
    pub open spec fn distinct(self) -> bool {
        (self.visited + self.frontier).no_duplicates()
    }
}

/// The state of a trace.
#[derive(Debug)]
pub struct TraceState {
    pub message: String,
    pub path: Vec<Edge>,
    pub chain: Vec<TraceData>,
    pub backward: Option<TraceData>,
    pub frontier: Vec<TraceData>,
    pub visited: Vec<TraceData>,
    pub ambiguous: bool,
}

impl View for TraceState {
    type V = TraceView;

    open spec fn view(&self) -> TraceView {
        TraceView {
            message: self.message@,
            path: self.path@,
            chain: nodes_view(self.chain@),
            backward: match self.backward {
                Some(b) => Some(b@),
                None => None,
            },
            frontier: nodes_view(self.frontier@),
            visited: nodes_view(self.visited@),
            ambiguous: self.ambiguous,
        }
    }
}

/// The candidates of one round as the contracts see them.
#[verifier::ext_equal]
pub struct RoundView {
    /// The backward candidates of the backward node, one for each of its
    /// neighbors.
    pub backward: Seq<CandidateView>,
    /// The forward candidates of each frontier member, in the order of the
    /// frontier.
    pub forward: Seq<Seq<CandidateView>>,
}

/// The candidates of one round.
#[derive(Debug)]
pub struct CandidateRound {
    pub backward: Vec<Candidate>,
    pub forward: Vec<Vec<Candidate>>,
}

/// The candidate lists of `lists`, as the contracts see them.
pub open spec fn candidate_lists_view(lists: Seq<Vec<Candidate>>) -> Seq<Seq<CandidateView>> {
    Seq::new(lists.len(), |i: int| candidates_view(lists[i]@))
}

impl View for CandidateRound {
    type V = RoundView;

    open spec fn view(&self) -> RoundView {
        RoundView {
            backward: candidates_view(self.backward@),
            forward: candidate_lists_view(self.forward@),
        }
    }
}

/// The tags of `cands`, in order.
pub open spec fn tags_of(cands: Seq<CandidateView>) -> Seq<Seq<u8>> {
    Seq::new(cands.len(), |j: int| cands[j].tag)
}

/// The users of `nodes`, in order.
pub open spec fn users_of(nodes: Seq<SearchNode>) -> Seq<u32> {
    Seq::new(nodes.len(), |i: int| nodes[i].uid)
}

/// The state in which a trace starts: the reported node is both the backward
/// node and the only member of the frontier; nothing is confirmed or visited.
pub open spec fn spec_start(message: Seq<char>, node: SearchNode) -> TraceView {
    TraceView {
        message,
        path: Seq::empty(),
        chain: seq![node],
        backward: Some(node),
        frontier: seq![node],
        visited: Seq::empty(),
        ambiguous: false,
    }
}

/// The state before a report is taken up: nothing to look for, nothing found.
pub open spec fn spec_idle() -> TraceView {
    TraceView {
        message: Seq::empty(),
        path: Seq::empty(),
        chain: Seq::empty(),
        backward: None,
        frontier: Seq::empty(),
        visited: Seq::empty(),
        ambiguous: false,
    }
}

/// Whether the neighbor lists line up with the frontier of `state`.
pub open spec fn lists_fit(state: TraceView, frontier_nbrs: Seq<Seq<u32>>) -> bool {
    frontier_nbrs.len() == state.frontier.len()
}

/// Whether `keys` holds every identity key that the round needs: that of each
/// neighbor of the backward node, and that of each frontier member that has a
/// neighbor.
pub open spec fn round_keys_known(
    state: TraceView,
    backward_nbrs: Seq<u32>,
    frontier_nbrs: Seq<Seq<u32>>,
    keys: Map<u32, Seq<u8>>,
) -> bool {
    &&& state.backward is Some ==> keys_cover(keys, backward_nbrs)
    &&& forall|i: int|
        0 <= i < state.frontier.len() ==> ((#[trigger] frontier_nbrs[i]).len() == 0
            || keys.contains_key(state.frontier[i].uid))
}

/// The candidates of the round that `state` is in, given the neighbors of its
/// backward node and of each frontier member.
pub open spec fn spec_round(
    state: TraceView,
    backward_nbrs: Seq<u32>,
    frontier_nbrs: Seq<Seq<u32>>,
    keys: Map<u32, Seq<u8>>,
) -> RoundView {
    RoundView {
        backward: match state.backward {
            Some(b) => spec_backward_candidates(b, backward_nbrs, keys, state.message),
            None => Seq::empty(),
        },
        forward: Seq::new(
            state.frontier.len(),
            |i: int|
                spec_forward_candidates(state.frontier[i], frontier_nbrs[i], keys, state.message),
        ),
    }
}

/// The index of the first `true` among the first `n` answers, if there is one.
pub open spec fn first_hit(hits: Seq<bool>, n: nat) -> Option<int>
    decreases n,
{
    if n == 0 {
        None
    } else {
        match first_hit(hits, (n - 1) as nat) {
            Some(i) => Some(i),
            None => if hits[n - 1] {
                Some(n - 1)
            } else {
                None
            },
        }
    }
}

/// How many of the first `n` answers are `true`.
pub open spec fn count_hits(hits: Seq<bool>, n: nat) -> nat
    decreases n,
{
    if n == 0 {
        0
    } else {
        count_hits(hits, (n - 1) as nat) + if hits[n - 1] {
            1nat
        } else {
            0nat
        }
    }
}

/// What a round has added so far: the path with the edges confirmed so far,
/// and the nodes for the next frontier.
#[verifier::ext_equal]
pub struct Growth {
    pub path: Seq<Edge>,
    pub next: Seq<SearchNode>,
}

/// `acc` after the first `n` forward candidates of one frontier member, the
/// user `sender`, were looked at in order. A confirmed candidate whose node is
/// neither among `known` (visited, or in the frontier now) nor lined up for
/// the next frontier already adds its edge and lines its node up; every other
/// candidate changes nothing.
pub open spec fn expand_member(
    acc: Growth,
    known: Seq<SearchNode>,
    sender: u32,
    cands: Seq<CandidateView>,
    hits: Seq<bool>,
    n: nat,
) -> Growth
    decreases n,
{
    if n == 0 {
        acc
    } else {
        let prev = expand_member(acc, known, sender, cands, hits, (n - 1) as nat);
        let c = cands[n - 1];
        if hits[n - 1] && !known.contains(c.node) && !prev.next.contains(c.node) {
            Growth {
                path: prev.path.push(Edge { sid: sender, rid: c.node.uid }),
                next: prev.next.push(c.node),
            }
        } else {
            prev
        }
    }
}

/// `acc` after the first `m` members of the frontier were expanded in order.
pub open spec fn expand_frontier(
    acc: Growth,
    known: Seq<SearchNode>,
    frontier: Seq<SearchNode>,
    cands: Seq<Seq<CandidateView>>,
    hits: Seq<Seq<bool>>,
    m: nat,
) -> Growth
    decreases m,
{
    if m == 0 {
        acc
    } else {
        let prev = expand_frontier(acc, known, frontier, cands, hits, (m - 1) as nat);
        expand_member(
            prev,
            known,
            frontier[m - 1].uid,
            cands[m - 1],
            hits[m - 1],
            cands[m - 1].len(),
        )
    }
}

/// Whether the membership answers line up with the candidates of `round`, and
/// those with the frontier of `state`.
pub open spec fn answers_fit(
    state: TraceView,
    round: RoundView,
    backward_hits: Seq<bool>,
    forward_hits: Seq<Seq<bool>>,
) -> bool {
    &&& backward_hits.len() == round.backward.len()
    &&& round.forward.len() == state.frontier.len()
    &&& forward_hits.len() == state.frontier.len()
    &&& forall|i: int|
        0 <= i < state.frontier.len() ==> (#[trigger] forward_hits[i]).len()
            == round.forward[i].len()
}

/// The sender that the round confirms for the backward node: the node of the
/// first confirmed backward candidate.
pub open spec fn spec_parent(state: TraceView, round: RoundView, backward_hits: Seq<bool>) -> Option<
    SearchNode,
> {
    if state.backward is Some {
        match first_hit(backward_hits, backward_hits.len()) {
            Some(i) => Some(round.backward[i].node),
            None => None,
        }
    } else {
        None
    }
}

/// The state after the round.
///
/// Backward: the first confirmed candidate is the sender of the backward
/// node; its edge is added and it is the backward node of the next round.
/// Without a confirmed candidate the chain has ended. Forward: the frontier
/// is expanded member by member. The old frontier joins the visited nodes.
/// The new backward node is lined up for the next frontier too, unless it was
/// met before.
pub open spec fn spec_advance(
    state: TraceView,
    round: RoundView,
    backward_hits: Seq<bool>,
    forward_hits: Seq<Seq<bool>>,
) -> TraceView {
    let parent = spec_parent(state, round, backward_hits);
    let path = match parent {
        Some(p) => state.path.push(Edge { sid: p.uid, rid: state.backward->0.uid }),
        None => state.path,
    };
    let known = state.visited + state.frontier;
    let grown = expand_frontier(
        Growth { path, next: Seq::empty() },
        known,
        state.frontier,
        round.forward,
        forward_hits,
        state.frontier.len(),
    );
    let next = match parent {
        Some(p) => if known.contains(p) || grown.next.contains(p) {
            grown.next
        } else {
            grown.next.push(p)
        },
        None => grown.next,
    };
    TraceView {
        message: state.message,
        path: grown.path,
        chain: match parent {
            Some(p) => state.chain.push(p),
            None => state.chain,
        },
        backward: parent,
        frontier: next,
        visited: known,
        ambiguous: state.ambiguous || (state.backward is Some && count_hits(
            backward_hits,
            backward_hits.len(),
        ) > 1),
    }
}

/// The neighbor lists of `lists`, as the contracts see them.
pub open spec fn nbr_lists_view(lists: Seq<Vec<u32>>) -> Seq<Seq<u32>> {
    Seq::new(lists.len(), |i: int| lists[i]@)
}

/// The answer lists of `lists`, as the contracts see them.
pub open spec fn hit_lists_view(lists: Seq<Vec<bool>>) -> Seq<Seq<bool>> {
    Seq::new(lists.len(), |i: int| lists[i]@)
}

/// What `path` and `next` stand for together.
pub open spec fn growth_of(path: Seq<Edge>, next: Seq<TraceData>) -> Growth {
    Growth { path, next: nodes_view(next) }
}

/// Looks at the forward candidates of one frontier member, the user `sender`,
/// with their membership answers: adds the edge of every confirmed candidate
/// that was not met before to `path`, and its node to `next`.
fn expand_one(
    known: &Vec<TraceData>,
    sender: u32,
    cands: &Vec<Candidate>,
    hits: &Vec<bool>,
    path: &mut Vec<Edge>,
    next: &mut Vec<TraceData>,
)
    requires
        hits@.len() == cands@.len(),
    ensures
        growth_of(final(path)@, final(next)@) == expand_member(
            growth_of(old(path)@, old(next)@),
            nodes_view(known@),
            sender,
            candidates_view(cands@),
            hits@,
            cands@.len(),
        ),
{
    let ghost start = growth_of(path@, next@);
    let mut j: usize = 0;
    while j < cands.len()
        invariant
            j <= cands@.len(),
            hits@.len() == cands@.len(),
            growth_of(path@, next@) == expand_member(
                start,
                nodes_view(known@),
                sender,
                candidates_view(cands@),
                hits@,
                j as nat,
            ),
        decreases cands@.len() - j,
    {
        let ghost before = growth_of(path@, next@);
        let node = TraceData { uid: cands[j].uid, key: cands[j].key };
        assert(node@ == candidates_view(cands@)[j as int].node);
        if hits[j] && !nodes_contain(known, &node) && !nodes_contain(next, &node) {
            path.push(Edge { sid: sender, rid: node.uid });
            next.push(node);
            assert(nodes_view(next@) =~= before.next.push(node@));
        }
        j = j + 1;
    }
}

impl TraceState {
    /// The state in which the trace of `report`, handed in by the user
    /// `snd_start`, starts.
    pub fn start(report: &MsgReport, snd_start: u32) -> (state: TraceState)
        ensures
            state@ == spec_start(
                report.payload@,
                SearchNode { uid: snd_start, key: report.key@ },
            ),
    {
        let node = TraceData { uid: snd_start, key: report.key };
        let mut frontier: Vec<TraceData> = Vec::new();
        frontier.push(node);
        let mut chain: Vec<TraceData> = Vec::new();
        chain.push(node);
        let state = TraceState {
            message: report.payload.clone(),
            path: Vec::new(),
            chain,
            backward: Some(node),
            frontier,
            visited: Vec::new(),
            ambiguous: false,
        };
        assert(state@.frontier =~= seq![node@]);
        assert(state@.chain =~= seq![node@]);
        assert(state@.visited =~= Seq::<SearchNode>::empty());
        assert(state@.path =~= Seq::<Edge>::empty());
        state
    }

    /// The state before a report is taken up.
    pub fn idle() -> (state: TraceState)
        ensures
            state@ == spec_idle(),
            state@.phase() == SearchPhase::Idle,
    {
        TraceState {
            message: String::new(),
            path: Vec::new(),
            chain: Vec::new(),
            backward: None,
            frontier: Vec::new(),
            visited: Vec::new(),
            ambiguous: false,
        }
    }

    /// Where the search stands.
    pub fn phase(&self) -> (phase: SearchPhase)
        ensures
            phase == self@.phase(),
    {
        if self.backward.is_some() {
            SearchPhase::ExpandingBackward
        } else if self.frontier.len() > 0 {
            SearchPhase::ExpandingForward
        } else if self.chain.len() == 0 {
            SearchPhase::Idle
        } else {
            SearchPhase::Done
        }
    }

    /// Whether the search is done.
    pub fn is_done(&self) -> (done: bool)
        ensures
            done == self@.done(),
    {
        self.backward.is_none() && self.frontier.len() == 0
    }

    /// The user whose neighbors the backward half of the round needs.
    pub fn backward_user(&self) -> (uid: Option<u32>)
        ensures
            match uid {
                Some(u) => self@.backward is Some && self@.backward->0.uid == u,
                None => self@.backward is None,
            },
    {
        match self.backward {
            Some(b) => Some(b.uid),
            None => None,
        }
    }

    /// The users whose neighbors the forward half of the round needs: those
    /// of the frontier, in order.
    pub fn frontier_users(&self) -> (uids: Vec<u32>)
        ensures
            uids@ == users_of(self@.frontier),
    {
        let mut uids: Vec<u32> = Vec::new();
        let mut i: usize = 0;
        while i < self.frontier.len()
            invariant
                i <= self.frontier@.len(),
                uids@.len() == i,
                forall|k: int| 0 <= k < i ==> uids@[k] == self.frontier@[k].uid,
            decreases self.frontier@.len() - i,
        {
            uids.push(self.frontier[i].uid);
            i = i + 1;
        }
        assert(uids@ =~= users_of(self@.frontier));
        uids
    }

    /// Computes the candidates of the round from the neighbors of the
    /// backward node (`backward_nbrs`, not looked at where the chain has
    /// ended), the neighbors of each frontier member (`frontier_nbrs`, in the
    /// order of `frontier_users`) and the identity keys.
    ///
    /// The round is given up where the neighbor lists do not line up with the
    /// frontier, or where an identity key that it needs is missing.
    pub fn candidates(
        &self,
        backward_nbrs: &Vec<u32>,
        frontier_nbrs: &Vec<Vec<u32>>,
        id_keys: &IdKeyStore,
    ) -> (out: Result<CandidateRound, TraceError>)
        ensures
            !lists_fit(self@, nbr_lists_view(frontier_nbrs@)) ==> out is Err && out->Err_0
                == TraceError::MalformedAnswer,
            lists_fit(self@, nbr_lists_view(frontier_nbrs@)) && !round_keys_known(
                self@,
                backward_nbrs@,
                nbr_lists_view(frontier_nbrs@),
                id_keys@,
            ) ==> out is Err && out->Err_0 == TraceError::MissingIdentityKey,
            lists_fit(self@, nbr_lists_view(frontier_nbrs@)) && round_keys_known(
                self@,
                backward_nbrs@,
                nbr_lists_view(frontier_nbrs@),
                id_keys@,
            ) ==> out is Ok && out->Ok_0@ == spec_round(
                self@,
                backward_nbrs@,
                nbr_lists_view(frontier_nbrs@),
                id_keys@,
            ),
    {
        if frontier_nbrs.len() != self.frontier.len() {
            return Err(TraceError::MalformedAnswer);
        }
        let ghost lists = nbr_lists_view(frontier_nbrs@);
        let backward: Vec<Candidate> = match self.backward {
            Some(b) => match backward_candidates(&b, backward_nbrs, id_keys, &self.message) {
                Some(list) => list,
                None => {
                    return Err(TraceError::MissingIdentityKey);
                },
            },
            None => Vec::new(),
        };
        assert(candidates_view(backward@) =~= spec_round(
            self@,
            backward_nbrs@,
            lists,
            id_keys@,
        ).backward);
        let mut forward: Vec<Vec<Candidate>> = Vec::new();
        let mut i: usize = 0;
        while i < self.frontier.len()
            invariant
                i <= self.frontier@.len(),
                frontier_nbrs@.len() == self.frontier@.len(),
                lists == nbr_lists_view(frontier_nbrs@),
                forward@.len() == i,
                forall|k: int|
                    0 <= k < i ==> ((#[trigger] lists[k]).len() == 0 || id_keys@.contains_key(
                        self@.frontier[k].uid,
                    )),
                forall|k: int|
                    0 <= k < i ==> candidates_view((#[trigger] forward@[k])@)
                        == spec_forward_candidates(
                        self@.frontier[k],
                        lists[k],
                        id_keys@,
                        self@.message,
                    ),
            decreases self.frontier@.len() - i,
        {
            assert(lists[i as int] == frontier_nbrs@[i as int]@);
            match forward_candidates(
                &self.frontier[i],
                &frontier_nbrs[i],
                id_keys,
                &self.message,
            ) {
                Some(list) => {
                    forward.push(list);
                },
                None => {
                    assert(!(lists[i as int].len() == 0 || id_keys@.contains_key(
                        self@.frontier[i as int].uid,
                    )));
                    return Err(TraceError::MissingIdentityKey);
                },
            }
            i = i + 1;
        }
        let round = CandidateRound { backward, forward };
        assert(round@.forward =~= spec_round(
            self@,
            backward_nbrs@,
            lists,
            id_keys@,
        ).forward);
        Ok(round)
    }

    /// Whether the membership answers line up with the candidates of `round`,
    /// and those with the frontier.
    pub fn answers_line_up(
        &self,
        round: &CandidateRound,
        backward_hits: &Vec<bool>,
        forward_hits: &Vec<Vec<bool>>,
    ) -> (fit: bool)
        ensures
            fit == answers_fit(self@, round@, backward_hits@, hit_lists_view(forward_hits@)),
    {
        if backward_hits.len() != round.backward.len() || round.forward.len()
            != self.frontier.len() || forward_hits.len() != self.frontier.len() {
            return false;
        }
        let mut i: usize = 0;
        while i < self.frontier.len()
            invariant
                i <= self.frontier@.len(),
                round.forward@.len() == self.frontier@.len(),
                forward_hits@.len() == self.frontier@.len(),
                forall|k: int|
                    0 <= k < i ==> (#[trigger] hit_lists_view(forward_hits@)[k]).len()
                        == round@.forward[k].len(),
            decreases self.frontier@.len() - i,
        {
            if forward_hits[i].len() != round.forward[i].len() {
                assert(hit_lists_view(forward_hits@)[i as int].len() != round@.forward[i as int].len());
                return false;
            }
            i = i + 1;
        }
        true
    }

    /// Closes the round with the membership answers: `backward_hits` for the
    /// backward candidates of `round`, `forward_hits` for the forward
    /// candidates of each frontier member.
    ///
    /// Answers that do not line up with the candidates are refused and leave
    /// the state as it is.
    pub fn advance(
        &mut self,
        round: &CandidateRound,
        backward_hits: &Vec<bool>,
        forward_hits: &Vec<Vec<bool>>,
    ) -> (out: Result<(), TraceError>)
        ensures
            answers_fit(old(self)@, round@, backward_hits@, hit_lists_view(forward_hits@)) ==> out
                is Ok && final(self)@ == spec_advance(
                old(self)@,
                round@,
                backward_hits@,
                hit_lists_view(forward_hits@),
            ),
            !answers_fit(old(self)@, round@, backward_hits@, hit_lists_view(forward_hits@))
                ==> out is Err && out->Err_0 == TraceError::MalformedAnswer && final(self)@ == old(
                self,
            )@,
            old(self)@.distinct() ==> final(self)@.distinct(),
    {
        if !self.answers_line_up(round, backward_hits, forward_hits) {
            return Err(TraceError::MalformedAnswer);
        }
        let ghost state = self@;
        let ghost hits = hit_lists_view(forward_hits@);
        proof {
            if state.distinct() {
                lemma_advance_keeps_distinct(state, round@, backward_hits@, hits);
            }
        }
        // backward: the first confirmed candidate, and how many were confirmed
        let mut parent: Option<TraceData> = None;
        let mut confirmed: usize = 0;
        if self.backward.is_some() {
            let mut j: usize = 0;
            while j < backward_hits.len()
                invariant
                    j <= backward_hits@.len(),
                    backward_hits@.len() == round.backward@.len(),
                    confirmed == count_hits(backward_hits@, j as nat),
                    confirmed <= j,
                    match first_hit(backward_hits@, j as nat) {
                        Some(i) => parent is Some && 0 <= i < j && parent->0@
                            == round@.backward[i].node,
                        None => parent is None,
                    },
                decreases backward_hits@.len() - j,
            {
                if backward_hits[j] {
                    confirmed = confirmed + 1;
                    if parent.is_none() {
                        parent = Some(
                            TraceData { uid: round.backward[j].uid, key: round.backward[j].key },
                        );
                    }
                }
                j = j + 1;
            }
        }
        assert(match spec_parent(state, round@, backward_hits@) {
            Some(p) => parent is Some && parent->0@ == p,
            None => parent is None,
        });
        let mut path: Vec<Edge> = vstd::slice::slice_to_vec(self.path.as_slice());
        match (parent, self.backward) {
            (Some(p), Some(b)) => {
                path.push(Edge { sid: p.uid, rid: b.uid });
            },
            _ => {},
        }
        // the nodes met so far: the visited ones and the frontier
        let mut known: Vec<TraceData> = vstd::slice::slice_to_vec(self.visited.as_slice());
        let mut k: usize = 0;
        while k < self.frontier.len()
            invariant
                k <= self.frontier@.len(),
                known@ == self.visited@ + self.frontier@.subrange(0, k as int),
            decreases self.frontier@.len() - k,
        {
            known.push(self.frontier[k]);
            k = k + 1;
        }
        assert(self.frontier@.subrange(0, self.frontier@.len() as int) =~= self.frontier@);
        assert(nodes_view(known@) =~= state.visited + state.frontier);
        // forward: every member of the frontier
        let mut next: Vec<TraceData> = Vec::new();
        let ghost seed = growth_of(path@, next@);
        assert(seed.next =~= Seq::<SearchNode>::empty());
        let mut i: usize = 0;
        while i < self.frontier.len()
            invariant
                i <= self.frontier@.len(),
                state == self@,
                hits == hit_lists_view(forward_hits@),
                answers_fit(state, round@, backward_hits@, hits),
                nodes_view(known@) == state.visited + state.frontier,
                growth_of(path@, next@) == expand_frontier(
                    seed,
                    nodes_view(known@),
                    state.frontier,
                    round@.forward,
                    hits,
                    i as nat,
                ),
            decreases self.frontier@.len() - i,
        {
            assert(hits[i as int] == forward_hits@[i as int]@);
            assert(round@.forward[i as int] == candidates_view(round.forward@[i as int]@));
            expand_one(
                &known,
                self.frontier[i].uid,
                &round.forward[i],
                &forward_hits[i],
                &mut path,
                &mut next,
            );
            i = i + 1;
        }
        match parent {
            Some(p) => {
                if !nodes_contain(&known, &p) && !nodes_contain(&next, &p) {
                    let ghost before = nodes_view(next@);
                    next.push(p);
                    assert(nodes_view(next@) =~= before.push(p@));
                }
                let ghost before = nodes_view(self.chain@);
                self.chain.push(p);
                assert(nodes_view(self.chain@) =~= before.push(p@));
            },
            None => {},
        }
        self.ambiguous = self.ambiguous || confirmed > 1;
        self.path = path;
        self.backward = parent;
        self.frontier = next;
        self.visited = known;
        assert(self@ =~= spec_advance(state, round@, backward_hits@, hits));
        Ok(())
    }
}

impl CandidateRound {
    /// The tags of the backward candidates, in order: what to ask the
    /// membership index for the backward half of the round.
    pub fn backward_tags(&self) -> (tags: Vec<Vec<u8>>)
        ensures
            crate::db::db_tag::tags_view(tags@) == tags_of(self@.backward),
    {
        candidate_tags(&self.backward)
    }

    /// The tags of the forward candidates of each frontier member: what to
    /// ask the membership index for the forward half of the round.
    pub fn forward_tags(&self) -> (pack: Vec<Vec<Vec<u8>>>)
        ensures
            pack@.len() == self@.forward.len(),
            forall|i: int|
                0 <= i < pack@.len() ==> crate::db::db_tag::tags_view((#[trigger] pack@[i])@)
                    == tags_of(self@.forward[i]),
    {
        let mut pack: Vec<Vec<Vec<u8>>> = Vec::new();
        let mut i: usize = 0;
        while i < self.forward.len()
            invariant
                i <= self.forward@.len(),
                pack@.len() == i,
                forall|k: int|
                    0 <= k < i ==> crate::db::db_tag::tags_view((#[trigger] pack@[k])@) == tags_of(
                        self@.forward[k],
                    ),
            decreases self.forward@.len() - i,
        {
            pack.push(candidate_tags(&self.forward[i]));
            i = i + 1;
        }
        pack
    }
}

/// The tags of `cands`, in order.
pub fn candidate_tags(cands: &Vec<Candidate>) -> (tags: Vec<Vec<u8>>)
    ensures
        crate::db::db_tag::tags_view(tags@) == tags_of(candidates_view(cands@)),
{
    let mut tags: Vec<Vec<u8>> = Vec::new();
    let mut j: usize = 0;
    while j < cands.len()
        invariant
            j <= cands@.len(),
            tags@.len() == j,
            forall|k: int| 0 <= k < j ==> (#[trigger] tags@[k])@ == cands@[k].tag@,
        decreases cands@.len() - j,
    {
        tags.push(cands[j].tag.clone());
        j = j + 1;
    }
    assert(crate::db::db_tag::tags_view(tags@) =~= tags_of(candidates_view(cands@)));
    tags
}

/// A round never lines a node up that was met before, nor one node twice:
/// where the visited nodes and the frontier hold no node twice before the
/// round, they hold none twice after it.
pub proof fn lemma_advance_keeps_distinct(
    state: TraceView,
    round: RoundView,
    backward_hits: Seq<bool>,
    forward_hits: Seq<Seq<bool>>,
)
    requires
        state.distinct(),
    ensures
        spec_advance(state, round, backward_hits, forward_hits).distinct(),
{
    let known = state.visited + state.frontier;
    let parent = spec_parent(state, round, backward_hits);
    let path = match parent {
        Some(p) => state.path.push(Edge { sid: p.uid, rid: state.backward->0.uid }),
        None => state.path,
    };
    let seed = Growth { path, next: Seq::empty() };
    lemma_expand_frontier_fresh(
        seed,
        known,
        state.frontier,
        round.forward,
        forward_hits,
        state.frontier.len(),
    );
    let grown = expand_frontier(
        seed,
        known,
        state.frontier,
        round.forward,
        forward_hits,
        state.frontier.len(),
    );
    let after = spec_advance(state, round, backward_hits, forward_hits);
    assert(after.visited == known);
    lemma_fresh_append(known, after.frontier);
}

/// Whether `next` holds no node twice and none of `known`.
pub open spec fn fresh(known: Seq<SearchNode>, next: Seq<SearchNode>) -> bool {
    &&& next.no_duplicates()
    &&& forall|i: int| 0 <= i < next.len() ==> !known.contains(#[trigger] next[i])
}

/// A list without repetition, followed by fresh nodes, is without repetition.
proof fn lemma_fresh_append(known: Seq<SearchNode>, next: Seq<SearchNode>)
    requires
        known.no_duplicates(),
        fresh(known, next),
    ensures
        (known + next).no_duplicates(),
{
    let all = known + next;
    assert forall|i: int, j: int| 0 <= i < all.len() && 0 <= j < all.len() && i != j implies all[i]
        != all[j] by {
        if i < known.len() && j >= known.len() {
            assert(next[j - known.len()] == all[j]);
            assert(known[i] == all[i]);
        } else if j < known.len() && i >= known.len() {
            assert(next[i - known.len()] == all[i]);
            assert(known[j] == all[j]);
        } else if i >= known.len() && j >= known.len() {
            assert(next[i - known.len()] == all[i]);
            assert(next[j - known.len()] == all[j]);
        }
    }
}

/// Expanding one frontier member lines up fresh nodes only.
proof fn lemma_expand_member_fresh(
    acc: Growth,
    known: Seq<SearchNode>,
    sender: u32,
    cands: Seq<CandidateView>,
    hits: Seq<bool>,
    n: nat,
)
    requires
        fresh(known, acc.next),
    ensures
        fresh(known, expand_member(acc, known, sender, cands, hits, n).next),
    decreases n,
{
    if n > 0 {
        lemma_expand_member_fresh(acc, known, sender, cands, hits, (n - 1) as nat);
        let prev = expand_member(acc, known, sender, cands, hits, (n - 1) as nat);
        let c = cands[n - 1];
        if hits[n - 1] && !known.contains(c.node) && !prev.next.contains(c.node) {
            let next = prev.next.push(c.node);
            assert forall|i: int, j: int| 0 <= i < next.len() && 0 <= j < next.len() && i
                != j implies next[i] != next[j] by {
                if i == prev.next.len() {
                    assert(prev.next[j] == next[j]);
                } else if j == prev.next.len() {
                    assert(prev.next[i] == next[i]);
                }
            }
        }
    }
}

/// Expanding the frontier lines up fresh nodes only.
proof fn lemma_expand_frontier_fresh(
    acc: Growth,
    known: Seq<SearchNode>,
    frontier: Seq<SearchNode>,
    cands: Seq<Seq<CandidateView>>,
    hits: Seq<Seq<bool>>,
    m: nat,
)
    requires
        fresh(known, acc.next),
    ensures
        fresh(known, expand_frontier(acc, known, frontier, cands, hits, m).next),
    decreases m,
{
    if m > 0 {
        lemma_expand_frontier_fresh(acc, known, frontier, cands, hits, (m - 1) as nat);
        let prev = expand_frontier(acc, known, frontier, cands, hits, (m - 1) as nat);
        lemma_expand_member_fresh(
            prev,
            known,
            frontier[m - 1].uid,
            cands[m - 1],
            hits[m - 1],
            cands[m - 1].len(),
        );
    }
}

} // verus!
