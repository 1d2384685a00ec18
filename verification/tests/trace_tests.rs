use impact_tracing::db::db_ik::IdKeyStore;
use impact_tracing::db::Stores;
use impact_tracing::message::messaging::{send_packet, Edge, IdKey, MsgPacket, MsgReport};
use impact_tracing::tool::algos::{next_key, prev_key, proc_tag_gen, tk_gen};
use impact_tracing::trace::state::{CandidateRound, SearchPhase, TraceError, TraceState};
use impact_tracing::trace::traceback::{
    backward_candidates, candidate, db_query_nbrs, forward_candidates, hmap_to_vec_in_squence,
    neighbor_lists, nodes_contain, par_backward_search, par_forward_search, run_trace,
    trace_round, tracing, Candidate, Direction, TraceData,
};
use std::collections::HashMap;

const ROUNDS: usize = 10_000;

fn register_users(stores: &mut Stores, vec_uid: &Vec<u32>) -> HashMap<u32, [u8; 16]> {
    let mut vec_id_key = Vec::<IdKey>::new();
    for uid in vec_uid {
        let id_key = IdKey::id_as_key_gen(*uid);
        vec_id_key.push(id_key);
    }
    stores.id_keys.add(&vec_id_key);
    vec_id_key.into_iter().map(|id_key| (id_key.id, id_key.key)).collect()
}

// generate a new edge from a sender to a receiver
fn new_edge_gen(stores: &mut Stores, message: &String, sid: &u32, rid: &u32) -> MsgPacket {
    let ik = stores.id_keys.get(*sid).unwrap();
    let tk = tk_gen(&ik, rid);
    let packet = send_packet(message, &[0; 16], &tk);
    stores.tags.add(&vec![packet.p_tag.to_vec()]);
    packet
}

fn fwd_edge_gen(
    message: &String,
    sid: &u32,
    rid: &u32,
    prev_packet: &MsgPacket,
    map_id_ik: &HashMap<u32, [u8; 16]>,
) -> MsgPacket {
    let tk = tk_gen(map_id_ik.get(sid).unwrap(), rid);
    send_packet(message, &prev_packet.tag_key, &tk)
}

fn fwd_path_gen(
    stores: &mut Stores,
    s_tag_key: &[u8; 16],
    message: &String,
    users: &Vec<u32>,
    id_keys: &HashMap<u32, [u8; 16]>,
) -> Vec<[u8; 16]> {
    let mut tag_keys: Vec<[u8; 16]> = Vec::new();
    let mut tags: Vec<Vec<u8>> = Vec::new();
    tag_keys.push(*s_tag_key);
    for i in 0..(users.len() - 1) {
        let sid = users.get(i).unwrap();
        let rid = users.get(i + 1).unwrap();
        let tk = tk_gen(id_keys.get(sid).unwrap(), rid);
        let prev_key = *tag_keys.get(i).unwrap();
        let packet = send_packet(message, &prev_key, &tk);
        tag_keys.push(packet.tag_key);
        tags.push(packet.p_tag.to_vec());
    }
    stores.tags.add(&tags);
    tag_keys
}

fn mock_nbr_line(users: &Vec<u32>) -> Vec<Edge> {
    let mut sessions: Vec<Edge> = Vec::new();
    for i in 0..(users.len() - 1) {
        sessions.push(Edge::new(users.get(i).unwrap(), users.get(i + 1).unwrap()));
    }
    sessions
}

// Generate rows that connects all users in the vector
fn mock_nbr_full_connect(users: &Vec<u32>) -> Vec<Edge> {
    let mut sessions: Vec<Edge> = Vec::new();
    for i in 0..users.len() {
        for j in i + 1..users.len() {
            sessions.push(Edge::new(users.get(i).unwrap(), users.get(j).unwrap()));
        }
    }
    sessions
}

// Create a forwarding tree: 1-2-3-4-5, 3-6-7, 6-8
fn create_path_case(stores: &mut Stores) -> (Vec<u32>, Vec<[u8; 16]>, String) {
    let users: Vec<u32> = vec![1, 2, 3, 4, 5, 6, 7, 8, 9, 10];
    let message = "message".to_string();
    let sess = mock_nbr_full_connect(&users);

    stores.nbrs.add(&sess);
    let map_id_ik = register_users(stores, &users);
    // Path 0: 1-2-3-4-5
    let first_packet = new_edge_gen(stores, &message, &1, &2);

    let path_1: Vec<u32> = vec![2, 3, 4, 5, 9, 8];
    let mut keys_1: Vec<[u8; 16]> =
        fwd_path_gen(stores, &first_packet.tag_key, &message, &path_1, &map_id_ik);

    // Path 2: 3-6-7
    let path_2: Vec<u32> = vec![3, 6, 7];
    let mut keys_2 = fwd_path_gen(stores, keys_1.get(1).unwrap(), &message, &path_2, &map_id_ik);

    // Path 3: 6-8
    let path_3: Vec<u32> = vec![6, 8];
    let mut keys_3 = fwd_path_gen(stores, keys_2.get(1).unwrap(), &message, &path_3, &map_id_ik);

    keys_1.append(&mut keys_2.split_off(1));
    keys_1.append(&mut keys_3.split_off(1));

    (users, keys_1, message)
}

fn sorted(path: &Vec<Edge>) -> Vec<(u32, u32)> {
    let mut pairs: Vec<(u32, u32)> = path.iter().map(|e| (e.sid, e.rid)).collect();
    pairs.sort();
    pairs
}

#[test]
fn test_tracing() {
    // The forwarding tree 1-2-3-4-5, 3-6-7, 6-8
    let mut stores = Stores::new();
    let (users, keys, message) = create_path_case(&mut stores);
    let start_index: usize = 1;
    let report_key = keys.get(start_index).unwrap();

    // Search this message from middle node
    let fwd_graph = tracing(
        &MsgReport { key: *report_key, payload: message },
        users.get(start_index + 1).unwrap(),
        &stores,
        ROUNDS,
    )
    .unwrap();
    assert_eq!(fwd_graph.is_empty(), false);

    fwd_graph.iter().for_each(|e| {
        println!("{} -> {}", e.sid, e.rid);
    });
    assert_eq!(
        sorted(&fwd_graph),
        vec![(1, 2), (2, 3), (3, 4), (3, 6), (4, 5), (5, 9), (6, 7), (6, 8), (9, 8)]
    );
}

fn mock_tree_recursive(
    root: &u32,
    prev_packet: &MsgPacket,
    branch: &u32,
    curr_depth: &u32,
    depth: &u32,
    message: &String,
    map_id_ik: &HashMap<u32, [u8; 16]>,
    vec_tag: &mut Vec<Vec<u8>>,
    vec_edge: &mut Vec<Edge>,
    leaves: &mut Vec<TraceData>,
) {
    if curr_depth < depth {
        for i in 0..*branch {
            let rid = root * branch + i + 1;
            vec_edge.push(Edge::new(root, &rid));
            let packet = fwd_edge_gen(message, root, &rid, prev_packet, map_id_ik);
            vec_tag.push(packet.p_tag.to_vec());
            mock_tree_recursive(
                &rid,
                &packet,
                branch,
                &(curr_depth + 1),
                depth,
                message,
                map_id_ik,
                vec_tag,
                vec_edge,
                leaves,
            );
        }
    } else {
        leaves.push(TraceData::new(*root, prev_packet.tag_key));
    }
}

fn calc_tree_size(depth: &u32, branch: &u32) -> u32 {
    let mut size: u32 = 0;
    for i in 0..*depth {
        size += branch.pow(i);
    }
    size
}

#[test]
fn trace_tree() {
    let branch: u32 = 3;
    let depth: u32 = 6;
    let tree_size = calc_tree_size(&depth, &branch);
    let vec_user = (0..tree_size + 1).collect::<Vec<u32>>();
    let mut stores = Stores::new();
    let map_id_ik = register_users(&mut stores, &vec_user);

    let origin_id = vec_user.get(tree_size as usize).unwrap();
    let root_id = vec_user.get(0).unwrap();
    let first_packet = new_edge_gen(&mut stores, &"message".to_string(), origin_id, &root_id);
    let mut vec_tag = Vec::<Vec<u8>>::new();
    let mut vec_edge = Vec::<Edge>::new();
    let mut leaves = Vec::new();

    mock_tree_recursive(
        &root_id,
        &first_packet,
        &branch,
        &1,
        &depth,
        &"message".to_string(),
        &map_id_ik,
        &mut vec_tag,
        &mut vec_edge,
        &mut leaves,
    );
    stores.tags.add(&vec_tag);
    stores.nbrs.add(&vec_edge);

    let path = tracing(
        &MsgReport { key: first_packet.tag_key, payload: "message".to_string() },
        &root_id,
        &stores,
        ROUNDS,
    )
    .unwrap();

    assert_eq!(tree_size - 1, path.len() as u32);
    assert_eq!(sorted(&path), sorted(&vec_edge));
}

// A chain 1 -> 2 -> ... -> len, recorded in all three stores; the keys under
// which the message reached 2, 3, ..., len.
fn record_chain(stores: &mut Stores, len: u32, message: &String) -> Vec<[u8; 16]> {
    let users: Vec<u32> = (1..=len).collect();
    let map_id_ik = register_users(stores, &users);
    stores.nbrs.add(&mock_nbr_line(&users));
    let first_packet = new_edge_gen(stores, message, &1, &2);
    fwd_path_gen(stores, &first_packet.tag_key, message, &users[1..].to_vec(), &map_id_ik)
}

#[test]
fn chain_is_traced_from_its_tail() {
    for len in [2u32, 3, 7, 20] {
        let mut stores = Stores::new();
        let message = "chain".to_string();
        let keys = record_chain(&mut stores, len, &message);
        let report = MsgReport { key: *keys.last().unwrap(), payload: message };
        let path = tracing(&report, &len, &stores, ROUNDS).unwrap();
        assert_eq!(path.len() as u32, len - 1);
        let expected: Vec<(u32, u32)> = (1..len).map(|i| (i, i + 1)).collect();
        assert_eq!(sorted(&path), expected);
        // from the tail the chain is walked back hop by hop
        let back: Vec<Edge> = (1..len).rev().map(|i| Edge { sid: i, rid: i + 1 }).collect();
        assert_eq!(path, back);
    }
}

#[test]
fn backward_chain_leads_to_the_origin() {
    let mut stores = Stores::new();
    let message = "chain".to_string();
    let keys = record_chain(&mut stores, 6, &message);
    let report = MsgReport { key: keys[2], payload: message };
    let state = run_trace(&report, &4, &stores, ROUNDS).unwrap();
    assert_eq!(state.phase(), SearchPhase::Done);
    assert_eq!(state.chain.iter().map(|n| n.uid).collect::<Vec<u32>>(), vec![4, 3, 2, 1]);
    assert!(state.chain[0].same(&TraceData::new(4, keys[2])));
    assert!(state.chain[1].same(&TraceData::new(3, keys[1])));
    assert!(state.chain[2].same(&TraceData::new(2, keys[0])));
    for node in &state.chain {
        assert!(nodes_contain(&state.visited, node));
    }
    // six nodes, five edges
    assert_eq!(state.visited.len(), 6);
    assert_eq!(state.path.len() + 1, state.visited.len());
}

#[test]
fn chain_is_traced_from_its_head_and_middle() {
    let mut stores = Stores::new();
    let message = "chain".to_string();
    let keys = record_chain(&mut stores, 6, &message);
    let expected: Vec<(u32, u32)> = (1..6).map(|i| (i, i + 1)).collect();
    for (i, key) in keys.iter().enumerate() {
        let uid = i as u32 + 2;
        let report = MsgReport { key: *key, payload: message.clone() };
        let path = tracing(&report, &uid, &stores, ROUNDS).unwrap();
        assert_eq!(sorted(&path), expected);
    }
}

#[test]
fn tree_is_traced_from_any_leaf() {
    for (branch, depth) in [(2u32, 3u32), (3, 2), (1, 4), (4, 1)] {
        // the tree has depth + 1 levels
        let tree_size = calc_tree_size(&(depth + 1), &branch);
        let vec_user = (0..tree_size + 1).collect::<Vec<u32>>();
        let mut stores = Stores::new();
        let map_id_ik = register_users(&mut stores, &vec_user);
        let message = "tree".to_string();
        let first_packet = new_edge_gen(&mut stores, &message, &tree_size, &0);
        let mut vec_tag = Vec::<Vec<u8>>::new();
        let mut vec_edge = Vec::<Edge>::new();
        let mut leaves = Vec::new();
        mock_tree_recursive(
            &0,
            &first_packet,
            &branch,
            &1,
            &(depth + 1),
            &message,
            &map_id_ik,
            &mut vec_tag,
            &mut vec_edge,
            &mut leaves,
        );
        stores.tags.add(&vec_tag);
        stores.nbrs.add(&vec_edge);
        let edges = if branch == 1 {
            depth
        } else {
            (branch.pow(depth + 1) - 1) / (branch - 1) - 1
        };
        assert_eq!(vec_edge.len() as u32, edges);
        assert_eq!(leaves.len() as u32, branch.pow(depth));
        for leaf in &leaves {
            let report = MsgReport { key: leaf.key, payload: message.clone() };
            let path = tracing(&report, &leaf.uid, &stores, ROUNDS).unwrap();
            assert_eq!(path.len() as u32, edges);
            assert_eq!(sorted(&path), sorted(&vec_edge));
        }
    }
}

#[test]
fn forged_report_traces_nothing() {
    let mut stores = Stores::new();
    let (users, _keys, message) = create_path_case(&mut stores);
    for uid in &users {
        let report = MsgReport { key: rand::random::<[u8; 16]>(), payload: message.clone() };
        let state = run_trace(&report, uid, &stores, ROUNDS).unwrap();
        assert!(state.path.is_empty());
        assert_eq!(state.visited.len(), 1);
        assert_eq!(state.visited[0].uid, *uid);
        assert!(state.frontier.is_empty());
        assert!(state.backward.is_none());
        assert!(!state.ambiguous);
    }
    // a user that no store knows
    let report = MsgReport { key: [1u8; 16], payload: message.clone() };
    assert_eq!(tracing(&report, &77, &stores, ROUNDS), Ok(vec![]));
    // one round is enough
    assert_eq!(tracing(&report, &1, &stores, 1), Ok(vec![]));
}

#[test]
fn another_message_traces_nothing() {
    let mut stores = Stores::new();
    let (_users, keys, _message) = create_path_case(&mut stores);
    let report = MsgReport { key: keys[1], payload: "other".to_string() };
    assert_eq!(tracing(&report, &3, &stores, ROUNDS), Ok(vec![]));
}

#[test]
fn last_receiver_without_forwards_sees_the_whole_chain_only() {
    let mut stores = Stores::new();
    let message = "m".to_string();
    register_users(&mut stores, &vec![1, 2]);
    stores.nbrs.add(&vec![Edge::new(&1, &2)]);
    let packet = new_edge_gen(&mut stores, &message, &1, &2);
    let report = MsgReport { key: packet.tag_key, payload: message };
    assert_eq!(tracing(&report, &2, &stores, ROUNDS), Ok(vec![Edge { sid: 1, rid: 2 }]));
}

#[test]
fn no_node_is_expanded_twice() {
    let mut stores = Stores::new();
    let (_users, keys, message) = create_path_case(&mut stores);
    let report = MsgReport { key: keys[1], payload: message };
    let state = run_trace(&report, &3, &stores, ROUNDS).unwrap();
    for i in 0..state.visited.len() {
        for j in 0..i {
            assert!(!state.visited[i].same(&state.visited[j]));
        }
    }
    // user 8 received the message twice, under two keys: two nodes, two edges
    let eights: Vec<&TraceData> = state.visited.iter().filter(|n| n.uid == 8).collect();
    assert_eq!(eights.len(), 2);
    assert_ne!(eights[0].key, eights[1].key);
    assert_eq!(state.path.iter().filter(|e| e.rid == 8).count(), 2);
    // every discovered node was expanded once: ten nodes for nine edges
    assert_eq!(state.visited.len(), 10);
    assert_eq!(state.path.len(), 9);
    assert_eq!(state.chain.iter().map(|n| n.uid).collect::<Vec<u32>>(), vec![3, 2, 1]);
}

#[test]
fn trace_runs_out_of_rounds() {
    let mut stores = Stores::new();
    let message = "chain".to_string();
    let keys = record_chain(&mut stores, 6, &message);
    let report = MsgReport { key: *keys.last().unwrap(), payload: message };
    assert_eq!(tracing(&report, &6, &stores, 0), Err(TraceError::RoundLimit));
    assert_eq!(tracing(&report, &6, &stores, 3), Err(TraceError::RoundLimit));
    assert_eq!(tracing(&report, &6, &stores, 5), Err(TraceError::RoundLimit));
    assert_eq!(tracing(&report, &6, &stores, 6).map(|p| p.len()), Ok(5));
}

#[test]
fn trace_is_given_up_for_a_missing_identity_key() {
    let mut stores = Stores::new();
    register_users(&mut stores, &vec![1]);
    stores.nbrs.add(&vec![Edge::new(&1, &2)]);
    let report = MsgReport { key: [1u8; 16], payload: "m".to_string() };
    // the neighbor 2 of the reporter has no key
    assert_eq!(tracing(&report, &1, &stores, ROUNDS), Err(TraceError::MissingIdentityKey));
    // the reporter 2 has a neighbor but no key of their own
    let mut stores = Stores::new();
    register_users(&mut stores, &vec![1]);
    stores.nbrs.add(&vec![Edge::new(&1, &2)]);
    assert_eq!(tracing(&report, &2, &stores, ROUNDS), Err(TraceError::MissingIdentityKey));
}

#[test]
fn candidate_follows_the_direction() {
    let node = TraceData::new(5, [1u8; 16]);
    let message = "m".to_string();
    let ik = [7u8; 16];
    let back = candidate(Direction::Backward, &node, 9, &ik, &message);
    let tk = tk_gen(&ik, &5);
    assert_eq!(back.uid, 9);
    assert_eq!(back.key, prev_key(&node.key, &tk));
    assert_eq!(back.tag, proc_tag_gen(&node.key, &tk, &message));
    let fwd = candidate(Direction::Forward, &node, 9, &ik, &message);
    let tk = tk_gen(&ik, &9);
    assert_eq!(fwd.uid, 9);
    assert_eq!(fwd.key, next_key(&node.key, &tk));
    assert_eq!(fwd.tag, proc_tag_gen(&fwd.key, &tk, &message));
    assert_ne!(back.tag, fwd.tag);
}

#[test]
fn candidate_lists_need_their_keys() {
    let mut id_keys = IdKeyStore::new();
    id_keys.add(&vec![IdKey::id_as_key_gen(1), IdKey::id_as_key_gen(2)]);
    let node = TraceData::new(1, [1u8; 16]);
    let message = "m".to_string();
    let back = backward_candidates(&node, &vec![2, 2], &id_keys, &message).unwrap();
    assert_eq!(back.len(), 2);
    assert_eq!(back[0].tag, back[1].tag);
    assert!(backward_candidates(&node, &vec![2, 3], &id_keys, &message).is_none());
    assert_eq!(backward_candidates(&node, &vec![], &id_keys, &message).unwrap().len(), 0);
    let fwd = forward_candidates(&node, &vec![3, 4], &id_keys, &message).unwrap();
    assert_eq!(fwd.len(), 2);
    assert_eq!(fwd[0].uid, 3);
    assert_eq!(fwd[1].uid, 4);
    let stranger = TraceData::new(9, [1u8; 16]);
    assert!(forward_candidates(&stranger, &vec![1], &id_keys, &message).is_none());
    assert_eq!(forward_candidates(&stranger, &vec![], &id_keys, &message).unwrap().len(), 0);
}

fn cand(uid: u32, key: u8) -> Candidate {
    Candidate { uid, key: [key; 16], tag: vec![key] }
}

fn start_state(uid: u32, key: u8) -> TraceState {
    TraceState::start(&MsgReport { key: [key; 16], payload: "m".to_string() }, uid)
}

#[test]
fn start_places_the_reporter_in_both_roles() {
    let state = start_state(4, 1);
    assert_eq!(state.message, "m");
    assert!(state.path.is_empty());
    assert!(state.visited.is_empty());
    assert_eq!(state.frontier.len(), 1);
    assert!(state.frontier[0].same(&TraceData::new(4, [1u8; 16])));
    assert!(state.backward.unwrap().same(&TraceData::new(4, [1u8; 16])));
    assert!(!state.ambiguous);
    assert!(!state.is_done());
    assert_eq!(state.backward_user(), Some(4));
    assert_eq!(state.frontier_users(), vec![4]);
    assert_eq!(state.chain.len(), 1);
    assert!(state.chain[0].same(&TraceData::new(4, [1u8; 16])));
    assert_eq!(state.phase(), SearchPhase::ExpandingBackward);
}

#[test]
fn search_passes_through_its_phases() {
    let idle = TraceState::idle();
    assert_eq!(idle.phase(), SearchPhase::Idle);
    assert!(idle.path.is_empty() && idle.visited.is_empty() && idle.chain.is_empty());
    let mut state = start_state(4, 1);
    assert_eq!(state.phase(), SearchPhase::ExpandingBackward);
    // no sender is confirmed, one receiver is
    let round = CandidateRound { backward: vec![cand(10, 2)], forward: vec![vec![cand(20, 5)]] };
    assert_eq!(state.advance(&round, &vec![false], &vec![vec![true]]), Ok(()));
    assert_eq!(state.phase(), SearchPhase::ExpandingForward);
    assert!(!state.is_done());
    let round = CandidateRound { backward: vec![], forward: vec![vec![cand(30, 6)]] };
    assert_eq!(state.advance(&round, &vec![], &vec![vec![false]]), Ok(()));
    assert_eq!(state.phase(), SearchPhase::Done);
    assert!(state.is_done());
    assert_eq!(state.path, vec![Edge { sid: 4, rid: 20 }]);
    assert_eq!(state.chain.len(), 1);
    assert_eq!(state.visited.len(), 2);
}

#[test]
fn advance_takes_the_first_parent_and_flags_a_second() {
    let mut state = start_state(4, 1);
    let round = CandidateRound {
        backward: vec![cand(10, 2), cand(11, 3), cand(12, 4)],
        forward: vec![vec![cand(20, 5), cand(21, 6)]],
    };
    assert_eq!(state.advance(&round, &vec![false, true, true], &vec![vec![true, false]]), Ok(()));
    assert_eq!(state.path, vec![Edge { sid: 11, rid: 4 }, Edge { sid: 4, rid: 20 }]);
    assert!(state.backward.unwrap().same(&TraceData::new(11, [3u8; 16])));
    assert_eq!(state.frontier_users(), vec![20, 11]);
    assert_eq!(state.visited.len(), 1);
    assert_eq!(state.chain.iter().map(|n| n.uid).collect::<Vec<u32>>(), vec![4, 11]);
    assert!(state.ambiguous);
    assert!(!state.is_done());
}

#[test]
fn advance_without_a_hit_ends_the_search() {
    let mut state = start_state(4, 1);
    let round = CandidateRound { backward: vec![cand(10, 2)], forward: vec![vec![cand(20, 5)]] };
    assert_eq!(state.advance(&round, &vec![false], &vec![vec![false]]), Ok(()));
    assert!(state.path.is_empty());
    assert!(state.is_done());
    assert!(!state.ambiguous);
    assert_eq!(state.backward_user(), None);
    assert_eq!(state.frontier_users(), Vec::<u32>::new());
}

#[test]
fn advance_skips_nodes_met_before() {
    let mut state = start_state(4, 1);
    // the reporter itself, one node twice, and the parent among the children
    let round = CandidateRound {
        backward: vec![cand(30, 7)],
        forward: vec![vec![cand(4, 1), cand(20, 5), cand(20, 5), cand(30, 7), cand(20, 6)]],
    };
    let hits = vec![vec![true, true, true, true, true]];
    assert_eq!(state.advance(&round, &vec![true], &hits), Ok(()));
    assert_eq!(
        state.path,
        vec![
            Edge { sid: 30, rid: 4 },
            Edge { sid: 4, rid: 20 },
            Edge { sid: 4, rid: 30 },
            Edge { sid: 4, rid: 20 }
        ]
    );
    assert_eq!(state.frontier_users(), vec![20, 30, 20]);
    assert!(!state.ambiguous);
    // in the next round the visited reporter is not lined up again
    let round = CandidateRound {
        backward: vec![],
        forward: vec![vec![cand(4, 1)], vec![cand(20, 5)], vec![cand(40, 9)]],
    };
    let hits = vec![vec![true], vec![true], vec![true]];
    assert_eq!(state.advance(&round, &vec![], &hits), Ok(()));
    assert_eq!(state.frontier_users(), vec![40]);
    assert_eq!(state.visited.len(), 4);
    assert_eq!(state.path.len(), 5);
    assert_eq!(state.backward_user(), None);
}

#[test]
fn advance_refuses_answers_that_do_not_line_up() {
    let round = CandidateRound { backward: vec![cand(10, 2)], forward: vec![vec![cand(20, 5)]] };
    let bad: Vec<(Vec<bool>, Vec<Vec<bool>>)> = vec![
        (vec![], vec![vec![true]]),
        (vec![true, true], vec![vec![true]]),
        (vec![true], vec![]),
        (vec![true], vec![vec![]]),
        (vec![true], vec![vec![true], vec![]]),
    ];
    for (backward_hits, forward_hits) in bad {
        let mut state = start_state(4, 1);
        assert_eq!(
            state.advance(&round, &backward_hits, &forward_hits),
            Err(TraceError::MalformedAnswer)
        );
        assert!(state.path.is_empty());
        assert_eq!(state.frontier.len(), 1);
        assert!(!state.answers_line_up(&round, &backward_hits, &forward_hits));
    }
    let mut state = start_state(4, 1);
    let round = CandidateRound { backward: vec![], forward: vec![] };
    assert_eq!(state.advance(&round, &vec![], &vec![]), Err(TraceError::MalformedAnswer));
}

#[test]
fn candidates_refuse_lists_that_do_not_line_up() {
    let mut id_keys = IdKeyStore::new();
    id_keys.add(&vec![IdKey::id_as_key_gen(4)]);
    let state = start_state(4, 1);
    assert_eq!(
        state.candidates(&vec![], &vec![], &id_keys).err(),
        Some(TraceError::MalformedAnswer)
    );
    assert_eq!(
        state.candidates(&vec![], &vec![vec![], vec![]], &id_keys).err(),
        Some(TraceError::MalformedAnswer)
    );
    assert_eq!(
        state.candidates(&vec![5], &vec![vec![]], &id_keys).err(),
        Some(TraceError::MissingIdentityKey)
    );
    let round = state.candidates(&vec![4], &vec![vec![5, 6]], &id_keys).unwrap();
    assert_eq!(round.backward.len(), 1);
    assert_eq!(round.forward.len(), 1);
    assert_eq!(round.forward[0].len(), 2);
    assert_eq!(round.backward_tags(), vec![round.backward[0].tag.clone()]);
    assert_eq!(
        round.forward_tags(),
        vec![vec![round.forward[0][0].tag.clone(), round.forward[0][1].tag.clone()]]
    );
}

#[test]
fn trace_round_is_one_step_of_tracing() {
    let mut stores = Stores::new();
    let message = "chain".to_string();
    let keys = record_chain(&mut stores, 4, &message);
    let report = MsgReport { key: keys[1], payload: message };
    let mut state = TraceState::start(&report, 3);
    let mut rounds = 0;
    while !state.is_done() {
        assert_eq!(trace_round(&mut state, &stores), Ok(()));
        rounds += 1;
    }
    assert_eq!(rounds, 3);
    assert_eq!(Ok(state.path), tracing(&report, &3, &stores, 3));
}

#[test]
fn neighbor_lists_follow_the_users() {
    let mut stores = Stores::new();
    stores.nbrs.add(&vec![Edge::new(&1, &2), Edge::new(&1, &3)]);
    assert_eq!(
        neighbor_lists(&stores.nbrs, &vec![2, 1, 9, 1]),
        vec![vec![1], vec![2, 3], vec![], vec![2, 3]]
    );
}

#[test]
fn trace_data_names_itself() {
    let node = TraceData::new(12, [0u8; 16]);
    assert_eq!(node.hash(), "12AAAAAAAAAAAAAAAAAAAAAA==");
    assert_eq!(node.describe(), "User: 12, Key: AAAAAAAAAAAAAAAAAAAAAA==");
    assert!(node.same(&TraceData { uid: 12, key: [0u8; 16] }));
    assert!(!node.same(&TraceData::new(13, [0u8; 16])));
    assert!(!node.same(&TraceData::new(12, [1u8; 16])));
    let list = vec![TraceData::new(1, [1u8; 16]), node];
    assert!(nodes_contain(&list, &node));
    assert!(!nodes_contain(&list, &TraceData::new(1, [2u8; 16])));
    assert!(!nodes_contain(&vec![], &node));
}

#[test]
fn par_backward_search_finds_the_sender() {
    let mut stores = Stores::new();
    let message = "chain".to_string();
    let keys = record_chain(&mut stores, 4, &message);
    // 3 received the message from 2
    let found = par_backward_search(&message, &TraceData::new(3, keys[1]), &stores).unwrap();
    assert!(found.unwrap().same(&TraceData::new(2, keys[0])));
    // 1 started the chain: the key of 2 is stepped back, but nobody sent to 1
    let found = par_backward_search(&message, &TraceData::new(2, keys[0]), &stores).unwrap();
    let origin = found.unwrap();
    assert_eq!(origin.uid, 1);
    assert_eq!(par_backward_search(&message, &origin, &stores).map(|n| n.is_none()), Ok(true));
    // another key, another message, a user without neighbors
    let forged = TraceData::new(3, [1u8; 16]);
    assert_eq!(par_backward_search(&message, &forged, &stores).map(|n| n.is_none()), Ok(true));
    let node = TraceData::new(3, keys[1]);
    assert_eq!(
        par_backward_search(&"other".to_string(), &node, &stores).map(|n| n.is_none()),
        Ok(true)
    );
    let stranger = TraceData::new(77, keys[1]);
    assert_eq!(par_backward_search(&message, &stranger, &stores).map(|n| n.is_none()), Ok(true));
}

#[test]
fn par_backward_search_needs_the_keys_of_the_neighbors() {
    let mut stores = Stores::new();
    register_users(&mut stores, &vec![1]);
    stores.nbrs.add(&vec![Edge::new(&1, &2)]);
    let node = TraceData::new(1, [1u8; 16]);
    assert_eq!(
        par_backward_search(&"m".to_string(), &node, &stores).err(),
        Some(TraceError::MissingIdentityKey)
    );
}

#[test]
fn par_forward_search_finds_the_receivers() {
    let mut stores = Stores::new();
    let (_users, keys, message) = create_path_case(&mut stores);
    // 3 forwarded to 4 and to 6; 8 and 7 forwarded to nobody
    let nodes =
        vec![TraceData::new(3, keys[1]), TraceData::new(8, keys[5]), TraceData::new(7, keys[7])];
    let found = par_forward_search(&message, &nodes, &stores).unwrap();
    assert_eq!(found.len(), 3);
    assert_eq!(found[0].len(), 2);
    assert!(found[0][0].same(&TraceData::new(4, keys[2])));
    assert!(found[0][1].same(&TraceData::new(6, keys[6])));
    assert!(found[1].is_empty());
    assert!(found[2].is_empty());
    assert_eq!(par_forward_search(&message, &vec![], &stores), Ok(vec![]));
}

#[test]
fn par_forward_search_needs_the_key_of_the_node() {
    let mut stores = Stores::new();
    register_users(&mut stores, &vec![1]);
    stores.nbrs.add(&vec![Edge::new(&1, &2)]);
    let known = TraceData::new(1, [1u8; 16]);
    let unknown = TraceData::new(2, [1u8; 16]);
    let lonely = TraceData::new(9, [1u8; 16]);
    assert_eq!(
        par_forward_search(&"m".to_string(), &vec![known, unknown], &stores).err(),
        Some(TraceError::MissingIdentityKey)
    );
    let found = par_forward_search(&"m".to_string(), &vec![known, lonely], &stores).unwrap();
    assert_eq!(found.len(), 2);
    assert!(found[0].is_empty() && found[1].is_empty());
}

#[test]
fn hmap_to_vec_in_squence_orders_by_place() {
    let mut hmap: HashMap<usize, u8> = HashMap::new();
    hmap.insert(2, 30);
    hmap.insert(0, 10);
    hmap.insert(1, 20);
    assert_eq!(hmap_to_vec_in_squence(&hmap), Some(vec![10, 20, 30]));
    hmap.insert(4, 50);
    assert_eq!(hmap_to_vec_in_squence(&hmap), None);
    assert_eq!(hmap_to_vec_in_squence(&HashMap::<usize, u8>::new()), Some(vec![]));
}

#[test]
fn db_query_nbrs_gathers_neighbors_and_keys() {
    let mut stores = Stores::new();
    let keys = register_users(&mut stores, &vec![1, 2, 3, 9]);
    stores.nbrs.add(&vec![Edge::new(&1, &2), Edge::new(&1, &4), Edge::new(&3, &5)]);
    let (lists, found) = db_query_nbrs(&vec![1, 7, 2], &stores);
    assert_eq!(lists, vec![vec![2, 4], vec![], vec![1]]);
    // 1 and 2 are asked for or neighbors and have keys; 4 and 7 have none;
    // 3 and 9 are not concerned
    assert_eq!(found.len(), 2);
    assert_eq!(found.get(&1), keys.get(&1));
    assert_eq!(found.get(&2), keys.get(&2));
    let (lists, found) = db_query_nbrs(&vec![], &stores);
    assert!(lists.is_empty() && found.is_empty());
}
