use base64::engine::general_purpose::STANDARD;
use base64::Engine;
use impact_tracing::db::db_ik::IdKeyStore;
use impact_tracing::db::db_nbr::NbrIndex;
use impact_tracing::db::db_tag::TagIndex;
use impact_tracing::message::messaging::{
    is_zero_block, plt_proc_packet, receive_packet, seal_packet, send_packet, store_tag,
    submit_report, verify_report, Edge, IdKey, MsgPacket,
};
use impact_tracing::tool::algos::{
    hk_gen, new_key_gen, next_key, prf_gen, proc_tag_gen, tag_proc, tk_gen,
};
use impact_tracing::tool::utils::{encryption, hash};
use std::time::{Duration, Instant};

fn encode(data: &[u8]) -> String {
    STANDARD.encode(data)
}

#[test]
fn snd_rcv_msg() {
    let tk = rand::random::<[u8; 16]>();
    let message = rand::random::<[u8; 16]>();
    let prev_key = rand::random::<[u8; 16]>();

    let packet = send_packet(&encode(&message), &prev_key, &tk);
    assert!(receive_packet(&packet));
}

#[test]
fn test_send_packet() {
    let tk = rand::random::<[u8; 16]>();
    let message = rand::random::<[u8; 16]>();
    let prev_key = rand::random::<[u8; 16]>();
    let packet = send_packet(&encode(&message), &prev_key, &tk);
    assert_eq!(packet.payload, encode(&message));
}

#[test]
fn report_msg() {
    let sid: u32 = rand::random::<u32>();
    let rid: u32 = rand::random::<u32>();
    let message = rand::random::<[u8; 16]>();

    let ik: [u8; 16] = rand::random::<[u8; 16]>();
    let tk: [u8; 16] = tk_gen(&ik, &rid);
    let tag_key = new_key_gen(&tk);
    let sess = Edge::new(&sid, &rid);
    let tag = proc_tag_gen(&tag_key, &tk, &encode(&message));

    let mut id_keys = IdKeyStore::new();
    let mut nbrs = NbrIndex::new();
    let mut tags = TagIndex::new();
    id_keys.add(&vec![IdKey { id: sess.sid, key: ik }]);
    nbrs.add(&vec![sess.clone()]);
    tags.add(&vec![tag]);

    let (report, sess_sub) = submit_report(&tag_key, &encode(&message), &sess);
    assert!(verify_report(&sess_sub, &report, &id_keys, &tags), "Verify failed");
}

#[test]
fn test_plt_proc() {
    let mut count: Duration = Default::default();
    let loop_count = 100;
    let mut id_keys = IdKeyStore::new();
    for _ in 0..loop_count {
        let tk = rand::random::<[u8; 16]>();
        let uid = rand::random::<u32>();
        let id_key = IdKey::rand_key_gen(uid);
        id_keys.add(&vec![id_key]);

        let st = Instant::now();
        let _ = hk_gen(&tk);
        let found = id_keys.query(&vec![uid]);
        let et = st.elapsed();
        assert_eq!(found.get(&uid), Some(&id_key.key));
        count += et;
    }
    println!("Average time: {:?}", count / loop_count);
}

#[test]
fn edge_new_copies_both_ends() {
    let e = Edge::new(&3, &4);
    assert_eq!(e.sid, 3);
    assert_eq!(e.rid, 4);
    assert_eq!(e, Edge { sid: 3, rid: 4 });
}

#[test]
fn id_as_key_gen_hashes_the_decimal_id() {
    let id_key = IdKey::id_as_key_gen(12);
    assert_eq!(id_key.id, 12);
    assert_eq!(id_key.key, hash(&"12".to_string()));
    assert_eq!(IdKey::id_as_key_gen(0).key, hash(&"0".to_string()));
    assert_eq!(IdKey::id_as_key_gen(4294967295).key, hash(&"4294967295".to_string()));
}

#[test]
fn rand_key_gen_keeps_the_id() {
    let a = IdKey::rand_key_gen(5);
    let b = IdKey::rand_key_gen(5);
    assert_eq!(a.id, 5);
    assert_ne!(a.key, b.key);
}

#[test]
fn new_packet_has_nothing_sealed() {
    let packet = MsgPacket::new(&[1u8; 16], &"m".to_string(), &[2u8; 32]);
    assert_eq!(packet.tag_key, [1u8; 16]);
    assert_eq!(packet.prf, [2u8; 32]);
    assert_eq!(packet.payload, "m");
    assert_eq!(packet.hk, [0u8; 16]);
    assert_eq!(packet.p_tag, [0u8; 32]);
    assert_eq!(packet.ct_1, [0u8; 32]);
    assert_eq!(packet.ct_2, [0u8; 16]);
}

#[test]
fn new_with_ek_splits_the_sealed_value() {
    let mut ct = [0u8; 48];
    for i in 0..48 {
        ct[i] = i as u8;
    }
    let packet =
        MsgPacket::new_with_ek(&[1u8; 16], &"m".to_string(), &[2u8; 32], &[3u8; 16], &ct, &[4u8; 32]);
    assert_eq!(packet.tag_key, [1u8; 16]);
    assert_eq!(packet.prf, [2u8; 32]);
    assert_eq!(packet.epheral_key, [3u8; 16]);
    assert_eq!(packet.p_tag, [4u8; 32]);
    assert_eq!(packet.hk, [0u8; 16]);
    assert_eq!(&packet.ct_1[..], &ct[..32]);
    assert_eq!(&packet.ct_2[..], &ct[32..]);
}

#[test]
fn seal_packet_fills_every_field() {
    let message = "hello".to_string();
    let tag_key = [1u8; 16];
    let tk = [2u8; 16];
    let ek = [3u8; 16];
    let packet = seal_packet(&message, &tag_key, &tk, &ek);
    let t = prf_gen(&tag_key, &message);
    let ct = encryption(&ek, &t);
    assert_eq!(packet.tag_key, tag_key);
    assert_eq!(packet.epheral_key, ek);
    assert_eq!(packet.prf, t);
    assert_eq!(packet.payload, message);
    assert_eq!(&packet.ct_1[..], &ct[..32]);
    assert_eq!(&packet.ct_2[..], &ct[32..]);
    assert_eq!(packet.p_tag, tag_proc(&t, &hk_gen(&tk)));
    assert_eq!(packet.p_tag.to_vec(), proc_tag_gen(&tag_key, &tk, &message));
    assert_eq!(packet.hk, [0u8; 16]);
    assert!(receive_packet(&packet));
}

#[test]
fn send_packet_steps_the_key_forward() {
    let tk = [2u8; 16];
    let prev = [9u8; 16];
    let packet = send_packet(&"m".to_string(), &prev, &tk);
    assert_eq!(packet.tag_key, next_key(&prev, &tk));
}

#[test]
fn send_packet_starts_a_chain_on_the_zero_key() {
    let tk = [2u8; 16];
    let first = send_packet(&"m".to_string(), &[0u8; 16], &tk);
    let second = send_packet(&"m".to_string(), &[0u8; 16], &tk);
    assert_ne!(first.tag_key, next_key(&[0u8; 16], &tk));
    assert_ne!(first.tag_key, second.tag_key);
    assert!(receive_packet(&first));
    assert!(receive_packet(&second));
}

#[test]
fn zero_block_is_recognised() {
    assert!(is_zero_block(&[0u8; 16]));
    let mut almost = [0u8; 16];
    almost[15] = 1;
    assert!(!is_zero_block(&almost));
}

#[test]
fn flipping_an_authentication_byte_refuses_the_packet() {
    let tk = rand::random::<[u8; 16]>();
    let prev_key = rand::random::<[u8; 16]>();
    for i in 0..16 {
        let mut packet = send_packet(&"message".to_string(), &prev_key, &tk);
        packet.ct_2[i] ^= 0x80;
        assert!(!receive_packet(&packet));
    }
}

#[test]
fn tampered_packets_are_refused() {
    let tk = [2u8; 16];
    let prev_key = [9u8; 16];
    let mut packet = send_packet(&"message".to_string(), &prev_key, &tk);
    packet.ct_1[0] ^= 1;
    assert!(!receive_packet(&packet));
    let mut packet = send_packet(&"message".to_string(), &prev_key, &tk);
    packet.payload = "another".to_string();
    assert!(!receive_packet(&packet));
    let mut packet = send_packet(&"message".to_string(), &prev_key, &tk);
    packet.tag_key[3] ^= 1;
    assert!(!receive_packet(&packet));
    let mut packet = send_packet(&"message".to_string(), &prev_key, &tk);
    packet.epheral_key[3] ^= 1;
    assert!(!receive_packet(&packet));
    let packet = MsgPacket::new(&[1u8; 16], &"m".to_string(), &[2u8; 32]);
    assert!(!receive_packet(&packet));
}

#[test]
fn platform_fills_in_the_hash_key() {
    let mut id_keys = IdKeyStore::new();
    let sender = IdKey::id_as_key_gen(1);
    id_keys.add(&vec![sender]);
    let sess = Edge::new(&1, &2);
    let tk = tk_gen(&sender.key, &2);
    let mut packet = send_packet(&"m".to_string(), &[5u8; 16], &tk);
    let p_tag = packet.p_tag;
    assert!(plt_proc_packet(&sess, &mut packet, &id_keys));
    assert_eq!(packet.hk, hk_gen(&tk));
    assert_eq!(packet.p_tag, p_tag);
    assert_eq!(tag_proc(&packet.prf, &packet.hk), packet.p_tag);
    assert!(receive_packet(&packet));
}

#[test]
fn platform_leaves_packets_of_unknown_senders() {
    let id_keys = IdKeyStore::new();
    let mut packet = send_packet(&"m".to_string(), &[5u8; 16], &[1u8; 16]);
    assert!(!plt_proc_packet(&Edge::new(&1, &2), &mut packet, &id_keys));
    assert_eq!(packet.hk, [0u8; 16]);
}

#[test]
fn store_tag_writes_the_trace_tag() {
    let mut index = TagIndex::new();
    let packet = send_packet(&"m".to_string(), &[5u8; 16], &[1u8; 16]);
    store_tag(&packet, &mut index);
    assert_eq!(index.len(), 1);
    assert!(index.contains(&packet.p_tag.to_vec()));
    assert!(!index.contains(&packet.prf.to_vec()));
}

#[test]
fn submit_report_carries_key_message_and_edge() {
    let sess = Edge::new(&1, &2);
    let (report, edge) = submit_report(&[4u8; 16], &"m".to_string(), &sess);
    assert_eq!(report.key, [4u8; 16]);
    assert_eq!(report.payload, "m");
    assert_eq!(edge, sess);
}

#[test]
fn verify_report_refuses_what_was_not_recorded() {
    let mut id_keys = IdKeyStore::new();
    let mut tags = TagIndex::new();
    let sender = IdKey::id_as_key_gen(1);
    id_keys.add(&vec![sender]);
    let sess = Edge::new(&1, &2);
    let tk = tk_gen(&sender.key, &2);
    let packet = send_packet(&"m".to_string(), &[5u8; 16], &tk);
    store_tag(&packet, &mut tags);
    let (report, _) = submit_report(&packet.tag_key, &"m".to_string(), &sess);
    assert!(verify_report(&sess, &report, &id_keys, &tags));
    // another message, another key, the edge reversed, an unknown sender
    let (other, _) = submit_report(&packet.tag_key, &"n".to_string(), &sess);
    assert!(!verify_report(&sess, &other, &id_keys, &tags));
    let (forged, _) = submit_report(&[1u8; 16], &"m".to_string(), &sess);
    assert!(!verify_report(&sess, &forged, &id_keys, &tags));
    assert!(!verify_report(&Edge::new(&2, &1), &report, &id_keys, &tags));
    assert!(!verify_report(&Edge::new(&7, &2), &report, &id_keys, &tags));
}
