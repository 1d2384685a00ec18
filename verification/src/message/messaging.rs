//! Packets, reports and edges.
//!
//! A sender builds a `MsgPacket` for each hop; the receiver checks it with
//! `receive_packet` without asking any store. The platform writes the packet's
//! trace tag to the membership index. A receiver who reports a message hands
//! in a `MsgReport`.

use crate::db::db_ik::IdKeyStore;
use crate::db::db_tag::TagIndex;
use crate::tool::algos::{
    hk_gen, new_key_gen, next_key, prf_gen, proc_tag_gen, spec_hk_gen, spec_next_key,
    spec_prev_key, spec_prf_gen, spec_proc_tag_gen, spec_tag_proc, spec_tk_gen, tag_proc, tk_gen,
};
use crate::tool::utils::{
    bytes_equal, concat_bytes, decimal, decryption, encryption, hash, integer_to_string,
    random_bytes_16, spec_decryption, spec_encryption, spec_hash, take_array,
};
use vstd::prelude::*;

verus! {

/// One hop of a message: from the sender `sid` to the receiver `rid`.
#[derive(Debug, Clone, Copy, PartialEq, Eq, Structural)]
pub struct Edge {
    pub sid: u32,
    pub rid: u32,
}

impl Edge {
    /// The hop from `sid` to `rid`.
    pub fn new(sid: &u32, rid: &u32) -> (edge: Edge)
        ensures
            edge == (Edge { sid: *sid, rid: *rid }),
    {
        Edge { sid: *sid, rid: *rid }
    }
}

/// A user and the identity key that was established for them.
#[derive(Debug, Clone, Copy)]
pub struct IdKey {
    pub id: u32,
    pub key: [u8; 16],
}

impl IdKey {
    /// A user with a fresh random identity key.
    pub fn rand_key_gen(id: u32) -> (id_key: IdKey)
        ensures
            id_key.id == id,
    {
        let key = random_bytes_16();
        IdKey { id, key }
    }

    /// A user whose identity key is the hash of their id's decimal numeral.
    pub fn id_as_key_gen(id: u32) -> (id_key: IdKey)
        ensures
            id_key.id == id,
            id_key.key@ == spec_hash(decimal(id as nat)),
    {
        let key = hash(&integer_to_string(id as u64));
        IdKey { id, key }
    }
}

/// What a sender hands to the channel for one hop.
#[derive(Debug)]
pub struct MsgPacket {
    /// The tag key of this hop.
    pub tag_key: [u8; 16],
    /// The key under which `ct_1`, `ct_2` seal the PRF value.
    pub epheral_key: [u8; 16],
    /// The keyed PRF of the payload under `tag_key`.
    pub prf: [u8; 32],
    /// The message, as base64 text.
    pub payload: String,
    /// The hash key of the edge, filled in by the platform.
    pub hk: [u8; 16],
    /// The trace tag of this hop.
    pub p_tag: [u8; 32],
    /// The sealed PRF value: its 32 ciphertext bytes.
    pub ct_1: [u8; 32],
    /// The sealed PRF value: its 16-byte authentication tag.
    pub ct_2: [u8; 16],
}

/// What a receiver hands in to have a message traced.
#[derive(Debug)]
pub struct MsgReport {
    pub key: [u8; 16],
    pub payload: String,
}

/// Sixteen zero bytes: a hash key that was not filled in yet, and the tag key
/// that asks for a new chain.
pub open spec fn zero_block() -> Seq<u8> {
    Seq::new(16, |i: int| 0u8)
}

/// Whether `packet` carries `message` at its tag key on the edge with pairwise
/// secret `tk`, sealed under its ephemeral key: every field but the two keys
/// is determined by them.
pub open spec fn packet_sealed(packet: MsgPacket, message: Seq<char>, tk: Seq<u8>) -> bool {
    &&& packet.payload@ == message
    &&& packet.prf@ == spec_prf_gen(packet.tag_key@, message)
    &&& packet.ct_1@ + packet.ct_2@ == spec_encryption(packet.epheral_key@, packet.prf@)
    &&& packet.p_tag@ == spec_tag_proc(packet.prf@, spec_hk_gen(tk))
    &&& packet.hk@ == zero_block()
}

/// Whether the receiver accepts `packet`: its sealed value opens under the
/// ephemeral key to the PRF of the payload under the tag key.
pub open spec fn spec_receive_packet(packet: MsgPacket) -> bool {
    spec_decryption(packet.epheral_key@, packet.ct_1@ + packet.ct_2@) == Some(
        spec_prf_gen(packet.tag_key@, packet.payload@),
    )
}

impl MsgPacket {
    /// A packet with a fresh ephemeral key and nothing sealed yet.
    pub fn new(tag_key: &[u8; 16], message: &String, prf: &[u8; 32]) -> (packet: MsgPacket)
        ensures
            packet.tag_key == *tag_key,
            packet.prf == *prf,
            packet.payload@ == message@,
            packet.hk@ == zero_block(),
            packet.p_tag@ == Seq::new(32, |i: int| 0u8),
            packet.ct_1@ == Seq::new(32, |i: int| 0u8),
            packet.ct_2@ == zero_block(),
    {
        let packet = MsgPacket {
            tag_key: *tag_key,
            prf: *prf,
            epheral_key: random_bytes_16(),
            payload: message.clone(),
            hk: [0u8; 16],
            p_tag: [0u8; 32],
            ct_1: [0u8; 32],
            ct_2: [0u8; 16],
        };
        assert(packet.hk@ =~= zero_block());
        assert(packet.ct_2@ =~= zero_block());
        assert(packet.p_tag@ =~= Seq::new(32, |i: int| 0u8));
        assert(packet.ct_1@ =~= Seq::new(32, |i: int| 0u8));
        packet
    }

    /// A packet from its parts; the sealed value `ct` is split into its
    /// ciphertext and its authentication tag.
    pub fn new_with_ek(
        tag_key: &[u8; 16],
        message: &String,
        prf: &[u8; 32],
        ek: &[u8; 16],
        ct: &[u8; 48],
        p_tag: &[u8; 32],
    ) -> (packet: MsgPacket)
        ensures
            packet.tag_key == *tag_key,
            packet.prf == *prf,
            packet.epheral_key == *ek,
            packet.payload@ == message@,
            packet.hk@ == zero_block(),
            packet.p_tag == *p_tag,
            packet.ct_1@ == ct@.subrange(0, 32),
            packet.ct_2@ == ct@.subrange(32, 48),
            packet.ct_1@ + packet.ct_2@ == ct@,
    {
        let ct_1 = take_array::<32>(ct.as_slice());
        let ct_2 = take_array::<16>(vstd::slice::slice_subrange(ct.as_slice(), 32, 48));
        assert(ct_2@ =~= ct@.subrange(32, 48));
        assert(ct_1@ + ct_2@ =~= ct@);
        let packet = MsgPacket {
            tag_key: *tag_key,
            prf: *prf,
            epheral_key: *ek,
            payload: message.clone(),
            hk: [0u8; 16],
            p_tag: *p_tag,
            ct_1,
            ct_2,
        };
        assert(packet.hk@ =~= zero_block());
        packet
    }
}

/// Whether `key` is sixteen zero bytes.
pub fn is_zero_block(key: &[u8; 16]) -> (zero: bool)
    ensures
        zero == (key@ == zero_block()),
{
    let zeros: [u8; 16] = [0u8; 16];
    assert(zeros@ =~= zero_block());
    bytes_equal(key.as_slice(), zeros.as_slice())
}

/// Builds the packet that carries `message` at the tag key `tag_key` over the
/// edge with pairwise secret `tk`, sealed under the ephemeral key `ek`. The
/// receiver accepts it.
pub fn seal_packet(message: &String, tag_key: &[u8; 16], tk: &[u8; 16], ek: &[u8; 16]) -> (packet:
    MsgPacket)
    ensures
        packet.tag_key == *tag_key,
        packet.epheral_key == *ek,
        packet_sealed(packet, message@, tk@),
        spec_receive_packet(packet),
{
    let t: [u8; 32] = prf_gen(tag_key, message);
    let ct: [u8; 48] = encryption(ek, &t);
    let hk: [u8; 16] = hk_gen(tk);
    let p_tag = tag_proc(&t, &hk);
    MsgPacket::new_with_ek(tag_key, message, &t, ek, &ct, &p_tag)
}

/// Sends `message` one hop further over the edge with pairwise secret `tk`.
///
/// The hop's tag key is `prev_key` stepped forward under `tk`; where
/// `prev_key` is sixteen zero bytes a new chain is started from fresh
/// randomness instead. The PRF value is sealed under a fresh ephemeral key.
/// Whatever the randomness was, the packet is consistent and the receiver
/// accepts it.
pub fn send_packet(message: &String, prev_key: &[u8; 16], tk: &[u8; 16]) -> (packet: MsgPacket)
    ensures
        prev_key@ != zero_block() ==> packet.tag_key@ == spec_next_key(prev_key@, tk@)
            && spec_prev_key(packet.tag_key@, tk@) == prev_key@,
        prev_key@ == zero_block() ==> exists|seed: Seq<u8>|
            seed.len() == 16 && packet.tag_key@ == spec_next_key(seed, tk@),
        packet_sealed(packet, message@, tk@),
        spec_receive_packet(packet),
{
    let tag_key = if is_zero_block(prev_key) {
        new_key_gen(tk)
    } else {
        next_key(prev_key, tk)
    };
    let ek: [u8; 16] = random_bytes_16();
    seal_packet(message, &tag_key, tk, &ek)
}

/// The platform's part on a packet in transit along `sess`: it fills in the
/// hash key of the edge from the sender's identity key. Where the sender is
/// not registered the packet is left as it is and `false` is returned.
pub fn plt_proc_packet(sess: &Edge, packet: &mut MsgPacket, id_keys: &IdKeyStore) -> (known: bool)
    ensures
        known == id_keys@.contains_key(sess.sid),
        known ==> final(packet).hk@ == spec_hk_gen(spec_tk_gen(id_keys@[sess.sid], sess.rid)),
        !known ==> final(packet).hk == old(packet).hk,
        final(packet).tag_key == old(packet).tag_key,
        final(packet).epheral_key == old(packet).epheral_key,
        final(packet).prf == old(packet).prf,
        final(packet).payload == old(packet).payload,
        final(packet).p_tag == old(packet).p_tag,
        final(packet).ct_1 == old(packet).ct_1,
        final(packet).ct_2 == old(packet).ct_2,
{
    match id_keys.get(sess.sid) {
        Some(ik) => {
            let tk = tk_gen(&ik, &sess.rid);
            let hk = hk_gen(&tk);
            packet.hk = hk;
            true
        },
        None => false,
    }
}

/// Writes the trace tag of `packet` to the membership index.
pub fn store_tag(packet: &MsgPacket, index: &mut TagIndex)
    ensures
        final(index)@ == old(index)@.push(packet.p_tag@),
{
    let mut tags: Vec<Vec<u8>> = Vec::new();
    tags.push(vstd::slice::slice_to_vec(packet.p_tag.as_slice()));
    index.add(&tags);
    assert(index@ =~= old(index)@.push(packet.p_tag@));
}

/// The receiver's check of a packet, made without any store: the sealed value
/// must open under the ephemeral key, and what it holds must be the PRF of
/// the payload under the tag key. A packet that fails either is refused.
pub fn receive_packet(packet: &MsgPacket) -> (accepted: bool)
    ensures
        accepted == spec_receive_packet(*packet),
{
    let prf = prf_gen(&packet.tag_key, &packet.payload);
    let ct = concat_bytes(packet.ct_1.as_slice(), packet.ct_2.as_slice());
    let sealed = take_array::<48>(ct.as_slice());
    assert(sealed@ =~= packet.ct_1@ + packet.ct_2@);
    match decryption(&packet.epheral_key, &sealed) {
        Some(tag) => bytes_equal(prf.as_slice(), tag.as_slice()),
        None => false,
    }
}

/// Puts a report together: the tag key and the message as the reporter holds
/// them, and the edge on which the message arrived.
pub fn submit_report(tag_key: &[u8; 16], message: &String, sess: &Edge) -> (out: (MsgReport, Edge))
    ensures
        out.0.key == *tag_key,
        out.0.payload@ == message@,
        out.1 == *sess,
{
    (MsgReport { key: *tag_key, payload: message.clone() }, *sess)
}

/// Whether the trace tag that `report` stands for on the edge `sess` was
/// written to the membership index. A report on an edge whose sender is not
/// registered is not verified.
pub fn verify_report(sess: &Edge, report: &MsgReport, id_keys: &IdKeyStore, index: &TagIndex) -> (ok:
    bool)
    ensures
        ok == (id_keys@.contains_key(sess.sid) && index@.contains(
            spec_proc_tag_gen(
                report.key@,
                spec_tk_gen(id_keys@[sess.sid], sess.rid),
                report.payload@,
            ),
        )),
{
    match id_keys.get(sess.sid) {
        Some(ik) => {
            let tk = tk_gen(&ik, &sess.rid);
            let tag = proc_tag_gen(&report.key, &tk, &report.payload);
            index.contains(&tag)
        },
        None => false,
    }
}

} // verus!
