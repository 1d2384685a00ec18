//! The key chain and the tag scheme.
//!
//! A pairwise secret binds a sender's identity key to one receiver. A tag key
//! moves one step along the chain with every hop: forward by one block
//! encryption under the hop's pairwise secret, backward by the matching
//! decryption. A trace tag binds the keyed PRF of the message to the hop's
//! pairwise secret.

use crate::tool::utils::{
    aes128_decrypt, aes128_encrypt, base64_encode, base64_text, concat_bytes, crprf, decimal,
    decipher, encipher, hash, hash_array_32, integer_to_string, random_bytes_16, sha3_256,
    spec_crprf, spec_hash,
};
use crate::db::db_tag::TagIndex;
use vstd::prelude::*;
use vstd::string::StringExecFns;

verus! {

/// The pairwise secret of a sender with identity key `sik` towards the
/// receiver `rid`.
pub open spec fn spec_tk_gen(sik: Seq<u8>, rid: u32) -> Seq<u8> {
    spec_hash(base64_text(sik) + decimal(rid as nat))
}

/// The tag key one hop further along, under the hop's pairwise secret `tk`.
pub open spec fn spec_next_key(key: Seq<u8>, tk: Seq<u8>) -> Seq<u8> {
    aes128_encrypt(tk, key)
}

/// The tag key one hop back, under the hop's pairwise secret `tk`.
pub open spec fn spec_prev_key(key: Seq<u8>, tk: Seq<u8>) -> Seq<u8> {
    aes128_decrypt(tk, key)
}

/// The keyed PRF of a message: the message is hashed first, so the PRF's input
/// has a fixed size.
pub open spec fn spec_prf_gen(tag_key: Seq<u8>, message: Seq<char>) -> Seq<u8> {
    spec_crprf(tag_key, spec_hash(message))
}

/// The hash key of an edge, derived from its pairwise secret.
pub open spec fn spec_hk_gen(tk: Seq<u8>) -> Seq<u8> {
    spec_hash(base64_text(tk))
}

/// The stored form of a PRF value `t` on the edge with hash key `hk`.
pub open spec fn spec_tag_proc(t: Seq<u8>, hk: Seq<u8>) -> Seq<u8> {
    sha3_256(hk + t)
}

/// The trace tag of `message` at tag key `tag_key` on the edge with pairwise
/// secret `tk`.
pub open spec fn spec_proc_tag_gen(tag_key: Seq<u8>, tk: Seq<u8>, message: Seq<char>) -> Seq<u8> {
    spec_tag_proc(spec_prf_gen(tag_key, message), spec_hk_gen(tk))
}

/// Derives the pairwise secret of the sender with identity key `sik` towards
/// the receiver `rid`.
pub fn tk_gen(sik: &[u8; 16], rid: &u32) -> (tk: [u8; 16])
    ensures
        tk@ == spec_tk_gen(sik@, *rid),
{
    let number = integer_to_string(*rid as u64);
    let text = base64_encode(sik.as_slice()).concat(number.as_str());
    hash(&text)
}

/// Starts a chain from the seed `seed`: the seed, encrypted under `tk`.
pub fn first_key(tk: &[u8; 16], seed: &[u8; 16]) -> (key: [u8; 16])
    ensures
        key@ == spec_next_key(seed@, tk@),
        spec_prev_key(key@, tk@) == seed@,
{
    encipher(tk, seed)
}

/// Starts a chain: fresh randomness, encrypted under `tk`.
pub fn new_key_gen(tk: &[u8; 16]) -> (key: [u8; 16])
    ensures
        exists|seed: Seq<u8>| seed.len() == 16 && key@ == spec_next_key(seed, tk@),
{
    let seed = random_bytes_16();
    let key = first_key(tk, &seed);
    assert(seed@.len() == 16 && key@ == spec_next_key(seed@, tk@));
    key
}

/// Steps a tag key back over the hop with pairwise secret `tk`. Undoes
/// `next_key`, and `next_key` undoes it.
pub fn prev_key(key: &[u8; 16], tk: &[u8; 16]) -> (old_key: [u8; 16])
    ensures
        old_key@ == spec_prev_key(key@, tk@),
        spec_next_key(old_key@, tk@) == key@,
{
    decipher(tk, key)
}

/// Steps a tag key forward over the hop with pairwise secret `tk`. `prev_key`
/// under the same secret leads back to `key`.
pub fn next_key(key: &[u8; 16], tk: &[u8; 16]) -> (new_key: [u8; 16])
    ensures
        new_key@ == spec_next_key(key@, tk@),
        spec_prev_key(new_key@, tk@) == key@,
{
    encipher(tk, key)
}

/// The keyed PRF of `message` under `tag_key`.
pub fn prf_gen(tag_key: &[u8; 16], message: &String) -> (t: [u8; 32])
    ensures
        t@ == spec_prf_gen(tag_key@, message@),
{
    let hash_msg = hash(message);
    crprf(tag_key, hash_msg.as_slice())
}

/// The hash key of the edge with pairwise secret `tk`.
pub fn hk_gen(tk: &[u8; 16]) -> (hk: [u8; 16])
    ensures
        hk@ == spec_hk_gen(tk@),
{
    hash(&base64_encode(tk.as_slice()))
}

/// Binds a PRF value to an edge: the digest of the hash key followed by the
/// PRF value.
pub fn tag_proc(t: &[u8; 32], hk: &[u8; 16]) -> (tag: [u8; 32])
    ensures
        tag@ == spec_tag_proc(t@, hk@),
{
    let proc_tag = concat_bytes(hk.as_slice(), t.as_slice());
    hash_array_32(proc_tag.as_slice())
}

/// The trace tag that is stored for `message` at tag key `tag_key` on the edge
/// with pairwise secret `tk`.
pub fn proc_tag_gen(tag_key: &[u8; 16], tk: &[u8; 16], message: &String) -> (tag: Vec<u8>)
    ensures
        tag@ == spec_proc_tag_gen(tag_key@, tk@, message@),
        tag@.len() == 32,
{
    let t = prf_gen(tag_key, message);
    let hk = hk_gen(tk);
    let tag = tag_proc(&t, &hk);
    vstd::slice::slice_to_vec(tag.as_slice())
}

/// Whether the trace tag of `message` at tag key `key` on the edge with
/// pairwise secret `tk` was written to the membership index.
pub fn tag_exists(key: &[u8; 16], tk: &[u8; 16], message: &String, index: &TagIndex) -> (found:
    bool)
    ensures
        found == index@.contains(spec_proc_tag_gen(key@, tk@, message@)),
{
    let tag = proc_tag_gen(key, tk, message);
    index.contains(&tag)
}

/// Whether each of the short tags of `tags` was written to the membership
/// index, in the order of `tags`.
pub fn tag_mexists(tags: &Vec<[u8; 6]>, index: &TagIndex) -> (found: Vec<bool>)
    ensures
        found@.len() == tags@.len(),
        forall|i: int| 0 <= i < tags@.len() ==> found@[i] == index@.contains(tags@[i]@),
{
    let mut found: Vec<bool> = Vec::new();
    let mut i: usize = 0;
    while i < tags.len()
        invariant
            i <= tags@.len(),
            found@.len() == i,
            forall|k: int| 0 <= k < i ==> found@[k] == index@.contains(tags@[k]@),
        decreases tags@.len() - i,
    {
        let tag = vstd::slice::slice_to_vec(tags[i].as_slice());
        found.push(index.contains(&tag));
        i = i + 1;
    }
    found
}

} // verus!
