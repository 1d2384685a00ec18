use base64::engine::general_purpose::STANDARD;
use base64::Engine;
use impact_tracing::db::db_tag::TagIndex;
use impact_tracing::message::messaging::IdKey;
use impact_tracing::tool::algos::{
    first_key, hk_gen, new_key_gen, next_key, prev_key, prf_gen, proc_tag_gen, tag_exists,
    tag_mexists, tag_proc, tk_gen,
};
use impact_tracing::tool::utils::{
    bytes_equal, concat_bytes, crprf, decipher, decryption, encipher, encryption, hash,
    hash_array_32, hash_shake, hash_shake_6, packet_nonce, take_array,
};
use sha3::digest::{ExtendableOutput, Update, XofReader};
use sha3::{Digest, Sha3_256, Shake128};
use tiny_keccak::{Hasher, Kmac};

fn encode(data: &[u8]) -> String {
    STANDARD.encode(data)
}

fn hex(text: &str) -> Vec<u8> {
    let digits: Vec<u8> = text.bytes().map(|c| (c as char).to_digit(16).unwrap() as u8).collect();
    digits.chunks(2).map(|pair| pair[0] * 16 + pair[1]).collect()
}

#[test]
fn enc_dec() {
    let message = rand::random::<[u8; 16]>();
    let key = rand::random::<[u8; 16]>();
    let ciphertext = encipher(&key, &message);
    let plaintext = decipher(&key, &ciphertext);
    assert_eq!(plaintext, message);
}

#[test]
fn next_prev_key() {
    let key = rand::random::<[u8; 16]>();
    let tk = rand::random::<[u8; 16]>();
    let new_key = next_key(&key, &tk);
    let old_key = prev_key(&new_key, &tk);
    assert_eq!(key, old_key);
}

#[test]
fn test_tag_gen() {
    let message = rand::random::<[u8; 16]>();
    let key = rand::random::<[u8; 16]>();
    let tk = rand::random::<[u8; 16]>();
    let tag = proc_tag_gen(&key, &tk, &encode(&message));
    assert_eq!(tag.len(), 32);
}

#[test]
fn test_encryption_decryption() {
    let message = rand::random::<[u8; 32]>();
    let key = rand::random::<[u8; 16]>();
    let ciphertext = encryption(&key, &message);
    let plaintext = decryption(&key, &ciphertext);
    assert!(plaintext == Some(message));
}

#[test]
fn encipher_matches_the_aes_standard_vector() {
    let key: [u8; 16] = hex("000102030405060708090a0b0c0d0e0f").try_into().unwrap();
    let block: [u8; 16] = hex("00112233445566778899aabbccddeeff").try_into().unwrap();
    let expected: [u8; 16] = hex("69c4e0d86a7b0430d8cdb78070b4c55a").try_into().unwrap();
    assert_eq!(encipher(&key, &block), expected);
    assert_eq!(decipher(&key, &expected), block);
}

#[test]
fn prev_key_then_next_key_leads_back() {
    let key = [7u8; 16];
    let tk = [9u8; 16];
    let older = prev_key(&key, &tk);
    assert_ne!(older, key);
    assert_eq!(next_key(&older, &tk), key);
}

#[test]
fn chain_of_three_hops_is_walked_back() {
    let secrets = [[1u8; 16], [2u8; 16], [3u8; 16]];
    let start = [42u8; 16];
    let k1 = next_key(&start, &secrets[0]);
    let k2 = next_key(&k1, &secrets[1]);
    let k3 = next_key(&k2, &secrets[2]);
    assert_eq!(prev_key(&k3, &secrets[2]), k2);
    assert_eq!(prev_key(&k2, &secrets[1]), k1);
    assert_eq!(prev_key(&k1, &secrets[0]), start);
}

#[test]
fn first_key_is_the_encrypted_seed() {
    let tk = [5u8; 16];
    let seed = [6u8; 16];
    assert_eq!(first_key(&tk, &seed), encipher(&tk, &seed));
    assert_eq!(prev_key(&first_key(&tk, &seed), &tk), seed);
}

#[test]
fn new_key_gen_gives_fresh_keys() {
    let tk = [5u8; 16];
    assert_ne!(new_key_gen(&tk), new_key_gen(&tk));
}

#[test]
fn hash_is_the_first_half_of_sha3_256() {
    let empty: [u8; 16] = hex("a7ffc6f8bf1ed76651c14756a061d662").try_into().unwrap();
    assert_eq!(hash(&String::new()), empty);
    let abc: [u8; 16] = hex("3a985da74fe225b2045c172d6bd390bd").try_into().unwrap();
    assert_eq!(hash(&"abc".to_string()), abc);
}

#[test]
fn hash_array_32_is_sha3_256() {
    let abc: [u8; 32] =
        hex("3a985da74fe225b2045c172d6bd390bd855f086e3e9d525b46bfe24511431532").try_into().unwrap();
    assert_eq!(hash_array_32(b"abc"), abc);
}

#[test]
fn hash_shake_reads_shake128_of_the_decoded_text() {
    let empty: [u8; 16] = hex("7f9c2ba4e88f827d616045507605853e").try_into().unwrap();
    assert_eq!(hash_shake(&String::new()), Some(empty));
    let short: [u8; 6] = hex("7f9c2ba4e88f").try_into().unwrap();
    assert_eq!(hash_shake_6(&String::new()), Some(short));
    let text = encode(&[1u8, 2, 3]);
    let long = hash_shake(&text).unwrap();
    let brief = hash_shake_6(&text).unwrap();
    assert_eq!(&long[..6], &brief[..]);
    assert_ne!(long, empty);
}

#[test]
fn hash_shake_refuses_text_that_is_not_base64() {
    assert_eq!(hash_shake(&"not base64!".to_string()), None);
    assert_eq!(hash_shake_6(&"***".to_string()), None);
}

#[test]
fn crprf_is_kmac256_with_an_empty_customization() {
    let key = [3u8; 16];
    let data = [8u8; 16];
    let mut expected = [0u8; 32];
    let mut mac = Kmac::v256(&key, b"");
    mac.update(&data);
    mac.finalize(&mut expected);
    assert_eq!(crprf(&key, &data), expected);
    assert_ne!(crprf(&key, &data), crprf(&[4u8; 16], &data));
    assert_ne!(crprf(&key, &data), crprf(&key, &[9u8; 16]));
}

#[test]
fn encryption_is_48_bytes_and_tampering_is_detected() {
    let key = [1u8; 16];
    let message = [2u8; 32];
    let sealed = encryption(&key, &message);
    assert_ne!(&sealed[..32], &message[..]);
    assert_eq!(decryption(&key, &sealed), Some(message));
    for i in 0..48 {
        let mut bad = sealed;
        bad[i] ^= 1;
        assert_eq!(decryption(&key, &bad), None);
    }
    assert_eq!(decryption(&[9u8; 16], &sealed), None);
}

#[test]
fn packet_nonce_is_the_fixed_text() {
    assert_eq!(&packet_nonce(), b"unique nonce");
}

#[test]
fn byte_helpers() {
    assert_eq!(take_array::<3>(&[1, 2, 3, 4]), [1, 2, 3]);
    assert_eq!(take_array::<0>(&[]), [0u8; 0]);
    assert!(bytes_equal(&[1, 2], &[1, 2]));
    assert!(!bytes_equal(&[1, 2], &[1, 3]));
    assert!(!bytes_equal(&[1, 2], &[1, 2, 3]));
    assert!(bytes_equal(&[], &[]));
    assert_eq!(concat_bytes(&[1, 2], &[3]), vec![1, 2, 3]);
    assert_eq!(concat_bytes(&[], &[]), Vec::<u8>::new());
}

#[test]
fn tk_gen_hashes_the_encoded_key_and_the_decimal_id() {
    let sik = [7u8; 16];
    let text = encode(&sik) + "4294967295";
    assert_eq!(tk_gen(&sik, &u32::MAX), hash(&text));
    let text = encode(&sik) + "0";
    assert_eq!(tk_gen(&sik, &0), hash(&text));
    assert_ne!(tk_gen(&sik, &1), tk_gen(&sik, &2));
}

#[test]
fn pairwise_secrets_are_directional() {
    let a = IdKey::id_as_key_gen(1);
    let b = IdKey::id_as_key_gen(2);
    assert_ne!(tk_gen(&a.key, &b.id), tk_gen(&b.key, &a.id));
}

#[test]
fn tag_scheme_formulas() {
    let tag_key = [1u8; 16];
    let tk = [2u8; 16];
    let message = "hello".to_string();
    let t = prf_gen(&tag_key, &message);
    assert_eq!(t, crprf(&tag_key, &hash(&message)));
    let hk = hk_gen(&tk);
    assert_eq!(hk, hash(&encode(&tk)));
    let mut joined = Vec::new();
    joined.extend_from_slice(&hk);
    joined.extend_from_slice(&t);
    let digest: [u8; 32] = Sha3_256::digest(&joined).into();
    assert_eq!(tag_proc(&t, &hk), digest);
    assert_eq!(proc_tag_gen(&tag_key, &tk, &message), digest.to_vec());
}

#[test]
fn backward_and_forward_tags_of_one_edge_differ() {
    let k = rand::random::<[u8; 16]>();
    let s = rand::random::<[u8; 16]>();
    let message = "message".to_string();
    let backward = proc_tag_gen(&k, &s, &message);
    let forward = proc_tag_gen(&next_key(&k, &s), &s, &message);
    assert_ne!(backward, forward);
}

#[test]
fn tag_exists_asks_the_index() {
    let mut index = TagIndex::new();
    let key = [1u8; 16];
    let tk = [2u8; 16];
    let message = "m".to_string();
    assert!(!tag_exists(&key, &tk, &message, &index));
    index.add(&vec![proc_tag_gen(&key, &tk, &message)]);
    assert!(tag_exists(&key, &tk, &message, &index));
    assert!(!tag_exists(&key, &tk, &"n".to_string(), &index));
}

#[test]
fn tag_mexists_keeps_the_order() {
    let mut index = TagIndex::new();
    index.add(&vec![vec![1u8, 2, 3, 4, 5, 6]]);
    let found = tag_mexists(&vec![[0u8; 6], [1, 2, 3, 4, 5, 6], [6, 5, 4, 3, 2, 1]], &index);
    assert_eq!(found, vec![false, true, false]);
    assert_eq!(tag_mexists(&vec![], &index), Vec::<bool>::new());
}

fn shake128_of(data: &[u8]) -> [u8; 16] {
    let mut out = [0u8; 16];
    let mut shake = Shake128::default();
    shake.update(data);
    shake.finalize_xof().read(&mut out);
    out
}

#[test]
fn hash_shake_hashes_the_bytes_not_the_text() {
    let text = encode(b"abc");
    assert_eq!(text, "YWJj");
    assert_eq!(hash_shake(&text), Some(shake128_of(b"abc")));
    assert_ne!(hash_shake(&text), Some(shake128_of(b"YWJj")));
    let expected: [u8; 16] = hex("5881092dd818bf5cf8a3ddb793fbcba7").try_into().unwrap();
    assert_eq!(shake128_of(b"abc"), expected);
}
