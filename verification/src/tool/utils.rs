//! Fixed-size cryptographic building blocks.
//!
//! The primitives themselves come from the `sha3`, `tiny-keccak`, `aes`,
//! `aes-gcm`, `base64` and `rand` crates. Each is reached through one private
//! function whose contract is taken on trust; what a primitive computes is
//! given a name (`sha3_256`, `aes128_encrypt`, ...) and the public functions
//! of this module are verified against those names.

use aes::cipher::generic_array::GenericArray;
use aes::cipher::{BlockDecrypt, BlockEncrypt};
use aes::Aes128;
use aes_gcm::aead::{Aead, KeyInit};
use aes_gcm::{Aes256Gcm, Key, Nonce};
use base64::engine::general_purpose::STANDARD;
use base64::Engine;
use sha3::digest::{ExtendableOutput, Update, XofReader};
use sha3::{Digest, Sha3_256, Shake128};
use tiny_keccak::{Hasher, Kmac};
use vstd::prelude::*;
use vstd::utf8::encode_utf8;

verus! {

// ---------------------------------------------------------------------------
// What the outside primitives compute
// ---------------------------------------------------------------------------

/// The SHA3-256 digest of `data`.
pub uninterp spec fn sha3_256(data: Seq<u8>) -> Seq<u8>;

/// The first `len` bytes of the SHAKE128 output stream for `data`.
pub uninterp spec fn shake128(data: Seq<u8>, len: nat) -> Seq<u8>;

/// The 32-byte KMAC256 tag of `data` under `key` with customization `custom`.
pub uninterp spec fn kmac256(key: Seq<u8>, custom: Seq<u8>, data: Seq<u8>) -> Seq<u8>;

/// The AES-128 encryption of one block under `key`.
pub uninterp spec fn aes128_encrypt(key: Seq<u8>, block: Seq<u8>) -> Seq<u8>;

/// The AES-128 decryption of one block under `key`.
pub uninterp spec fn aes128_decrypt(key: Seq<u8>, block: Seq<u8>) -> Seq<u8>;

/// AES-256-GCM without associated data: the ciphertext followed by its
/// 16-byte authentication tag.
pub uninterp spec fn aes256_gcm_seal(key: Seq<u8>, nonce: Seq<u8>, plaintext: Seq<u8>) -> Seq<u8>;

/// AES-256-GCM without associated data: the plaintext of `sealed`, or `None`
/// where its authentication tag does not match.
pub uninterp spec fn aes256_gcm_open(key: Seq<u8>, nonce: Seq<u8>, sealed: Seq<u8>) -> Option<
    Seq<u8>,
>;

/// The standard base64 text (with padding) of `data`.
pub uninterp spec fn base64_text(data: Seq<u8>) -> Seq<char>;

/// The bytes that a standard base64 text stands for, or `None` where the text
/// is not valid base64.
pub uninterp spec fn base64_bytes(text: Seq<char>) -> Option<Seq<u8>>;

// ---------------------------------------------------------------------------
// Calls into the outside crates
// ---------------------------------------------------------------------------

/// `Sha3_256::digest` of the `sha3` crate: hashes `data` in one call. The
/// digest depends on the bytes of `data` alone.
#[verifier::external_body]
fn sha3_256_digest(data: &[u8]) -> (out: [u8; 32])
    ensures
        out@ == sha3_256(data@),
{
    Sha3_256::digest(data).into()
}

/// `Shake128` of the `sha3` crate: absorbs `data`, then reads `len` bytes of
/// output. The bytes read depend on `data` and `len` alone. The output is
/// read into a vector, which can hold no more than `isize::MAX` bytes.
#[verifier::external_body]
fn shake128_read(data: &[u8], len: usize) -> (out: Vec<u8>)
    requires
        len <= isize::MAX,
    ensures
        out@ == shake128(data@, len as nat),
        out@.len() == len,
{
    let mut out = vec![0u8; len];
    let mut shake = Shake128::default();
    shake.update(data);
    shake.finalize_xof().read(&mut out);
    out
}

/// `Kmac::v256` of the `tiny-keccak` crate, fed `data` once and finalized into
/// 32 bytes. The tag depends on the key, the customization string and the
/// data alone.
#[verifier::external_body]
fn kmac256_tag(key: &[u8], custom: &[u8], data: &[u8]) -> (out: [u8; 32])
    ensures
        out@ == kmac256(key@, custom@, data@),
{
    let mut out = [0u8; 32];
    let mut mac = Kmac::v256(key, custom);
    mac.update(data);
    mac.finalize(&mut out);
    out
}

/// `Aes128::encrypt_block` of the `aes` crate, on a copy of `block`. For each
/// key AES permutes the blocks, so decrypting the result under the same key
/// gives `block` back.
#[verifier::external_body]
fn aes128_encrypt_block(key: &[u8; 16], block: &[u8; 16]) -> (out: [u8; 16])
    ensures
        out@ == aes128_encrypt(key@, block@),
        aes128_decrypt(key@, out@) == block@,
{
    let cipher = Aes128::new(GenericArray::from_slice(key));
    let mut buf = GenericArray::clone_from_slice(block);
    cipher.encrypt_block(&mut buf);
    buf.into()
}

/// `Aes128::decrypt_block` of the `aes` crate, on a copy of `block`. For each
/// key AES permutes the blocks, so encrypting the result under the same key
/// gives `block` back.
#[verifier::external_body]
fn aes128_decrypt_block(key: &[u8; 16], block: &[u8; 16]) -> (out: [u8; 16])
    ensures
        out@ == aes128_decrypt(key@, block@),
        aes128_encrypt(key@, out@) == block@,
{
    let cipher = Aes128::new(GenericArray::from_slice(key));
    let mut buf = GenericArray::clone_from_slice(block);
    cipher.decrypt_block(&mut buf);
    buf.into()
}

/// `Aes256Gcm::encrypt` of the `aes-gcm` crate with no associated data. A
/// 32-byte plaintext is far below the cipher's length limit, so the call
/// succeeds; the result is the 32 ciphertext bytes followed by the 16-byte
/// tag, and opening it under the same key and nonce gives the plaintext back.
#[verifier::external_body]
fn aes256_gcm_encrypt(key: &[u8; 32], nonce: &[u8; 12], plaintext: &[u8; 32]) -> (out: Option<
    Vec<u8>,
>)
    ensures
        out is Some,
        out->0@ == aes256_gcm_seal(key@, nonce@, plaintext@),
        out->0@.len() == 48,
        aes256_gcm_open(key@, nonce@, out->0@) == Some(plaintext@),
{
    let cipher = Aes256Gcm::new(Key::<Aes256Gcm>::from_slice(key));
    cipher.encrypt(Nonce::from_slice(nonce), plaintext.as_ref()).ok()
}

/// `Aes256Gcm::decrypt` of the `aes-gcm` crate with no associated data. It
/// fails where the trailing 16-byte tag does not authenticate the rest; a
/// plaintext that comes back is 16 bytes shorter than the input.
#[verifier::external_body]
fn aes256_gcm_decrypt(key: &[u8; 32], nonce: &[u8; 12], sealed: &[u8]) -> (out: Option<Vec<u8>>)
    ensures
        out is Some <==> aes256_gcm_open(key@, nonce@, sealed@) is Some,
        out is Some ==> out->0@ == aes256_gcm_open(key@, nonce@, sealed@)->0,
        out is Some ==> out->0@.len() + 16 == sealed@.len(),
{
    let cipher = Aes256Gcm::new(Key::<Aes256Gcm>::from_slice(key));
    cipher.decrypt(Nonce::from_slice(nonce), sealed).ok()
}

/// `Engine::encode` of the `base64` crate with the standard engine. The text
/// depends on the bytes alone.
#[verifier::external_body]
pub(crate) fn base64_encode(data: &[u8]) -> (out: String)
    ensures
        out@ == base64_text(data@),
{
    STANDARD.encode(data)
}

/// `Engine::decode` of the `base64` crate with the standard engine; `None`
/// stands for its decode error.
#[verifier::external_body]
fn base64_decode(text: &str) -> (out: Option<Vec<u8>>)
    ensures
        out is Some <==> base64_bytes(text@) is Some,
        out is Some ==> out->0@ == base64_bytes(text@)->0,
{
    STANDARD.decode(text).ok()
}

/// `rand::random` for a 16-byte array: fresh randomness, of which nothing is
/// promised.
#[verifier::external_body]
pub(crate) fn random_bytes_16() -> [u8; 16] {
    rand::random::<[u8; 16]>()
}

/// `ToString::to_string` of std on an unsigned integer, which writes it in
/// decimal without sign or leading zeros.
#[verifier::external_body]
pub(crate) fn integer_to_string(n: u64) -> (out: String)
    ensures
        out@ == decimal(n as nat),
{
    n.to_string()
}

// ---------------------------------------------------------------------------
// Specifications of this module's functions
// ---------------------------------------------------------------------------

/// The character of a decimal digit.
pub open spec fn digit_char(d: nat) -> char {
    if d == 0 {
        '0'
    } else if d == 1 {
        '1'
    } else if d == 2 {
        '2'
    } else if d == 3 {
        '3'
    } else if d == 4 {
        '4'
    } else if d == 5 {
        '5'
    } else if d == 6 {
        '6'
    } else if d == 7 {
        '7'
    } else if d == 8 {
        '8'
    } else {
        '9'
    }
}

/// The decimal numeral of `n`, most significant digit first.
pub open spec fn decimal(n: nat) -> Seq<char>
    decreases n,
{
    if n < 10 {
        seq![digit_char(n)]
    } else {
        decimal(n / 10).push(digit_char(n % 10))
    }
}

/// The nonce that every packet is sealed under: the ASCII bytes of
/// "unique nonce".
pub open spec fn spec_packet_nonce() -> Seq<u8> {
    seq![117u8, 110u8, 105u8, 113u8, 117u8, 101u8, 32u8, 110u8, 111u8, 110u8, 99u8, 101u8]
}

/// A 128-bit hash of a text: the first half of the SHA3-256 digest of its
/// UTF-8 bytes.
pub open spec fn spec_hash(text: Seq<char>) -> Seq<u8> {
    sha3_256(encode_utf8(text)).subrange(0, 16)
}

/// The keyed PRF: KMAC256 with an empty customization string.
pub open spec fn spec_crprf(k: Seq<u8>, x: Seq<u8>) -> Seq<u8> {
    kmac256(k, Seq::<u8>::empty(), x)
}

/// What `encryption` returns: the plaintext sealed under the digest of `k`.
pub open spec fn spec_encryption(k: Seq<u8>, plaintext: Seq<u8>) -> Seq<u8> {
    aes256_gcm_seal(sha3_256(k), spec_packet_nonce(), plaintext)
}

/// What `decryption` returns: the plaintext of `sealed` under the digest of
/// `k`, where it authenticates.
pub open spec fn spec_decryption(k: Seq<u8>, sealed: Seq<u8>) -> Option<Seq<u8>> {
    aes256_gcm_open(sha3_256(k), spec_packet_nonce(), sealed)
}

// ---------------------------------------------------------------------------
// Byte helpers
// ---------------------------------------------------------------------------

/// The first `N` bytes of `src` as an array.
pub fn take_array<const N: usize>(src: &[u8]) -> (out: [u8; N])
    requires
        N <= src@.len(),
    ensures
        out@ == src@.subrange(0, N as int),
{
    let mut out: [u8; N] = [0u8; N];
    let mut i: usize = 0;
    while i < N
        invariant
            i <= N,
            N <= src@.len(),
            forall|j: int| 0 <= j < i ==> out@[j] == src@[j],
        decreases N - i,
    {
        out[i] = src[i];
        i = i + 1;
    }
    assert(out@ =~= src@.subrange(0, N as int));
    out
}

/// Whether two byte strings hold the same bytes.
pub fn bytes_equal(a: &[u8], b: &[u8]) -> (same: bool)
    ensures
        same == (a@ == b@),
{
    if a.len() != b.len() {
        return false;
    }
    let mut i: usize = 0;
    while i < a.len()
        invariant
            i <= a@.len(),
            a@.len() == b@.len(),
            forall|j: int| 0 <= j < i ==> a@[j] == b@[j],
        decreases a@.len() - i,
    {
        if a[i] != b[i] {
            return false;
        }
        i = i + 1;
    }
    assert(a@ =~= b@);
    true
}

/// `a` followed by `b`.
pub fn concat_bytes(a: &[u8], b: &[u8]) -> (out: Vec<u8>)
    ensures
        out@ == a@ + b@,
{
    let mut out: Vec<u8> = Vec::new();
    let mut i: usize = 0;
    while i < a.len()
        invariant
            i <= a@.len(),
            out@ == a@.subrange(0, i as int),
        decreases a@.len() - i,
    {
        out.push(a[i]);
        i = i + 1;
    }
    let mut j: usize = 0;
    while j < b.len()
        invariant
            j <= b@.len(),
            out@ == a@ + b@.subrange(0, j as int),
        decreases b@.len() - j,
    {
        out.push(b[j]);
        j = j + 1;
    }
    out
}

/// The nonce that every packet is sealed under.
pub fn packet_nonce() -> (nonce: [u8; 12])
    ensures
        nonce@ == spec_packet_nonce(),
{
    let nonce: [u8; 12] = [117u8, 110u8, 105u8, 113u8, 117u8, 101u8, 32u8, 110u8, 111u8, 110u8, 99u8, 101u8];
    assert(nonce@ =~= spec_packet_nonce());
    nonce
}

// ---------------------------------------------------------------------------
// The public primitives
// ---------------------------------------------------------------------------

/// Hashes a text of any length to 128 bits.
pub fn hash(x: &String) -> (y: [u8; 16])
    ensures
        y@ == spec_hash(x@),
{
    let digest = sha3_256_digest(x.as_str().as_bytes());
    take_array::<16>(digest.as_slice())
}

/// Hashes a byte string of any length to 256 bits.
pub fn hash_array_32(x: &[u8]) -> (y: [u8; 32])
    ensures
        y@ == sha3_256(x@),
{
    sha3_256_digest(x)
}

/// Reads `len` bytes of SHAKE128 output for the bytes that the base64 text `x`
/// stands for; `None` where `x` is not valid base64.
fn shake_of_base64(x: &String, len: usize) -> (y: Option<Vec<u8>>)
    requires
        len <= isize::MAX,
    ensures
        match base64_bytes(x@) {
            Some(bytes) => y is Some && y->0@ == shake128(bytes, len as nat) && y->0@.len() == len,
            None => y is None,
        },
{
    match base64_decode(x.as_str()) {
        Some(bytes) => Some(shake128_read(bytes.as_slice(), len)),
        None => None,
    }
}

/// 16 bytes of SHAKE128 output for the bytes that the base64 text `x` stands
/// for; `None` where `x` is not valid base64.
pub fn hash_shake(x: &String) -> (y: Option<[u8; 16]>)
    ensures
        match base64_bytes(x@) {
            Some(bytes) => y is Some && y->0@ == shake128(bytes, 16),
            None => y is None,
        },
{
    match shake_of_base64(x, 16) {
        Some(out) => {
            let y = take_array::<16>(out.as_slice());
            assert(y@ =~= out@);
            Some(y)
        },
        None => None,
    }
}

/// 6 bytes of SHAKE128 output for the bytes that the base64 text `x` stands
/// for; `None` where `x` is not valid base64.
pub fn hash_shake_6(x: &String) -> (y: Option<[u8; 6]>)
    ensures
        match base64_bytes(x@) {
            Some(bytes) => y is Some && y->0@ == shake128(bytes, 6),
            None => y is None,
        },
{
    match shake_of_base64(x, 6) {
        Some(out) => {
            let y = take_array::<6>(out.as_slice());
            assert(y@ =~= out@);
            Some(y)
        },
        None => None,
    }
}

/// The keyed PRF of the tag scheme.
pub fn crprf(k: &[u8; 16], x: &[u8]) -> (z: [u8; 32])
    ensures
        z@ == spec_crprf(k@, x@),
{
    let custom: [u8; 0] = [];
    assert(custom@ =~= Seq::<u8>::empty());
    kmac256_tag(k.as_slice(), custom.as_slice(), x)
}

/// Encrypts one block. `decipher` under the same key undoes it.
pub fn encipher(k: &[u8; 16], plaintext: &[u8; 16]) -> (ciphertext: [u8; 16])
    ensures
        ciphertext@ == aes128_encrypt(k@, plaintext@),
        aes128_decrypt(k@, ciphertext@) == plaintext@,
{
    aes128_encrypt_block(k, plaintext)
}

/// Decrypts one block. `encipher` under the same key undoes it.
pub fn decipher(k: &[u8; 16], ciphertext: &[u8; 16]) -> (plaintext: [u8; 16])
    ensures
        plaintext@ == aes128_decrypt(k@, ciphertext@),
        aes128_encrypt(k@, plaintext@) == ciphertext@,
{
    aes128_decrypt_block(k, ciphertext)
}

/// Seals 32 bytes under the key derived from `k`: 32 ciphertext bytes and a
/// 16-byte authentication tag. `decryption` under the same `k` gives the
/// plaintext back.
pub fn encryption(k: &[u8; 16], plaintext: &[u8; 32]) -> (ct: [u8; 48])
    ensures
        ct@ == spec_encryption(k@, plaintext@),
        spec_decryption(k@, ct@) == Some(plaintext@),
{
    let hash_k = sha3_256_digest(k.as_slice());
    let nonce = packet_nonce();
    let sealed = aes256_gcm_encrypt(&hash_k, &nonce, plaintext).unwrap();
    let ct = take_array::<48>(sealed.as_slice());
    assert(ct@ =~= sealed@);
    ct
}

/// Opens what `encryption` sealed; `None` where the authentication tag does
/// not match the ciphertext under `k`.
pub fn decryption(k: &[u8; 16], ciphertext: &[u8; 48]) -> (p: Option<[u8; 32]>)
    ensures
        match spec_decryption(k@, ciphertext@) {
            Some(plain) => p is Some && p->0@ == plain,
            None => p is None,
        },
{
    let hash_k = sha3_256_digest(k.as_slice());
    let nonce = packet_nonce();
    match aes256_gcm_decrypt(&hash_k, &nonce, ciphertext.as_slice()) {
        Some(bytes) => {
            let p = take_array::<32>(bytes.as_slice());
            assert(p@ =~= bytes@);
            Some(p)
        },
        None => None,
    }
}

} // verus!
