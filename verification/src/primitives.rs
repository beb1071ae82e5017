//! The cryptographic operations that other crates provide, on plain bytes.
//!
//! Everything in this file is taken on trust: each function hands its
//! arguments to one outside operation, and its contract says what that
//! operation is documented to return.
use aes_gcm::aead::{Aead, AeadCore, KeyInit, OsRng};
use aes_gcm::{Aes256Gcm, Key, Nonce};
use rand::RngCore;
use secp256k1::ecdh::SharedSecret;
use secp256k1::{ecdsa, Message, Secp256k1};
use sha2::{Digest, Sha256};
use vstd::prelude::*;

use crate::bytes::be_value;

verus! {

/// The order of the secp256k1 group, as 32 big-endian bytes.
pub const CURVE_ORDER: [u8; 32] = [
    0xff, 0xff, 0xff, 0xff, 0xff, 0xff, 0xff, 0xff, 0xff, 0xff, 0xff, 0xff, 0xff, 0xff, 0xff, 0xfe,
    0xba, 0xae, 0xdc, 0xe6, 0xaf, 0x48, 0xa0, 0x3b, 0xbf, 0xd2, 0x5e, 0x8c, 0xd0, 0x36, 0x41, 0x41,
];

/// The longest message, in bytes, that AES-GCM encrypts under one nonce.
pub const MAX_PLAINTEXT: u64 = 0x10_0000_0000;

/// Length of an AES-GCM nonce in bytes.
pub const NONCE_LEN: usize = 12;

/// Whether `sk` is a secp256k1 secret key: 32 bytes that encode a number from
/// one up to, but not including, the group order.
pub open spec fn valid_secret_key(sk: Seq<u8>) -> bool {
    &&& sk.len() == 32
    &&& 0 < be_value(sk) < be_value(CURVE_ORDER@)
}

/// Whether `pk` is the compressed encoding of a secp256k1 public key.
pub open spec fn valid_public_key(pk: Seq<u8>) -> bool {
    &&& pk.len() == 33
    &&& public_key_encoding(pk) == Some(pk)
}

/// The SHA-256 digest of `data`.
pub uninterp spec fn sha256_digest(data: Seq<u8>) -> Seq<u8>;

/// The compressed encoding of the public key that `data` encodes, if it
/// encodes one.
pub uninterp spec fn public_key_encoding(data: Seq<u8>) -> Option<Seq<u8>>;

/// The compressed encoding of the public key that belongs to secret key `sk`.
pub uninterp spec fn public_key_of(sk: Seq<u8>) -> Seq<u8>;

/// The compressed encoding of the sum of two public keys, unless they add up
/// to the identity.
pub uninterp spec fn public_key_sum(a: Seq<u8>, b: Seq<u8>) -> Option<Seq<u8>>;

/// The secret that the owner of `sk` shares with the owner of public key `pk`.
pub uninterp spec fn ecdh_secret(sk: Seq<u8>, pk: Seq<u8>) -> Seq<u8>;

/// The compact ECDSA signature of `sk` over `digest`.
pub uninterp spec fn ecdsa_signature(sk: Seq<u8>, digest: Seq<u8>) -> Seq<u8>;

/// Whether `signature` is a valid compact ECDSA signature of `pk` over
/// `digest`.
pub uninterp spec fn ecdsa_verifies(pk: Seq<u8>, digest: Seq<u8>, signature: Seq<u8>) -> bool;

/// The AES-256-GCM encryption of `plain`, authentication tag included.
pub uninterp spec fn aes_gcm_sealed(key: Seq<u8>, nonce: Seq<u8>, plain: Seq<u8>) -> Seq<u8>;

/// What AES-256-GCM decrypts `ciphertext` to, if it authenticates.
pub uninterp spec fn aes_gcm_opened(
    key: Seq<u8>,
    nonce: Seq<u8>,
    ciphertext: Seq<u8>,
) -> Option<Seq<u8>>;

/// `sha2::Sha256::digest`: the digest is a function of the data alone.
#[verifier::external_body]
pub(crate) fn sha256(data: &[u8]) -> (digest: [u8; 32])
    ensures
        digest@ == sha256_digest(data@),
{
    Sha256::digest(data).into()
}

/// `secp256k1::PublicKey::from_slice`, then the key's compressed encoding.
///
/// Which byte strings encode a key is a function of the bytes alone, and the
/// compressed encoding of a key encodes that same key.
#[verifier::external_body]
pub(crate) fn parse_public_key(data: &[u8]) -> (encoding: Option<[u8; 33]>)
    ensures
        match encoding {
            Some(pk) => public_key_encoding(data@) == Some(pk@) && valid_public_key(pk@),
            None => public_key_encoding(data@) is None,
        },
{
    match secp256k1::PublicKey::from_slice(data) {
        Ok(pk) => Some(pk.serialize()),
        Err(_) => None,
    }
}

/// `secp256k1::Secp256k1::generate_keypair` with the thread's random number
/// generator: a valid secret key and the public key that belongs to it. Which
/// key comes out is left to chance.
#[verifier::external_body]
pub(crate) fn generate() -> (pair: ([u8; 32], [u8; 33]))
    ensures
        valid_secret_key(pair.0@),
        valid_public_key(pair.1@),
        pair.1@ == public_key_of(pair.0@),
{
    let (sk, pk) = Secp256k1::new().generate_keypair(&mut secp256k1::rand::rng());
    (sk.secret_bytes(), pk.serialize())
}

/// `secp256k1::PublicKey::combine`: the sum is a function of the two keys, and
/// a public key again unless it is the identity.
#[verifier::external_body]
pub(crate) fn combine(a: &[u8; 33], b: &[u8; 33]) -> (sum: Option<[u8; 33]>)
    requires
        valid_public_key(a@),
        valid_public_key(b@),
    ensures
        match sum {
            Some(pk) => public_key_sum(a@, b@) == Some(pk@) && valid_public_key(pk@),
            None => public_key_sum(a@, b@) is None,
        },
{
    let left = secp256k1::PublicKey::from_slice(a).unwrap();
    let right = secp256k1::PublicKey::from_slice(b).unwrap();
    match left.combine(&right) {
        Ok(pk) => Some(pk.serialize()),
        Err(_) => None,
    }
}

/// `secp256k1::ecdh::SharedSecret::new`: a function of the two keys, and the
/// same from either side, so whoever holds the secret key behind `pk` gets it
/// from the public key that belongs to `sk`.
#[verifier::external_body]
pub(crate) fn ecdh(sk: &[u8; 32], pk: &[u8; 33]) -> (secret: [u8; 32])
    requires
        valid_secret_key(sk@),
        valid_public_key(pk@),
    ensures
        secret@ == ecdh_secret(sk@, pk@),
        forall|peer: Seq<u8>|
            valid_secret_key(peer) && #[trigger] public_key_of(peer) == pk@ ==> secret@
                == ecdh_secret(peer, public_key_of(sk@)),
{
    let scalar = secp256k1::SecretKey::from_byte_array(*sk).unwrap();
    let point = secp256k1::PublicKey::from_slice(pk).unwrap();
    SharedSecret::new(&point, &scalar).secret_bytes()
}

/// `secp256k1::Secp256k1::sign_ecdsa`, which derives its nonce from the key
/// and the digest: the signature is a function of the two, and it verifies
/// under the public key that belongs to `sk`.
#[verifier::external_body]
pub(crate) fn ecdsa_sign(sk: &[u8; 32], digest: &[u8; 32]) -> (signature: [u8; 64])
    requires
        valid_secret_key(sk@),
    ensures
        signature@ == ecdsa_signature(sk@, digest@),
        ecdsa_verifies(public_key_of(sk@), digest@, signature@),
{
    let scalar = secp256k1::SecretKey::from_byte_array(*sk).unwrap();
    let message = Message::from_digest(*digest);
    Secp256k1::new().sign_ecdsa(message, &scalar).serialize_compact()
}

/// `secp256k1::Secp256k1::verify_ecdsa`: whether the signature is valid is a
/// function of key, digest and signature. Bytes that are no compact signature
/// do not verify.
#[verifier::external_body]
pub(crate) fn ecdsa_verify(pk: &[u8; 33], digest: &[u8; 32], signature: &[u8; 64]) -> (valid: bool)
    requires
        valid_public_key(pk@),
    ensures
        valid == ecdsa_verifies(pk@, digest@, signature@),
{
    let point = secp256k1::PublicKey::from_slice(pk).unwrap();
    let message = Message::from_digest(*digest);
    match ecdsa::Signature::from_compact(signature) {
        Ok(parsed) => Secp256k1::new().verify_ecdsa(message, &parsed, &point).is_ok(),
        Err(_) => false,
    }
}

/// `aes_gcm::Aes256Gcm::encrypt` without associated data: the ciphertext is a
/// function of key, nonce and message, and decrypts to that message again.
/// Longer messages than `MAX_PLAINTEXT` are refused by the cipher.
#[verifier::external_body]
pub(crate) fn aes_encrypt(key: &[u8; 32], nonce: &[u8], plain: &[u8]) -> (ciphertext: Vec<u8>)
    requires
        nonce@.len() == NONCE_LEN,
        plain@.len() <= MAX_PLAINTEXT,
    ensures
        ciphertext@ == aes_gcm_sealed(key@, nonce@, plain@),
        aes_gcm_opened(key@, nonce@, ciphertext@) == Some(plain@),
{
    let cipher = Aes256Gcm::new(Key::<Aes256Gcm>::from_slice(key));
    cipher.encrypt(Nonce::from_slice(nonce), plain).unwrap()
}

/// `aes_gcm::Aes256Gcm::decrypt` without associated data: a function of key,
/// nonce and ciphertext.
#[verifier::external_body]
pub(crate) fn aes_decrypt(key: &[u8; 32], nonce: &[u8], ciphertext: &[u8]) -> (plain: Option<
    Vec<u8>,
>)
    requires
        nonce@.len() == NONCE_LEN,
    ensures
        match plain {
            Some(p) => aes_gcm_opened(key@, nonce@, ciphertext@) == Some(p@),
            None => aes_gcm_opened(key@, nonce@, ciphertext@) is None,
        },
{
    let cipher = Aes256Gcm::new(Key::<Aes256Gcm>::from_slice(key));
    cipher.decrypt(Nonce::from_slice(nonce), ciphertext).ok()
}

/// `aes_gcm::Aes256Gcm::generate_nonce` with the operating system's random
/// number generator: twelve bytes left to chance.
#[verifier::external_body]
pub(crate) fn generate_nonce() -> (nonce: Vec<u8>)
    ensures
        nonce@.len() == NONCE_LEN,
{
    Aes256Gcm::generate_nonce(&mut OsRng).to_vec()
}

/// `rand::RngCore::fill_bytes` of the thread's generator on `len` bytes, which
/// are left to chance.
#[verifier::external_body]
pub(crate) fn random_bytes(len: usize) -> (bytes: Vec<u8>)
    ensures
        bytes@.len() == len,
{
    let mut bytes = vec![0u8; len];
    rand::thread_rng().fill_bytes(&mut bytes);
    bytes
}

/// `std::time::SystemTime::now`, in whole seconds since the Unix epoch; zero
/// if the machine's clock stands before the epoch. Nothing is known of the
/// time.
#[verifier::external_body]
pub(crate) fn unix_time() -> (seconds: u64) {
    match std::time::SystemTime::now().duration_since(std::time::UNIX_EPOCH) {
        Ok(elapsed) => elapsed.as_secs(),
        Err(_) => 0,
    }
}

} // verus!
