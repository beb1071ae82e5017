use aes_gcm::aead::{Aead, KeyInit};
use aes_gcm::{Aes256Gcm, Key, Nonce};
use sha2::{Digest, Sha256};
use simulation_taps_tt::authority::ActorKeys;
use simulation_taps_tt::crypto::{
    announce, announce_at, current_timestamp, decrypt_package, encrypt_package, is_fresh, open_at,
    seal, seal_at, sign_package, verify_broadcast_package_at, verify_package, verify_package_at,
    DecryptError, IdentityKeyPair, SecurePackage, TransportKeyPair,
};
use simulation_taps_tt::keys::{generate_keypair, scalar_of, Error, PublicKey, Scalar};
use simulation_taps_tt::primitives::CURVE_ORDER;

#[test]
fn test_secure_package_lifecycle() {
    // 1. Setup Identities (Alice and Bob)
    let (alice_sk, alice_pk) = generate_keypair();
    let (bob_sk, bob_pk) = generate_keypair();

    // 2. Prepare Data
    let message = b"Attack at dawn! But securely.";
    let timestamp = current_timestamp();

    // 3. Encrypt (Alice uses her SK and Bob's PK)
    let (ciphertext, nonce) = encrypt_package(&alice_sk, &bob_pk, message);

    // 4. Sign (Alice signs the encrypted package)
    let signature = sign_package(&alice_sk, &ciphertext, &nonce, timestamp);

    // 5. Pack it up
    let package = SecurePackage {
        ciphertext: ciphertext.clone(),
        nonce: nonce.clone(),
        timestamp,
        signature,
    };

    // 6. Verify Origin & Freshness
    let is_valid = verify_package(&alice_pk, &package, 60);
    assert!(is_valid, "Package signature or timestamp verification failed");

    // 7. Decrypt (Bob uses his SK and Alice's PK)
    let decrypted_bytes =
        decrypt_package(&bob_sk, &alice_pk, &package.ciphertext, &package.nonce)
            .expect("Decryption of a genuine package must succeed");

    // 8. Assert Success
    assert_eq!(message.to_vec(), decrypted_bytes, "Decrypted message does not match original!");
    println!("Crypto Lifecycle Test: SUCCESS");
}

#[test]
fn test_replay_attack_prevention() {
    let (alice_sk, alice_pk) = generate_keypair();
    let (_bob_sk, bob_pk) = generate_keypair();

    let message = b"Old message";

    // Create an OLD timestamp (2 minutes ago)
    let old_timestamp = current_timestamp() - 120;

    let (ciphertext, nonce) = encrypt_package(&alice_sk, &bob_pk, message);
    let signature = sign_package(&alice_sk, &ciphertext, &nonce, old_timestamp);

    let expired_package = SecurePackage {
        ciphertext,
        nonce,
        timestamp: old_timestamp,
        signature,
    };

    // Verification should fail because max_age is 60s
    let is_valid = verify_package(&alice_pk, &expired_package, 60);
    assert!(!is_valid, "Expired package should have been rejected!");
}

#[test]
fn test_tamper_detection() {
    let (alice_sk, alice_pk) = generate_keypair();
    let (bob_sk, bob_pk) = generate_keypair();

    let message = b"Legit message";

    let (mut ciphertext, nonce) = encrypt_package(&alice_sk, &bob_pk, message);

    // ATTACK: Man-in-the-Middle flips a bit in the ciphertext
    ciphertext[0] ^= 0xFF;

    // Attempt to decrypt tampered ciphertext: must be a clean error, not a panic.
    let result = decrypt_package(&bob_sk, &alice_pk, &ciphertext, &nonce);

    assert_eq!(
        result,
        Err(DecryptError),
        "Decryption should fail on tampered ciphertext!"
    );
}

#[test]
fn test_wrong_key_fails_without_panicking() {
    let (alice_sk, alice_pk) = generate_keypair();
    let (_bob_sk, bob_pk) = generate_keypair();
    let (mallory_sk, _mallory_pk) = generate_keypair();

    let (ciphertext, nonce) = encrypt_package(&alice_sk, &bob_pk, b"for Bob only");

    // Mallory is not the intended recipient. This must be an error, never a
    // panic - otherwise anyone can crash a node by sending it a package.
    let result = decrypt_package(&mallory_sk, &alice_pk, &ciphertext, &nonce);
    assert_eq!(result, Err(DecryptError));
}

#[test]
fn ciphertext_hides_the_message_and_carries_a_tag() {
    let (alice_sk, _) = generate_keypair();
    let (_, bob_pk) = generate_keypair();
    let (ciphertext, nonce) = encrypt_package(&alice_sk, &bob_pk, b"0123456789");
    assert_eq!(nonce.len(), 12);
    assert_eq!(ciphertext.len(), 10 + 16);
    assert_ne!(&ciphertext[..10], b"0123456789");

    // Another encryption takes another nonce.
    let (_, other_nonce) = encrypt_package(&alice_sk, &bob_pk, b"0123456789");
    assert_ne!(nonce, other_nonce);
}

#[test]
fn sender_and_receiver_share_one_key() {
    let (alice_sk, alice_pk) = generate_keypair();
    let (bob_sk, bob_pk) = generate_keypair();
    let (ciphertext, nonce) = encrypt_package(&alice_sk, &bob_pk, b"either way");
    assert_eq!(
        decrypt_package(&alice_sk, &bob_pk, &ciphertext, &nonce),
        Ok(b"either way".to_vec())
    );
    assert_eq!(
        decrypt_package(&bob_sk, &alice_pk, &ciphertext, &nonce),
        Ok(b"either way".to_vec())
    );
}

#[test]
fn nonces_of_the_wrong_length_are_refused() {
    let (alice_sk, alice_pk) = generate_keypair();
    let (bob_sk, bob_pk) = generate_keypair();
    let (ciphertext, nonce) = encrypt_package(&alice_sk, &bob_pk, b"data");
    assert_eq!(
        decrypt_package(&bob_sk, &alice_pk, &ciphertext, &nonce[..11]),
        Err(DecryptError)
    );
    assert_eq!(decrypt_package(&bob_sk, &alice_pk, &[], &nonce), Err(DecryptError));
    assert_eq!(
        DecryptError.message(),
        "decryption failed: invalid key or tampered data"
    );
}

#[test]
fn freshness_has_sharp_edges() {
    assert!(is_fresh(100, 60, 100));
    assert!(is_fresh(100, 60, 160));
    assert!(!is_fresh(100, 60, 161));
    assert!(!is_fresh(100, 60, 99));
    assert!(is_fresh(0, u64::MAX, u64::MAX));
}

fn actor() -> (IdentityKeyPair, TransportKeyPair, ActorKeys) {
    let identity = IdentityKeyPair::new();
    let transport = TransportKeyPair::new();
    let keys = ActorKeys { identity_pk: identity.pk, transport_pk: transport.pk };
    (identity, transport, keys)
}

#[test]
fn sealed_package_opens_until_it_expires() {
    let (alice_id, alice_tr, alice) = actor();
    let (_, bob_tr, bob) = actor();
    let package = seal_at(&alice_id, &alice_tr, &bob.transport_pk, b"payload", 1000).unwrap();
    assert_eq!(package.timestamp, 1000);

    assert_eq!(open_at(&bob_tr, &alice, &package, 1000), Ok(b"payload".to_vec()));
    assert_eq!(open_at(&bob_tr, &alice, &package, 1060), Ok(b"payload".to_vec()));
    assert_eq!(
        open_at(&bob_tr, &alice, &package, 1061),
        Err(Error::InvalidSignature)
    );
    assert_eq!(
        open_at(&bob_tr, &alice, &package, 999),
        Err(Error::InvalidSignature)
    );
}

#[test]
fn package_of_someone_else_or_for_someone_else_is_refused() {
    let (alice_id, alice_tr, alice) = actor();
    let (_, bob_tr, bob) = actor();
    let (_, carol_tr, carol) = actor();
    let package = seal_at(&alice_id, &alice_tr, &bob.transport_pk, b"payload", 1000).unwrap();

    // Attributed to the wrong sender: the signature does not verify.
    assert_eq!(
        open_at(&bob_tr, &carol, &package, 1000),
        Err(Error::InvalidSignature)
    );
    // Opened by the wrong receiver: signed well, but not readable.
    assert_eq!(
        open_at(&carol_tr, &alice, &package, 1000),
        Err(Error::InvalidMessage)
    );
    // Changed on the way: the signature covers every part.
    let mut moved = package.clone();
    moved.timestamp = 1001;
    assert_eq!(
        open_at(&bob_tr, &alice, &moved, 1001),
        Err(Error::InvalidSignature)
    );
    let mut salted = package.clone();
    salted.nonce[0] ^= 1;
    assert_eq!(
        open_at(&bob_tr, &alice, &salted, 1000),
        Err(Error::InvalidSignature)
    );
}

#[test]
fn seal_dates_by_the_clock() {
    let (alice_id, alice_tr, alice) = actor();
    let (_, bob_tr, bob) = actor();
    let before = current_timestamp();
    let package = seal(&alice_id, &alice_tr, &bob.transport_pk, b"").unwrap();
    let after = current_timestamp();
    assert!(before <= package.timestamp && package.timestamp <= after);
    assert!(before > 1_600_000_000);
    assert_eq!(open_at(&bob_tr, &alice, &package, after), Ok(vec![]));
    assert!(IdentityKeyPair::verify_data(&alice.identity_pk, &package));
    assert!(verify_package_at(&alice.identity_pk, &package, 0, package.timestamp));
}

#[test]
fn broadcasts_are_signed_in_the_clear() {
    let (alice_id, _, alice) = actor();
    let (_, _, bob) = actor();
    let package = announce_at(&alice_id, b"to everyone".to_vec(), 500);
    assert_eq!(package.text, b"to everyone".to_vec());
    assert_eq!(package.nonce.len(), 12);
    assert!(verify_broadcast_package_at(&alice.identity_pk, &package, 60, 560));
    assert!(!verify_broadcast_package_at(&alice.identity_pk, &package, 60, 561));
    assert!(!verify_broadcast_package_at(&alice.identity_pk, &package, 60, 499));
    assert!(!verify_broadcast_package_at(&bob.identity_pk, &package, 60, 500));

    let mut forged = package.clone();
    forged.text[0] ^= 1;
    assert!(!verify_broadcast_package_at(&alice.identity_pk, &forged, 60, 500));

    let current = announce(&alice_id, b"now".to_vec());
    assert!(IdentityKeyPair::verify_broadcast_data(&alice.identity_pk, &current));
    let again = announce(&alice_id, b"now".to_vec());
    assert_ne!(current.nonce, again.nonce);
}

#[test]
fn signatures_are_deterministic() {
    let (sk, _) = generate_keypair();
    let a = sign_package(&sk, b"body", b"nonce", 7);
    let b = sign_package(&sk, b"body", b"nonce", 7);
    let c = sign_package(&sk, b"body", b"nonce", 8);
    assert_eq!(a, b);
    assert_ne!(a, c);
}

fn hex(text: &str) -> Vec<u8> {
    (0..text.len() / 2)
        .map(|i| u8::from_str_radix(&text[2 * i..2 * i + 2], 16).unwrap())
        .collect()
}

const GENERATOR: &str = "0279be667ef9dcbbac55a06295ce870b07029bfcdb2dce28d959f2815b16f81798";
const GENERATOR_LONG: &str = "0479be667ef9dcbbac55a06295ce870b07029bfcdb2dce28d959f2815b16f81798\
                              483ada7726a3c4655da4fbfc0e1108a8fd17b448a68554199c47d08ffb10d4b8";
const TWICE_GENERATOR: &str = "02c6047f9441ed7d6d3045406e95c07cd85c778e4b8cef3ca7abac09b95c709ee5";

#[test]
fn public_keys_are_read_in_both_encodings() {
    let short = PublicKey::from_slice(&hex(GENERATOR)).unwrap();
    let long = PublicKey::from_slice(&hex(GENERATOR_LONG)).unwrap();
    assert!(short.same_as(&long));
    assert_eq!(long.serialize().to_vec(), hex(GENERATOR));
    assert_eq!(PublicKey::from_slice(&[]), Err(Error::InvalidPublicKey));
    assert_eq!(PublicKey::from_slice(&[2; 32]), Err(Error::InvalidPublicKey));
    assert_eq!(PublicKey::from_slice(&[5; 33]), Err(Error::InvalidPublicKey));
}

#[test]
fn public_keys_add_up() {
    let g = PublicKey::from_slice(&hex(GENERATOR)).unwrap();
    let double = g.combine(&g).unwrap();
    assert_eq!(double.serialize().to_vec(), hex(TWICE_GENERATOR));
    // A key and its negation add up to the identity.
    let mut mirrored = hex(GENERATOR);
    mirrored[0] = 3;
    let negated = PublicKey::from_slice(&mirrored).unwrap();
    assert!(g.combine(&negated).is_none());
}

#[test]
fn scalars_lie_below_the_group_order() {
    assert!(Scalar::from_be_bytes(CURVE_ORDER).is_none());
    assert!(Scalar::from_be_bytes([0xff; 32]).is_none());
    let mut largest = CURVE_ORDER;
    largest[31] -= 1;
    assert_eq!(Scalar::from_be_bytes(largest).unwrap().to_be_bytes(), largest);

    let mut five_hundred = [0u8; 32];
    five_hundred[30] = 1;
    five_hundred[31] = 244;
    assert_eq!(scalar_of(500).to_be_bytes(), five_hundred);
    assert_eq!(scalar_of(0).to_be_bytes(), [0u8; 32]);
    let mut widest = [0u8; 32];
    for byte in widest[24..].iter_mut() {
        *byte = 0xff;
    }
    assert_eq!(scalar_of(u64::MAX).to_be_bytes(), widest);
}

#[test]
fn signature_covers_body_nonce_and_timestamp() {
    let (sk, pk) = generate_keypair();
    let signature = sign_package(&sk, b"body", b"nonce", 0x0102_0304_0506_0708);

    let mut signed = b"bodynonce".to_vec();
    signed.extend([1, 2, 3, 4, 5, 6, 7, 8]);
    let digest: [u8; 32] = Sha256::digest(&signed).into();
    let curve = secp256k1::Secp256k1::new();
    let scalar = secp256k1::SecretKey::from_byte_array(sk.secret_bytes()).unwrap();
    let expected = curve.sign_ecdsa(secp256k1::Message::from_digest(digest), &scalar);
    assert_eq!(signature.compact, expected.serialize_compact());
    assert_eq!(
        secp256k1::PublicKey::from_secret_key(&curve, &scalar).serialize(),
        pk.serialize()
    );
}

#[test]
fn encryption_key_is_the_hashed_shared_secret() {
    let (alice_sk, _) = generate_keypair();
    let (_, bob_pk) = generate_keypair();
    let (ciphertext, nonce) = encrypt_package(&alice_sk, &bob_pk, b"plain text");

    let scalar = secp256k1::SecretKey::from_byte_array(alice_sk.secret_bytes()).unwrap();
    let point = secp256k1::PublicKey::from_slice(&bob_pk.serialize()).unwrap();
    let shared = secp256k1::ecdh::SharedSecret::new(&point, &scalar);
    let key = Sha256::digest(shared.secret_bytes());
    let cipher = Aes256Gcm::new(Key::<Aes256Gcm>::from_slice(&key));
    let expected = cipher.encrypt(Nonce::from_slice(&nonce), &b"plain text"[..]).unwrap();
    assert_eq!(ciphertext, expected);
}

#[test]
fn compact_signatures_out_of_range_do_not_verify() {
    let (alice_id, _, alice) = actor();
    let mut package = announce_at(&alice_id, b"text".to_vec(), 10);
    package.signature.compact = [0xff; 64];
    assert!(!verify_broadcast_package_at(&alice.identity_pk, &package, 60, 10));
    package.signature.compact = [0; 64];
    assert!(!verify_broadcast_package_at(&alice.identity_pk, &package, 60, 10));
}
