//! Signed and encrypted packages, and the key pairs that make and open them.
use vstd::prelude::*;

use crate::authority::ActorKeys;
use crate::bytes::{
    append, be_bytes, be_value, encode_be, lemma_be_bytes_len, lemma_be_round_trip, pow256,
};
use crate::keys::{generate_keypair, pair_drawn, Error, PublicKey, SecretKey, Signature};
use crate::primitives;
use crate::primitives::{
    aes_gcm_opened, aes_gcm_sealed, ecdh_secret, ecdsa_signature, ecdsa_verifies, public_key_of,
    sha256_digest, valid_secret_key, MAX_PLAINTEXT, NONCE_LEN,
};

verus! {

/// How long a package is accepted after it was made, in seconds.
pub const MAX_AGE_SECONDS: u64 = 60;

/// An encrypted package, signed by its sender.
#[derive(Debug, Clone, PartialEq, Eq)]
pub struct SecurePackage {
    pub ciphertext: Vec<u8>,
    pub nonce: Vec<u8>,
    pub timestamp: u64,
    pub signature: Signature,
}

/// A package in the clear, signed by its sender.
#[derive(Debug, Clone, PartialEq, Eq)]
pub struct BroadcastPackage {
    pub text: Vec<u8>,
    pub nonce: Vec<u8>,
    pub timestamp: u64,
    pub signature: Signature,
}

/// Authenticated decryption failed: wrong key, wrong nonce, or tampered data.
/// Deliberately carries no detail, so it cannot become an oracle.
#[derive(Debug, Clone, Copy, PartialEq, Eq, Structural)]
pub struct DecryptError;

impl DecryptError {
    /// What to tell a user.
    pub fn message(&self) -> (text: &'static str)
        ensures
            text@ == "decryption failed: invalid key or tampered data"@,
    {
        "decryption failed: invalid key or tampered data"
    }
}

/// The digest that a package's signature covers.
pub open spec fn package_digest(body: Seq<u8>, nonce: Seq<u8>, timestamp: u64) -> Seq<u8> {
    sha256_digest(body + nonce + be_bytes(timestamp as nat, 8))
}

/// Whether a timestamp lies in the last `max_age` seconds before `now`.
pub open spec fn fresh(timestamp: u64, max_age: u64, now: u64) -> bool {
    timestamp <= now && now - timestamp <= max_age
}

/// Whether the owner of `sender_pk` signed this package, and recently enough.
pub open spec fn package_valid(
    sender_pk: PublicKey,
    package: SecurePackage,
    max_age: u64,
    now: u64,
) -> bool {
    &&& fresh(package.timestamp, max_age, now)
    &&& ecdsa_verifies(
        sender_pk@,
        package_digest(package.ciphertext@, package.nonce@, package.timestamp),
        package.signature@,
    )
}

/// Whether the owner of `sender_pk` signed this broadcast, and recently
/// enough.
pub open spec fn broadcast_valid(
    sender_pk: PublicKey,
    package: BroadcastPackage,
    max_age: u64,
    now: u64,
) -> bool {
    &&& fresh(package.timestamp, max_age, now)
    &&& ecdsa_verifies(
        sender_pk@,
        package_digest(package.text@, package.nonce@, package.timestamp),
        package.signature@,
    )
}

/// The AES key that the owners of two key pairs share.
pub open spec fn shared_key(my_sk: Seq<u8>, their_pk: Seq<u8>) -> Seq<u8> {
    sha256_digest(ecdh_secret(my_sk, their_pk))
}

/// What a ciphertext from the owner of `sender_pk` decrypts to.
pub open spec fn decrypted(
    receiver_sk: Seq<u8>,
    sender_pk: Seq<u8>,
    ciphertext: Seq<u8>,
    nonce: Seq<u8>,
) -> Option<Seq<u8>> {
    if nonce.len() != NONCE_LEN {
        None
    } else {
        aes_gcm_opened(shared_key(receiver_sk, sender_pk), nonce, ciphertext)
    }
}

/// Whether the machine's clock may tell this time. Nothing else is known of
/// it.
pub closed spec fn clock_told(seconds: u64) -> bool {
    call_ensures(primitives::unix_time, (), seconds)
}

/// The current Unix time in seconds, as the machine's clock tells it.
pub fn current_timestamp() -> (seconds: u64)
    ensures
        clock_told(seconds),
{
    primitives::unix_time()
}

/// Whether the cipher may have drawn this nonce at random.
pub closed spec fn nonce_drawn(nonce: Seq<u8>) -> bool {
    exists|drawn: Vec<u8>|
        drawn@ == nonce && #[trigger] call_ensures(primitives::generate_nonce, (), drawn)
}

/// Whether a broadcast's nonce may have been drawn at random.
pub closed spec fn salt_drawn(nonce: Seq<u8>) -> bool {
    exists|drawn: Vec<u8>|
        drawn@ == nonce && #[trigger] call_ensures(
            primitives::random_bytes,
            (NONCE_LEN,),
            drawn,
        )
}

/// Derives the AES key that two parties share, by hashing their ECDH secret.
fn derive_aes_key(my_sk: &SecretKey, their_pk: &PublicKey) -> (key: [u8; 32])
    ensures
        key@ == shared_key(my_sk@, their_pk@),
        forall|peer: Seq<u8>|
            valid_secret_key(peer) && #[trigger] public_key_of(peer) == their_pk@ ==> key@
                == shared_key(peer, public_key_of(my_sk@)),
{
    let secret: [u8; 32] = primitives::ecdh(&my_sk.secret_bytes(), &their_pk.serialize());
    primitives::sha256(secret.as_slice())
}

/// Encrypts data for the owner of `receiver_pk` and returns ciphertext and
/// nonce. The receiver, who holds the secret key behind `receiver_pk`,
/// decrypts it to the same data.
pub fn encrypt_package(sender_sk: &SecretKey, receiver_pk: &PublicKey, plain_bytes: &[u8]) -> (res:
    (Vec<u8>, Vec<u8>))
    requires
        plain_bytes@.len() <= MAX_PLAINTEXT,
    ensures
        res.1@.len() == NONCE_LEN,
        nonce_drawn(res.1@),
        res.0@ == aes_gcm_sealed(shared_key(sender_sk@, receiver_pk@), res.1@, plain_bytes@),
        decrypted(sender_sk@, receiver_pk@, res.0@, res.1@) == Some(plain_bytes@),
        forall|receiver_sk: Seq<u8>|
            valid_secret_key(receiver_sk) && #[trigger] public_key_of(receiver_sk) == receiver_pk@
                ==> decrypted(receiver_sk, public_key_of(sender_sk@), res.0@, res.1@) == Some(
                plain_bytes@,
            ),
{
    let key: [u8; 32] = derive_aes_key(sender_sk, receiver_pk);
    let nonce: Vec<u8> = primitives::generate_nonce();
    let ciphertext: Vec<u8> = primitives::aes_encrypt(&key, nonce.as_slice(), plain_bytes);
    (ciphertext, nonce)
}

/// Decrypts data from the owner of `sender_pk`.
///
/// Returns an error rather than panicking: a node must not be killable by
/// anyone who can send it a wrong-key or tampered package.
pub fn decrypt_package(
    receiver_sk: &SecretKey,
    sender_pk: &PublicKey,
    ciphertext: &[u8],
    nonce_bytes: &[u8],
) -> (res: Result<Vec<u8>, DecryptError>)
    ensures
        match res {
            Ok(plain) => decrypted(receiver_sk@, sender_pk@, ciphertext@, nonce_bytes@) == Some(
                plain@,
            ),
            Err(_) => decrypted(receiver_sk@, sender_pk@, ciphertext@, nonce_bytes@) is None,
        },
{
    if nonce_bytes.len() != NONCE_LEN {
        return Err(DecryptError);
    }
    let key: [u8; 32] = derive_aes_key(receiver_sk, sender_pk);
    match primitives::aes_decrypt(&key, nonce_bytes, ciphertext) {
        Some(plain) => Ok(plain),
        None => Err(DecryptError),
    }
}

/// The digest over body, nonce and timestamp.
fn digest_of(body: &[u8], nonce: &[u8], timestamp: u64) -> (digest: [u8; 32])
    ensures
        digest@ == package_digest(body@, nonce@, timestamp),
{
    let mut buffer: Vec<u8> = Vec::new();
    append(&mut buffer, body);
    append(&mut buffer, nonce);
    let stamp: Vec<u8> = encode_be(timestamp, 8);
    append(&mut buffer, stamp.as_slice());
    proof {
        assert(buffer@ =~= body@ + nonce@ + be_bytes(timestamp as nat, 8));
    }
    primitives::sha256(buffer.as_slice())
}

/// Signs a package's contents: body, nonce and timestamp.
pub fn sign_package(signer_sk: &SecretKey, ciphertext: &[u8], nonce: &[u8], timestamp: u64) -> (sig:
    Signature)
    ensures
        sig@ == ecdsa_signature(signer_sk@, package_digest(ciphertext@, nonce@, timestamp)),
        ecdsa_verifies(
            public_key_of(signer_sk@),
            package_digest(ciphertext@, nonce@, timestamp),
            sig@,
        ),
{
    let digest: [u8; 32] = digest_of(ciphertext, nonce, timestamp);
    Signature { compact: primitives::ecdsa_sign(&signer_sk.secret_bytes(), &digest) }
}

/// Whether a timestamp is recent enough at time `now`.
pub fn is_fresh(timestamp: u64, max_age_seconds: u64, now: u64) -> (res: bool)
    ensures
        res == fresh(timestamp, max_age_seconds, now),
{
    timestamp <= now && now - timestamp <= max_age_seconds
}

/// Verifies origin, integrity, and freshness at time `now`.
pub fn verify_package_at(
    sender_pk: &PublicKey,
    package: &SecurePackage,
    max_age_seconds: u64,
    now: u64,
) -> (valid: bool)
    ensures
        valid == package_valid(*sender_pk, *package, max_age_seconds, now),
{
    if !is_fresh(package.timestamp, max_age_seconds, now) {
        return false;
    }
    let digest: [u8; 32] = digest_of(
        package.ciphertext.as_slice(),
        package.nonce.as_slice(),
        package.timestamp,
    );
    primitives::ecdsa_verify(&sender_pk.serialize(), &digest, &package.signature.compact)
}

/// Verifies origin, integrity, and freshness by the machine's clock.
pub fn verify_package(sender_pk: &PublicKey, package: &SecurePackage, max_age_seconds: u64) -> (valid:
    bool)
    ensures
        exists|now: u64| #[trigger]
            clock_told(now) && valid == package_valid(*sender_pk, *package, max_age_seconds, now),
{
    let now: u64 = current_timestamp();
    verify_package_at(sender_pk, package, max_age_seconds, now)
}

/// Verifies origin, integrity, and freshness of a broadcast at time `now`.
pub fn verify_broadcast_package_at(
    sender_pk: &PublicKey,
    package: &BroadcastPackage,
    max_age_seconds: u64,
    now: u64,
) -> (valid: bool)
    ensures
        valid == broadcast_valid(*sender_pk, *package, max_age_seconds, now),
{
    if !is_fresh(package.timestamp, max_age_seconds, now) {
        return false;
    }
    let digest: [u8; 32] = digest_of(
        package.text.as_slice(),
        package.nonce.as_slice(),
        package.timestamp,
    );
    primitives::ecdsa_verify(&sender_pk.serialize(), &digest, &package.signature.compact)
}

/// Verifies origin, integrity, and freshness of a broadcast by the machine's
/// clock.
pub fn verify_broadcast_package(
    sender_pk: &PublicKey,
    package: &BroadcastPackage,
    max_age_seconds: u64,
) -> (valid: bool)
    ensures
        exists|now: u64| #[trigger]
            clock_told(now) && valid == broadcast_valid(*sender_pk, *package, max_age_seconds, now),
{
    let now: u64 = current_timestamp();
    verify_broadcast_package_at(sender_pk, package, max_age_seconds, now)
}

/// The key pair that an actor signs with.
#[derive(Clone, Copy)]
pub struct IdentityKeyPair {
    sk: SecretKey,
    pub pk: PublicKey,
}

impl IdentityKeyPair {
    /// The secret key.
    pub closed spec fn secret(&self) -> Seq<u8> {
        self.sk@
    }

    /// The public key.
    pub closed spec fn public(&self) -> PublicKey {
        self.pk
    }

    /// The two keys belong together.
    pub open spec fn wf(&self) -> bool {
        &&& valid_secret_key(self.secret())
        &&& self.public()@ == public_key_of(self.secret())
    }

    /// The public key.
    pub fn public_key(&self) -> (pk: PublicKey)
        ensures
            pk == self.public(),
    {
        self.pk
    }

    /// A fresh key pair.
    pub fn new() -> (pair: Self)
        ensures
            pair.wf(),
            pair_drawn(pair.secret(), pair.public()@),
    {
        let (sk, pk) = generate_keypair();
        IdentityKeyPair { sk, pk }
    }

    /// Signs text, nonce and timestamp.
    pub fn sign_data(&self, text: &[u8], nonce: &[u8], timestamp: u64) -> (sig: Signature)
        ensures
            sig@ == ecdsa_signature(self.secret(), package_digest(text@, nonce@, timestamp)),
            self.wf() ==> ecdsa_verifies(
                self.public()@,
                package_digest(text@, nonce@, timestamp),
                sig@,
            ),
    {
        sign_package(&self.sk, text, nonce, timestamp)
    }

    /// Whether the owner of `pk` signed the package within the last minute
    /// before `now`.
    pub fn verify_data_at(pk: &PublicKey, package: &SecurePackage, now: u64) -> (valid: bool)
        ensures
            valid == package_valid(*pk, *package, MAX_AGE_SECONDS, now),
    {
        verify_package_at(pk, package, MAX_AGE_SECONDS, now)
    }

    /// Whether the owner of `pk` signed the package within the last minute.
    pub fn verify_data(pk: &PublicKey, package: &SecurePackage) -> (valid: bool)
        ensures
            exists|now: u64| #[trigger]
                clock_told(now) && valid == package_valid(*pk, *package, MAX_AGE_SECONDS, now),
    {
        verify_package(pk, package, MAX_AGE_SECONDS)
    }

    /// Whether the owner of `pk` signed the broadcast within the last minute
    /// before `now`.
    pub fn verify_broadcast_data_at(pk: &PublicKey, package: &BroadcastPackage, now: u64) -> (valid:
        bool)
        ensures
            valid == broadcast_valid(*pk, *package, MAX_AGE_SECONDS, now),
    {
        verify_broadcast_package_at(pk, package, MAX_AGE_SECONDS, now)
    }

    /// Whether the owner of `pk` signed the broadcast within the last minute.
    pub fn verify_broadcast_data(pk: &PublicKey, package: &BroadcastPackage) -> (valid: bool)
        ensures
            exists|now: u64| #[trigger]
                clock_told(now) && valid == broadcast_valid(*pk, *package, MAX_AGE_SECONDS, now),
    {
        verify_broadcast_package(pk, package, MAX_AGE_SECONDS)
    }
}

/// The key pair that an actor encrypts and decrypts with.
#[derive(Clone, Copy)]
pub struct TransportKeyPair {
    sk: SecretKey,
    pub pk: PublicKey,
}

impl TransportKeyPair {
    /// The secret key.
    pub closed spec fn secret(&self) -> Seq<u8> {
        self.sk@
    }

    /// The public key.
    pub closed spec fn public(&self) -> PublicKey {
        self.pk
    }

    /// The two keys belong together.
    pub open spec fn wf(&self) -> bool {
        &&& valid_secret_key(self.secret())
        &&& self.public()@ == public_key_of(self.secret())
    }

    /// The public key.
    pub fn public_key(&self) -> (pk: PublicKey)
        ensures
            pk == self.public(),
    {
        self.pk
    }

    /// A fresh key pair.
    pub fn new() -> (pair: Self)
        ensures
            pair.wf(),
            pair_drawn(pair.secret(), pair.public()@),
    {
        let (sk, pk) = generate_keypair();
        TransportKeyPair { sk, pk }
    }

    /// Encrypts data for the owner of `receiver_pk`; see `encrypt_package`.
    pub fn encrypt_to(&self, receiver_pk: &PublicKey, data: &[u8]) -> (res: (Vec<u8>, Vec<u8>))
        requires
            data@.len() <= MAX_PLAINTEXT,
        ensures
            res.1@.len() == NONCE_LEN,
            nonce_drawn(res.1@),
            res.0@ == aes_gcm_sealed(shared_key(self.secret(), receiver_pk@), res.1@, data@),
            decrypted(self.secret(), receiver_pk@, res.0@, res.1@) == Some(data@),
            forall|receiver_sk: Seq<u8>|
                valid_secret_key(receiver_sk) && #[trigger] public_key_of(receiver_sk)
                    == receiver_pk@ && self.wf() ==> decrypted(
                    receiver_sk,
                    self.public()@,
                    res.0@,
                    res.1@,
                ) == Some(data@),
    {
        encrypt_package(&self.sk, receiver_pk, data)
    }

    /// Decrypts data that the owner of `sender_pk` encrypted for this key pair.
    pub fn decrypt_from(&self, sender_pk: &PublicKey, ciphertext: &[u8], nonce: &[u8]) -> (res:
        Result<Vec<u8>, DecryptError>)
        ensures
            match res {
                Ok(plain) => decrypted(self.secret(), sender_pk@, ciphertext@, nonce@) == Some(
                    plain@,
                ),
                Err(_) => decrypted(self.secret(), sender_pk@, ciphertext@, nonce@) is None,
            },
    {
        decrypt_package(&self.sk, sender_pk, ciphertext, nonce)
    }
}

/// Whether a key pair for signing and one for encrypting belong to the actor
/// that the others know by `keys`.
pub open spec fn owns(
    identity: IdentityKeyPair,
    transport: TransportKeyPair,
    keys: ActorKeys,
) -> bool {
    &&& identity.wf()
    &&& transport.wf()
    &&& keys.identity_pk == identity.public()
    &&& keys.transport_pk == transport.public()
}

/// What the actor with transport secret `receiver_sk` reads from a package of
/// `sender` at time `now`, or why the package is refused.
pub open spec fn opened(
    receiver_sk: Seq<u8>,
    sender: ActorKeys,
    package: SecurePackage,
    now: u64,
) -> Result<Seq<u8>, Error> {
    if !package_valid(sender.identity_pk, package, MAX_AGE_SECONDS, now) {
        Err(Error::InvalidSignature)
    } else {
        match decrypted(receiver_sk, sender.transport_pk@, package.ciphertext@, package.nonce@) {
            Some(plain) => Ok(plain),
            None => Err(Error::InvalidMessage),
        }
    }
}

/// Whether `package` is `data`, encrypted by the owner of `transport` for the
/// owner of `receiver_pk` and signed by the owner of `identity`.
pub open spec fn seals(
    identity: IdentityKeyPair,
    transport: TransportKeyPair,
    receiver_pk: PublicKey,
    data: Seq<u8>,
    package: SecurePackage,
) -> bool {
    &&& package.nonce@.len() == NONCE_LEN
    &&& nonce_drawn(package.nonce@)
    &&& package.ciphertext@ == aes_gcm_sealed(
        shared_key(transport.secret(), receiver_pk@),
        package.nonce@,
        data,
    )
    &&& decrypted(transport.secret(), receiver_pk@, package.ciphertext@, package.nonce@) == Some(
        data,
    )
    &&& package.signature@ == ecdsa_signature(
        identity.secret(),
        package_digest(package.ciphertext@, package.nonce@, package.timestamp),
    )
    &&& forall|sender: ActorKeys|
        #![trigger owns(identity, transport, sender)]
        owns(identity, transport, sender) ==> reaches(sender, receiver_pk, data, package)
}

/// Whether the owner of `receiver_pk` reads `data` from a package of `sender`
/// until the package expires, and nothing after that.
pub open spec fn reaches(
    sender: ActorKeys,
    receiver_pk: PublicKey,
    data: Seq<u8>,
    package: SecurePackage,
) -> bool {
    forall|receiver: TransportKeyPair, now: u64|
        receiver.wf() && receiver.public() == receiver_pk ==> #[trigger] opened(
            receiver.secret(),
            sender,
            package,
            now,
        ) == (if fresh(package.timestamp, MAX_AGE_SECONDS, now) {
            Ok::<Seq<u8>, Error>(data)
        } else {
            Err::<Seq<u8>, Error>(Error::InvalidSignature)
        })
}

/// Whether `package` is `text`, signed by the owner of `identity`.
pub open spec fn announces(
    identity: IdentityKeyPair,
    text: Seq<u8>,
    package: BroadcastPackage,
) -> bool {
    &&& package.text@ == text
    &&& package.nonce@.len() == NONCE_LEN
    &&& salt_drawn(package.nonce@)
    &&& package.signature@ == ecdsa_signature(
        identity.secret(),
        package_digest(text, package.nonce@, package.timestamp),
    )
    &&& identity.wf() ==> forall|now: u64| #[trigger]
        broadcast_valid(identity.public(), package, MAX_AGE_SECONDS, now) == fresh(
            package.timestamp,
            MAX_AGE_SECONDS,
            now,
        )
}

/// Encrypts data for the owner of `receiver_pk` and signs it, dated `now`.
/// Data too long for the cipher is refused.
pub fn seal_at(
    identity: &IdentityKeyPair,
    transport: &TransportKeyPair,
    receiver_pk: &PublicKey,
    data: &[u8],
    now: u64,
) -> (res: Result<SecurePackage, Error>)
    ensures
        match res {
            Ok(package) => {
                &&& data@.len() <= MAX_PLAINTEXT
                &&& package.timestamp == now
                &&& seals(*identity, *transport, *receiver_pk, data@, package)
            },
            Err(e) => data@.len() > MAX_PLAINTEXT && e == Error::InvalidMessage,
        },
{
    if data.len() as u64 > MAX_PLAINTEXT {
        return Err(Error::InvalidMessage);
    }
    let (ciphertext, nonce) = transport.encrypt_to(receiver_pk, data);
    let signature: Signature = identity.sign_data(ciphertext.as_slice(), nonce.as_slice(), now);
    Ok(SecurePackage { ciphertext, nonce, timestamp: now, signature })
}

/// Encrypts data for the owner of `receiver_pk` and signs it, dated by the
/// machine's clock.
pub fn seal(
    identity: &IdentityKeyPair,
    transport: &TransportKeyPair,
    receiver_pk: &PublicKey,
    data: &[u8],
) -> (res: Result<SecurePackage, Error>)
    ensures
        match res {
            Ok(package) => {
                &&& data@.len() <= MAX_PLAINTEXT
                &&& clock_told(package.timestamp)
                &&& seals(*identity, *transport, *receiver_pk, data@, package)
            },
            Err(e) => data@.len() > MAX_PLAINTEXT && e == Error::InvalidMessage,
        },
{
    let now: u64 = current_timestamp();
    seal_at(identity, transport, receiver_pk, data, now)
}

/// Opens a package of `sender` at time `now`.
pub fn open_at(
    transport: &TransportKeyPair,
    sender: &ActorKeys,
    package: &SecurePackage,
    now: u64,
) -> (res: Result<Vec<u8>, Error>)
    ensures
        match res {
            Ok(plain) => opened(transport.secret(), *sender, *package, now) == Ok::<Seq<u8>, Error>(
                plain@,
            ),
            Err(e) => opened(transport.secret(), *sender, *package, now) == Err::<Seq<u8>, Error>(e),
        },
{
    if !IdentityKeyPair::verify_data_at(&sender.identity_pk, package, now) {
        return Err(Error::InvalidSignature);
    }
    match transport.decrypt_from(
        &sender.transport_pk,
        package.ciphertext.as_slice(),
        package.nonce.as_slice(),
    ) {
        Ok(plain) => Ok(plain),
        Err(_) => Err(Error::InvalidMessage),
    }
}

/// Signs text in the clear under a random nonce, dated `now`.
pub fn announce_at(identity: &IdentityKeyPair, text: Vec<u8>, now: u64) -> (package:
    BroadcastPackage)
    ensures
        announces(*identity, text@, package),
        package.timestamp == now,
{
    let nonce: Vec<u8> = primitives::random_bytes(NONCE_LEN);
    let signature: Signature = identity.sign_data(text.as_slice(), nonce.as_slice(), now);
    BroadcastPackage { text, nonce, timestamp: now, signature }
}

/// Signs text in the clear, dated by the machine's clock.
pub fn announce(identity: &IdentityKeyPair, text: Vec<u8>) -> (package: BroadcastPackage)
    ensures
        announces(*identity, text@, package),
        clock_told(package.timestamp),
{
    let now: u64 = current_timestamp();
    announce_at(identity, text, now)
}

/// A timestamp is fresh from the second it names until `max_age` seconds
/// later, both included.
pub proof fn packages_are_fresh_for_a_while(timestamp: u64, max_age: u64, now: u64)
    ensures
        fresh(timestamp, max_age, now) <==> timestamp as int <= now as int <= timestamp + max_age,
{
}

/// Two packages have the same digest input only if they agree in body, nonce
/// and timestamp: a signature covers all three.
pub proof fn digests_cover_every_part(
    body: Seq<u8>,
    nonce: Seq<u8>,
    timestamp: u64,
    other_body: Seq<u8>,
    other_nonce: Seq<u8>,
    other_timestamp: u64,
)
    requires
        nonce.len() == NONCE_LEN,
        other_nonce.len() == NONCE_LEN,
    ensures
        exists|input: Seq<u8>, other_input: Seq<u8>|
            {
                &&& package_digest(body, nonce, timestamp) == #[trigger] sha256_digest(input)
                &&& package_digest(other_body, other_nonce, other_timestamp)
                    == #[trigger] sha256_digest(other_input)
                &&& input == other_input ==> body == other_body && nonce == other_nonce && timestamp
                    == other_timestamp
                &&& input.take(body.len() as int) == body
                &&& input.subrange(body.len() as int, (body.len() + NONCE_LEN) as int) == nonce
                &&& be_value(input.skip((body.len() + NONCE_LEN) as int)) == timestamp
            },
{
    let stamp = be_bytes(timestamp as nat, 8);
    let other_stamp = be_bytes(other_timestamp as nat, 8);
    let input = body + nonce + stamp;
    let other_input = other_body + other_nonce + other_stamp;
    lemma_be_bytes_len(timestamp as nat, 8);
    lemma_be_bytes_len(other_timestamp as nat, 8);
    assert(pow256(8) == 0x1_0000_0000_0000_0000) by {
        reveal_with_fuel(pow256, 9);
    }
    lemma_be_round_trip(timestamp as nat, 8);
    lemma_be_round_trip(other_timestamp as nat, 8);
    assert(input.take(body.len() as int) =~= body);
    assert(input.subrange(body.len() as int, (body.len() + NONCE_LEN) as int) =~= nonce);
    assert(input.skip((body.len() + NONCE_LEN) as int) =~= stamp);
    assert(other_input.take(other_body.len() as int) =~= other_body);
    assert(other_input.subrange(other_body.len() as int, (other_body.len() + NONCE_LEN) as int)
        =~= other_nonce);
    assert(other_input.skip((other_body.len() + NONCE_LEN) as int) =~= other_stamp);
    assert(package_digest(body, nonce, timestamp) == sha256_digest(input));
    assert(package_digest(other_body, other_nonce, other_timestamp) == sha256_digest(other_input));
}

/// A package is read exactly when it is fresh, its sender signed it, and it
/// decrypts; what is not fresh and signed is refused as such, and what does
/// not decrypt as unreadable.
pub proof fn packages_are_read_or_refused(
    receiver_sk: Seq<u8>,
    sender: ActorKeys,
    package: SecurePackage,
    now: u64,
)
    ensures
        ({
            let signed = package.timestamp <= now && now <= package.timestamp + 60
                && ecdsa_verifies(
                sender.identity_pk@,
                package_digest(package.ciphertext@, package.nonce@, package.timestamp),
                package.signature@,
            );
            let plain = aes_gcm_opened(
                sha256_digest(ecdh_secret(receiver_sk, sender.transport_pk@)),
                package.nonce@,
                package.ciphertext@,
            );
            let res = opened(receiver_sk, sender, package, now);
            &&& !signed ==> res == Err::<Seq<u8>, Error>(Error::InvalidSignature)
            &&& signed && (package.nonce@.len() != 12 || plain is None) ==> res == Err::<
                Seq<u8>,
                Error,
            >(Error::InvalidMessage)
            &&& signed && package.nonce@.len() == 12 && plain is Some ==> res == Ok::<
                Seq<u8>,
                Error,
            >(plain->0)
        }),
{
}

/// A broadcast is valid exactly when it is fresh and its sender signed it.
pub proof fn broadcasts_are_valid_when_signed_and_fresh(
    sender: PublicKey,
    package: BroadcastPackage,
    now: u64,
)
    ensures
        broadcast_valid(sender, package, MAX_AGE_SECONDS, now) <==> {
            &&& package.timestamp <= now <= package.timestamp + 60
            &&& ecdsa_verifies(
                sender@,
                package_digest(package.text@, package.nonce@, package.timestamp),
                package.signature@,
            )
        },
{
}

/// A package that is too old, or dated in the future, never verifies and is
/// refused as one with a bad signature.
pub proof fn stale_packages_are_refused(
    receiver_sk: Seq<u8>,
    sender: ActorKeys,
    package: SecurePackage,
    max_age: u64,
    now: u64,
)
    ensures
        package.timestamp > now ==> !package_valid(sender.identity_pk, package, max_age, now),
        now > package.timestamp + max_age ==> !package_valid(
            sender.identity_pk,
            package,
            max_age,
            now,
        ),
        package.timestamp > now || now > package.timestamp + MAX_AGE_SECONDS ==> opened(
            receiver_sk,
            sender,
            package,
            now,
        ) == Err::<Seq<u8>, Error>(Error::InvalidSignature),
{
}

/// The same holds of broadcasts.
pub proof fn stale_broadcasts_are_refused(
    sender: PublicKey,
    package: BroadcastPackage,
    max_age: u64,
    now: u64,
)
    ensures
        package.timestamp > now ==> !broadcast_valid(sender, package, max_age, now),
        now > package.timestamp + max_age ==> !broadcast_valid(sender, package, max_age, now),
{
}

} // verus!
