//! What the actors need of the signature scheme they run: its operations, its
//! wire encodings, and the values that pass between them.
use std::collections::BTreeMap;
use vstd::prelude::*;

use crate::authority;
use crate::combiner;
use crate::group::Gt;
use crate::keys::{Error, PublicKey, Scalar};
use crate::relay;
use crate::signer;
use crate::tracer;

verus! {

/// The public keys of a deployment: every signer's, the combiner's, and the
/// tracers' common one.
#[derive(Debug, Clone, PartialEq, Eq)]
pub struct PK {
    pub pk_i: Vec<PublicKey>,
    pub pk_cs: PublicKey,
    pub pk_e: PublicKey,
}

impl PK {
    /// Puts a registry together.
    pub fn from_public_keys(pk_i: Vec<PublicKey>, pk_cs: PublicKey, pk_e: PublicKey) -> (pk: PK)
        ensures
            pk == (PK { pk_i, pk_cs, pk_e }),
    {
        PK { pk_i, pk_cs, pk_e }
    }
}

/// An ElGamal ciphertext.
#[derive(Debug, Clone, Copy, PartialEq, Eq)]
pub struct ElGamalCiphertext {
    pub c0: PublicKey,
    pub c1: PublicKey,
}

/// The accountability proof's challenge and responses.
#[derive(Debug, Clone, Copy, PartialEq, Eq)]
pub struct Pi<H> {
    pub beta: Scalar,
    pub hats: H,
}

/// The combiner's signature: the aggregated nonce, the encrypted aggregate,
/// and the combiner's attestation of both.
#[derive(Debug, Clone, Copy, PartialEq, Eq)]
pub struct Sigma<A> {
    pub R: PublicKey,
    pub ct: ElGamalCiphertext,
    pub attestation: A,
}

/// The public statement that an accountability proof is about.
#[derive(Debug, Clone, Copy, PartialEq, Eq)]
pub struct Statement<'a> {
    pub pk: &'a PK,
    pub T: &'a ElGamalCiphertext,
    pub R: &'a PublicKey,
    pub m: &'a Vec<u8>,
    pub ct: &'a ElGamalCiphertext,
    pub v0: &'a Vec<PublicKey>,
    pub v: &'a Vec<PublicKey>,
}

/// The ciphertexts that the tracers decrypt together.
#[derive(Debug, Clone, Copy, PartialEq, Eq)]
pub struct DecryptionInput<'a> {
    pub ct: &'a ElGamalCiphertext,
    pub v0: &'a Vec<PublicKey>,
    pub v1: &'a Vec<PublicKey>,
}

/// A tracer's long-lived key material.
#[derive(Debug, Clone, PartialEq, Eq)]
pub struct TracerKeyShare<S> {
    /// Party indices of the qualified dealers.
    pub qual: Vec<usize>,
    pub threshold: usize,
    /// This tracer's own `pk_k`.
    pub pk: Gt,
    /// The tracers' group key.
    pub pk_e: PublicKey,
    pub secret: S,
}

/// One tracer's contribution to a decryption.
#[derive(Debug, Clone, PartialEq, Eq)]
pub struct PartialDecryption<D> {
    /// Party index of the tracer that claims it.
    pub tracer_index: usize,
    pub body: D,
}

/// A threshold accountable private signature scheme with threshold tracing.
///
/// The actors call these operations and pass their results on. Nothing is
/// claimed of any result here.
pub trait Scheme: Sized {
    type KeyPair: Clone;

    type Quorum;

    type Commit;

    type Commitment;

    type Sign;

    type Secret;

    type Phis;

    type Blinds;

    type Witnesses;

    type Hats: Clone;

    type Proofs: Clone;

    type Attestation: Clone;

    type DkgParticipant;

    type DkgBroadcast;

    type Share;

    type TracerSecret;

    type PartialBody;

    type VerificationKey;

    // Keys and quorums.

    fn create_key_pair() -> (kp: Self::KeyPair);

    fn public_key(kp: &Self::KeyPair) -> (pk: PublicKey);

    /// Draws a quorum of `t` of `n` signers.
    fn choose_quorum(n: usize, t: usize, keys: &Vec<Self::KeyPair>) -> (quorum: Self::Quorum)
        requires
            1 <= t <= n,
            keys@.len() == n,
    ;

    /// The quorum of those signers whose bit is one.
    fn quorum_of_bits(pk: &PK, bits: &Vec<u8>) -> (quorum: Self::Quorum);

    // Signing.

    fn commit() -> (commit: Self::Commit);

    fn commitment(commit: &Self::Commit) -> (commitment: Self::Commitment);

    fn aggregate_commitments(
        commitments: &Vec<&Self::Commitment>,
        quorum: &Self::Quorum,
    ) -> (res: Result<PublicKey, Error>);

    fn challenge(pk: &PK, T: &ElGamalCiphertext, R: &PublicKey, m: &[u8]) -> (c: Scalar);

    fn sign(commit: &Self::Commit, kp: &Self::KeyPair, c: &Scalar) -> (z: Self::Sign);

    fn aggregate_signs(signs: &Vec<&Self::Sign>, quorum: &Self::Quorum) -> (z: Self::Sign);

    // Encryption.

    fn create_secret() -> (secret: Self::Secret);

    fn encrypt_value(secret: &Self::Secret, value: &Scalar) -> (ct: ElGamalCiphertext);

    fn encrypt_sign(secret: &Self::Secret, z: &Self::Sign, pk: &PK) -> (ct: ElGamalCiphertext);

    fn encrypt_bits(quorum: &Self::Quorum, pk_e: &PublicKey) -> (res: (
        Vec<Self::Secret>,
        Vec<ElGamalCiphertext>,
    ));

    // Accountability proofs.

    fn statement_c(statement: &Statement<'_>) -> (c: Scalar);

    fn statement_alpha(statement: &Statement<'_>, c: &Scalar) -> (alpha: Scalar);

    fn statement_beta(statement: &Statement<'_>, alpha: &Scalar, proofs: &Self::Proofs) -> (beta:
        Scalar);

    fn phis(alpha: &Scalar, gammas: &Vec<Self::Secret>, quorum: &Self::Quorum) -> (phis: Self::Phis);

    fn blinds(n: usize) -> (blinds: Self::Blinds);

    fn proofs(
        blinds: &Self::Blinds,
        pk: &PK,
        pk_e: &PublicKey,
        v: &Vec<PublicKey>,
        c: &Scalar,
        alpha: &Scalar,
    ) -> (proofs: Self::Proofs);

    fn witnesses(
        z: &Self::Sign,
        rho: &Self::Secret,
        gammas: &Vec<Self::Secret>,
        psi: &Self::Secret,
        quorum: &Self::Quorum,
        phis: &Self::Phis,
    ) -> (witnesses: Self::Witnesses);

    fn hats(beta: &Scalar, witnesses: &Self::Witnesses, blinds: &Self::Blinds) -> (hats: Self::Hats);

    fn attest(
        kp: &Self::KeyPair,
        m: &[u8],
        R: &PublicKey,
        ct: &ElGamalCiphertext,
        pi: &Pi<Self::Hats>,
    ) -> (attestation: Self::Attestation);

    /// Whether the combiner signed; a failure is told in words.
    fn verify_attestation(pk: &PK, m: &Vec<u8>, sigma: &Sigma<Self::Attestation>) -> (res: Result<
        bool,
        String,
    >);

    /// Whether the accountability proof holds; a failure is told in words.
    fn verify_proofs(
        proofs: &Self::Proofs,
        sigma: &Sigma<Self::Attestation>,
        statement: &Statement<'_>,
    ) -> (res: Result<bool, String>);

    /// The value `g^z` that a quorum's signature must have.
    fn schnorr_signature(R: &PublicKey, quorum: &Self::Quorum, c: &Scalar) -> (g_z: PublicKey);

    // Distributed key generation. Party indices start at one.

    /// Samples a polynomial and the proof that the party knows it.
    fn dkg_participant(index: usize, te: usize, n3: usize) -> (participant: Self::DkgParticipant)
        requires
            1 <= index <= n3,
            1 <= te <= n3,
    ;

    fn dkg_broadcast(participant: &Self::DkgParticipant) -> (broadcast: Self::DkgBroadcast);

    fn share_for(participant: &Self::DkgParticipant, index: usize) -> (share: Self::Share);

    fn verify_broadcast(broadcast: &Self::DkgBroadcast, te: usize) -> (ok: bool);

    fn verify_share(broadcast: &Self::DkgBroadcast, share: &Self::Share, index: usize) -> (ok: bool);

    fn finalize(
        participant: &Self::DkgParticipant,
        qual: &Vec<usize>,
        broadcasts: &BTreeMap<usize, Self::DkgBroadcast>,
        shares: &BTreeMap<usize, Self::Share>,
    ) -> (res: Result<TracerKeyShare<Self::TracerSecret>, String>);

    // Threshold decryption.

    fn partial_decrypt(share: &TracerKeyShare<Self::TracerSecret>, input: &DecryptionInput<'_>) -> (
    partial: PartialDecryption<Self::PartialBody>);

    fn verification_key(
        qual: &Vec<usize>,
        broadcasts: &BTreeMap<usize, Self::DkgBroadcast>,
        index: usize,
    ) -> (res: Result<Self::VerificationKey, String>);

    fn verify_partial(
        partial: &PartialDecryption<Self::PartialBody>,
        input: &DecryptionInput<'_>,
        key: &Self::VerificationKey,
    ) -> (ok: bool);

    fn combine_partials(
        input: &DecryptionInput<'_>,
        partials: &Vec<PartialDecryption<Self::PartialBody>>,
        te: usize,
    ) -> (res: Result<(Gt, Vec<Gt>), String>);

    fn decode_bit(element: &Gt, position: usize) -> (res: Result<u8, String>);

    // Wire encodings.

    fn encode_signer_credentials(payload: &authority::SignerPackage<Self::KeyPair>) -> (bytes: Vec<
        u8,
    >);

    fn decode_signer_credentials(bytes: &Vec<u8>) -> (payload: Option<
        authority::SignerPackage<Self::KeyPair>,
    >);

    fn encode_combiner_credentials(
        payload: &authority::CombinerPackage<Self::KeyPair, Self::Quorum>,
    ) -> (bytes: Vec<u8>);

    fn decode_combiner_credentials(bytes: &Vec<u8>) -> (payload: Option<
        authority::CombinerPackage<Self::KeyPair, Self::Quorum>,
    >);

    fn encode_tracer_credentials(payload: &authority::TracerPackage) -> (bytes: Vec<u8>);

    fn decode_tracer_credentials(bytes: &Vec<u8>) -> (payload: Option<authority::TracerPackage>);

    fn encode_commitment(payload: &signer::CommitmentPackage<Self::Commitment>) -> (bytes: Vec<u8>);

    fn decode_commitment(bytes: &Vec<u8>) -> (payload: Option<
        signer::CommitmentPackage<Self::Commitment>,
    >);

    fn encode_sign(payload: &signer::SigmaPackage<Self::Sign>) -> (bytes: Vec<u8>);

    fn decode_sign(bytes: &Vec<u8>) -> (payload: Option<signer::SigmaPackage<Self::Sign>>);

    fn encode_challenge(payload: &combiner::SignerPackage) -> (bytes: Vec<u8>);

    fn decode_challenge(bytes: &Vec<u8>) -> (payload: Option<combiner::SignerPackage>);

    fn encode_evidence(
        payload: &combiner::TracerPackage<Self::Proofs, Self::Attestation>,
    ) -> (bytes: Vec<u8>);

    fn decode_evidence(bytes: &Vec<u8>) -> (payload: Option<
        combiner::TracerPackage<Self::Proofs, Self::Attestation>,
    >);

    fn encode_tracer_public_key(payload: &combiner::TracerPublicKeyPackage) -> (bytes: Vec<u8>);

    fn decode_tracer_public_key(bytes: &Vec<u8>) -> (payload: Option<
        combiner::TracerPublicKeyPackage,
    >);

    fn encode_broadcast(broadcast: &Self::DkgBroadcast) -> (bytes: Vec<u8>);

    fn decode_broadcast(bytes: &Vec<u8>) -> (broadcast: Option<Self::DkgBroadcast>);

    fn encode_share(payload: &tracer::DkgSharePayload<Self::Share>) -> (bytes: Vec<u8>);

    fn decode_share(bytes: &Vec<u8>) -> (payload: Option<tracer::DkgSharePayload<Self::Share>>);

    fn encode_partial(partial: &PartialDecryption<Self::PartialBody>) -> (bytes: Vec<u8>);

    fn decode_partial(bytes: &Vec<u8>) -> (partial: Option<PartialDecryption<Self::PartialBody>>);

    // Wire encodings of what a relay collects and hands out.

    fn encode_broadcast_bundle(payload: &relay::DkgRound1Bundle<'_, Self::DkgBroadcast>) -> (bytes:
        Vec<u8>);

    fn decode_shares(bytes: &Vec<u8>) -> (payload: Option<relay::DkgSharesPackage>);

    fn encode_inbox(payload: &relay::DkgShareInbox<'_>) -> (bytes: Vec<u8>);

    fn encode_partial_bundle(
        payload: &relay::PartialDecryptionBundle<'_, Self::PartialBody>,
    ) -> (bytes: Vec<u8>);
}

} // verus!
