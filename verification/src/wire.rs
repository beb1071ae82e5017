//! Which bytes stand for which payload under a scheme's wire encodings.
//!
//! For each payload there are two relations: bytes that the scheme may write
//! for it, and what the scheme may read from bytes.
use vstd::prelude::*;

use crate::authority;
use crate::combiner;
use crate::scheme::{PartialDecryption, Scheme};
use crate::signer;
use crate::tracer;

verus! {

/// `plain` may be written for a signer's credentials.
pub open spec fn writes_signer_credentials<P: Scheme>(
    payload: authority::SignerPackage<P::KeyPair>,
    plain: Seq<u8>,
) -> bool {
    exists|bytes: Vec<u8>|
        bytes@ == plain && #[trigger] call_ensures(P::encode_signer_credentials, (&payload,), bytes)
}

/// `payload` may be read from `plain`, where a signer's credentials is expected.
pub open spec fn reads_signer_credentials<P: Scheme>(
    plain: Seq<u8>,
    payload: Option<authority::SignerPackage<P::KeyPair>>,
) -> bool {
    exists|bytes: Vec<u8>|
        bytes@ == plain && #[trigger] call_ensures(P::decode_signer_credentials, (&bytes,), payload)
}

/// `plain` may be written for a combiner's credentials.
pub open spec fn writes_combiner_credentials<P: Scheme>(
    payload: authority::CombinerPackage<P::KeyPair, P::Quorum>,
    plain: Seq<u8>,
) -> bool {
    exists|bytes: Vec<u8>|
        bytes@ == plain && #[trigger] call_ensures(P::encode_combiner_credentials, (&payload,), bytes)
}

/// `payload` may be read from `plain`, where a combiner's credentials is expected.
pub open spec fn reads_combiner_credentials<P: Scheme>(
    plain: Seq<u8>,
    payload: Option<authority::CombinerPackage<P::KeyPair, P::Quorum>>,
) -> bool {
    exists|bytes: Vec<u8>|
        bytes@ == plain && #[trigger] call_ensures(P::decode_combiner_credentials, (&bytes,), payload)
}

/// `plain` may be written for a tracer's credentials.
pub open spec fn writes_tracer_credentials<P: Scheme>(
    payload: authority::TracerPackage,
    plain: Seq<u8>,
) -> bool {
    exists|bytes: Vec<u8>|
        bytes@ == plain && #[trigger] call_ensures(P::encode_tracer_credentials, (&payload,), bytes)
}

/// `payload` may be read from `plain`, where a tracer's credentials is expected.
pub open spec fn reads_tracer_credentials<P: Scheme>(
    plain: Seq<u8>,
    payload: Option<authority::TracerPackage>,
) -> bool {
    exists|bytes: Vec<u8>|
        bytes@ == plain && #[trigger] call_ensures(P::decode_tracer_credentials, (&bytes,), payload)
}

/// `plain` may be written for a commitment.
pub open spec fn writes_commitment<P: Scheme>(
    payload: signer::CommitmentPackage<P::Commitment>,
    plain: Seq<u8>,
) -> bool {
    exists|bytes: Vec<u8>|
        bytes@ == plain && #[trigger] call_ensures(P::encode_commitment, (&payload,), bytes)
}

/// `payload` may be read from `plain`, where a commitment is expected.
pub open spec fn reads_commitment<P: Scheme>(
    plain: Seq<u8>,
    payload: Option<signer::CommitmentPackage<P::Commitment>>,
) -> bool {
    exists|bytes: Vec<u8>|
        bytes@ == plain && #[trigger] call_ensures(P::decode_commitment, (&bytes,), payload)
}

/// `plain` may be written for a signature share.
pub open spec fn writes_sign<P: Scheme>(
    payload: signer::SigmaPackage<P::Sign>,
    plain: Seq<u8>,
) -> bool {
    exists|bytes: Vec<u8>|
        bytes@ == plain && #[trigger] call_ensures(P::encode_sign, (&payload,), bytes)
}

/// `payload` may be read from `plain`, where a signature share is expected.
pub open spec fn reads_sign<P: Scheme>(
    plain: Seq<u8>,
    payload: Option<signer::SigmaPackage<P::Sign>>,
) -> bool {
    exists|bytes: Vec<u8>|
        bytes@ == plain && #[trigger] call_ensures(P::decode_sign, (&bytes,), payload)
}

/// `plain` may be written for a signing challenge.
pub open spec fn writes_challenge<P: Scheme>(
    payload: combiner::SignerPackage,
    plain: Seq<u8>,
) -> bool {
    exists|bytes: Vec<u8>|
        bytes@ == plain && #[trigger] call_ensures(P::encode_challenge, (&payload,), bytes)
}

/// `payload` may be read from `plain`, where a signing challenge is expected.
pub open spec fn reads_challenge<P: Scheme>(
    plain: Seq<u8>,
    payload: Option<combiner::SignerPackage>,
) -> bool {
    exists|bytes: Vec<u8>|
        bytes@ == plain && #[trigger] call_ensures(P::decode_challenge, (&bytes,), payload)
}

/// `plain` may be written for a combiner's evidence.
pub open spec fn writes_evidence<P: Scheme>(
    payload: combiner::TracerPackage<P::Proofs, P::Attestation>,
    plain: Seq<u8>,
) -> bool {
    exists|bytes: Vec<u8>|
        bytes@ == plain && #[trigger] call_ensures(P::encode_evidence, (&payload,), bytes)
}

/// `payload` may be read from `plain`, where a combiner's evidence is expected.
pub open spec fn reads_evidence<P: Scheme>(
    plain: Seq<u8>,
    payload: Option<combiner::TracerPackage<P::Proofs, P::Attestation>>,
) -> bool {
    exists|bytes: Vec<u8>|
        bytes@ == plain && #[trigger] call_ensures(P::decode_evidence, (&bytes,), payload)
}

/// `plain` may be written for a tracer's public key.
pub open spec fn writes_tracer_public_key<P: Scheme>(
    payload: combiner::TracerPublicKeyPackage,
    plain: Seq<u8>,
) -> bool {
    exists|bytes: Vec<u8>|
        bytes@ == plain && #[trigger] call_ensures(P::encode_tracer_public_key, (&payload,), bytes)
}

/// `payload` may be read from `plain`, where a tracer's public key is expected.
pub open spec fn reads_tracer_public_key<P: Scheme>(
    plain: Seq<u8>,
    payload: Option<combiner::TracerPublicKeyPackage>,
) -> bool {
    exists|bytes: Vec<u8>|
        bytes@ == plain && #[trigger] call_ensures(P::decode_tracer_public_key, (&bytes,), payload)
}

/// `plain` may be written for a dealer's broadcast.
pub open spec fn writes_broadcast<P: Scheme>(
    payload: P::DkgBroadcast,
    plain: Seq<u8>,
) -> bool {
    exists|bytes: Vec<u8>|
        bytes@ == plain && #[trigger] call_ensures(P::encode_broadcast, (&payload,), bytes)
}

/// `payload` may be read from `plain`, where a dealer's broadcast is expected.
pub open spec fn reads_broadcast<P: Scheme>(
    plain: Seq<u8>,
    payload: Option<P::DkgBroadcast>,
) -> bool {
    exists|bytes: Vec<u8>|
        bytes@ == plain && #[trigger] call_ensures(P::decode_broadcast, (&bytes,), payload)
}

/// `plain` may be written for a share.
pub open spec fn writes_share<P: Scheme>(
    payload: tracer::DkgSharePayload<P::Share>,
    plain: Seq<u8>,
) -> bool {
    exists|bytes: Vec<u8>|
        bytes@ == plain && #[trigger] call_ensures(P::encode_share, (&payload,), bytes)
}

/// `payload` may be read from `plain`, where a share is expected.
pub open spec fn reads_share<P: Scheme>(
    plain: Seq<u8>,
    payload: Option<tracer::DkgSharePayload<P::Share>>,
) -> bool {
    exists|bytes: Vec<u8>|
        bytes@ == plain && #[trigger] call_ensures(P::decode_share, (&bytes,), payload)
}

/// `plain` may be written for a partial decryption.
pub open spec fn writes_partial<P: Scheme>(
    payload: PartialDecryption<P::PartialBody>,
    plain: Seq<u8>,
) -> bool {
    exists|bytes: Vec<u8>|
        bytes@ == plain && #[trigger] call_ensures(P::encode_partial, (&payload,), bytes)
}

/// `payload` may be read from `plain`, where a partial decryption is expected.
pub open spec fn reads_partial<P: Scheme>(
    plain: Seq<u8>,
    payload: Option<PartialDecryption<P::PartialBody>>,
) -> bool {
    exists|bytes: Vec<u8>|
        bytes@ == plain && #[trigger] call_ensures(P::decode_partial, (&bytes,), payload)
}

} // verus!
