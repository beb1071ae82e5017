//! The signer: commits to a nonce, then answers the combiner's challenge.
use vstd::prelude::*;

use crate::authority::{ActorKeys, SignerPackage};
use crate::combiner;
use crate::crypto::{
    broadcast_valid, clock_told, current_timestamp, open_at, opened, seal, seals, BroadcastPackage,
    IdentityKeyPair, SecurePackage, TransportKeyPair, MAX_AGE_SECONDS,
};
use crate::keys::{pair_drawn, Error};
use crate::network::AuthorityAnchor;
use crate::primitives::MAX_PLAINTEXT;
use crate::scheme::Scheme;
use crate::wire::{reads_challenge, reads_signer_credentials, writes_commitment, writes_sign};

verus! {

/// A signer's commitment, on its way to the combiner.
#[derive(Debug, Clone, PartialEq, Eq)]
pub struct CommitmentPackage<C> {
    pub commitment: C,
}

/// A signer's signature share, on its way to the combiner.
#[derive(Debug, Clone, PartialEq, Eq)]
pub struct SigmaPackage<S> {
    pub z: S,
}

/// One signing participant.
pub struct Signer<P: Scheme> {
    pub id: usize,
    pub identity_kp: IdentityKeyPair,
    pub transport_kp: TransportKeyPair,
    pub taps_kp: Option<P::KeyPair>,
    /// Combiner network keys, as issued by the Authority. The signer never
    /// takes them from the combiner's own (unauthenticated) handshake.
    pub combiner_keys: Option<ActorKeys>,
    pub current_commitment: Option<P::Commit>,
}

impl<P: Scheme> Signer<P> {
    /// A signer with fresh network keys that has not heard from the Authority.
    pub fn new(id: usize) -> (signer: Self)
        ensures
            signer.identity_kp.wf(),
            signer.transport_kp.wf(),
            pair_drawn(signer.identity_kp.secret(), signer.identity_kp.public()@),
            pair_drawn(signer.transport_kp.secret(), signer.transport_kp.public()@),
            signer == (Signer::<P> {
                id,
                identity_kp: signer.identity_kp,
                transport_kp: signer.transport_kp,
                taps_kp: None,
                combiner_keys: None,
                current_commitment: None,
            }),
    {
        Signer {
            id,
            identity_kp: IdentityKeyPair::new(),
            transport_kp: TransportKeyPair::new(),
            taps_kp: None,
            combiner_keys: None,
            current_commitment: None,
        }
    }

    /// Gives the signer its signing key.
    pub fn set_taps_key(&mut self, kp: P::KeyPair)
        ensures
            *final(self) == (Signer { taps_kp: Some(kp), ..*old(self) }),
    {
        self.taps_kp = Some(kp);
    }

    /// Whether `res` is what this signer sends so that the combiner, known by
    /// `keys`, reads `plain`. Only data too long for the cipher is not sent.
    pub open spec fn sends(
        self,
        keys: ActorKeys,
        plain: Seq<u8>,
        res: Result<SecurePackage, Error>,
    ) -> bool {
        match res {
            Ok(package) => {
                &&& plain.len() <= MAX_PLAINTEXT
                &&& clock_told(package.timestamp)
                &&& seals(self.identity_kp, self.transport_kp, keys.transport_pk, plain, package)
            },
            Err(e) => plain.len() > MAX_PLAINTEXT && e == Error::InvalidMessage,
        }
    }

    /// Encrypts and signs `plain` for the owner of `keys`.
    fn secure_package(&self, keys: &ActorKeys, plain: &Vec<u8>) -> (res: Result<
        SecurePackage,
        Error,
    >)
        ensures
            self.sends(*keys, plain@, res),
    {
        seal(&self.identity_kp, &self.transport_kp, &keys.transport_pk, plain.as_slice())
    }

    /// What becomes of a signer, and what it answers, once the Authority's
    /// package has been read.
    pub open spec fn configures(
        self,
        config: Option<SignerPackage<P::KeyPair>>,
        res: Result<(), Error>,
        after: Self,
    ) -> bool {
        match config {
            Some(config) => res == Ok::<(), Error>(()) && after == (Signer {
                taps_kp: Some(config.my_kp),
                combiner_keys: Some(config.combiner_keys),
                ..self
            }),
            None => res == Err::<(), Error>(Error::InvalidMessage) && after == self,
        }
    }

    /// Takes over the Authority's configuration.
    pub fn configure(&mut self, config: Option<SignerPackage<P::KeyPair>>) -> (res: Result<
        (),
        Error,
    >)
        ensures
            old(self).configures(config, res, *final(self)),
    {
        match config {
            Some(config) => {
                self.taps_kp = Some(config.my_kp);
                self.combiner_keys = Some(config.combiner_keys);
                Ok(())
            },
            None => Err(Error::InvalidMessage),
        }
    }

    /// What becomes of a signer, and what it answers, when it gets a package
    /// from the Authority at time `now`.
    pub open spec fn loads_from_authority(
        self,
        package: SecurePackage,
        anchor: AuthorityAnchor,
        now: u64,
        res: Result<(), Error>,
        after: Self,
    ) -> bool {
        match opened(self.transport_kp.secret(), anchor.actor_keys(), package, now) {
            Err(e) => res == Err::<(), Error>(e) && after == self,
            Ok(plain) => exists|config: Option<SignerPackage<P::KeyPair>>|
                reads_signer_credentials::<P>(plain, config) && #[trigger] self.configures(
                    config,
                    res,
                    after,
                ),
        }
    }

    /// Loads the Authority's configuration at time `now`.
    pub fn load_from_authority_at(
        &mut self,
        secure_pkg: &SecurePackage,
        anchor: &AuthorityAnchor,
        now: u64,
    ) -> (res: Result<(), Error>)
        ensures
            old(self).loads_from_authority(*secure_pkg, *anchor, now, res, *final(self)),
    {
        match open_at(&self.transport_kp, &anchor.keys(), secure_pkg, now) {
            Ok(plain) => {
                let config = P::decode_signer_credentials(&plain);
                proof {
                    assert(reads_signer_credentials::<P>(plain@, config));
                }
                self.configure(config)
            },
            Err(e) => Err(e),
        }
    }

    /// Loads the Authority's configuration.
    ///
    /// `anchor` must be the pinned Authority key material read from the trust
    /// anchor file - never keys taken from the incoming message.
    pub fn load_from_authority(&mut self, secure_pkg: &SecurePackage, anchor: &AuthorityAnchor) -> (res:
        Result<(), Error>)
        ensures
            exists|now: u64|
                clock_told(now) && #[trigger] old(self).loads_from_authority(
                    *secure_pkg,
                    *anchor,
                    now,
                    res,
                    *final(self),
                ),
    {
        let now: u64 = current_timestamp();
        self.load_from_authority_at(secure_pkg, anchor, now)
    }

    /// The Combiner's Authority-issued network keys.
    pub fn combiner_keys(&self) -> (res: Result<ActorKeys, Error>)
        ensures
            match self.combiner_keys {
                Some(keys) => res == Ok::<ActorKeys, Error>(keys),
                None => res == Err::<ActorKeys, Error>(Error::InvalidMessage),
            },
    {
        match self.combiner_keys {
            Some(keys) => Ok(keys),
            None => Err(Error::InvalidMessage),
        }
    }

    /// Whether `res` is what this signer sends as its commitment to `commit`.
    pub open spec fn sends_commitment(
        self,
        keys: ActorKeys,
        commit: P::Commit,
        res: Result<SecurePackage, Error>,
    ) -> bool {
        exists|commitment: P::Commitment, plain: Seq<u8>|
            #![trigger writes_commitment::<P>(CommitmentPackage { commitment }, plain)]
            {
                &&& call_ensures(P::commitment, (&commit,), commitment)
                &&& writes_commitment::<P>(CommitmentPackage { commitment }, plain)
                &&& self.sends(keys, plain, res)
            }
    }

    /// Round 1: draws a nonce, keeps it for this round, and seals the
    /// commitment to it for the combiner.
    pub fn set_commitment(&mut self) -> (res: Result<SecurePackage, Error>)
        ensures
            match old(self).combiner_keys {
                None => res == Err::<SecurePackage, Error>(Error::InvalidMessage) && *final(self)
                    == *old(self),
                Some(keys) => exists|commit: P::Commit|
                    {
                        &&& call_ensures(P::commit, (), commit)
                        &&& #[trigger] old(self).sends_commitment(keys, commit, res)
                        &&& *final(self) == (Signer {
                            current_commitment: Some(commit),
                            ..*old(self)
                        })
                    },
            },
    {
        let keys: ActorKeys = match self.combiner_keys {
            Some(keys) => keys,
            None => {
                return Err(Error::InvalidMessage);
            },
        };
        let commit = P::commit();
        let payload = CommitmentPackage { commitment: P::commitment(&commit) };
        let plain: Vec<u8> = P::encode_commitment(&payload);
        let res: Result<SecurePackage, Error> = self.secure_package(&keys, &plain);
        proof {
            assert(writes_commitment::<P>(
                CommitmentPackage { commitment: payload.commitment },
                plain@,
            ));
            assert(old(self).sends_commitment(keys, commit, res));
        }
        self.current_commitment = Some(commit);
        res
    }

    /// Whether `res` is what this signer answers to a challenge.
    pub open spec fn answers(
        self,
        keys: ActorKeys,
        challenge: Option<combiner::SignerPackage>,
        res: Result<SecurePackage, Error>,
    ) -> bool {
        match challenge {
            Some(challenge) if self.current_commitment is Some && self.taps_kp is Some => exists|
                z: P::Sign,
                plain: Seq<u8>,
            |
                #![trigger writes_sign::<P>(SigmaPackage { z }, plain)]
                {
                    &&& call_ensures(
                        P::sign,
                        (&self.current_commitment->0, &self.taps_kp->0, &challenge.c),
                        z,
                    )
                    &&& writes_sign::<P>(SigmaPackage { z }, plain)
                    &&& self.sends(keys, plain, res)
                },
            _ => res == Err::<SecurePackage, Error>(Error::InvalidMessage),
        }
    }

    /// Signs for a challenge and seals the share for the combiner. Without a
    /// commitment of this round, or a key, there is nothing to sign with.
    pub fn answer(&self, keys: &ActorKeys, challenge: Option<combiner::SignerPackage>) -> (res: Result<
        SecurePackage,
        Error,
    >)
        ensures
            self.answers(*keys, challenge, res),
    {
        match (challenge, &self.current_commitment, &self.taps_kp) {
            (Some(challenge), Some(commit), Some(kp)) => {
                let z = P::sign(commit, kp, &challenge.c);
                let payload = SigmaPackage { z };
                let plain: Vec<u8> = P::encode_sign(&payload);
                proof {
                    assert(writes_sign::<P>(SigmaPackage { z: payload.z }, plain@));
                }
                self.secure_package(keys, &plain)
            },
            _ => Err(Error::InvalidMessage),
        }
    }

    /// Whether `res` is what this signer answers to a broadcast at time `now`.
    pub open spec fn sets_sigma(
        self,
        package: BroadcastPackage,
        now: u64,
        res: Result<SecurePackage, Error>,
    ) -> bool {
        match self.combiner_keys {
            None => res == Err::<SecurePackage, Error>(Error::InvalidMessage),
            Some(keys) => if broadcast_valid(keys.identity_pk, package, MAX_AGE_SECONDS, now) {
                exists|challenge: Option<combiner::SignerPackage>|
                    reads_challenge::<P>(package.text@, challenge) && #[trigger] self.answers(
                        keys,
                        challenge,
                        res,
                    )
            } else {
                res == Err::<SecurePackage, Error>(Error::InvalidSignature)
            },
        }
    }

    /// Round 2, at time `now`: answers the combiner's challenge. A challenge
    /// that the combiner did not sign recently is refused.
    pub fn set_sigma_at(&self, signed_pkg: &BroadcastPackage, now: u64) -> (res: Result<
        SecurePackage,
        Error,
    >)
        ensures
            self.sets_sigma(*signed_pkg, now, res),
    {
        let keys: ActorKeys = match self.combiner_keys {
            Some(keys) => keys,
            None => {
                return Err(Error::InvalidMessage);
            },
        };
        if !IdentityKeyPair::verify_broadcast_data_at(&keys.identity_pk, signed_pkg, now) {
            return Err(Error::InvalidSignature);
        }
        let challenge = P::decode_challenge(&signed_pkg.text);
        proof {
            assert(reads_challenge::<P>(signed_pkg.text@, challenge));
        }
        self.answer(&keys, challenge)
    }

    /// Round 2: answers the combiner's challenge.
    pub fn set_sigma(&self, signed_pkg: &BroadcastPackage) -> (res: Result<SecurePackage, Error>)
        ensures
            exists|now: u64| clock_told(now) && #[trigger] self.sets_sigma(*signed_pkg, now, res),
    {
        let now: u64 = current_timestamp();
        self.set_sigma_at(signed_pkg, now)
    }
}

} // verus!
