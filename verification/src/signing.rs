//! The combiner's signing round: aggregation, encryption, and the
//! accountability proof.
use vstd::pervasive::cloned;
use vstd::prelude::*;

use crate::bytes::copy_of;
use crate::combiner::{
    all_there, collect_in_order, in_order, Combiner, SignerPackage, TracerPackage,
};
use crate::crypto::{
    announce, announces, clock_told, current_timestamp, BroadcastPackage, SecurePackage,
};
use crate::keys::{copy_keys, scalar_of, Error, PublicKey, Scalar};
use crate::scheme::{ElGamalCiphertext, Pi, Scheme, Sigma, Statement};
use crate::signer::SigmaPackage;
use crate::wire::{reads_sign, writes_challenge, writes_evidence};

verus! {

broadcast use vstd::std_specs::hash::group_hash_axioms;

/// The first components of these ciphertexts, in order.
pub open spec fn first_components(ciphertexts: Seq<ElGamalCiphertext>) -> Seq<PublicKey> {
    Seq::new(ciphertexts.len(), |i: int| ciphertexts[i].c0)
}

/// The second components of these ciphertexts, in order.
pub open spec fn second_components(ciphertexts: Seq<ElGamalCiphertext>) -> Seq<PublicKey> {
    Seq::new(ciphertexts.len(), |i: int| ciphertexts[i].c1)
}

fn split_components(ciphertexts: &Vec<ElGamalCiphertext>) -> (res: (Vec<PublicKey>, Vec<PublicKey>))
    ensures
        res.0@ == first_components(ciphertexts@),
        res.1@ == second_components(ciphertexts@),
{
    let mut first: Vec<PublicKey> = Vec::new();
    let mut second: Vec<PublicKey> = Vec::new();
    let mut i: usize = 0;
    while i < ciphertexts.len()
        invariant
            i <= ciphertexts@.len(),
            first@ == first_components(ciphertexts@.take(i as int)),
            second@ == second_components(ciphertexts@.take(i as int)),
        decreases ciphertexts@.len() - i,
    {
        first.push(ciphertexts[i].c0);
        second.push(ciphertexts[i].c1);
        proof {
            assert(first@ =~= first_components(ciphertexts@.take(i + 1)));
            assert(second@ =~= second_components(ciphertexts@.take(i + 1)));
        }
        i = i + 1;
    }
    proof {
        assert(ciphertexts@.take(ciphertexts@.len() as int) =~= ciphertexts@);
    }
    (first, second)
}

impl<P: Scheme> Combiner<P> {
    /// What becomes of the combiner, and what it answers, when all
    /// commitments are there.
    pub open spec fn aggregates_nonce(self, res: Result<(), Error>, after: Self) -> bool {
        exists|list: Vec<&P::Commitment>, aggregate: Result<PublicKey, Error>|
            {
                &&& in_order(list@, self.commitments@, self.n->0)
                &&& #[trigger] call_ensures(
                    P::aggregate_commitments,
                    (&list, &self.quorum->0),
                    aggregate,
                )
                &&& match aggregate {
                    Ok(R) => res == Ok::<(), Error>(()) && after == (Combiner {
                        R: Some(R),
                        ..self
                    }),
                    Err(e) => res == Err::<(), Error>(e) && after == self,
                }
            }
    }

    /// Aggregates the commitments of all signers, in order of their ids, into
    /// the nonce `R`.
    pub fn compute_aggregated_nonce(&mut self) -> (res: Result<(), Error>)
        requires
            old(self).quorum is Some,
            old(self).n is Some,
        ensures
            if all_there(old(self).commitments@, old(self).n->0) {
                old(self).aggregates_nonce(res, *final(self))
            } else {
                res == Err::<(), Error>(Error::InvalidPublicKey) && *final(self) == *old(self)
            },
    {
        let n: usize = self.n.unwrap();
        let aggregate: Result<PublicKey, Error> = match collect_in_order(&self.commitments, n) {
            Some(list) => P::aggregate_commitments(&list, self.quorum.as_ref().unwrap()),
            None => {
                return Err(Error::InvalidPublicKey);
            },
        };
        match aggregate {
            Ok(R) => {
                self.R = Some(R);
                Ok(())
            },
            Err(e) => Err(e),
        }
    }

    /// Encrypts the signer threshold as `T`, under fresh randomness.
    pub fn encrypt_threshold(&mut self) -> (res: Result<(), Error>)
        requires
            old(self).t is Some,
        ensures
            res is Ok,
            exists|psi: P::Secret, t: Scalar, T: ElGamalCiphertext|
                {
                    &&& call_ensures(P::create_secret, (), psi)
                    &&& t@ == old(self).t->0
                    &&& #[trigger] call_ensures(P::encrypt_value, (&psi, &t), T)
                    &&& *final(self) == (Combiner { w_psi: Some(psi), T: Some(T), ..*old(self) })
                },
    {
        let t: Scalar = scalar_of(self.t.unwrap() as u64);
        let psi = P::create_secret();
        let T: ElGamalCiphertext = P::encrypt_value(&psi, &t);
        self.w_psi = Some(psi);
        self.T = Some(T);
        Ok(())
    }

    /// Derives the Schnorr challenge c = H(params || T || R || m).
    pub fn compute_parameters(&mut self, message: &[u8]) -> (res: Result<(), Error>)
        requires
            old(self).pk is Some,
            old(self).T is Some,
            old(self).R is Some,
        ensures
            res is Ok,
            *final(self) == (Combiner {
                c: final(self).c,
                message: final(self).message,
                ..*old(self)
            }),
            final(self).c is Some,
            call_ensures(
                P::challenge,
                (&old(self).pk->0, &old(self).T->0, &old(self).R->0, message),
                final(self).c->0,
            ),
            final(self).message is Some,
            final(self).message->0@ == message@,
    {
        let c: Scalar = P::challenge(
            self.pk.as_ref().unwrap(),
            self.T.as_ref().unwrap(),
            self.R.as_ref().unwrap(),
            message,
        );
        self.c = Some(c);
        self.message = Some(copy_of(message));
        Ok(())
    }

    /// Whether everything that the accountability proof is about is known.
    pub open spec fn statement_known(self) -> bool {
        &&& self.pk is Some
        &&& self.T is Some
        &&& self.R is Some
        &&& self.message is Some
        &&& self.C is Some
        &&& self.v0 is Some
        &&& self.v_vec is Some
    }

    /// The public statement the accountability proof is about.
    pub open spec fn public_statement<'a>(self) -> Statement<'a> {
        Statement {
            pk: &self.pk->0,
            T: &self.T->0,
            R: &self.R->0,
            m: &self.message->0,
            ct: &self.C->0,
            v0: &self.v0->0,
            v: &self.v_vec->0,
        }
    }

    /// Builds the public statement the accountability proof is about.
    fn statement<'a>(&'a self) -> (statement: Statement<'a>)
        requires
            self.statement_known(),
        ensures
            statement == self.public_statement(),
    {
        Statement {
            pk: self.pk.as_ref().unwrap(),
            T: self.T.as_ref().unwrap(),
            R: self.R.as_ref().unwrap(),
            m: self.message.as_ref().unwrap(),
            ct: self.C.as_ref().unwrap(),
            v0: self.v0.as_ref().unwrap(),
            v: self.v_vec.as_ref().unwrap(),
        }
    }

    /// Derives alpha, bound to the whole statement and to `c`.
    pub fn compute_alpha(&mut self) -> (res: Result<(), Error>)
        requires
            old(self).c is Some,
            old(self).statement_known(),
        ensures
            res is Ok,
            *final(self) == (Combiner { alpha: final(self).alpha, ..*old(self) }),
            final(self).alpha is Some,
            call_ensures(
                P::statement_alpha,
                (&old(self).public_statement(), &old(self).c->0),
                final(self).alpha->0,
            ),
    {
        let c: Scalar = self.c.unwrap();
        let alpha: Scalar = P::statement_alpha(&self.statement(), &c);
        self.alpha = Some(alpha);
        Ok(())
    }

    /// Derives beta, bound to the whole statement, to alpha and to the proof
    /// commitments.
    pub fn compute_beta(&mut self) -> (res: Result<(), Error>)
        requires
            old(self).alpha is Some,
            old(self).proofs is Some,
            old(self).statement_known(),
        ensures
            res is Ok,
            *final(self) == (Combiner { beta: final(self).beta, ..*old(self) }),
            final(self).beta is Some,
            call_ensures(
                P::statement_beta,
                (&old(self).public_statement(), &old(self).alpha->0, &old(self).proofs->0),
                final(self).beta->0,
            ),
    {
        let alpha: Scalar = self.alpha.unwrap();
        let beta: Scalar = P::statement_beta(
            &self.statement(),
            &alpha,
            self.proofs.as_ref().unwrap(),
        );
        self.beta = Some(beta);
        Ok(())
    }

    // --- Round 2: signature shares ---

    /// Whether `after` is the combiner once it has been handed signer `id`'s
    /// share: it keeps it if the signer takes part.
    pub open spec fn stores_sign(self, id: usize, z: P::Sign, after: Self) -> bool {
        &&& after == (Combiner { sigmas: after.sigmas, ..self })
        &&& after.sigmas@ == if self.participates(id) {
            self.sigmas@.insert(id, z)
        } else {
            self.sigmas@
        }
    }

    /// Stores signer `signer_id`'s share, if that signer takes part.
    pub fn handle_sigma(&mut self, signer_id: usize, signature_share: P::Sign)
        ensures
            old(self).stores_sign(signer_id, signature_share, *final(self)),
    {
        if let Some(participant_count) = self.n {
            if signer_id < participant_count {
                self.sigmas.insert(signer_id, signature_share);
            }
        }
    }

    /// What becomes of the combiner, and what it answers, once it has opened
    /// what signer `id` sent as its share.
    pub open spec fn takes_sign(
        self,
        id: usize,
        plain: Seq<u8>,
        res: Result<(), Error>,
        after: Self,
    ) -> bool {
        exists|payload: Option<SigmaPackage<P::Sign>>| #[trigger]
            reads_sign::<P>(plain, payload) && (match payload {
                Some(p) => res == Ok::<(), Error>(()) && self.stores_sign(id, p.z, after),
                None => res == Err::<(), Error>(Error::InvalidMessage) && after == self,
            })
    }

    /// What becomes of the combiner, and what it answers, when it gets a share
    /// from signer `id` at time `now`.
    pub open spec fn loads_sign(
        self,
        id: usize,
        package: SecurePackage,
        now: u64,
        res: Result<(), Error>,
        after: Self,
    ) -> bool {
        match self.opened_from_signer(id, package, now) {
            Ok(plain) => self.takes_sign(id, plain, res, after),
            Err(e) => res == Err::<(), Error>(e) && after == self,
        }
    }

    /// Loads signer `signer_id`'s share at time `now`.
    pub fn load_sigma_at(&mut self, signer_id: &usize, secure_pkg: &SecurePackage, now: u64) -> (res:
        Result<(), Error>)
        ensures
            old(self).loads_sign(*signer_id, *secure_pkg, now, res, *final(self)),
    {
        let plain: Vec<u8> = match self.open_signer_package(*signer_id, secure_pkg, now) {
            Ok(plain) => plain,
            Err(e) => {
                return Err(e);
            },
        };
        let payload = P::decode_sign(&plain);
        proof {
            assert(reads_sign::<P>(plain@, payload));
        }
        let res: Result<(), Error> = match payload {
            Some(p) => {
                self.handle_sigma(*signer_id, p.z);
                Ok(())
            },
            None => Err(Error::InvalidMessage),
        };
        proof {
            assert(old(self).takes_sign(*signer_id, plain@, res, *self));
        }
        res
    }

    /// Loads signer `signer_id`'s share.
    pub fn load_sigma(&mut self, signer_id: &usize, secure_pkg: &SecurePackage) -> (res: Result<
        (),
        Error,
    >)
        ensures
            exists|now: u64|
                clock_told(now) && #[trigger] old(self).loads_sign(*signer_id, *secure_pkg, now, res, *final(self)),
    {
        let now: u64 = current_timestamp();
        self.load_sigma_at(signer_id, secure_pkg, now)
    }

    /// Aggregates the shares of all signers, in order of their ids.
    pub fn compute_aggregated_sign(&mut self) -> (res: Result<(), Error>)
        requires
            old(self).quorum is Some,
            old(self).n is Some,
        ensures
            if all_there(old(self).sigmas@, old(self).n->0) {
                exists|list: Vec<&P::Sign>, z: P::Sign|
                    {
                        &&& in_order(list@, old(self).sigmas@, old(self).n->0)
                        &&& #[trigger] call_ensures(
                            P::aggregate_signs,
                            (&list, &old(self).quorum->0),
                            z,
                        )
                        &&& res == Ok::<(), Error>(())
                        &&& *final(self) == (Combiner { w_z: Some(z), ..*old(self) })
                    }
            } else {
                res == Err::<(), Error>(Error::InvalidPublicKey) && *final(self) == *old(self)
            },
    {
        let n: usize = self.n.unwrap();
        let z = match collect_in_order(&self.sigmas, n) {
            Some(list) => P::aggregate_signs(&list, self.quorum.as_ref().unwrap()),
            None => {
                return Err(Error::InvalidPublicKey);
            },
        };
        self.w_z = Some(z);
        Ok(())
    }

    /// Encrypts the aggregated signature as `C`, under fresh randomness.
    pub fn compute_encrypted_signature(&mut self) -> (res: Result<(), Error>)
        requires
            old(self).w_z is Some,
            old(self).pk is Some,
        ensures
            res is Ok,
            exists|rho: P::Secret, C: ElGamalCiphertext|
                {
                    &&& call_ensures(P::create_secret, (), rho)
                    &&& #[trigger] call_ensures(
                        P::encrypt_sign,
                        (&rho, &old(self).w_z->0, &old(self).pk->0),
                        C,
                    )
                    &&& *final(self) == (Combiner { w_rho: Some(rho), C: Some(C), ..*old(self) })
                },
    {
        let rho = P::create_secret();
        let C: ElGamalCiphertext = P::encrypt_sign(
            &rho,
            self.w_z.as_ref().unwrap(),
            self.pk.as_ref().unwrap(),
        );
        self.w_rho = Some(rho);
        self.C = Some(C);
        Ok(())
    }

    /// Computes phi_i = alpha^(i+1) * gamma_i * (1 - b_i).
    pub fn compute_phis(&mut self) -> (res: Result<(), Error>)
        requires
            old(self).alpha is Some,
            old(self).quorum is Some,
            old(self).w_gamma is Some,
        ensures
            res is Ok,
            *final(self) == (Combiner { w_phi_i: final(self).w_phi_i, ..*old(self) }),
            final(self).w_phi_i is Some,
            call_ensures(
                P::phis,
                (&old(self).alpha->0, &old(self).w_gamma->0, &old(self).quorum->0),
                final(self).w_phi_i->0,
            ),
    {
        let phis = P::phis(
            self.alpha.as_ref().unwrap(),
            self.w_gamma.as_ref().unwrap(),
            self.quorum.as_ref().unwrap(),
        );
        self.w_phi_i = Some(phis);
        Ok(())
    }

    /// Draws a fresh gamma_i per signer and encrypts the quorum bits under
    /// the tracer group key pk_e.
    pub fn compute_encrypted_bits(&mut self) -> (res: Result<(), Error>)
        requires
            old(self).quorum is Some,
            old(self).pk_e is Some,
        ensures
            res is Ok,
            final(self).v0 is Some,
            final(self).v_vec is Some,
            exists|gammas: Vec<P::Secret>, ciphertexts: Vec<ElGamalCiphertext>|
                {
                    &&& #[trigger] call_ensures(
                        P::encrypt_bits,
                        (&old(self).quorum->0, &old(self).pk_e->0),
                        (gammas, ciphertexts),
                    )
                    &&& *final(self) == (Combiner {
                        w_gamma: Some(gammas),
                        v0: final(self).v0,
                        v_vec: final(self).v_vec,
                        ..*old(self)
                    })
                    &&& final(self).v0->0@ == first_components(ciphertexts@)
                    &&& final(self).v_vec->0@ == second_components(ciphertexts@)
                },
    {
        let (gammas, ciphertexts) = P::encrypt_bits(
            self.quorum.as_ref().unwrap(),
            self.pk_e.as_ref().unwrap(),
        );
        let (v0, v_vec) = split_components(&ciphertexts);
        self.w_gamma = Some(gammas);
        self.v0 = Some(v0);
        self.v_vec = Some(v_vec);
        Ok(())
    }

    /// Draws the blinding randomness for `n` participants.
    pub fn compute_blinds(&mut self, n: usize) -> (res: Result<(), Error>)
        ensures
            res is Ok,
            *final(self) == (Combiner { blinds: final(self).blinds, ..*old(self) }),
            final(self).blinds is Some,
            call_ensures(P::blinds, (n,), final(self).blinds->0),
    {
        self.blinds = Some(P::blinds(n));
        Ok(())
    }

    /// Computes the proof commitments.
    pub fn compute_proofs(&mut self) -> (res: Result<(), Error>)
        requires
            old(self).blinds is Some,
            old(self).pk is Some,
            old(self).pk_e is Some,
            old(self).v_vec is Some,
            old(self).c is Some,
            old(self).alpha is Some,
        ensures
            res is Ok,
            *final(self) == (Combiner { proofs: final(self).proofs, ..*old(self) }),
            final(self).proofs is Some,
            call_ensures(
                P::proofs,
                (
                    &old(self).blinds->0,
                    &old(self).pk->0,
                    &old(self).pk_e->0,
                    &old(self).v_vec->0,
                    &old(self).c->0,
                    &old(self).alpha->0,
                ),
                final(self).proofs->0,
            ),
    {
        let proofs = P::proofs(
            self.blinds.as_ref().unwrap(),
            self.pk.as_ref().unwrap(),
            self.pk_e.as_ref().unwrap(),
            self.v_vec.as_ref().unwrap(),
            self.c.as_ref().unwrap(),
            self.alpha.as_ref().unwrap(),
        );
        self.proofs = Some(proofs);
        Ok(())
    }

    /// Computes the proof responses from the witnesses.
    pub fn compute_hats(&mut self) -> (res: Result<(), Error>)
        requires
            old(self).w_z is Some,
            old(self).w_rho is Some,
            old(self).w_gamma is Some,
            old(self).w_psi is Some,
            old(self).quorum is Some,
            old(self).w_phi_i is Some,
            old(self).beta is Some,
            old(self).blinds is Some,
        ensures
            res is Ok,
            exists|witnesses: P::Witnesses, hats: P::Hats|
                {
                    &&& call_ensures(
                        P::witnesses,
                        (
                            &old(self).w_z->0,
                            &old(self).w_rho->0,
                            &old(self).w_gamma->0,
                            &old(self).w_psi->0,
                            &old(self).quorum->0,
                            &old(self).w_phi_i->0,
                        ),
                        witnesses,
                    )
                    &&& #[trigger] call_ensures(
                        P::hats,
                        (&old(self).beta->0, &witnesses, &old(self).blinds->0),
                        hats,
                    )
                    &&& *final(self) == (Combiner { hats: Some(hats), ..*old(self) })
                },
    {
        let witnesses = P::witnesses(
            self.w_z.as_ref().unwrap(),
            self.w_rho.as_ref().unwrap(),
            self.w_gamma.as_ref().unwrap(),
            self.w_psi.as_ref().unwrap(),
            self.quorum.as_ref().unwrap(),
            self.w_phi_i.as_ref().unwrap(),
        );
        let hats = P::hats(
            self.beta.as_ref().unwrap(),
            &witnesses,
            self.blinds.as_ref().unwrap(),
        );
        self.hats = Some(hats);
        Ok(())
    }

    /// Puts the proof package together.
    pub fn construct_pi(&self) -> (res: Result<Pi<P::Hats>, Error>)
        requires
            self.beta is Some,
            self.hats is Some,
        ensures
            res is Ok,
            res->Ok_0.beta == self.beta->0,
            cloned(self.hats->0, res->Ok_0.hats),
    {
        let hats = self.hats.as_ref().unwrap().clone();
        Ok(Pi { beta: self.beta.unwrap(), hats })
    }

    /// Puts the final signature together.
    pub fn construct_sigma(&self, message: &[u8]) -> (res: Result<Sigma<P::Attestation>, Error>)
        requires
            self.beta is Some,
            self.hats is Some,
            self.taps_kp is Some,
            self.R is Some,
            self.C is Some,
        ensures
            exists|pi: Pi<P::Hats>, attestation: P::Attestation|
                {
                    &&& pi.beta == self.beta->0
                    &&& cloned(self.hats->0, pi.hats)
                    &&& #[trigger] call_ensures(
                        P::attest,
                        (&self.taps_kp->0, message, &self.R->0, &self.C->0, &pi),
                        attestation,
                    )
                    &&& res == Ok::<Sigma<P::Attestation>, Error>(
                        Sigma { R: self.R->0, ct: self.C->0, attestation },
                    )
                },
    {
        let pi: Pi<P::Hats> = match self.construct_pi() {
            Ok(pi) => pi,
            Err(e) => {
                return Err(e);
            },
        };
        let attestation = P::attest(
            self.taps_kp.as_ref().unwrap(),
            message,
            self.R.as_ref().unwrap(),
            self.C.as_ref().unwrap(),
            &pi,
        );
        Ok(Sigma { R: self.R.unwrap(), ct: self.C.unwrap(), attestation })
    }

    // --- Broadcasts ---

    /// Signs bytes for everyone to read.
    pub fn sign_package(&self, text: Vec<u8>) -> (package: BroadcastPackage)
        ensures
            announces(self.identity_kp, text@, package),
            clock_told(package.timestamp),
    {
        announce(&self.identity_kp, text)
    }

    /// For every signer: the nonce and the challenge.
    pub fn prepare_signer_package(&self) -> (package: BroadcastPackage)
        requires
            self.R is Some,
            self.c is Some,
        ensures
            exists|text: Seq<u8>| #[trigger]
                writes_challenge::<P>(SignerPackage { R: self.R->0, c: self.c->0 }, text)
                    && announces(self.identity_kp, text, package),
            clock_told(package.timestamp),
    {
        let payload = SignerPackage { R: self.R.unwrap(), c: self.c.unwrap() };
        let text: Vec<u8> = P::encode_challenge(&payload);
        proof {
            assert(writes_challenge::<P>(payload, text@));
        }
        self.sign_package(text)
    }

    /// Whether `payload` is the full public statement plus the proof and the
    /// signature.
    pub open spec fn is_evidence(
        self,
        sigma: Sigma<P::Attestation>,
        m: Seq<u8>,
        payload: TracerPackage<P::Proofs, P::Attestation>,
    ) -> bool {
        &&& payload.T == self.T->0
        &&& payload.v0@ == self.v0->0@
        &&& payload.v_vec@ == self.v_vec->0@
        &&& cloned(self.proofs->0, payload.proof)
        &&& payload.sigma.R == sigma.R
        &&& payload.sigma.ct == sigma.ct
        &&& cloned(sigma.attestation, payload.sigma.attestation)
        &&& payload.m@ == m
    }

    /// For every tracer: the full public statement plus the proof and sigma.
    pub fn prepare_tracer_package(&self, sigma: &Sigma<P::Attestation>, m: &[u8]) -> (package:
        BroadcastPackage)
        requires
            self.T is Some,
            self.proofs is Some,
            self.v0 is Some,
            self.v_vec is Some,
        ensures
            exists|payload: TracerPackage<P::Proofs, P::Attestation>, text: Seq<u8>|
                {
                    &&& self.is_evidence(*sigma, m@, payload)
                    &&& #[trigger] writes_evidence::<P>(payload, text)
                    &&& announces(self.identity_kp, text, package)
                },
            clock_told(package.timestamp),
    {
        let payload = TracerPackage {
            T: self.T.unwrap(),
            v0: copy_keys(self.v0.as_ref().unwrap()),
            v_vec: copy_keys(self.v_vec.as_ref().unwrap()),
            proof: self.proofs.as_ref().unwrap().clone(),
            sigma: Sigma { R: sigma.R, ct: sigma.ct, attestation: sigma.attestation.clone() },
            m: copy_of(m),
        };
        let text: Vec<u8> = P::encode_evidence(&payload);
        proof {
            assert(writes_evidence::<P>(payload, text@));
        }
        self.sign_package(text)
    }
}

} // verus!
