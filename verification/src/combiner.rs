//! The combiner: collects the signers' contributions, signs for the quorum,
//! and proves that it did so accountably.
use std::collections::{BTreeMap, HashMap};
use vstd::prelude::*;

use crate::authority::{ActorKeys, CombinerPackage};
use crate::crypto::{
    clock_told, current_timestamp, open_at, opened, seal, seals, IdentityKeyPair, SecurePackage,
    TransportKeyPair,
};
use crate::group::{group_total, Gt};
use crate::keys::{copy_keys, pair_drawn, Error, PublicKey, Scalar};
use crate::network::AuthorityAnchor;
use crate::ordered::{keys_in_order, lists_keys};
use crate::primitives::MAX_PLAINTEXT;
use crate::scheme::{ElGamalCiphertext, Scheme, Sigma, PK};
use crate::wire::{reads_combiner_credentials, reads_commitment, reads_tracer_public_key};

verus! {

broadcast use {
    vstd::std_specs::btree::group_btree_axioms,
    vstd::std_specs::hash::group_hash_axioms,
};

/// The challenge that every signer answers.
#[derive(Debug, Clone, Copy, PartialEq, Eq)]
pub struct SignerPackage {
    pub R: PublicKey,
    pub c: Scalar,
}

/// Everything the tracers (or any public verifier) need.
///
/// Note that c, alpha and beta are deliberately *not* transported: the
/// verifier re-derives them from this statement. Accepting them from the
/// prover would void the Fiat-Shamir transform.
#[derive(Debug, Clone, PartialEq, Eq)]
pub struct TracerPackage<Q, A> {
    pub T: ElGamalCiphertext,
    /// `v0[i]`, `v[i]` for every signer, under the tracer group key `pk_e`.
    pub v0: Vec<PublicKey>,
    pub v_vec: Vec<PublicKey>,
    pub proof: Q,
    pub sigma: Sigma<A>,
    pub m: Vec<u8>,
}

/// A tracer's own `pk_k`: the only thing the combiner learns of the tracers'
/// key generation.
#[derive(Debug, Clone, Copy, PartialEq, Eq)]
pub struct TracerPublicKeyPackage {
    pub pk: Gt,
}

/// The hub of the signing protocol.
pub struct Combiner<P: Scheme> {
    pub identity_kp: IdentityKeyPair,
    pub transport_kp: TransportKeyPair,
    /// Network keys of each signer, as issued by the Authority. Indexed by id.
    pub signer_keys: Option<Vec<ActorKeys>>,
    /// Network keys of each tracer, as issued by the Authority. Indexed by id.
    pub tracer_keys: Option<Vec<ActorKeys>>,
    pub pk_i: Option<Vec<PublicKey>>,
    pub quorum: Option<P::Quorum>,
    pub n: Option<usize>,
    pub t: Option<usize>,
    pub n3: Option<usize>,
    pub te: Option<usize>,
    pub taps_kp: Option<P::KeyPair>,
    /// `pk_k` of each tracer that has reported, by tracer id.
    pub tracer_public_keys: BTreeMap<usize, Gt>,
    pub pk_e: Option<PublicKey>,
    pub pk: Option<PK>,
    pub commitments: HashMap<usize, P::Commitment>,
    pub sigmas: HashMap<usize, P::Sign>,
    /// The encrypted threshold.
    pub T: Option<ElGamalCiphertext>,
    /// The encrypted signature.
    pub C: Option<ElGamalCiphertext>,
    pub R: Option<PublicKey>,
    /// The message being signed this round.
    pub message: Option<Vec<u8>>,
    pub c: Option<Scalar>,
    pub alpha: Option<Scalar>,
    pub beta: Option<Scalar>,
    /// Aggregated signature (z).
    pub w_z: Option<P::Sign>,
    /// Randomness of the encrypted signature.
    pub w_rho: Option<P::Secret>,
    /// Per-signer randomness gamma_i.
    pub w_gamma: Option<Vec<P::Secret>>,
    /// Randomness of the encrypted threshold.
    pub w_psi: Option<P::Secret>,
    pub w_phi_i: Option<P::Phis>,
    pub v0: Option<Vec<PublicKey>>,
    pub v_vec: Option<Vec<PublicKey>>,
    pub blinds: Option<P::Blinds>,
    pub hats: Option<P::Hats>,
    pub proofs: Option<P::Proofs>,
}

/// The contributions of signers `0..n`, in order of the ids.
pub open spec fn in_order<V>(list: Seq<&V>, map: Map<usize, V>, n: usize) -> bool {
    &&& list.len() == n
    &&& forall|i: int| 0 <= i < n ==> *(#[trigger] list[i]) == map[i as usize]
}

/// Whether every signer `0..n` has contributed.
pub open spec fn all_there<V>(map: Map<usize, V>, n: usize) -> bool {
    forall|i: usize| i < n ==> #[trigger] map.contains_key(i)
}

/// The values of a map in the order of these keys.
pub open spec fn values_at<V>(map: Map<usize, V>, ids: Seq<usize>) -> Seq<V> {
    Seq::new(ids.len(), |i: int| map[ids[i]])
}

/// Puts the contributions of signers `0..n` in order, unless one is missing.
pub(crate) fn collect_in_order<V>(map: &HashMap<usize, V>, n: usize) -> (res: Option<Vec<&V>>)
    ensures
        match res {
            Some(list) => all_there(map@, n) && in_order(list@, map@, n),
            None => !all_there(map@, n),
        },
{
    let mut list: Vec<&V> = Vec::new();
    let mut i: usize = 0;
    while i < n
        invariant
            i <= n,
            list@.len() == i,
            forall|j: usize| j < i ==> #[trigger] map@.contains_key(j),
            forall|j: int| 0 <= j < i ==> *(#[trigger] list@[j]) == map@[j as usize],
        decreases n - i,
    {
        match map.get(&i) {
            Some(v) => {
                list.push(v);
            },
            None => {
                return None;
            },
        }
        i = i + 1;
    }
    Some(list)
}

impl<P: Scheme> Combiner<P> {
    /// A combiner with fresh network keys that has not heard from anyone.
    pub fn new() -> (combiner: Self)
        ensures
            combiner.identity_kp.wf(),
            combiner.transport_kp.wf(),
            pair_drawn(combiner.identity_kp.secret(), combiner.identity_kp.public()@),
            pair_drawn(combiner.transport_kp.secret(), combiner.transport_kp.public()@),
            combiner.tracer_public_keys@ == Map::<usize, Gt>::empty(),
            combiner.commitments@ == Map::<usize, P::Commitment>::empty(),
            combiner.sigmas@ == Map::<usize, P::Sign>::empty(),
            combiner == (Combiner::<P> {
                identity_kp: combiner.identity_kp,
                transport_kp: combiner.transport_kp,
                signer_keys: None,
                tracer_keys: None,
                pk_i: None,
                quorum: None,
                n: None,
                t: None,
                n3: None,
                te: None,
                taps_kp: None,
                tracer_public_keys: combiner.tracer_public_keys,
                pk_e: None,
                pk: None,
                commitments: combiner.commitments,
                sigmas: combiner.sigmas,
                T: None,
                C: None,
                R: None,
                message: None,
                c: None,
                alpha: None,
                beta: None,
                w_z: None,
                w_rho: None,
                w_gamma: None,
                w_psi: None,
                w_phi_i: None,
                v0: None,
                v_vec: None,
                blinds: None,
                hats: None,
                proofs: None,
            }),
    {
        Combiner {
            identity_kp: IdentityKeyPair::new(),
            transport_kp: TransportKeyPair::new(),
            signer_keys: None,
            tracer_keys: None,
            pk_i: None,
            quorum: None,
            n: None,
            t: None,
            n3: None,
            te: None,
            taps_kp: None,
            tracer_public_keys: BTreeMap::new(),
            pk_e: None,
            pk: None,
            commitments: HashMap::new(),
            sigmas: HashMap::new(),
            T: None,
            C: None,
            R: None,
            message: None,
            c: None,
            alpha: None,
            beta: None,
            w_z: None,
            w_rho: None,
            w_gamma: None,
            w_psi: None,
            w_phi_i: None,
            v0: None,
            v_vec: None,
            blinds: None,
            hats: None,
            proofs: None,
        }
    }

    // --- Bootstrap: configuration from the Authority ---

    /// Each roster has one entry per actor.
    pub open spec fn rosters_fit(self) -> bool {
        &&& self.signer_keys matches Some(keys) ==> self.n == Some(keys@.len() as usize)
        &&& self.tracer_keys matches Some(keys) ==> self.n3 == Some(keys@.len() as usize)
    }

    /// What becomes of the combiner, and what it answers, once the Authority's
    /// package has been read.
    pub open spec fn configures(
        self,
        config: Option<CombinerPackage<P::KeyPair, P::Quorum>>,
        res: Result<(), Error>,
        after: Self,
    ) -> bool {
        match config {
            Some(config) if config.signer_keys@.len() == config.n && config.tracer_keys@.len()
                == config.n3 => {
                res == Ok::<(), Error>(()) && after == (Combiner {
                    signer_keys: Some(config.signer_keys),
                    tracer_keys: Some(config.tracer_keys),
                    pk_i: Some(config.pk_i),
                    quorum: Some(config.quo),
                    n: Some(config.n),
                    t: Some(config.t),
                    n3: Some(config.n3),
                    te: Some(config.te),
                    taps_kp: Some(config.kp_cs),
                    ..self
                })
            },
            _ => res == Err::<(), Error>(Error::InvalidMessage) && after == self,
        }
    }

    /// Takes over a configuration whose rosters have one entry per actor.
    pub fn configure(&mut self, config: Option<CombinerPackage<P::KeyPair, P::Quorum>>) -> (res:
        Result<(), Error>)
        ensures
            old(self).configures(config, res, *final(self)),
            old(self).rosters_fit() ==> final(self).rosters_fit(),
    {
        let config: CombinerPackage<P::KeyPair, P::Quorum> = match config {
            Some(config) => config,
            None => {
                return Err(Error::InvalidMessage);
            },
        };
        if config.signer_keys.len() != config.n {
            return Err(Error::InvalidMessage);
        }
        if config.tracer_keys.len() != config.n3 {
            return Err(Error::InvalidMessage);
        }
        self.signer_keys = Some(config.signer_keys);
        self.tracer_keys = Some(config.tracer_keys);
        self.pk_i = Some(config.pk_i);
        self.quorum = Some(config.quo);
        self.n = Some(config.n);
        self.t = Some(config.t);
        self.n3 = Some(config.n3);
        self.te = Some(config.te);
        self.taps_kp = Some(config.kp_cs);
        Ok(())
    }

    /// What becomes of the combiner, and what it answers, when it gets a
    /// package from the Authority at time `now`.
    pub open spec fn loads_from_authority(
        self,
        package: SecurePackage,
        anchor: AuthorityAnchor,
        now: u64,
        res: Result<(), Error>,
        after: Self,
    ) -> bool {
        match opened(self.transport_kp.secret(), anchor.actor_keys(), package, now) {
            Err(e) => res == Err::<(), Error>(e) && after == self,
            Ok(plain) => exists|config: Option<CombinerPackage<P::KeyPair, P::Quorum>>|
                reads_combiner_credentials::<P>(plain, config) && #[trigger] self.configures(
                    config,
                    res,
                    after,
                ),
        }
    }

    /// Loads the Authority's configuration at time `now`.
    pub fn load_from_authority_at(
        &mut self,
        secure_pkg: &SecurePackage,
        anchor: &AuthorityAnchor,
        now: u64,
    ) -> (res: Result<(), Error>)
        ensures
            old(self).loads_from_authority(*secure_pkg, *anchor, now, res, *final(self)),
            old(self).rosters_fit() ==> final(self).rosters_fit(),
    {
        match open_at(&self.transport_kp, &anchor.keys(), secure_pkg, now) {
            Ok(plain) => {
                let config = P::decode_combiner_credentials(&plain);
                proof {
                    assert(reads_combiner_credentials::<P>(plain@, config));
                }
                self.configure(config)
            },
            Err(e) => Err(e),
        }
    }

    /// Loads the Authority's configuration.
    ///
    /// `anchor` must be the pinned Authority key material read from the trust
    /// anchor file - never keys taken from the incoming message.
    pub fn load_from_authority(&mut self, secure_pkg: &SecurePackage, anchor: &AuthorityAnchor) -> (res:
        Result<(), Error>)
        ensures
            exists|now: u64|
                clock_told(now) && #[trigger] old(self).loads_from_authority(
                    *secure_pkg,
                    *anchor,
                    now,
                    res,
                    *final(self),
                ),
            old(self).rosters_fit() ==> final(self).rosters_fit(),
    {
        let now: u64 = current_timestamp();
        self.load_from_authority_at(secure_pkg, anchor, now)
    }

    /// Signer `id`'s authenticated network keys, if the roster has them.
    pub open spec fn signer_keys_of(self, id: usize) -> Option<ActorKeys> {
        match self.signer_keys {
            Some(roster) if id < roster@.len() => Some(roster@[id as int]),
            _ => None,
        }
    }

    /// Tracer `id`'s authenticated network keys, if the roster has them.
    pub open spec fn tracer_keys_of(self, id: usize) -> Option<ActorKeys> {
        match self.tracer_keys {
            Some(roster) if id < roster@.len() => Some(roster@[id as int]),
            _ => None,
        }
    }

    /// Looks up signer `id`'s authenticated network keys from the
    /// Authority-issued roster. This is what binds an incoming package to a
    /// specific signer.
    fn keys_of_signer(&self, id: usize) -> (keys: Option<ActorKeys>)
        ensures
            keys == self.signer_keys_of(id),
    {
        match &self.signer_keys {
            Some(roster) => if id < roster.len() {
                Some(roster[id])
            } else {
                None
            },
            None => None,
        }
    }

    /// Looks up tracer `id`'s authenticated network keys.
    fn keys_of_tracer(&self, id: usize) -> (keys: Option<ActorKeys>)
        ensures
            keys == self.tracer_keys_of(id),
    {
        match &self.tracer_keys {
            Some(roster) => if id < roster.len() {
                Some(roster[id])
            } else {
                None
            },
            None => None,
        }
    }

    /// What the combiner reads at time `now` from a package that claims to
    /// come from signer `id`, or why it is refused.
    pub open spec fn opened_from_signer(self, id: usize, package: SecurePackage, now: u64) -> Result<
        Seq<u8>,
        Error,
    > {
        match self.signer_keys_of(id) {
            Some(keys) => opened(self.transport_kp.secret(), keys, package, now),
            None => Err(Error::InvalidMessage),
        }
    }

    /// What the combiner reads at time `now` from a package that claims to
    /// come from tracer `id`, or why it is refused.
    pub open spec fn opened_from_tracer(self, id: usize, package: SecurePackage, now: u64) -> Result<
        Seq<u8>,
        Error,
    > {
        match self.tracer_keys_of(id) {
            Some(keys) => opened(self.transport_kp.secret(), keys, package, now),
            None => Err(Error::InvalidMessage),
        }
    }

    pub(crate) fn open_signer_package(&self, id: usize, package: &SecurePackage, now: u64) -> (res: Result<
        Vec<u8>,
        Error,
    >)
        ensures
            match res {
                Ok(plain) => self.opened_from_signer(id, *package, now) == Ok::<Seq<u8>, Error>(
                    plain@,
                ),
                Err(e) => self.opened_from_signer(id, *package, now) == Err::<Seq<u8>, Error>(e),
            },
    {
        match self.keys_of_signer(id) {
            Some(keys) => open_at(&self.transport_kp, &keys, package, now),
            None => Err(Error::InvalidMessage),
        }
    }

    /// Decrypts and authenticates a package sent by tracer `id`.
    fn open_tracer_package(&self, id: usize, package: &SecurePackage, now: u64) -> (res: Result<
        Vec<u8>,
        Error,
    >)
        ensures
            match res {
                Ok(plain) => self.opened_from_tracer(id, *package, now) == Ok::<Seq<u8>, Error>(
                    plain@,
                ),
                Err(e) => self.opened_from_tracer(id, *package, now) == Err::<Seq<u8>, Error>(e),
            },
    {
        match self.keys_of_tracer(id) {
            Some(keys) => open_at(&self.transport_kp, &keys, package, now),
            None => Err(Error::InvalidMessage),
        }
    }

    /// Encrypts and signs bytes for tracer `id` with the combiner's own keys.
    pub fn seal_for_tracer(&self, id: usize, plain: &Vec<u8>) -> (res: Result<SecurePackage, Error>)
        ensures
            match (self.tracer_keys_of(id), res) {
                (Some(keys), Ok(package)) => {
                    &&& plain@.len() <= MAX_PLAINTEXT
                    &&& clock_told(package.timestamp)
                    &&& seals(
                        self.identity_kp,
                        self.transport_kp,
                        keys.transport_pk,
                        plain@,
                        package,
                    )
                },
                (Some(keys), Err(e)) => plain@.len() > MAX_PLAINTEXT && e == Error::InvalidMessage,
                (None, _) => res == Err::<SecurePackage, Error>(Error::InvalidMessage),
            },
    {
        match self.keys_of_tracer(id) {
            Some(keys) => seal(
                &self.identity_kp,
                &self.transport_kp,
                &keys.transport_pk,
                plain.as_slice(),
            ),
            None => Err(Error::InvalidMessage),
        }
    }

    // --- Round 1: commitments ---

    /// Whether signer `id` takes part.
    pub open spec fn participates(self, id: usize) -> bool {
        self.n matches Some(n) && id < n
    }

    /// Whether `after` is the combiner once it has been handed signer `id`'s
    /// commitment: it keeps it if the signer takes part.
    pub open spec fn stores_commitment(
        self,
        id: usize,
        commitment: P::Commitment,
        after: Self,
    ) -> bool {
        &&& after == (Combiner { commitments: after.commitments, ..self })
        &&& after.commitments@ == if self.participates(id) {
            self.commitments@.insert(id, commitment)
        } else {
            self.commitments@
        }
    }

    /// Stores signer `signer_id`'s commitment, if that signer takes part.
    pub fn handle_commitment(&mut self, signer_id: usize, comm: P::Commitment)
        ensures
            old(self).stores_commitment(signer_id, comm, *final(self)),
    {
        if let Some(participant_count) = self.n {
            if signer_id < participant_count {
                self.commitments.insert(signer_id, comm);
            }
        }
    }

    /// What becomes of the combiner, and what it answers, once it has opened
    /// what signer `id` sent as its commitment.
    pub open spec fn takes_commitment(
        self,
        id: usize,
        plain: Seq<u8>,
        res: Result<(), Error>,
        after: Self,
    ) -> bool {
        exists|payload: Option<crate::signer::CommitmentPackage<P::Commitment>>| #[trigger]
            reads_commitment::<P>(plain, payload) && (match payload {
                Some(p) => res == Ok::<(), Error>(()) && self.stores_commitment(
                    id,
                    p.commitment,
                    after,
                ),
                None => res == Err::<(), Error>(Error::InvalidMessage) && after == self,
            })
    }

    /// What becomes of the combiner, and what it answers, when it gets a
    /// commitment from signer `id` at time `now`.
    pub open spec fn loads_commitment(
        self,
        id: usize,
        package: SecurePackage,
        now: u64,
        res: Result<(), Error>,
        after: Self,
    ) -> bool {
        match self.opened_from_signer(id, package, now) {
            Ok(plain) => self.takes_commitment(id, plain, res, after),
            Err(e) => res == Err::<(), Error>(e) && after == self,
        }
    }

    /// Loads signer `signer_id`'s commitment at time `now`.
    pub fn load_commitment_at(&mut self, signer_id: &usize, secure_pkg: &SecurePackage, now: u64) -> (res:
        Result<(), Error>)
        ensures
            old(self).loads_commitment(*signer_id, *secure_pkg, now, res, *final(self)),
    {
        let plain: Vec<u8> = match self.open_signer_package(*signer_id, secure_pkg, now) {
            Ok(plain) => plain,
            Err(e) => {
                return Err(e);
            },
        };
        let payload = P::decode_commitment(&plain);
        proof {
            assert(reads_commitment::<P>(plain@, payload));
        }
        let res: Result<(), Error> = match payload {
            Some(p) => {
                self.handle_commitment(*signer_id, p.commitment);
                Ok(())
            },
            None => Err(Error::InvalidMessage),
        };
        proof {
            assert(old(self).takes_commitment(*signer_id, plain@, res, *self));
        }
        res
    }

    /// Loads signer `signer_id`'s commitment.
    pub fn load_commitment(&mut self, signer_id: &usize, secure_pkg: &SecurePackage) -> (res: Result<
        (),
        Error,
    >)
        ensures
            exists|now: u64|
                clock_told(now) && #[trigger] old(self).loads_commitment(
                    *signer_id,
                    *secure_pkg,
                    now,
                    res,
                    *final(self),
                ),
    {
        let now: u64 = current_timestamp();
        self.load_commitment_at(signer_id, secure_pkg, now)
    }

    // --- Tracer public keys ---

    /// Whether `after` is the combiner once it has tracer `id`'s public key.
    pub open spec fn stores_public_key(self, id: usize, pk: Gt, after: Self) -> bool {
        &&& after == (Combiner { tracer_public_keys: after.tracer_public_keys, ..self })
        &&& after.tracer_public_keys@ == self.tracer_public_keys@.insert(id, pk)
    }

    /// What becomes of the combiner, and what it answers, once it has opened
    /// what tracer `id` sent as its public key.
    pub open spec fn takes_public_key(
        self,
        id: usize,
        plain: Seq<u8>,
        res: Result<(), Error>,
        after: Self,
    ) -> bool {
        exists|payload: Option<TracerPublicKeyPackage>| #[trigger]
            reads_tracer_public_key::<P>(plain, payload) && (match payload {
                Some(p) => res == Ok::<(), Error>(()) && self.stores_public_key(id, p.pk, after),
                None => res == Err::<(), Error>(Error::InvalidMessage) && after == self,
            })
    }

    /// What becomes of the combiner, and what it answers, when it gets a
    /// public key from tracer `id` at time `now`.
    pub open spec fn loads_public_key(
        self,
        id: usize,
        package: SecurePackage,
        now: u64,
        res: Result<(), Error>,
        after: Self,
    ) -> bool {
        match self.opened_from_tracer(id, package, now) {
            Ok(plain) => self.takes_public_key(id, plain, res, after),
            Err(e) => res == Err::<(), Error>(e) && after == self,
        }
    }

    /// Every tracer that has reported is on the roster.
    pub open spec fn reports_known(self) -> bool {
        forall|id: usize| #[trigger]
            self.tracer_public_keys@.contains_key(id) ==> self.tracer_keys_of(id) is Some
    }

    /// Loads tracer `tracer_id`'s `pk_k` at time `now`.
    pub fn load_tracer_public_key_at(
        &mut self,
        tracer_id: usize,
        secure_pkg: &SecurePackage,
        now: u64,
    ) -> (res: Result<(), Error>)
        ensures
            old(self).loads_public_key(tracer_id, *secure_pkg, now, res, *final(self)),
            old(self).reports_known() ==> final(self).reports_known(),
    {
        let plain: Vec<u8> = match self.open_tracer_package(tracer_id, secure_pkg, now) {
            Ok(plain) => plain,
            Err(e) => {
                return Err(e);
            },
        };
        let payload = P::decode_tracer_public_key(&plain);
        proof {
            assert(reads_tracer_public_key::<P>(plain@, payload));
        }
        let res: Result<(), Error> = match payload {
            Some(p) => {
                self.tracer_public_keys.insert(tracer_id, p.pk);
                Ok(())
            },
            None => Err(Error::InvalidMessage),
        };
        proof {
            assert(old(self).takes_public_key(tracer_id, plain@, res, *self));
        }
        res
    }

    /// Loads tracer `tracer_id`'s `pk_k`.
    pub fn load_tracer_public_key(&mut self, tracer_id: usize, secure_pkg: &SecurePackage) -> (res:
        Result<(), Error>)
        ensures
            exists|now: u64|
                clock_told(now) && #[trigger] old(self).loads_public_key(
                    tracer_id,
                    *secure_pkg,
                    now,
                    res,
                    *final(self),
                ),
            old(self).reports_known() ==> final(self).reports_known(),
    {
        let now: u64 = current_timestamp();
        self.load_tracer_public_key_at(tracer_id, secure_pkg, now)
    }

    /// Whether as many tracers have reported as there are. Without a
    /// configuration there are never enough.
    pub fn tracer_public_keys_complete(&self) -> (complete: bool)
        ensures
            complete == (self.tracer_public_keys@.len() == (match self.n3 {
                Some(n3) => n3,
                None => usize::MAX,
            })),
    {
        let expected: usize = match self.n3 {
            Some(n3) => n3,
            None => usize::MAX,
        };
        self.tracer_public_keys.len() == expected
    }

    /// What becomes of the combiner, and what it answers, when the tracers'
    /// public keys add up to `total`.
    pub open spec fn establishes(
        self,
        total: Option<Seq<u8>>,
        res: Result<(), Error>,
        after: Self,
    ) -> bool {
        match total {
            None => res == Err::<(), Error>(Error::InvalidPublicKey) && after == self,
            Some(encoding) => {
                &&& after == (Combiner { pk_e: after.pk_e, pk: after.pk, ..self })
                &&& after.pk_e is Some
                &&& after.pk_e->0@ == encoding
                &&& if self.pk_i is Some && self.taps_kp is Some {
                    &&& res == Ok::<(), Error>(())
                    &&& after.pk is Some
                    &&& after.pk->0.pk_i@ == self.pk_i->0@
                    &&& call_ensures(P::public_key, (&self.taps_kp->0,), after.pk->0.pk_cs)
                    &&& after.pk->0.pk_e == after.pk_e->0
                } else {
                    res == Err::<(), Error>(Error::InvalidMessage) && after.pk == self.pk
                }
            },
        }
    }

    /// Adds the reported keys up, by ascending tracer id:
    /// `pk_e = prod_{k in QUAL} pk_k`. Builds the full public registry `PK` now
    /// that the tracer group key is known.
    pub fn finalize_group_key(&mut self) -> (res: Result<(), Error>)
        ensures
            exists|ids: Seq<usize>| #[trigger]
                lists_keys(ids, old(self).tracer_public_keys@) && old(self).establishes(
                    group_total(values_at(old(self).tracer_public_keys@, ids)),
                    res,
                    *final(self),
                ),
    {
        let ids: Vec<usize> = keys_in_order(&self.tracer_public_keys);
        let ghost reports = self.tracer_public_keys@;
        let ghost values = values_at(reports, ids@);
        let mut total: Gt = Gt::identity();
        let mut i: usize = 0;
        proof {
            assert(values.take(0) =~= Seq::<Gt>::empty());
        }
        while i < ids.len()
            invariant
                i <= ids@.len(),
                *self == *old(self),
                reports == self.tracer_public_keys@,
                lists_keys(ids@, reports),
                values == values_at(reports, ids@),
                total@ == group_total(values.take(i as int)),
            decreases ids@.len() - i,
        {
            proof {
                assert(ids@.to_set().contains(ids@[i as int]));
                assert(values.take(i + 1).drop_last() =~= values.take(i as int));
            }
            let pk_k: &Gt = self.tracer_public_keys.get(&ids[i]).unwrap();
            total = total.add(pk_k);
            i = i + 1;
        }
        proof {
            assert(values.take(values.len() as int) =~= values);
            assert(lists_keys(ids@, old(self).tracer_public_keys@));
        }
        let pk_e: PublicKey = match total.to_public_key() {
            Some(pk_e) => pk_e,
            None => {
                return Err(Error::InvalidPublicKey);
            },
        };
        self.pk_e = Some(pk_e);
        let pk_i: Vec<PublicKey> = match &self.pk_i {
            Some(pk_i) => copy_keys(pk_i),
            None => {
                return Err(Error::InvalidMessage);
            },
        };
        let pk_cs: PublicKey = match &self.taps_kp {
            Some(kp_cs) => P::public_key(kp_cs),
            None => {
                return Err(Error::InvalidMessage);
            },
        };
        self.pk = Some(PK::from_public_keys(pk_i, pk_cs, pk_e));
        Ok(())
    }
}

} // verus!
