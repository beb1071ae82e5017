//! The tracer: distributed key generation among the tracers, verification of
//! the combiner's evidence, and threshold tracing.
use std::collections::BTreeMap;
use vstd::prelude::*;
use vstd::string::StringExecFns;

use crate::authority::{ActorKeys, TracerPackage};
use crate::combiner;
use crate::combiner::TracerPublicKeyPackage;
use crate::crypto::{
    announce, announces, broadcast_valid, clock_told, current_timestamp, open_at, opened, seal, seals,
    BroadcastPackage, IdentityKeyPair, SecurePackage, TransportKeyPair, MAX_AGE_SECONDS,
};
use crate::group::Gt;
use crate::keys::{copy_keys, pair_drawn, Error, PublicKey, Scalar};
use crate::network::AuthorityAnchor;
use crate::ordered::{keys_in_order, lists_keys};
use crate::primitives::MAX_PLAINTEXT;
use crate::scheme::{
    DecryptionInput, ElGamalCiphertext, PartialDecryption, Scheme, Sigma, Statement,
    TracerKeyShare, PK,
};
use crate::wire::{
    reads_broadcast, reads_evidence, reads_partial, reads_share, reads_tracer_credentials,
    writes_broadcast, writes_partial, writes_share, writes_tracer_public_key,
};

verus! {

broadcast use vstd::std_specs::btree::group_btree_axioms;

/// A single Shamir share `s_{kw} = f_k(w)`, sent secretly from party `k` to
/// party `w`.
#[derive(Debug, Clone, PartialEq, Eq)]
pub struct DkgSharePayload<F> {
    pub share: F,
}

/// One of the tracers.
pub struct Tracer<P: Scheme> {
    pub identity_kp: IdentityKeyPair,
    pub transport_kp: TransportKeyPair,
    /// 0-based tracer id; the DKG party index is `index + 1`.
    pub index: Option<usize>,
    pub n3: Option<usize>,
    pub te: Option<usize>,
    pub pk_i: Option<Vec<PublicKey>>,
    pub pk_cs: Option<PublicKey>,
    pub n: Option<usize>,
    /// Public threshold the recovered quorum must meet.
    pub t: Option<usize>,
    /// Combiner network keys, as issued by the Authority.
    pub combiner_keys: Option<ActorKeys>,
    /// Network keys of every tracer (including itself), indexed by id.
    pub peer_tracers: Option<Vec<ActorKeys>>,
    pub dkg_participant: Option<P::DkgParticipant>,
    /// Keyed by DKG party index (1-based).
    pub dkg_broadcasts: BTreeMap<usize, P::DkgBroadcast>,
    /// Keyed by dealer's DKG party index (1-based).
    pub dkg_shares_received: BTreeMap<usize, P::Share>,
    pub tracer_key_share: Option<TracerKeyShare<P::TracerSecret>>,
    pub pk_e: Option<PublicKey>,
    pub pk: Option<PK>,
    pub T: Option<ElGamalCiphertext>,
    pub v0: Option<Vec<PublicKey>>,
    pub v_vec: Option<Vec<PublicKey>>,
    pub proof: Option<P::Proofs>,
    pub sigma: Option<Sigma<P::Attestation>>,
    pub message: Option<Vec<u8>>,
}

/// A failure told in words.
pub open spec fn fails_with<T>(res: Result<T, String>, text: Seq<char>) -> bool {
    res matches Err(e) && e@ == text
}

/// The evidence holds exactly when the combiner's signature and the proof are
/// both valid; the signature is judged first.
pub open spec fn evidence_judged(
    sigma: Result<bool, String>,
    proof: Result<bool, String>,
    res: Result<(), String>,
) -> bool {
    match (sigma, proof) {
        (Err(e), _) => res == Err::<(), String>(e),
        (Ok(false), _) => fails_with(res, "Combiner signature (sigma) is invalid"@),
        (Ok(true), Err(e)) => res == Err::<(), String>(e),
        (Ok(true), Ok(false)) => fails_with(res, "Accountability proof is invalid"@),
        (Ok(true), Ok(true)) => res == Ok::<(), String>(()),
    }
}

/// Judges the evidence by the verdicts on its two parts. Where the signature
/// is not valid, the verdict on the proof has no say.
pub fn judge_evidence(sigma: Result<bool, String>, nizk: Result<bool, String>) -> (res: Result<
    (),
    String,
>)
    ensures
        evidence_judged(sigma, nizk, res),
{
    match sigma {
        Err(e) => Err(e),
        Ok(false) => Err(String::from_str("Combiner signature (sigma) is invalid")),
        Ok(true) => match nizk {
            Err(e) => Err(e),
            Ok(false) => Err(String::from_str("Accountability proof is invalid")),
            Ok(true) => Ok(()),
        },
    }
}

/// What is left of a map after each outcome that is there has been stored
/// under the party index of the tracer it came from.
pub open spec fn absorbed<V>(map: Map<usize, V>, ids: Seq<usize>, outcomes: Seq<Option<V>>) -> Map<
    usize,
    V,
>
    decreases outcomes.len(),
{
    if outcomes.len() == 0 {
        map
    } else {
        let before = absorbed(map, ids, outcomes.drop_last());
        match outcomes.last() {
            Some(v) => before.insert((ids[outcomes.len() - 1] + 1) as usize, v),
            None => before,
        }
    }
}

/// The same time, as often as it is asked for.
pub open spec fn always(now: u64, len: nat) -> Seq<u64> {
    Seq::new(len, |i: int| now)
}

/// Whether these are the times at which `len` items were looked at: always
/// `at` where it is given, and else whatever the clock told for each of them.
pub open spec fn timed_by(at: Option<u64>, times: Seq<u64>, len: nat) -> bool {
    &&& times.len() == len
    &&& forall|i: int|
        0 <= i < len ==> match at {
            Some(now) => (#[trigger] times[i]) == now,
            None => clock_told(times[i]),
        }
}

/// The given time, or what the clock tells now.
fn time_at(at: Option<u64>) -> (now: u64)
    ensures
        match at {
            Some(given) => now == given,
            None => clock_told(now),
        },
{
    match at {
        Some(given) => given,
        None => current_timestamp(),
    }
}

/// The ids that a list of items is labelled with.
pub open spec fn ids_of<T>(items: Seq<(usize, T)>) -> Seq<usize> {
    Seq::new(items.len(), |i: int| items[i].0)
}

/// The outcomes that are there, in order.
pub open spec fn present<V>(outcomes: Seq<Option<V>>) -> Seq<V>
    decreases outcomes.len(),
{
    if outcomes.len() == 0 {
        Seq::empty()
    } else {
        let before = present(outcomes.drop_last());
        match outcomes.last() {
            Some(v) => before.push(v),
            None => before,
        }
    }
}

impl<P: Scheme> Tracer<P> {
    /// A tracer with fresh network keys that has not heard from the Authority.
    pub fn new() -> (tracer: Self)
        ensures
            tracer.identity_kp.wf(),
            tracer.transport_kp.wf(),
            pair_drawn(tracer.identity_kp.secret(), tracer.identity_kp.public()@),
            pair_drawn(tracer.transport_kp.secret(), tracer.transport_kp.public()@),
            tracer.dkg_broadcasts@ == Map::<usize, P::DkgBroadcast>::empty(),
            tracer.dkg_shares_received@ == Map::<usize, P::Share>::empty(),
            tracer == (Tracer::<P> {
                identity_kp: tracer.identity_kp,
                transport_kp: tracer.transport_kp,
                index: None,
                n3: None,
                te: None,
                pk_i: None,
                pk_cs: None,
                n: None,
                t: None,
                combiner_keys: None,
                peer_tracers: None,
                dkg_participant: None,
                dkg_broadcasts: tracer.dkg_broadcasts,
                dkg_shares_received: tracer.dkg_shares_received,
                tracer_key_share: None,
                pk_e: None,
                pk: None,
                T: None,
                v0: None,
                v_vec: None,
                proof: None,
                sigma: None,
                message: None,
            }),
    {
        Tracer {
            identity_kp: IdentityKeyPair::new(),
            transport_kp: TransportKeyPair::new(),
            index: None,
            n3: None,
            te: None,
            pk_i: None,
            pk_cs: None,
            n: None,
            t: None,
            combiner_keys: None,
            peer_tracers: None,
            dkg_participant: None,
            dkg_broadcasts: BTreeMap::new(),
            dkg_shares_received: BTreeMap::new(),
            tracer_key_share: None,
            pk_e: None,
            pk: None,
            T: None,
            v0: None,
            v_vec: None,
            proof: None,
            sigma: None,
            message: None,
        }
    }

    /// This tracer with the Authority's configuration in place.
    pub open spec fn with_config(self, config: TracerPackage) -> Self {
        Tracer {
            index: Some(config.index),
            n3: Some(config.n3),
            te: Some(config.te),
            n: Some(config.pk_i.len()),
            pk_i: Some(config.pk_i),
            pk_cs: Some(config.pk_cs),
            t: Some(config.t),
            combiner_keys: Some(config.combiner_keys),
            peer_tracers: Some(config.peer_tracers),
            ..self
        }
    }

    /// What becomes of a tracer, and what it answers, once the Authority's
    /// package has been read.
    pub open spec fn configures(
        self,
        config: Option<TracerPackage>,
        res: Result<(), Error>,
        after: Self,
    ) -> bool {
        match config {
            Some(config) if config.peer_tracers@.len() == config.n3 => {
                res == Ok::<(), Error>(()) && after == self.with_config(config)
            },
            _ => res == Err::<(), Error>(Error::InvalidMessage) && after == self,
        }
    }

    /// Takes over a configuration whose roster has one entry per tracer.
    pub fn configure(&mut self, config: Option<TracerPackage>) -> (res: Result<(), Error>)
        ensures
            old(self).configures(config, res, *final(self)),
    {
        let config: TracerPackage = match config {
            Some(config) => config,
            None => {
                return Err(Error::InvalidMessage);
            },
        };
        if config.peer_tracers.len() != config.n3 {
            return Err(Error::InvalidMessage);
        }
        self.index = Some(config.index);
        self.n3 = Some(config.n3);
        self.te = Some(config.te);
        self.n = Some(config.pk_i.len());
        self.pk_i = Some(config.pk_i);
        self.pk_cs = Some(config.pk_cs);
        self.t = Some(config.t);
        self.combiner_keys = Some(config.combiner_keys);
        self.peer_tracers = Some(config.peer_tracers);
        Ok(())
    }

    /// What becomes of a tracer, and what it answers, when it gets a package
    /// from the Authority at time `now`.
    pub open spec fn loads_from_authority(
        self,
        package: SecurePackage,
        anchor: AuthorityAnchor,
        now: u64,
        res: Result<(), Error>,
        after: Self,
    ) -> bool {
        match opened(self.transport_kp.secret(), anchor.actor_keys(), package, now) {
            Err(e) => res == Err::<(), Error>(e) && after == self,
            Ok(plain) => exists|config: Option<TracerPackage>|
                reads_tracer_credentials::<P>(plain, config) && #[trigger] self.configures(
                    config,
                    res,
                    after,
                ),
        }
    }

    /// Loads the Authority's configuration at time `now`.
    pub fn load_from_authority_at(
        &mut self,
        secure_pkg: &SecurePackage,
        anchor: &AuthorityAnchor,
        now: u64,
    ) -> (res: Result<(), Error>)
        ensures
            old(self).loads_from_authority(*secure_pkg, *anchor, now, res, *final(self)),
    {
        match open_at(&self.transport_kp, &anchor.keys(), secure_pkg, now) {
            Ok(plain) => {
                let config: Option<TracerPackage> = P::decode_tracer_credentials(&plain);
                proof {
                    assert(reads_tracer_credentials::<P>(plain@, config));
                }
                self.configure(config)
            },
            Err(e) => Err(e),
        }
    }

    /// Loads the Authority's configuration.
    ///
    /// `anchor` must be the pinned Authority key material read from the trust
    /// anchor file - never keys taken from the incoming message.
    pub fn load_from_authority(&mut self, secure_pkg: &SecurePackage, anchor: &AuthorityAnchor) -> (res:
        Result<(), Error>)
        ensures
            exists|now: u64|
                clock_told(now) && #[trigger] old(self).loads_from_authority(
                    *secure_pkg,
                    *anchor,
                    now,
                    res,
                    *final(self),
                ),
    {
        let now: u64 = current_timestamp();
        self.load_from_authority_at(secure_pkg, anchor, now)
    }

    /// 1-based DKG party index of this tracer.
    fn dkg_index(&self) -> (index: usize)
        requires
            self.index is Some,
            self.index->0 < usize::MAX,
        ensures
            index == self.index->0 + 1,
    {
        self.index.unwrap() + 1
    }

    /// Encrypts and signs this tracer's public key for the Combiner.
    pub fn secure_package_for_combiner(&self, payload: &TracerPublicKeyPackage) -> (res: Result<
        SecurePackage,
        Error,
    >)
        ensures
            match self.combiner_keys {
                None => res == Err::<SecurePackage, Error>(Error::InvalidMessage),
                Some(keys) => exists|plain: Seq<u8>|
                    writes_tracer_public_key::<P>(*payload, plain) && #[trigger] self.sends(
                        keys,
                        plain,
                        res,
                    ),
            },
    {
        match self.combiner_keys {
            Some(keys) => {
                let plain: Vec<u8> = P::encode_tracer_public_key(payload);
                proof {
                    assert(writes_tracer_public_key::<P>(*payload, plain@));
                }
                self.send(&keys, &plain)
            },
            None => Err(Error::InvalidMessage),
        }
    }

    /// Whether `res` is what this tracer sends so that the owner of `keys`
    /// reads `plain`. Only data too long for the cipher is not sent.
    pub open spec fn sends(
        self,
        keys: ActorKeys,
        plain: Seq<u8>,
        res: Result<SecurePackage, Error>,
    ) -> bool {
        match res {
            Ok(package) => {
                &&& plain.len() <= MAX_PLAINTEXT
                &&& clock_told(package.timestamp)
                &&& seals(self.identity_kp, self.transport_kp, keys.transport_pk, plain, package)
            },
            Err(e) => plain.len() > MAX_PLAINTEXT && e == Error::InvalidMessage,
        }
    }

    /// Encrypts and signs `plain` for the owner of `keys`.
    fn send(&self, keys: &ActorKeys, plain: &Vec<u8>) -> (res: Result<SecurePackage, Error>)
        ensures
            self.sends(*keys, plain@, res),
    {
        seal(&self.identity_kp, &self.transport_kp, &keys.transport_pk, plain.as_slice())
    }

    /// Authenticated network keys of tracer `peer`, if the roster has them.
    pub open spec fn peer_keys(self, peer: int) -> Option<ActorKeys> {
        match self.peer_tracers {
            Some(roster) if 0 <= peer < roster@.len() => Some(roster@[peer]),
            _ => None,
        }
    }

    /// Looks up tracer `peer`'s authenticated network keys.
    fn keys_of_peer(&self, peer: usize) -> (keys: Option<ActorKeys>)
        ensures
            keys == self.peer_keys(peer as int),
            keys is Some ==> peer < usize::MAX,
    {
        match &self.peer_tracers {
            Some(roster) => if peer < roster.len() {
                Some(roster[peer])
            } else {
                None
            },
            None => None,
        }
    }

    // === Distributed key generation ========================================

    /// What a round-1 broadcast comes to: it is kept if its proof of knowledge
    /// verifies.
    pub open spec fn judges_broadcast(
        self,
        broadcast: P::DkgBroadcast,
        outcome: Option<P::DkgBroadcast>,
    ) -> bool {
        exists|ok: bool| #[trigger]
            call_ensures(P::verify_broadcast, (&broadcast, self.te->0), ok) && outcome == (if ok {
                Some(broadcast)
            } else {
                None
            })
    }

    /// This tracer with other broadcasts on file.
    pub open spec fn same_but_broadcasts(self, after: Self) -> bool {
        after == (Tracer { dkg_broadcasts: after.dkg_broadcasts, ..self })
    }

    /// Verifies one tracer's round-1 broadcast and records it. A
    /// broadcast that fails its proof of knowledge is dropped.
    fn judge_broadcast(&mut self, id: usize, broadcast: P::DkgBroadcast) -> (outcome: Ghost<
        Option<P::DkgBroadcast>,
    >)
        requires
            old(self).te is Some,
            id < usize::MAX,
        ensures
            old(self).judges_broadcast(broadcast, outcome@),
            old(self).same_but_broadcasts(*final(self)),
            final(self).dkg_broadcasts@ == (match outcome@ {
                Some(b) => old(self).dkg_broadcasts@.insert((id + 1) as usize, b),
                None => old(self).dkg_broadcasts@,
            }),
    {
        let te: usize = self.te.unwrap();
        let ok: bool = P::verify_broadcast(&broadcast, te);
        let ghost outcome: Option<P::DkgBroadcast> = if ok {
            Some(broadcast)
        } else {
            None
        };
        if ok {
            self.dkg_broadcasts.insert(id + 1, broadcast);
        }
        Ghost(outcome)
    }

    /// Whether `after` is this tracer once it has judged every broadcast in
    /// turn.
    pub open spec fn loads_round1(
        self,
        broadcasts: Seq<(usize, P::DkgBroadcast)>,
        after: Self,
    ) -> bool {
        exists|outcomes: Seq<Option<P::DkgBroadcast>>|
            {
                &&& outcomes.len() == broadcasts.len()
                &&& forall|i: int|
                    0 <= i < broadcasts.len() ==> self.judges_broadcast(
                        broadcasts[i].1,
                        #[trigger] outcomes[i],
                    )
                &&& self.same_but_broadcasts(after)
                &&& after.dkg_broadcasts@ == #[trigger] absorbed(
                    self.dkg_broadcasts@,
                    ids_of(broadcasts),
                    outcomes,
                )
            }
    }

    /// Round 1: verifies and records every tracer's broadcast.
    /// Broadcasts that fail their proof of knowledge are simply dropped -
    /// their dealer will not end up in `QUAL`.
    pub fn load_dkg_round1(&mut self, broadcasts: Vec<(usize, P::DkgBroadcast)>)
        requires
            old(self).te is Some,
            forall|i: int| 0 <= i < broadcasts@.len() ==> (#[trigger] broadcasts@[i]).0 < usize::MAX,
        ensures
            old(self).loads_round1(broadcasts@, *final(self)),
    {
        let ghost items = broadcasts@;
        let ghost mut outcomes: Seq<Option<P::DkgBroadcast>> = Seq::empty();
        for item in it: broadcasts
            invariant
                it.seq() == items,
                forall|i: int| 0 <= i < items.len() ==> (#[trigger] items[i]).0 < usize::MAX,
                old(self).te is Some,
                outcomes.len() == it.index(),
                forall|i: int|
                    0 <= i < it.index() ==> old(self).judges_broadcast(
                        items[i].1,
                        #[trigger] outcomes[i],
                    ),
                old(self).same_but_broadcasts(*self),
                self.dkg_broadcasts@ == absorbed(
                    old(self).dkg_broadcasts@,
                    ids_of(items),
                    outcomes,
                ),
        {
            let (id, broadcast) = item;
            let outcome = self.judge_broadcast(id, broadcast);
            proof {
                let before = outcomes;
                outcomes = outcomes.push(outcome@);
                assert(outcomes.drop_last() =~= before);
            }
        }
    }

    /// Whether `package` is the round-1 broadcast that this tracer sends and
    /// `after` is this tracer once it has sent it.
    pub open spec fn starts_dkg(
        self,
        participant: P::DkgParticipant,
        package: BroadcastPackage,
        after: Self,
    ) -> bool {
        exists|broadcast: P::DkgBroadcast, plain: Seq<u8>, outcome: Option<P::DkgBroadcast>|
            #![trigger writes_broadcast::<P>(broadcast, plain), self.judges_broadcast(broadcast, outcome)]
            {
                &&& call_ensures(P::dkg_broadcast, (&participant,), broadcast)
                &&& writes_broadcast::<P>(broadcast, plain)
                &&& announces(self.identity_kp, plain, package)
                &&& clock_told(package.timestamp)
                &&& self.judges_broadcast(broadcast, outcome)
                &&& after == (Tracer {
                    dkg_participant: Some(participant),
                    dkg_broadcasts: after.dkg_broadcasts,
                    ..self
                })
                &&& after.dkg_broadcasts@ == (match outcome {
                    Some(b) => self.dkg_broadcasts@.insert((self.index->0 + 1) as usize, b),
                    None => self.dkg_broadcasts@,
                })
            }
    }

    /// Round 1: samples this tracer's polynomial and proof of knowledge, and
    /// returns the signed broadcast for the other tracers. This tracer's own
    /// broadcast goes on file like everyone else's.
    pub fn start_dkg(&mut self) -> (package: BroadcastPackage)
        requires
            old(self).index is Some,
            old(self).n3 is Some,
            old(self).te is Some,
            old(self).index->0 < old(self).n3->0,
            1 <= old(self).te->0 <= old(self).n3->0,
        ensures
            exists|participant: P::DkgParticipant|
                call_ensures(
                    P::dkg_participant,
                    ((old(self).index->0 + 1) as usize, old(self).te->0, old(self).n3->0),
                    participant,
                ) && #[trigger] old(self).starts_dkg(participant, package, *final(self)),
    {
        let index: usize = self.index.unwrap();
        let te: usize = self.te.unwrap();
        let n3: usize = self.n3.unwrap();
        let participant = P::dkg_participant(index + 1, te, n3);
        let broadcast = P::dkg_broadcast(&participant);
        let text: Vec<u8> = P::encode_broadcast(&broadcast);
        let ghost plain = text@;
        proof {
            assert(writes_broadcast::<P>(broadcast, plain));
        }
        let package: BroadcastPackage = announce(&self.identity_kp, text);
        let outcome = self.judge_broadcast(index, broadcast);
        proof {
            assert(old(self).judges_broadcast(broadcast, outcome@));
        }
        self.dkg_participant = Some(participant);
        proof {
            assert(old(self).starts_dkg(participant, package, *self));
        }
        package
    }

    /// What a signed broadcast that claims to come from tracer `peer` comes to
    /// at time `now`: it is judged if that tracer signed it recently and it
    /// can be read, and dropped otherwise.
    pub open spec fn hears_broadcast(
        self,
        peer: usize,
        package: BroadcastPackage,
        now: u64,
        outcome: Option<P::DkgBroadcast>,
    ) -> bool {
        match self.peer_keys(peer as int) {
            Some(keys) if broadcast_valid(keys.identity_pk, package, MAX_AGE_SECONDS, now) => exists|
                decoded: Option<P::DkgBroadcast>,
            | #[trigger]
                reads_broadcast::<P>(package.text@, decoded) && (match decoded {
                    Some(broadcast) => self.judges_broadcast(broadcast, outcome),
                    None => outcome is None,
                }),
            _ => outcome is None,
        }
    }

    /// Authenticates, verifies and records one signed broadcast.
    fn hear_broadcast(&mut self, peer: usize, package: &BroadcastPackage, now: u64) -> (outcome:
        Ghost<Option<P::DkgBroadcast>>)
        requires
            old(self).te is Some,
        ensures
            old(self).hears_broadcast(peer, *package, now, outcome@),
            old(self).same_but_broadcasts(*final(self)),
            final(self).dkg_broadcasts@ == (match outcome@ {
                Some(b) => old(self).dkg_broadcasts@.insert((peer + 1) as usize, b),
                None => old(self).dkg_broadcasts@,
            }),
    {
        let keys: ActorKeys = match self.keys_of_peer(peer) {
            Some(keys) => keys,
            None => {
                return Ghost(None);
            },
        };
        if !IdentityKeyPair::verify_broadcast_data_at(&keys.identity_pk, package, now) {
            return Ghost(None);
        }
        let decoded = P::decode_broadcast(&package.text);
        proof {
            assert(reads_broadcast::<P>(package.text@, decoded));
        }
        match decoded {
            Some(broadcast) => self.judge_broadcast(peer, broadcast),
            None => Ghost(None),
        }
    }

    /// Whether `after` is this tracer once it has heard every broadcast in
    /// turn, each at its own time.
    pub open spec fn hears_round1(
        self,
        packages: Seq<(usize, BroadcastPackage)>,
        times: Seq<u64>,
        after: Self,
    ) -> bool {
        exists|outcomes: Seq<Option<P::DkgBroadcast>>|
            {
                &&& outcomes.len() == packages.len()
                &&& forall|i: int|
                    0 <= i < packages.len() ==> self.hears_broadcast(
                        packages[i].0,
                        packages[i].1,
                        times[i],
                        #[trigger] outcomes[i],
                    )
                &&& self.same_but_broadcasts(after)
                &&& after.dkg_broadcasts@ == #[trigger] absorbed(
                    self.dkg_broadcasts@,
                    ids_of(packages),
                    outcomes,
                )
            }
    }

    fn hear_round1(&mut self, packages: Vec<(usize, BroadcastPackage)>, at: Option<u64>) -> (times:
        Ghost<Seq<u64>>)
        requires
            old(self).te is Some,
        ensures
            old(self).hears_round1(packages@, times@, *final(self)),
            timed_by(at, times@, packages@.len()),
    {
        let ghost items = packages@;
        let ghost mut times: Seq<u64> = Seq::empty();
        let ghost mut outcomes: Seq<Option<P::DkgBroadcast>> = Seq::empty();
        for item in it: packages
            invariant
                it.seq() == items,
                old(self).te is Some,
                timed_by(at, times, it.index() as nat),
                outcomes.len() == it.index(),
                forall|i: int|
                    0 <= i < it.index() ==> old(self).hears_broadcast(
                        items[i].0,
                        items[i].1,
                        times[i],
                        #[trigger] outcomes[i],
                    ),
                old(self).same_but_broadcasts(*self),
                self.dkg_broadcasts@ == absorbed(
                    old(self).dkg_broadcasts@,
                    ids_of(items),
                    outcomes,
                ),
        {
            let (peer, package) = item;
            let ghost current = *self;
            let now: u64 = time_at(at);
            let outcome = self.hear_broadcast(peer, &package, now);
            proof {
                lemma_hears_same(*old(self), current, peer, package, now, outcome@);
                let before = outcomes;
                outcomes = outcomes.push(outcome@);
                times = times.push(now);
                assert(outcomes.drop_last() =~= before);
            }
        }
        Ghost(times)
    }

    /// Round 1, at time `now`: authenticates, verifies and records the
    /// broadcasts that the other tracers sent over the mesh.
    pub fn load_dkg_round1_from_peers_at(
        &mut self,
        packages: Vec<(usize, BroadcastPackage)>,
        now: u64,
    )
        requires
            old(self).te is Some,
        ensures
            old(self).hears_round1(packages@, always(now, packages@.len()), *final(self)),
    {
        let times = self.hear_round1(packages, Some(now));
        proof {
            assert(times@ =~= always(now, packages@.len()));
        }
    }

    /// Round 1: authenticates, verifies and records the broadcasts that the
    /// other tracers sent over the mesh, each at the time it is looked at.
    pub fn load_dkg_round1_from_peers(&mut self, packages: Vec<(usize, BroadcastPackage)>)
        requires
            old(self).te is Some,
        ensures
            exists|times: Seq<u64>|
                timed_by(None, times, packages@.len()) && #[trigger] old(self).hears_round1(
                    packages@,
                    times,
                    *final(self),
                ),
    {
        let times = self.hear_round1(packages, None);
        proof {
            assert(old(self).hears_round1(packages@, times@, *self));
        }
    }

    /// What this tracer sends to tracer `peer` as its share.
    pub open spec fn sends_share(self, peer: usize, res: Result<SecurePackage, Error>) -> bool {
        match self.peer_keys(peer as int) {
            Some(keys) => exists|share: P::Share, plain: Seq<u8>|
                #![trigger writes_share::<P>(DkgSharePayload { share }, plain)]
                {
                    &&& call_ensures(
                        P::share_for,
                        (&self.dkg_participant->0, (peer + 1) as usize),
                        share,
                    )
                    &&& writes_share::<P>(DkgSharePayload { share }, plain)
                    &&& self.sends(keys, plain, res)
                },
            None => res == Err::<SecurePackage, Error>(Error::InvalidMessage),
        }
    }

    /// Round 2 for one recipient: seals the share that this tracer owes tracer
    /// `peer`, so that nobody else can read it.
    pub fn dkg_share_for_peer(&self, peer: usize) -> (res: Result<SecurePackage, Error>)
        requires
            self.dkg_participant is Some,
        ensures
            self.sends_share(peer, res),
    {
        match self.keys_of_peer(peer) {
            Some(keys) => {
                let share = P::share_for(self.dkg_participant.as_ref().unwrap(), peer + 1);
                let payload = DkgSharePayload { share };
                let plain: Vec<u8> = P::encode_share(&payload);
                proof {
                    assert(writes_share::<P>(DkgSharePayload { share: payload.share }, plain@));
                }
                self.send(&keys, &plain)
            },
            None => Err(Error::InvalidMessage),
        }
    }

    /// Round 2: the shares that this tracer owes every tracer, each encrypted
    /// to its recipient and labelled with the recipient's id.
    pub fn compute_shares_for_peers(&self) -> (res: Result<Vec<(usize, SecurePackage)>, Error>)
        requires
            self.dkg_participant is Some,
            self.n3 is Some,
            self.peer_tracers is Some,
            self.n3->0 <= self.peer_tracers->0@.len(),
        ensures
            match res {
                Ok(shares) => {
                    &&& shares@.len() == self.n3->0
                    &&& forall|i: int|
                        0 <= i < shares@.len() ==> (#[trigger] shares@[i]).0 == i
                            && self.sends_share(i as usize, Ok(shares@[i].1))
                },
                Err(e) => exists|peer: usize|
                    peer < self.n3->0 && #[trigger] self.sends_share(peer, Err(e)),
            },
    {
        let n3: usize = self.n3.unwrap();
        let mut shares: Vec<(usize, SecurePackage)> = Vec::new();
        let mut peer: usize = 0;
        while peer < n3
            invariant
                self.dkg_participant is Some,
                self.n3 == Some(n3),
                peer <= n3,
                shares@.len() == peer,
                forall|i: int|
                    0 <= i < shares@.len() ==> (#[trigger] shares@[i]).0 == i && self.sends_share(
                        i as usize,
                        Ok(shares@[i].1),
                    ),
            decreases n3 - peer,
        {
            match self.dkg_share_for_peer(peer) {
                Ok(package) => {
                    shares.push((peer, package));
                },
                Err(e) => {
                    return Err(e);
                },
            }
            peer = peer + 1;
        }
        Ok(shares)
    }

    /// What a share from dealer `dealer` comes to: it is kept if the dealer's
    /// broadcast is on file and the share matches it.
    pub open spec fn judges_share(
        self,
        dealer: usize,
        share: P::Share,
        outcome: Option<P::Share>,
    ) -> bool {
        if self.dkg_broadcasts@.contains_key(dealer) {
            exists|ok: bool| #[trigger]
                call_ensures(
                    P::verify_share,
                    (&self.dkg_broadcasts@[dealer], &share, (self.index->0 + 1) as usize),
                    ok,
                ) && outcome == (if ok {
                    Some(share)
                } else {
                    None
                })
        } else {
            outcome is None
        }
    }

    /// This tracer with other shares on file.
    pub open spec fn same_but_shares(self, after: Self) -> bool {
        after == (Tracer { dkg_shares_received: after.dkg_shares_received, ..self })
    }

    /// Verifies one share against its dealer's commitments and
    /// records it.
    fn judge_share(&mut self, dealer: usize, share: P::Share) -> (outcome: Ghost<Option<P::Share>>)
        requires
            old(self).index is Some,
            old(self).index->0 < usize::MAX,
        ensures
            old(self).judges_share(dealer, share, outcome@),
            old(self).same_but_shares(*final(self)),
            final(self).dkg_shares_received@ == (match outcome@ {
                Some(s) => old(self).dkg_shares_received@.insert(dealer, s),
                None => old(self).dkg_shares_received@,
            }),
    {
        let my_index: usize = self.dkg_index();
        match self.dkg_broadcasts.get(&dealer) {
            Some(broadcast) => {
                let ok: bool = P::verify_share(broadcast, &share, my_index);
                let ghost outcome: Option<P::Share> = if ok {
                    Some(share)
                } else {
                    None
                };
                if ok {
                    self.dkg_shares_received.insert(dealer, share);
                }
                Ghost(outcome)
            },
            None => Ghost(None),
        }
    }

    /// Records this tracer's own share, checked like everyone else's.
    pub fn load_own_dkg_share(&mut self)
        requires
            old(self).dkg_participant is Some,
            old(self).index is Some,
            old(self).index->0 < usize::MAX,
        ensures
            old(self).same_but_shares(*final(self)),
            exists|share: P::Share, outcome: Option<P::Share>|
                {
                    &&& call_ensures(
                        P::share_for,
                        (&old(self).dkg_participant->0, (old(self).index->0 + 1) as usize),
                        share,
                    )
                    &&& #[trigger] old(self).judges_share(
                        (old(self).index->0 + 1) as usize,
                        share,
                        outcome,
                    )
                    &&& final(self).dkg_shares_received@ == (match outcome {
                        Some(s) => old(self).dkg_shares_received@.insert(
                            (old(self).index->0 + 1) as usize,
                            s,
                        ),
                        None => old(self).dkg_shares_received@,
                    })
                },
    {
        let my_index: usize = self.dkg_index();
        let share = P::share_for(self.dkg_participant.as_ref().unwrap(), my_index);
        let outcome = self.judge_share(my_index, share);
        proof {
            assert(old(self).judges_share((old(self).index->0 + 1) as usize, share, outcome@));
        }
    }

    /// What the bytes that tracer `from` sent as a share come to: the share is
    /// judged if it can be read, and dropped otherwise.
    pub open spec fn takes_share(
        self,
        from: usize,
        plain: Seq<u8>,
        outcome: Option<P::Share>,
    ) -> bool {
        exists|payload: Option<DkgSharePayload<P::Share>>| #[trigger]
            reads_share::<P>(plain, payload) && (match payload {
                Some(dealt) => self.judges_share((from + 1) as usize, dealt.share, outcome),
                None => outcome is None,
            })
    }

    /// What a package that claims to hold a share of tracer `from` comes to at
    /// time `now`: its content is taken if that tracer sealed the package for
    /// this one recently, and dropped otherwise.
    pub open spec fn receives_share(
        self,
        from: usize,
        package: SecurePackage,
        now: u64,
        outcome: Option<P::Share>,
    ) -> bool {
        match self.peer_keys(from as int) {
            Some(keys) => match opened(self.transport_kp.secret(), keys, package, now) {
                Ok(plain) => self.takes_share(from, plain, outcome),
                Err(_) => outcome is None,
            },
            None => outcome is None,
        }
    }

    /// Decrypts, authenticates, verifies and records one share.
    fn receive_share(&mut self, from: usize, package: &SecurePackage, now: u64) -> (outcome: Ghost<
        Option<P::Share>,
    >)
        requires
            old(self).index is Some,
            old(self).index->0 < usize::MAX,
        ensures
            old(self).receives_share(from, *package, now, outcome@),
            old(self).same_but_shares(*final(self)),
            final(self).dkg_shares_received@ == (match outcome@ {
                Some(s) => old(self).dkg_shares_received@.insert((from + 1) as usize, s),
                None => old(self).dkg_shares_received@,
            }),
    {
        let keys: ActorKeys = match self.keys_of_peer(from) {
            Some(keys) => keys,
            None => {
                return Ghost(None);
            },
        };
        let plain: Vec<u8> = match open_at(&self.transport_kp, &keys, package, now) {
            Ok(plain) => plain,
            Err(_) => {
                return Ghost(None);
            },
        };
        let payload = P::decode_share(&plain);
        proof {
            assert(reads_share::<P>(plain@, payload));
        }
        match payload {
            Some(dealt) => {
                let outcome = self.judge_share(from + 1, dealt.share);
                proof {
                    assert(old(self).takes_share(from, plain@, outcome@));
                }
                outcome
            },
            None => {
                proof {
                    assert(old(self).takes_share(from, plain@, None));
                }
                Ghost(None)
            },
        }
    }

    /// Whether `after` is this tracer once it has received every package in
    /// turn, each at its own time.
    pub open spec fn receives_inbox(
        self,
        items: Seq<(usize, SecurePackage)>,
        times: Seq<u64>,
        after: Self,
    ) -> bool {
        exists|outcomes: Seq<Option<P::Share>>|
            {
                &&& outcomes.len() == items.len()
                &&& forall|i: int|
                    0 <= i < items.len() ==> self.receives_share(
                        items[i].0,
                        items[i].1,
                        times[i],
                        #[trigger] outcomes[i],
                    )
                &&& self.same_but_shares(after)
                &&& after.dkg_shares_received@ == #[trigger] absorbed(
                    self.dkg_shares_received@,
                    ids_of(items),
                    outcomes,
                )
            }
    }

    fn receive_inbox(&mut self, items: Vec<(usize, SecurePackage)>, at: Option<u64>) -> (times:
        Ghost<Seq<u64>>)
        requires
            old(self).index is Some,
            old(self).index->0 < usize::MAX,
        ensures
            old(self).receives_inbox(items@, times@, *final(self)),
            timed_by(at, times@, items@.len()),
    {
        let ghost all = items@;
        let ghost mut times: Seq<u64> = Seq::empty();
        let ghost mut outcomes: Seq<Option<P::Share>> = Seq::empty();
        for item in it: items
            invariant
                it.seq() == all,
                old(self).index is Some,
                old(self).index->0 < usize::MAX,
                timed_by(at, times, it.index() as nat),
                outcomes.len() == it.index(),
                forall|i: int|
                    0 <= i < it.index() ==> old(self).receives_share(
                        all[i].0,
                        all[i].1,
                        times[i],
                        #[trigger] outcomes[i],
                    ),
                old(self).same_but_shares(*self),
                self.dkg_shares_received@ == absorbed(
                    old(self).dkg_shares_received@,
                    ids_of(all),
                    outcomes,
                ),
        {
            let (from, package) = item;
            let ghost current = *self;
            let now: u64 = time_at(at);
            let outcome = self.receive_share(from, &package, now);
            proof {
                lemma_receives_same(*old(self), current, from, package, now, outcome@);
                let before = outcomes;
                outcomes = outcomes.push(outcome@);
                times = times.push(now);
                assert(outcomes.drop_last() =~= before);
            }
        }
        Ghost(times)
    }

    /// Round 2, at time `now`: decrypts, authenticates and verifies every
    /// share this tracer received, discarding any dealer whose share does not
    /// match its round-1 commitments.
    pub fn load_dkg_inbox_at(&mut self, items: Vec<(usize, SecurePackage)>, now: u64)
        requires
            old(self).index is Some,
            old(self).index->0 < usize::MAX,
            old(self).peer_tracers is Some,
        ensures
            old(self).receives_inbox(items@, always(now, items@.len()), *final(self)),
    {
        let times = self.receive_inbox(items, Some(now));
        proof {
            assert(times@ =~= always(now, items@.len()));
        }
    }

    /// Round 2: decrypts, authenticates and verifies every share this tracer
    /// received, each at the time it is looked at, discarding any dealer whose
    /// share does not match its round-1 commitments.
    pub fn load_dkg_inbox(&mut self, items: Vec<(usize, SecurePackage)>)
        requires
            old(self).index is Some,
            old(self).index->0 < usize::MAX,
            old(self).peer_tracers is Some,
        ensures
            exists|times: Seq<u64>|
                timed_by(None, times, items@.len()) && #[trigger] old(self).receives_inbox(
                    items@,
                    times,
                    *final(self),
                ),
    {
        let times = self.receive_inbox(items, None);
        proof {
            assert(old(self).receives_inbox(items@, times@, *self));
        }
    }

    /// What becomes of a tracer, and what it answers, once its share of the
    /// group key has been computed.
    pub open spec fn accepts_key_share(
        self,
        share: Result<TracerKeyShare<P::TracerSecret>, String>,
        res: Result<(), String>,
        after: Self,
    ) -> bool {
        match share {
            Err(e) => res == Err::<(), String>(e) && after == self,
            Ok(key) => {
                let keyed = Tracer { pk_e: Some(key.pk_e), tracer_key_share: Some(key), ..self };
                match (self.pk_i, self.pk_cs) {
                    (None, _) => fails_with(res, "pk_i not set"@) && after == keyed,
                    (Some(_), None) => fails_with(res, "pk_cs not set"@) && after == keyed,
                    (Some(pk_i), Some(pk_cs)) => {
                        &&& res == Ok::<(), String>(())
                        &&& after == (Tracer { pk: after.pk, ..keyed })
                        &&& after.pk matches Some(pk) && pk.pk_i@ == pk_i@ && pk.pk_cs == pk_cs
                            && pk.pk_e == key.pk_e
                    },
                }
            },
        }
    }

    /// Takes over this tracer's share of the group key and builds the full
    /// public registry.
    pub fn accept_key_share(
        &mut self,
        share: Result<TracerKeyShare<P::TracerSecret>, String>,
    ) -> (res: Result<(), String>)
        ensures
            old(self).accepts_key_share(share, res, *final(self)),
    {
        let key: TracerKeyShare<P::TracerSecret> = match share {
            Ok(key) => key,
            Err(e) => {
                return Err(e);
            },
        };
        let pk_e: PublicKey = key.pk_e;
        self.pk_e = Some(pk_e);
        self.tracer_key_share = Some(key);
        let pk_i: Vec<PublicKey> = match &self.pk_i {
            Some(pk_i) => copy_keys(pk_i),
            None => {
                return Err(String::from_str("pk_i not set"));
            },
        };
        let pk_cs: PublicKey = match self.pk_cs {
            Some(pk_cs) => pk_cs,
            None => {
                return Err(String::from_str("pk_cs not set"));
            },
        };
        self.pk = Some(PK::from_public_keys(pk_i, pk_cs, pk_e));
        Ok(())
    }

    /// Combines the qualified broadcasts and shares into this
    /// tracer's long-lived key material, and builds the full public registry
    /// `PK` now that `pk_e` is known. The qualified dealers are those whose
    /// share is on file, in ascending order.
    pub fn finalize_dkg(&mut self) -> (res: Result<(), String>)
        ensures
            match old(self).dkg_participant {
                None => fails_with(res, "DKG not started for this tracer"@) && *final(self) == *old(
                    self,
                ),
                Some(participant) => exists|
                    qual: Vec<usize>,
                    share: Result<TracerKeyShare<P::TracerSecret>, String>,
                |
                    {
                        &&& lists_keys(qual@, old(self).dkg_shares_received@)
                        &&& #[trigger] call_ensures(
                            P::finalize,
                            (
                                &participant,
                                &qual,
                                &old(self).dkg_broadcasts,
                                &old(self).dkg_shares_received,
                            ),
                            share,
                        )
                        &&& old(self).accepts_key_share(share, res, *final(self))
                    },
            },
    {
        let qual: Vec<usize> = keys_in_order(&self.dkg_shares_received);
        match &self.dkg_participant {
            Some(participant) => {
                let share = P::finalize(
                    participant,
                    &qual,
                    &self.dkg_broadcasts,
                    &self.dkg_shares_received,
                );
                self.accept_key_share(share)
            },
            None => Err(String::from_str("DKG not started for this tracer")),
        }
    }

    /// This tracer's own `pk_k`, to be reported to the Combiner so it can
    /// compute `pk_e = prod_{k in QUAL} pk_k`.
    pub fn own_public_key(&self) -> (pk: Gt)
        requires
            self.tracer_key_share is Some,
        ensures
            pk == self.tracer_key_share->0.pk,
    {
        self.tracer_key_share.as_ref().unwrap().pk
    }

    // === Combiner interaction ==============================================

    /// Whether everything that comes with the combiner's signature is there
    /// whenever the signature is.
    pub open spec fn evidence_complete(self) -> bool {
        self.sigma is Some ==> {
            &&& self.T is Some
            &&& self.v0 is Some
            &&& self.v_vec is Some
            &&& self.proof is Some
            &&& self.message is Some
        }
    }

    /// What becomes of a tracer, and what it answers, once the combiner's
    /// evidence has been read.
    pub open spec fn accepts_evidence(
        self,
        evidence: Option<combiner::TracerPackage<P::Proofs, P::Attestation>>,
        res: Result<(), Error>,
        after: Self,
    ) -> bool {
        match evidence {
            Some(e) => res == Ok::<(), Error>(()) && after == (Tracer {
                T: Some(e.T),
                v0: Some(e.v0),
                v_vec: Some(e.v_vec),
                proof: Some(e.proof),
                sigma: Some(e.sigma),
                message: Some(e.m),
                ..self
            }),
            None => res == Err::<(), Error>(Error::InvalidMessage) && after == self,
        }
    }

    /// Takes over the combiner's evidence.
    pub fn accept_evidence(
        &mut self,
        evidence: Option<combiner::TracerPackage<P::Proofs, P::Attestation>>,
    ) -> (res: Result<(), Error>)
        ensures
            old(self).accepts_evidence(evidence, res, *final(self)),
            old(self).evidence_complete() ==> final(self).evidence_complete(),
    {
        match evidence {
            Some(evidence) => {
                self.T = Some(evidence.T);
                self.v0 = Some(evidence.v0);
                self.v_vec = Some(evidence.v_vec);
                self.proof = Some(evidence.proof);
                self.sigma = Some(evidence.sigma);
                self.message = Some(evidence.m);
                Ok(())
            },
            None => Err(Error::InvalidMessage),
        }
    }

    /// What becomes of a tracer, and what it answers, when it gets a broadcast
    /// at time `now` where the combiner's evidence is expected.
    pub open spec fn loads_from_combiner(
        self,
        package: BroadcastPackage,
        now: u64,
        res: Result<(), Error>,
        after: Self,
    ) -> bool {
        match self.combiner_keys {
            None => res == Err::<(), Error>(Error::InvalidMessage) && after == self,
            Some(keys) => if broadcast_valid(keys.identity_pk, package, MAX_AGE_SECONDS, now) {
                exists|evidence: Option<combiner::TracerPackage<P::Proofs, P::Attestation>>|
                    reads_evidence::<P>(package.text@, evidence) && #[trigger] self.accepts_evidence(
                        evidence,
                        res,
                        after,
                    )
            } else {
                res == Err::<(), Error>(Error::InvalidSignature) && after == self
            },
        }
    }

    /// Loads the combiner's evidence at time `now`.
    pub fn load_from_combiner_at(&mut self, broadcast_pkg: &BroadcastPackage, now: u64) -> (res:
        Result<(), Error>)
        ensures
            old(self).loads_from_combiner(*broadcast_pkg, now, res, *final(self)),
            old(self).evidence_complete() ==> final(self).evidence_complete(),
    {
        let keys: ActorKeys = match self.combiner_keys {
            Some(keys) => keys,
            None => {
                return Err(Error::InvalidMessage);
            },
        };
        if !IdentityKeyPair::verify_broadcast_data_at(&keys.identity_pk, broadcast_pkg, now) {
            return Err(Error::InvalidSignature);
        }
        let evidence = P::decode_evidence(&broadcast_pkg.text);
        proof {
            assert(reads_evidence::<P>(broadcast_pkg.text@, evidence));
        }
        self.accept_evidence(evidence)
    }

    /// Loads the combiner's evidence.
    pub fn load_from_combiner(&mut self, broadcast_pkg: &BroadcastPackage) -> (res: Result<
        (),
        Error,
    >)
        ensures
            exists|now: u64|
                clock_told(now) && #[trigger] old(self).loads_from_combiner(*broadcast_pkg, now, res, *final(self)),
            old(self).evidence_complete() ==> final(self).evidence_complete(),
    {
        let now: u64 = current_timestamp();
        self.load_from_combiner_at(broadcast_pkg, now)
    }

    /// The public statement, as this tracer sees it: everything is its own or
    /// what the combiner sent, and R and ct are those of the signature.
    pub open spec fn statement_for<'a>(self, sigma: Sigma<P::Attestation>) -> Statement<'a> {
        Statement {
            pk: &self.pk->0,
            T: &self.T->0,
            R: &sigma.R,
            m: &self.message->0,
            ct: &sigma.ct,
            v0: &self.v0->0,
            v: &self.v_vec->0,
        }
    }

    /// Rebuilds the public statement from the received package.
    /// R and ct are taken from sigma so the transcript is unambiguous.
    fn statement<'a>(&'a self, sigma: &'a Sigma<P::Attestation>) -> (statement: Statement<'a>)
        requires
            self.pk is Some,
            self.T is Some,
            self.message is Some,
            self.v0 is Some,
            self.v_vec is Some,
        ensures
            statement == self.statement_for(*sigma),
    {
        Statement {
            pk: self.pk.as_ref().unwrap(),
            T: self.T.as_ref().unwrap(),
            R: &sigma.R,
            m: self.message.as_ref().unwrap(),
            ct: &sigma.ct,
            v0: self.v0.as_ref().unwrap(),
            v: self.v_vec.as_ref().unwrap(),
        }
    }

    /// The Schnorr challenge, re-derived locally - never taken from the
    /// combiner.
    pub fn challenge_c(&self) -> (c: Scalar)
        requires
            self.sigma is Some,
            self.pk is Some,
            self.T is Some,
            self.message is Some,
            self.v0 is Some,
            self.v_vec is Some,
        ensures
            call_ensures(P::statement_c, (&self.statement_for(self.sigma->0),), c),
    {
        let sigma: &Sigma<P::Attestation> = self.sigma.as_ref().unwrap();
        P::statement_c(&self.statement(sigma))
    }

    /// What this tracer says of the combiner's signature, checked against its
    /// own registry.
    pub open spec fn says_of_sigma(self, res: Result<bool, String>) -> bool {
        exists|verdict: Result<bool, String>| #[trigger]
            call_ensures(
                P::verify_attestation,
                (&self.pk->0, &self.message->0, &self.sigma->0),
                verdict,
            ) && (match verdict {
                Ok(ok) => res == Ok::<bool, String>(ok),
                Err(e) => fails_with(res, "Sigma verification failed: "@ + e@),
            })
    }

    /// Verifies the combiner's signature against this tracer's own registry.
    pub fn verify_sigma(&self) -> (res: Result<bool, String>)
        requires
            self.sigma is Some,
            self.message is Some,
            self.pk is Some,
        ensures
            self.says_of_sigma(res),
    {
        let sigma: &Sigma<P::Attestation> = self.sigma.as_ref().unwrap();
        let verdict = P::verify_attestation(
            self.pk.as_ref().unwrap(),
            self.message.as_ref().unwrap(),
            sigma,
        );
        match verdict {
            Ok(ok) => Ok(ok),
            Err(e) => Err(String::from_str("Sigma verification failed: ").concat(e.as_str())),
        }
    }

    /// What this tracer says of the accountability proof, checked against the
    /// statement as it sees it.
    pub open spec fn says_of_proof(self, res: Result<bool, String>) -> bool {
        exists|verdict: Result<bool, String>| #[trigger]
            call_ensures(
                P::verify_proofs,
                (&self.proof->0, &self.sigma->0, &self.statement_for(self.sigma->0)),
                verdict,
            ) && (match verdict {
                Ok(ok) => res == Ok::<bool, String>(ok),
                Err(e) => fails_with(res, "Proof verification failed: "@ + e@),
            })
    }

    /// Verifies the accountability NIZK. Uses public data only; the challenges
    /// are re-derived from the statement.
    pub fn verify_proof(&self) -> (res: Result<bool, String>)
        requires
            self.proof is Some,
            self.sigma is Some,
            self.pk is Some,
            self.T is Some,
            self.message is Some,
            self.v0 is Some,
            self.v_vec is Some,
        ensures
            self.says_of_proof(res),
    {
        let sigma: &Sigma<P::Attestation> = self.sigma.as_ref().unwrap();
        let verdict = P::verify_proofs(
            self.proof.as_ref().unwrap(),
            sigma,
            &self.statement(sigma),
        );
        match verdict {
            Ok(ok) => Ok(ok),
            Err(e) => Err(String::from_str("Proof verification failed: ").concat(e.as_str())),
        }
    }

    /// Verifies everything that tracing rests on: the combiner's signature,
    /// and then the accountability proof.
    pub fn check_evidence(&self) -> (res: Result<(), String>)
        requires
            self.proof is Some,
            self.sigma is Some,
            self.pk is Some,
            self.T is Some,
            self.message is Some,
            self.v0 is Some,
            self.v_vec is Some,
        ensures
            exists|sigma: Result<bool, String>, proof: Result<bool, String>|
                {
                    &&& self.says_of_sigma(sigma)
                    &&& sigma == Ok::<bool, String>(true) ==> self.says_of_proof(proof)
                    &&& #[trigger] evidence_judged(sigma, proof, res)
                },
    {
        let sigma: Result<bool, String> = self.verify_sigma();
        let sound: bool = match &sigma {
            Ok(ok) => *ok,
            Err(_) => false,
        };
        let nizk: Result<bool, String> = if sound {
            self.verify_proof()
        } else {
            Ok(false)
        };
        let ghost s = sigma;
        let ghost p = nizk;
        let res: Result<(), String> = judge_evidence(sigma, nizk);
        proof {
            assert(evidence_judged(s, p, res));
        }
        res
    }

    // === Threshold decryption ===============================================

    /// The ciphertexts that the tracers decrypt together.
    pub open spec fn decryption_input<'a>(self) -> DecryptionInput<'a> {
        DecryptionInput { ct: &self.sigma->0.ct, v0: &self.v0->0, v1: &self.v_vec->0 }
    }

    /// This tracer's own partial decryption of `ct` and every
    /// `v_i`, with Chaum-Pedersen proofs.
    pub fn partial_decrypt(&self) -> (partial: PartialDecryption<P::PartialBody>)
        requires
            self.sigma is Some,
            self.v0 is Some,
            self.v_vec is Some,
            self.tracer_key_share is Some,
        ensures
            call_ensures(
                P::partial_decrypt,
                (&self.tracer_key_share->0, &self.decryption_input()),
                partial,
            ),
    {
        let sigma: &Sigma<P::Attestation> = self.sigma.as_ref().unwrap();
        let input = DecryptionInput {
            ct: &sigma.ct,
            v0: self.v0.as_ref().unwrap(),
            v1: self.v_vec.as_ref().unwrap(),
        };
        P::partial_decrypt(self.tracer_key_share.as_ref().unwrap(), &input)
    }

    /// Seals this tracer's partial decryption for
    /// tracer `peer`.
    pub fn partial_for_peer(&self, peer: usize, partial: &PartialDecryption<P::PartialBody>) -> (res:
        Result<SecurePackage, Error>)
        ensures
            match self.peer_keys(peer as int) {
                None => res == Err::<SecurePackage, Error>(Error::InvalidMessage),
                Some(keys) => exists|plain: Seq<u8>|
                    writes_partial::<P>(*partial, plain) && #[trigger] self.sends(keys, plain, res),
            },
    {
        match self.keys_of_peer(peer) {
            Some(keys) => {
                let plain: Vec<u8> = P::encode_partial(partial);
                proof {
                    assert(writes_partial::<P>(*partial, plain@));
                }
                self.send(&keys, &plain)
            },
            None => Err(Error::InvalidMessage),
        }
    }

    /// What this tracer reads at time `now` from a package that claims to come
    /// from tracer `peer`, or why it is refused.
    pub open spec fn opened_from_peer(self, peer: usize, package: SecurePackage, now: u64) -> Result<
        Seq<u8>,
        Error,
    > {
        match self.peer_keys(peer as int) {
            Some(keys) => opened(self.transport_kp.secret(), keys, package, now),
            None => Err(Error::InvalidMessage),
        }
    }

    /// Opens a package of tracer `peer` at time `now`.
    pub fn open_from_peer_at(&self, peer: usize, package: &SecurePackage, now: u64) -> (res: Result<
        Vec<u8>,
        Error,
    >)
        ensures
            match res {
                Ok(plain) => self.opened_from_peer(peer, *package, now) == Ok::<Seq<u8>, Error>(
                    plain@,
                ),
                Err(e) => self.opened_from_peer(peer, *package, now) == Err::<Seq<u8>, Error>(e),
            },
    {
        match self.keys_of_peer(peer) {
            Some(keys) => open_at(&self.transport_kp, &keys, package, now),
            None => Err(Error::InvalidMessage),
        }
    }

    /// Opens a package of tracer `peer`.
    pub fn open_from_peer(&self, peer: usize, package: &SecurePackage) -> (res: Result<
        Vec<u8>,
        Error,
    >)
        ensures
            exists|now: u64| #[trigger]
                clock_told(now) && (match res {
                    Ok(plain) => self.opened_from_peer(peer, *package, now) == Ok::<Seq<u8>, Error>(
                        plain@,
                    ),
                    Err(e) => self.opened_from_peer(peer, *package, now) == Err::<Seq<u8>, Error>(
                        e,
                    ),
                }),
    {
        let now: u64 = current_timestamp();
        self.open_from_peer_at(peer, package, now)
    }

    /// What a package that claims to hold a partial decryption of tracer
    /// `peer` comes to at time `now`.
    pub open spec fn receives_partial(
        self,
        peer: usize,
        package: SecurePackage,
        now: u64,
        outcome: Option<PartialDecryption<P::PartialBody>>,
    ) -> bool {
        match self.opened_from_peer(peer, package, now) {
            Ok(plain) => reads_partial::<P>(plain, outcome),
            Err(_) => outcome is None,
        }
    }

    /// Whether `partials` is what can be read, in order, from packages that
    /// the other tracers sent, each at its own time.
    pub open spec fn opens_partials(
        self,
        items: Seq<(usize, SecurePackage)>,
        times: Seq<u64>,
        partials: Seq<PartialDecryption<P::PartialBody>>,
    ) -> bool {
        exists|outcomes: Seq<Option<PartialDecryption<P::PartialBody>>>|
            {
                &&& outcomes.len() == items.len()
                &&& forall|i: int|
                    0 <= i < items.len() ==> self.receives_partial(
                        items[i].0,
                        items[i].1,
                        times[i],
                        #[trigger] outcomes[i],
                    )
                &&& partials == #[trigger] present(outcomes)
            }
    }

    fn receive_partials(&self, items: Vec<(usize, SecurePackage)>, at: Option<u64>) -> (res: (
        Vec<PartialDecryption<P::PartialBody>>,
        Ghost<Seq<u64>>,
    ))
        ensures
            self.opens_partials(items@, res.1@, res.0@),
            timed_by(at, res.1@, items@.len()),
    {
        let ghost all = items@;
        let ghost mut times: Seq<u64> = Seq::empty();
        let ghost mut outcomes: Seq<Option<PartialDecryption<P::PartialBody>>> = Seq::empty();
        let mut partials: Vec<PartialDecryption<P::PartialBody>> = Vec::new();
        for item in it: items
            invariant
                it.seq() == all,
                timed_by(at, times, it.index() as nat),
                outcomes.len() == it.index(),
                forall|i: int|
                    0 <= i < it.index() ==> self.receives_partial(
                        all[i].0,
                        all[i].1,
                        times[i],
                        #[trigger] outcomes[i],
                    ),
                partials@ == present(outcomes),
        {
            let (peer, package) = item;
            let now: u64 = time_at(at);
            let outcome: Option<PartialDecryption<P::PartialBody>> = match self.open_from_peer_at(
                peer,
                &package,
                now,
            ) {
                Ok(plain) => {
                    let decoded = P::decode_partial(&plain);
                    proof {
                        assert(reads_partial::<P>(plain@, decoded));
                    }
                    decoded
                },
                Err(_) => None,
            };
            proof {
                let before = outcomes;
                outcomes = outcomes.push(outcome);
                times = times.push(now);
                assert(outcomes.drop_last() =~= before);
            }
            if let Some(partial) = outcome {
                partials.push(partial);
            }
        }
        (partials, Ghost(times))
    }

    /// At time `now`, opens the partial decryptions of the other tracers. What
    /// cannot be authenticated or read is dropped.
    pub fn open_peer_partials_at(&self, items: Vec<(usize, SecurePackage)>, now: u64) -> (partials:
        Vec<PartialDecryption<P::PartialBody>>)
        ensures
            self.opens_partials(items@, always(now, items@.len()), partials@),
    {
        let (partials, times) = self.receive_partials(items, Some(now));
        proof {
            assert(times@ =~= always(now, items@.len()));
        }
        partials
    }

    /// Opens the partial decryptions of the other tracers, each at the time it
    /// is looked at.
    pub fn open_peer_partials(&self, items: Vec<(usize, SecurePackage)>) -> (partials: Vec<
        PartialDecryption<P::PartialBody>,
    >)
        ensures
            exists|times: Seq<u64>|
                timed_by(None, times, items@.len()) && #[trigger] self.opens_partials(
                    items@,
                    times,
                    partials@,
                ),
    {
        let (partials, times) = self.receive_partials(items, None);
        proof {
            assert(self.opens_partials(items@, times@, partials@));
        }
        partials
    }
}

/// Broadcasts on file have no say in what a further broadcast comes to.
proof fn lemma_hears_same<P: Scheme>(
    a: Tracer<P>,
    b: Tracer<P>,
    peer: usize,
    package: BroadcastPackage,
    now: u64,
    outcome: Option<P::DkgBroadcast>,
)
    requires
        a.same_but_broadcasts(b),
        b.hears_broadcast(peer, package, now, outcome),
    ensures
        a.hears_broadcast(peer, package, now, outcome),
{
    assert(forall|x: P::DkgBroadcast|
        b.judges_broadcast(x, outcome) ==> a.judges_broadcast(x, outcome));
}

/// Shares on file have no say in what a further share comes to.
proof fn lemma_receives_same<P: Scheme>(
    a: Tracer<P>,
    b: Tracer<P>,
    from: usize,
    package: SecurePackage,
    now: u64,
    outcome: Option<P::Share>,
)
    requires
        a.same_but_shares(b),
        b.receives_share(from, package, now, outcome),
    ensures
        a.receives_share(from, package, now, outcome),
{
    assert(forall|dealer: usize, x: P::Share|
        b.judges_share(dealer, x, outcome) ==> a.judges_share(dealer, x, outcome));
    assert(forall|plain: Seq<u8>|
        b.takes_share(from, plain, outcome) ==> a.takes_share(from, plain, outcome));
}

/// A time that is given holds for every item alike; otherwise every item has
/// a time of its own.
pub proof fn every_item_has_its_time(now: u64, at: Option<u64>, times: Seq<u64>, len: nat, i: int)
    requires
        timed_by(at, times, len),
        0 <= i < len,
    ensures
        always(now, len).len() == len,
        always(now, len)[i] == now,
        times.len() == len,
        at is Some ==> times[i] == at->0,
        at is None ==> clock_told(times[i]),
{
    assert(times[i] == times[i]);
}

} // verus!
