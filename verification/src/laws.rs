//! What holds between actors: what one sends, the other reads; what nobody
//! vouches for, nobody takes; and what everybody reports adds up.
//!
//! The scheme's wire encodings are its own business. Where a law speaks of a
//! payload that arrives, it supposes that the encoding of that payload reads
//! back what was written.
use vstd::prelude::*;

use crate::authority;
use crate::authority::{ActorKeys, Authority};
use crate::combiner;
use crate::combiner::{values_at, Combiner, TracerPublicKeyPackage};
use crate::crypto::{
    announces, broadcast_valid, fresh, opened, owns, package_valid, reaches, seals,
    BroadcastPackage, IdentityKeyPair, SecurePackage, TransportKeyPair, MAX_AGE_SECONDS,
};
use crate::group::{group_sum, group_total, Gt};
use crate::keys::{lemma_same_key, Error};
use crate::network::AuthorityAnchor;
use crate::ordered::{lemma_ids_below, lists_keys, listing_is_unique};
use crate::scheme::{PartialDecryption, Scheme, Sigma};
use crate::signer;
use crate::signer::Signer;
use crate::tracer;
use crate::tracer::{absorbed, ids_of, Tracer};
use crate::wire::{
    reads_broadcast, reads_challenge, reads_combiner_credentials, reads_commitment,
    reads_evidence, reads_partial, reads_share, reads_sign, reads_signer_credentials,
    reads_tracer_credentials, reads_tracer_public_key, writes_broadcast, writes_challenge,
    writes_combiner_credentials, writes_commitment, writes_evidence, writes_partial, writes_share,
    writes_sign, writes_signer_credentials, writes_tracer_credentials, writes_tracer_public_key,
};

verus! {

broadcast use vstd::std_specs::btree::group_btree_axioms;

// === Encodings that keep what they are given ===============================

/// A signer's credentials read back as they were written.
pub open spec fn keeps_signer_credentials<P: Scheme>() -> bool {
    forall|
        payload: authority::SignerPackage<P::KeyPair>,
        plain: Seq<u8>,
        read: Option<authority::SignerPackage<P::KeyPair>>,
    |
        #![trigger writes_signer_credentials::<P>(payload, plain), reads_signer_credentials::<P>(plain, read)]
        writes_signer_credentials::<P>(payload, plain) && reads_signer_credentials::<P>(plain, read)
            ==> read == Some(payload)
}

/// The combiner's credentials read back as they were written.
pub open spec fn keeps_combiner_credentials<P: Scheme>() -> bool {
    forall|
        payload: authority::CombinerPackage<P::KeyPair, P::Quorum>,
        plain: Seq<u8>,
        read: Option<authority::CombinerPackage<P::KeyPair, P::Quorum>>,
    |
        #![trigger writes_combiner_credentials::<P>(payload, plain), reads_combiner_credentials::<P>(plain, read)]
        writes_combiner_credentials::<P>(payload, plain) && reads_combiner_credentials::<P>(
            plain,
            read,
        ) ==> read == Some(payload)
}

/// A tracer's credentials read back as they were written.
pub open spec fn keeps_tracer_credentials<P: Scheme>() -> bool {
    forall|
        payload: authority::TracerPackage,
        plain: Seq<u8>,
        read: Option<authority::TracerPackage>,
    |
        #![trigger writes_tracer_credentials::<P>(payload, plain), reads_tracer_credentials::<P>(plain, read)]
        writes_tracer_credentials::<P>(payload, plain) && reads_tracer_credentials::<P>(plain, read)
            ==> read == Some(payload)
}

/// Commitments read back as they were written.
pub open spec fn keeps_commitments<P: Scheme>() -> bool {
    forall|
        payload: signer::CommitmentPackage<P::Commitment>,
        plain: Seq<u8>,
        read: Option<signer::CommitmentPackage<P::Commitment>>,
    |
        #![trigger writes_commitment::<P>(payload, plain), reads_commitment::<P>(plain, read)]
        writes_commitment::<P>(payload, plain) && reads_commitment::<P>(plain, read) ==> read
            == Some(payload)
}

/// Signature shares read back as they were written.
pub open spec fn keeps_signs<P: Scheme>() -> bool {
    forall|
        payload: signer::SigmaPackage<P::Sign>,
        plain: Seq<u8>,
        read: Option<signer::SigmaPackage<P::Sign>>,
    |
        #![trigger writes_sign::<P>(payload, plain), reads_sign::<P>(plain, read)]
        writes_sign::<P>(payload, plain) && reads_sign::<P>(plain, read) ==> read == Some(payload)
}

/// Challenges read back as they were written.
pub open spec fn keeps_challenges<P: Scheme>() -> bool {
    forall|
        payload: combiner::SignerPackage,
        plain: Seq<u8>,
        read: Option<combiner::SignerPackage>,
    |
        #![trigger writes_challenge::<P>(payload, plain), reads_challenge::<P>(plain, read)]
        writes_challenge::<P>(payload, plain) && reads_challenge::<P>(plain, read) ==> read == Some(
            payload,
        )
}

/// The combiner's evidence reads back as it was written.
pub open spec fn keeps_evidence<P: Scheme>() -> bool {
    forall|
        payload: combiner::TracerPackage<P::Proofs, P::Attestation>,
        plain: Seq<u8>,
        read: Option<combiner::TracerPackage<P::Proofs, P::Attestation>>,
    |
        #![trigger writes_evidence::<P>(payload, plain), reads_evidence::<P>(plain, read)]
        writes_evidence::<P>(payload, plain) && reads_evidence::<P>(plain, read) ==> read == Some(
            payload,
        )
}

/// Tracers' public keys read back as they were written.
pub open spec fn keeps_public_keys<P: Scheme>() -> bool {
    forall|
        payload: TracerPublicKeyPackage,
        plain: Seq<u8>,
        read: Option<TracerPublicKeyPackage>,
    |
        #![trigger writes_tracer_public_key::<P>(payload, plain), reads_tracer_public_key::<P>(plain, read)]
        writes_tracer_public_key::<P>(payload, plain) && reads_tracer_public_key::<P>(plain, read)
            ==> read == Some(payload)
}

/// Broadcasts read back as they were written.
pub open spec fn keeps_broadcasts<P: Scheme>() -> bool {
    forall|payload: P::DkgBroadcast, plain: Seq<u8>, read: Option<P::DkgBroadcast>|
        #![trigger writes_broadcast::<P>(payload, plain), reads_broadcast::<P>(plain, read)]
        writes_broadcast::<P>(payload, plain) && reads_broadcast::<P>(plain, read) ==> read == Some(
            payload,
        )
}

/// Shares read back as they were written.
pub open spec fn keeps_shares<P: Scheme>() -> bool {
    forall|
        payload: tracer::DkgSharePayload<P::Share>,
        plain: Seq<u8>,
        read: Option<tracer::DkgSharePayload<P::Share>>,
    |
        #![trigger writes_share::<P>(payload, plain), reads_share::<P>(plain, read)]
        writes_share::<P>(payload, plain) && reads_share::<P>(plain, read) ==> read == Some(payload)
}

/// Partial decryptions read back as they were written.
pub open spec fn keeps_partials<P: Scheme>() -> bool {
    forall|
        payload: PartialDecryption<P::PartialBody>,
        plain: Seq<u8>,
        read: Option<PartialDecryption<P::PartialBody>>,
    |
        #![trigger writes_partial::<P>(payload, plain), reads_partial::<P>(plain, read)]
        writes_partial::<P>(payload, plain) && reads_partial::<P>(plain, read) ==> read == Some(
            payload,
        )
}

// === Packages ==============================================================

/// What is sealed for an actor, that actor reads for a minute, and refuses
/// afterwards.
pub proof fn sealed_data_is_read(
    identity: IdentityKeyPair,
    transport: TransportKeyPair,
    sender: ActorKeys,
    receiver: TransportKeyPair,
    data: Seq<u8>,
    package: SecurePackage,
    now: u64,
)
    requires
        owns(identity, transport, sender),
        receiver.wf(),
        seals(identity, transport, receiver.public(), data, package),
    ensures
        fresh(package.timestamp, MAX_AGE_SECONDS, now) ==> opened(
            receiver.secret(),
            sender,
            package,
            now,
        ) == Ok::<Seq<u8>, Error>(data),
        !fresh(package.timestamp, MAX_AGE_SECONDS, now) ==> opened(
            receiver.secret(),
            sender,
            package,
            now,
        ) == Err::<Seq<u8>, Error>(Error::InvalidSignature),
{
    assert(reaches(sender, receiver.public(), data, package));
}

// === Credentials ===========================================================

/// A signer that gets its credentials in time takes them over.
pub proof fn signer_credentials_arrive<P: Scheme>(
    authority: Authority<P>,
    anchor: AuthorityAnchor,
    config: authority::SignerPackage<P::KeyPair>,
    plain: Seq<u8>,
    package: SecurePackage,
    signer: Signer<P>,
    now: u64,
    res: Result<(), Error>,
    after: Signer<P>,
)
    requires
        keeps_signer_credentials::<P>(),
        owns(authority.identity_kp, authority.transport_kp, anchor.actor_keys()),
        signer.transport_kp.wf(),
        writes_signer_credentials::<P>(config, plain),
        authority.sends(signer.transport_kp.public(), plain, Ok(package)),
        fresh(package.timestamp, MAX_AGE_SECONDS, now),
        signer.loads_from_authority(package, anchor, now, res, after),
    ensures
        res is Ok,
        after.taps_kp == Some(config.my_kp),
        after.combiner_keys == Some(config.combiner_keys),
{
    sealed_data_is_read(
        authority.identity_kp,
        authority.transport_kp,
        anchor.actor_keys(),
        signer.transport_kp,
        plain,
        package,
        now,
    );
}

/// A combiner that gets its credentials in time takes them over, provided the
/// rosters have one entry per actor.
pub proof fn combiner_credentials_arrive<P: Scheme>(
    authority: Authority<P>,
    anchor: AuthorityAnchor,
    config: authority::CombinerPackage<P::KeyPair, P::Quorum>,
    plain: Seq<u8>,
    package: SecurePackage,
    combiner: Combiner<P>,
    now: u64,
    res: Result<(), Error>,
    after: Combiner<P>,
)
    requires
        keeps_combiner_credentials::<P>(),
        owns(authority.identity_kp, authority.transport_kp, anchor.actor_keys()),
        combiner.transport_kp.wf(),
        writes_combiner_credentials::<P>(config, plain),
        authority.sends(combiner.transport_kp.public(), plain, Ok(package)),
        fresh(package.timestamp, MAX_AGE_SECONDS, now),
        combiner.loads_from_authority(package, anchor, now, res, after),
    ensures
        res is Ok <==> config.signer_keys@.len() == config.n && config.tracer_keys@.len()
            == config.n3,
        combiner.configures(Some(config), res, after),
{
    sealed_data_is_read(
        authority.identity_kp,
        authority.transport_kp,
        anchor.actor_keys(),
        combiner.transport_kp,
        plain,
        package,
        now,
    );
}

/// A tracer that gets its credentials in time takes them over, provided the
/// roster has one entry per tracer.
pub proof fn tracer_credentials_arrive<P: Scheme>(
    authority: Authority<P>,
    anchor: AuthorityAnchor,
    config: authority::TracerPackage,
    plain: Seq<u8>,
    package: SecurePackage,
    tracer: Tracer<P>,
    now: u64,
    res: Result<(), Error>,
    after: Tracer<P>,
)
    requires
        keeps_tracer_credentials::<P>(),
        owns(authority.identity_kp, authority.transport_kp, anchor.actor_keys()),
        tracer.transport_kp.wf(),
        writes_tracer_credentials::<P>(config, plain),
        authority.sends(tracer.transport_kp.public(), plain, Ok(package)),
        fresh(package.timestamp, MAX_AGE_SECONDS, now),
        tracer.loads_from_authority(package, anchor, now, res, after),
    ensures
        res is Ok <==> config.peer_tracers@.len() == config.n3,
        tracer.configures(Some(config), res, after),
{
    sealed_data_is_read(
        authority.identity_kp,
        authority.transport_kp,
        anchor.actor_keys(),
        tracer.transport_kp,
        plain,
        package,
        now,
    );
}

// === Signing ===============================================================

/// The combiner stores the very commitment that a participating signer sent,
/// under that signer's id.
pub proof fn commitment_arrives<P: Scheme>(
    signer: Signer<P>,
    signer_keys: ActorKeys,
    combiner_keys: ActorKeys,
    commit: P::Commit,
    package: SecurePackage,
    combiner: Combiner<P>,
    id: usize,
    now: u64,
    res: Result<(), Error>,
    after: Combiner<P>,
)
    requires
        keeps_commitments::<P>(),
        owns(signer.identity_kp, signer.transport_kp, signer_keys),
        owns(combiner.identity_kp, combiner.transport_kp, combiner_keys),
        combiner.signer_keys_of(id) == Some(signer_keys),
        combiner.participates(id),
        signer.sends_commitment(combiner_keys, commit, Ok(package)),
        fresh(package.timestamp, MAX_AGE_SECONDS, now),
        combiner.loads_commitment(id, package, now, res, after),
    ensures
        res is Ok,
        exists|commitment: P::Commitment| #[trigger]
            call_ensures(P::commitment, (&commit,), commitment) && after.commitments@
                == combiner.commitments@.insert(id, commitment),
{
    let (commitment, plain) = choose|commitment: P::Commitment, plain: Seq<u8>|
        #![trigger writes_commitment::<P>(signer::CommitmentPackage { commitment }, plain)]
        {
            &&& call_ensures(P::commitment, (&commit,), commitment)
            &&& writes_commitment::<P>(signer::CommitmentPackage { commitment }, plain)
            &&& signer.sends(combiner_keys, plain, Ok(package))
        };
    sealed_data_is_read(
        signer.identity_kp,
        signer.transport_kp,
        signer_keys,
        combiner.transport_kp,
        plain,
        package,
        now,
    );
    assert(combiner.takes_commitment(id, plain, res, after));
    assert(call_ensures(P::commitment, (&commit,), commitment));
}

/// Every signer answers the very challenge that the combiner announced, and
/// nothing that the combiner did not sign.
pub proof fn challenge_arrives<P: Scheme>(
    combiner: Combiner<P>,
    combiner_keys: ActorKeys,
    challenge: combiner::SignerPackage,
    text: Seq<u8>,
    package: BroadcastPackage,
    signer: Signer<P>,
    now: u64,
    res: Result<SecurePackage, Error>,
)
    requires
        keeps_challenges::<P>(),
        owns(combiner.identity_kp, combiner.transport_kp, combiner_keys),
        writes_challenge::<P>(challenge, text),
        announces(combiner.identity_kp, text, package),
        signer.combiner_keys == Some(combiner_keys),
        signer.sets_sigma(package, now, res),
    ensures
        fresh(package.timestamp, MAX_AGE_SECONDS, now) ==> signer.answers(
            combiner_keys,
            Some(challenge),
            res,
        ),
        !fresh(package.timestamp, MAX_AGE_SECONDS, now) ==> res == Err::<SecurePackage, Error>(
            Error::InvalidSignature,
        ),
{
    assert(broadcast_valid(combiner.identity_kp.public(), package, MAX_AGE_SECONDS, now) == fresh(
        package.timestamp,
        MAX_AGE_SECONDS,
        now,
    ));
}

/// The combiner stores the very share that a participating signer made for
/// the challenge, under that signer's id.
pub proof fn signature_share_arrives<P: Scheme>(
    signer: Signer<P>,
    signer_keys: ActorKeys,
    combiner_keys: ActorKeys,
    challenge: combiner::SignerPackage,
    package: SecurePackage,
    combiner: Combiner<P>,
    id: usize,
    now: u64,
    res: Result<(), Error>,
    after: Combiner<P>,
)
    requires
        keeps_signs::<P>(),
        owns(signer.identity_kp, signer.transport_kp, signer_keys),
        owns(combiner.identity_kp, combiner.transport_kp, combiner_keys),
        combiner.signer_keys_of(id) == Some(signer_keys),
        combiner.participates(id),
        signer.answers(combiner_keys, Some(challenge), Ok(package)),
        fresh(package.timestamp, MAX_AGE_SECONDS, now),
        combiner.loads_sign(id, package, now, res, after),
    ensures
        res is Ok,
        exists|z: P::Sign| #[trigger]
            call_ensures(
                P::sign,
                (&signer.current_commitment->0, &signer.taps_kp->0, &challenge.c),
                z,
            ) && after.sigmas@ == combiner.sigmas@.insert(id, z),
{
    let (z, plain) = choose|z: P::Sign, plain: Seq<u8>|
        #![trigger writes_sign::<P>(signer::SigmaPackage { z }, plain)]
        {
            &&& call_ensures(
                P::sign,
                (&signer.current_commitment->0, &signer.taps_kp->0, &challenge.c),
                z,
            )
            &&& writes_sign::<P>(signer::SigmaPackage { z }, plain)
            &&& signer.sends(combiner_keys, plain, Ok(package))
        };
    sealed_data_is_read(
        signer.identity_kp,
        signer.transport_kp,
        signer_keys,
        combiner.transport_kp,
        plain,
        package,
        now,
    );
    assert(combiner.takes_sign(id, plain, res, after));
}

/// The combiner takes contributions from participating signers only: whoever
/// is not on the roster, or did not sign recently, is refused and leaves
/// everything as it was.
pub proof fn unauthenticated_contributions_are_refused<P: Scheme>(
    combiner: Combiner<P>,
    id: usize,
    package: SecurePackage,
    now: u64,
    res: Result<(), Error>,
    after: Combiner<P>,
)
    requires
        combiner.signer_keys_of(id) matches Some(keys) ==> !package_valid(
            keys.identity_pk,
            package,
            MAX_AGE_SECONDS,
            now,
        ),
        combiner.loads_commitment(id, package, now, res, after) || combiner.loads_sign(
            id,
            package,
            now,
            res,
            after,
        ),
    ensures
        after == combiner,
        res == Err::<(), Error>(
            if combiner.signer_keys_of(id) is Some {
                Error::InvalidSignature
            } else {
                Error::InvalidMessage
            },
        ),
{
}

/// Whatever the combiner stores in one step, it stores for a participating
/// signer that authenticated it, and nothing else changes.
pub proof fn commitments_come_from_participants<P: Scheme>(
    combiner: Combiner<P>,
    id: usize,
    package: SecurePackage,
    now: u64,
    res: Result<(), Error>,
    after: Combiner<P>,
    other: usize,
)
    requires
        combiner.loads_commitment(id, package, now, res, after),
    ensures
        other != id ==> (after.commitments@.contains_key(other) <==> combiner.commitments@.contains_key(
            other,
        )),
        after.commitments@.contains_key(other) && !combiner.commitments@.contains_key(other)
            ==> other == id && combiner.participates(id) && combiner.signer_keys_of(id) is Some
            && package_valid(
            combiner.signer_keys_of(id)->0.identity_pk,
            package,
            MAX_AGE_SECONDS,
            now,
        ),
{
    if let Ok(plain) = combiner.opened_from_signer(id, package, now) {
        assert(combiner.takes_commitment(id, plain, res, after));
    }
}

// === Tracer keys ===========================================================

/// The combiner stores the very `pk_k` that a tracer on the roster reported.
pub proof fn tracer_public_key_arrives<P: Scheme>(
    tracer: Tracer<P>,
    tracer_keys: ActorKeys,
    combiner_keys: ActorKeys,
    payload: TracerPublicKeyPackage,
    plain: Seq<u8>,
    package: SecurePackage,
    combiner: Combiner<P>,
    id: usize,
    now: u64,
    res: Result<(), Error>,
    after: Combiner<P>,
)
    requires
        keeps_public_keys::<P>(),
        owns(tracer.identity_kp, tracer.transport_kp, tracer_keys),
        owns(combiner.identity_kp, combiner.transport_kp, combiner_keys),
        combiner.tracer_keys_of(id) == Some(tracer_keys),
        writes_tracer_public_key::<P>(payload, plain),
        tracer.sends(combiner_keys, plain, Ok(package)),
        fresh(package.timestamp, MAX_AGE_SECONDS, now),
        combiner.loads_public_key(id, package, now, res, after),
    ensures
        res is Ok,
        after.tracer_public_keys@ == combiner.tracer_public_keys@.insert(id, payload.pk),
{
    sealed_data_is_read(
        tracer.identity_kp,
        tracer.transport_kp,
        tracer_keys,
        combiner.transport_kp,
        plain,
        package,
        now,
    );
    assert(combiner.takes_public_key(id, plain, res, after));
}

/// A `pk_k` that the tracer it is attributed to did not sign is refused, and
/// leaves everything as it was.
pub proof fn misattributed_public_keys_are_refused<P: Scheme>(
    combiner: Combiner<P>,
    id: usize,
    package: SecurePackage,
    now: u64,
    res: Result<(), Error>,
    after: Combiner<P>,
)
    requires
        combiner.tracer_keys_of(id) matches Some(keys) ==> !package_valid(
            keys.identity_pk,
            package,
            MAX_AGE_SECONDS,
            now,
        ),
        combiner.loads_public_key(id, package, now, res, after),
    ensures
        after == combiner,
        res == Err::<(), Error>(
            if combiner.tracer_keys_of(id) is Some {
                Error::InvalidSignature
            } else {
                Error::InvalidMessage
            },
        ),
{
}

/// A `pk_k` is accepted only under the id of a tracer that signed it recently,
/// and only that tracer's entry changes; whatever is not accepted changes
/// nothing.
pub proof fn accepted_public_keys_are_signed<P: Scheme>(
    combiner: Combiner<P>,
    id: usize,
    package: SecurePackage,
    now: u64,
    res: Result<(), Error>,
    after: Combiner<P>,
)
    requires
        combiner.loads_public_key(id, package, now, res, after),
    ensures
        res is Ok ==> {
            &&& combiner.tracer_keys_of(id) is Some
            &&& package_valid(
                combiner.tracer_keys_of(id)->0.identity_pk,
                package,
                MAX_AGE_SECONDS,
                now,
            )
            &&& after.tracer_public_keys@.dom() == combiner.tracer_public_keys@.dom().insert(id)
            &&& after.tracer_public_keys@.remove(id) == combiner.tracer_public_keys@.remove(id)
        },
        res is Err ==> after == combiner,
{
    if let Ok(plain) = combiner.opened_from_tracer(id, package, now) {
        assert(combiner.takes_public_key(id, plain, res, after));
        if res is Ok {
            assert(after.tracer_public_keys@.dom() =~= combiner.tracer_public_keys@.dom().insert(
                id,
            ));
            assert(after.tracer_public_keys@.remove(id) =~= combiner.tracer_public_keys@.remove(
                id,
            ));
        }
    }
}

/// It does not matter in which order two tracers report.
pub proof fn reports_come_in_any_order<P: Scheme>(
    combiner: Combiner<P>,
    a: usize,
    pk_a: Gt,
    b: usize,
    pk_b: Gt,
    first_a: Combiner<P>,
    then_b: Combiner<P>,
    first_b: Combiner<P>,
    then_a: Combiner<P>,
)
    requires
        a != b,
        combiner.stores_public_key(a, pk_a, first_a),
        first_a.stores_public_key(b, pk_b, then_b),
        combiner.stores_public_key(b, pk_b, first_b),
        first_b.stores_public_key(a, pk_a, then_a),
    ensures
        then_b.tracer_public_keys@ == then_a.tracer_public_keys@,
{
    assert(then_b.tracer_public_keys@ =~= then_a.tracer_public_keys@);
}

/// As long as a tracer has not reported, the reports are not complete.
pub proof fn missing_report_keeps_reports_incomplete<P: Scheme>(combiner: Combiner<P>, id: usize)
    requires
        combiner.rosters_fit(),
        combiner.reports_known(),
        combiner.n3 is Some,
        combiner.tracer_keys is Some,
        id < combiner.n3->0,
        !combiner.tracer_public_keys@.contains_key(id),
    ensures
        combiner.tracer_public_keys@.len() != combiner.n3->0,
{
    if combiner.tracer_public_keys@.len() == combiner.n3->0 {
        complete_reports_cover_everyone(combiner);
        assert(combiner.tracer_public_keys@.contains_key(id));
    }
}

/// Once as many tracers on the roster have reported as there are, every one
/// of them has.
pub proof fn complete_reports_cover_everyone<P: Scheme>(combiner: Combiner<P>)
    requires
        combiner.rosters_fit(),
        combiner.reports_known(),
        combiner.n3 is Some,
        combiner.tracer_keys is Some,
        combiner.tracer_public_keys@.len() == combiner.n3->0,
    ensures
        forall|id: usize|
            id < combiner.n3->0 ==> #[trigger] combiner.tracer_public_keys@.contains_key(id),
{
    let ids = combiner.tracer_public_keys@.dom();
    assert(combiner.tracer_keys->0@.len() == combiner.tracer_keys->0.len());
    assert forall|id: usize| #[trigger] ids.contains(id) implies id < combiner.n3->0 by {
        assert(combiner.tracer_public_keys@.contains_key(id));
    }
    lemma_ids_below(ids, combiner.n3->0 as nat);
    assert forall|id: usize| id < combiner.n3->0 implies #[trigger] combiner.tracer_public_keys@.contains_key(
        id,
    ) by {
        assert(ids.contains(id));
    }
}

/// The group key depends on the reported `pk_k` and on nothing else: wherever
/// the same keys are added up, the same group key comes out.
pub proof fn group_key_depends_on_reports_only(
    reports: Map<usize, Gt>,
    a: Seq<usize>,
    b: Seq<usize>,
)
    requires
        lists_keys(a, reports),
        lists_keys(b, reports),
    ensures
        group_total(values_at(reports, a)) == group_total(values_at(reports, b)),
{
    listing_is_unique(a, b, reports);
}

/// The tracers' own `pk_k`, by tracer id.
pub open spec fn own_keys<P: Scheme>(tracers: Seq<Tracer<P>>) -> Seq<Gt> {
    Seq::new(tracers.len(), |k: int| tracers[k].tracer_key_share->0.pk)
}

/// Once every tracer's `pk_k` is on file, the reports are complete and the
/// combiner reaches the very group key that the tracers hold, provided theirs
/// is the sum of their `pk_k`; its registry has the signers' keys, its own,
/// and that group key.
pub proof fn combiner_reaches_the_tracers_group_key<P: Scheme>(
    combiner: Combiner<P>,
    tracers: Seq<Tracer<P>>,
    ids: Seq<usize>,
    res: Result<(), Error>,
    after: Combiner<P>,
)
    requires
        1 <= tracers.len() <= usize::MAX,
        combiner.n3 == Some(tracers.len() as usize),
        combiner.pk_i is Some,
        combiner.taps_kp is Some,
        forall|k: usize| #[trigger]
            combiner.tracer_public_keys@.contains_key(k) <==> k < tracers.len(),
        forall|k: usize|
            k < tracers.len() ==> #[trigger] combiner.tracer_public_keys@[k] == own_keys(
                tracers,
            )[k as int],
        forall|k: int|
            0 <= k < tracers.len() ==> (#[trigger] tracers[k]).pk_e is Some && group_total(
                own_keys(tracers),
            ) == Some(tracers[k].pk_e->0@),
        lists_keys(ids, combiner.tracer_public_keys@),
        combiner.establishes(
            group_total(values_at(combiner.tracer_public_keys@, ids)),
            res,
            after,
        ),
    ensures
        combiner.tracer_public_keys@.len() == combiner.n3->0,
        res is Ok,
        forall|k: int| 0 <= k < tracers.len() ==> after.pk_e == (#[trigger] tracers[k]).pk_e,
        after.pk is Some,
        after.pk->0.pk_i@ == combiner.pk_i->0@,
        call_ensures(P::public_key, (&combiner.taps_kp->0,), after.pk->0.pk_cs),
        Some(after.pk->0.pk_e) == after.pk_e,
{
    let reports = combiner.tracer_public_keys@;
    let all = Seq::new(tracers.len(), |k: int| k as usize);
    assert forall|k: usize| #[trigger] all.to_set().contains(k) <==> reports.dom().contains(k) by {
        if k < tracers.len() {
            assert(all[k as int] == k);
        }
        if all.to_set().contains(k) {
            let j = choose|j: int| 0 <= j < all.len() && all[j] == k;
            assert(reports.contains_key(k));
        }
    }
    assert(all.to_set() =~= reports.dom());
    assert(lists_keys(all, reports));
    listing_is_unique(ids, all, reports);
    all.unique_seq_to_set();
    assert(values_at(reports, ids) =~= own_keys(tracers));
    assert(tracers[0].pk_e is Some);
    assert forall|k: int| 0 <= k < tracers.len() implies after.pk_e == (
    #[trigger] tracers[k]).pk_e by {
        lemma_same_key(after.pk_e->0, tracers[k].pk_e->0);
    }
}

/// A single tracer's `pk_k` is the group key.
pub proof fn single_report_is_the_group_key(reports: Map<usize, Gt>, ids: Seq<usize>, id: usize)
    requires
        lists_keys(ids, reports),
        reports.dom() == set![id],
    ensures
        group_total(values_at(reports, ids)) == reports[id]@,
{
    assert(ids.to_set().contains(id));
    let p = choose|p: int| 0 <= p < ids.len() && ids[p] == id;
    assert forall|i: int| 0 <= i < ids.len() implies ids[i] == id by {
        assert(ids.to_set().contains(ids[i]));
    }
    if ids.len() > 1 {
        assert(ids[0] < ids[1]);
    }
    let values = values_at(reports, ids);
    assert(values.len() == 1);
    assert(values.drop_last() =~= Seq::<Gt>::empty());
    assert(group_total(values) == group_sum(group_total(values.drop_last()), values.last()@));
}

// === Distributed key generation ============================================

/// A dealer's broadcast reaches the other tracers as it was sent.
pub proof fn dealer_broadcast_arrives<P: Scheme>(
    dealer: Tracer<P>,
    dealer_keys: ActorKeys,
    broadcast: P::DkgBroadcast,
    text: Seq<u8>,
    package: BroadcastPackage,
    tracer: Tracer<P>,
    from: usize,
    now: u64,
    outcome: Option<P::DkgBroadcast>,
)
    requires
        keeps_broadcasts::<P>(),
        owns(dealer.identity_kp, dealer.transport_kp, dealer_keys),
        writes_broadcast::<P>(broadcast, text),
        announces(dealer.identity_kp, text, package),
        tracer.peer_keys(from as int) == Some(dealer_keys),
        tracer.hears_broadcast(from, package, now, outcome),
    ensures
        fresh(package.timestamp, MAX_AGE_SECONDS, now) ==> tracer.judges_broadcast(
            broadcast,
            outcome,
        ),
        !fresh(package.timestamp, MAX_AGE_SECONDS, now) ==> outcome is None,
{
    assert(broadcast_valid(dealer.identity_kp.public(), package, MAX_AGE_SECONDS, now) == fresh(
        package.timestamp,
        MAX_AGE_SECONDS,
        now,
    ));
}

/// The share that a dealer seals for a tracer reaches that tracer: what it
/// judges is the dealer's share for its own party index.
pub proof fn dealt_share_arrives<P: Scheme>(
    dealer: Tracer<P>,
    dealer_keys: ActorKeys,
    tracer: Tracer<P>,
    tracer_keys: ActorKeys,
    from: usize,
    to: usize,
    package: SecurePackage,
    now: u64,
    outcome: Option<P::Share>,
)
    requires
        keeps_shares::<P>(),
        owns(dealer.identity_kp, dealer.transport_kp, dealer_keys),
        owns(tracer.identity_kp, tracer.transport_kp, tracer_keys),
        tracer.peer_keys(from as int) == Some(dealer_keys),
        dealer.peer_keys(to as int) == Some(tracer_keys),
        dealer.sends_share(to, Ok(package)),
        fresh(package.timestamp, MAX_AGE_SECONDS, now),
        tracer.receives_share(from, package, now, outcome),
    ensures
        exists|share: P::Share| #[trigger]
            call_ensures(P::share_for, (&dealer.dkg_participant->0, (to + 1) as usize), share)
                && tracer.judges_share((from + 1) as usize, share, outcome),
{
    let (share, plain) = choose|share: P::Share, plain: Seq<u8>|
        #![trigger writes_share::<P>(tracer::DkgSharePayload { share }, plain)]
        {
            &&& call_ensures(P::share_for, (&dealer.dkg_participant->0, (to + 1) as usize), share)
            &&& writes_share::<P>(tracer::DkgSharePayload { share }, plain)
            &&& dealer.sends(tracer_keys, plain, Ok(package))
        };
    sealed_data_is_read(
        dealer.identity_kp,
        dealer.transport_kp,
        dealer_keys,
        tracer.transport_kp,
        plain,
        package,
        now,
    );
    assert(tracer.takes_share(from, plain, outcome));
    assert(call_ensures(P::share_for, (&dealer.dkg_participant->0, (to + 1) as usize), share));
}

/// Where a value on file comes from: it was there before, or some item put it
/// there under its own id.
proof fn lemma_absorbed_origin<V>(
    map: Map<usize, V>,
    ids: Seq<usize>,
    outcomes: Seq<Option<V>>,
    key: usize,
)
    requires
        ids.len() >= outcomes.len(),
        absorbed(map, ids, outcomes).contains_key(key),
    ensures
        ({
            ||| map.contains_key(key) && absorbed(map, ids, outcomes)[key] == map[key]
            ||| exists|i: int|
                0 <= i < outcomes.len() && (ids[i] + 1) as usize == key && #[trigger] outcomes[i]
                    == Some(absorbed(map, ids, outcomes)[key])
        }),
    decreases outcomes.len(),
{
    if outcomes.len() > 0 {
        let last = outcomes.len() - 1;
        let before = absorbed(map, ids, outcomes.drop_last());
        if outcomes.last() is Some && (ids[last] + 1) as usize == key {
            assert(outcomes[last] == Some(absorbed(map, ids, outcomes)[key]));
        } else {
            lemma_absorbed_origin(map, ids, outcomes.drop_last(), key);
            if !(map.contains_key(key) && before[key] == map[key]) {
                let i = choose|i: int|
                    0 <= i < outcomes.drop_last().len() && (ids[i] + 1) as usize == key
                        && #[trigger] outcomes.drop_last()[i] == Some(before[key]);
                assert(outcomes[i] == Some(absorbed(map, ids, outcomes)[key]));
            }
        }
    }
}

/// Whether tracer `from` sealed this package for `tracer` within the last
/// minute, and the share in it matches the dealer's broadcast on file.
pub open spec fn vouched_share<P: Scheme>(
    tracer: Tracer<P>,
    from: usize,
    package: SecurePackage,
    now: u64,
    share: P::Share,
) -> bool {
    &&& tracer.peer_keys(from as int) is Some
    &&& package_valid(
        tracer.peer_keys(from as int)->0.identity_pk,
        package,
        MAX_AGE_SECONDS,
        now,
    )
    &&& tracer.dkg_broadcasts@.contains_key((from + 1) as usize)
    &&& call_ensures(
        P::verify_share,
        (
            &tracer.dkg_broadcasts@[(from + 1) as usize],
            &share,
            (tracer.index->0 + 1) as usize,
        ),
        true,
    )
}

/// Every share that an inbox puts on file was sealed by the dealer it is filed
/// under and matches that dealer's broadcast.
pub proof fn shares_on_file_are_vouched_for<P: Scheme>(
    tracer: Tracer<P>,
    items: Seq<(usize, SecurePackage)>,
    times: Seq<u64>,
    after: Tracer<P>,
    dealer: usize,
)
    requires
        tracer.receives_inbox(items, times, after),
        after.dkg_shares_received@.contains_key(dealer),
    ensures
        ({
            let share = after.dkg_shares_received@[dealer];
            ||| tracer.dkg_shares_received@.contains_key(dealer)
                && tracer.dkg_shares_received@[dealer] == share
            ||| exists|i: int|
                0 <= i < items.len() && (#[trigger] items[i]).0 + 1 == dealer && vouched_share(
                    tracer,
                    items[i].0,
                    items[i].1,
                    times[i],
                    share,
                )
        }),
{
    let outcomes = choose|outcomes: Seq<Option<P::Share>>|
        {
            &&& outcomes.len() == items.len()
            &&& forall|i: int|
                0 <= i < items.len() ==> tracer.receives_share(
                    items[i].0,
                    items[i].1,
                    times[i],
                    #[trigger] outcomes[i],
                )
            &&& tracer.same_but_shares(after)
            &&& after.dkg_shares_received@ == #[trigger] absorbed(
                tracer.dkg_shares_received@,
                ids_of(items),
                outcomes,
            )
        };
    lemma_absorbed_origin(tracer.dkg_shares_received@, ids_of(items), outcomes, dealer);
    let share = after.dkg_shares_received@[dealer];
    if !(tracer.dkg_shares_received@.contains_key(dealer) && tracer.dkg_shares_received@[dealer]
        == share) {
        let i = choose|i: int|
            0 <= i < outcomes.len() && (ids_of(items)[i] + 1) as usize == dealer
                && #[trigger] outcomes[i] == Some(share);
        assert(tracer.receives_share(items[i].0, items[i].1, times[i], outcomes[i]));
        if let Ok(plain) = opened(
            tracer.transport_kp.secret(),
            tracer.peer_keys(items[i].0 as int)->0,
            items[i].1,
            times[i],
        ) {
            assert(tracer.takes_share(items[i].0, plain, outcomes[i]));
        }
        assert(vouched_share(tracer, items[i].0, items[i].1, times[i], share));
        assert(tracer.peer_tracers->0@.len() == tracer.peer_tracers->0.len());
        assert(items[i].0 + 1 == dealer);
    }
}

/// Whether tracer `from` signed this package within the last minute, and the
/// broadcast's proof of knowledge verifies.
pub open spec fn vouched_broadcast<P: Scheme>(
    tracer: Tracer<P>,
    from: usize,
    package: BroadcastPackage,
    now: u64,
    broadcast: P::DkgBroadcast,
) -> bool {
    &&& tracer.peer_keys(from as int) is Some
    &&& broadcast_valid(
        tracer.peer_keys(from as int)->0.identity_pk,
        package,
        MAX_AGE_SECONDS,
        now,
    )
    &&& call_ensures(P::verify_broadcast, (&broadcast, tracer.te->0), true)
}

/// Every broadcast that the mesh puts on file was signed by the dealer it is
/// filed under and carries a valid proof of knowledge.
pub proof fn broadcasts_on_file_are_vouched_for<P: Scheme>(
    tracer: Tracer<P>,
    items: Seq<(usize, BroadcastPackage)>,
    times: Seq<u64>,
    after: Tracer<P>,
    dealer: usize,
)
    requires
        tracer.hears_round1(items, times, after),
        after.dkg_broadcasts@.contains_key(dealer),
    ensures
        ({
            let broadcast = after.dkg_broadcasts@[dealer];
            ||| tracer.dkg_broadcasts@.contains_key(dealer) && tracer.dkg_broadcasts@[dealer]
                == broadcast
            ||| exists|i: int|
                0 <= i < items.len() && (#[trigger] items[i]).0 + 1 == dealer && vouched_broadcast(
                    tracer,
                    items[i].0,
                    items[i].1,
                    times[i],
                    broadcast,
                )
        }),
{
    let outcomes = choose|outcomes: Seq<Option<P::DkgBroadcast>>|
        {
            &&& outcomes.len() == items.len()
            &&& forall|i: int|
                0 <= i < items.len() ==> tracer.hears_broadcast(
                    items[i].0,
                    items[i].1,
                    times[i],
                    #[trigger] outcomes[i],
                )
            &&& tracer.same_but_broadcasts(after)
            &&& after.dkg_broadcasts@ == #[trigger] absorbed(
                tracer.dkg_broadcasts@,
                ids_of(items),
                outcomes,
            )
        };
    lemma_absorbed_origin(tracer.dkg_broadcasts@, ids_of(items), outcomes, dealer);
    let broadcast = after.dkg_broadcasts@[dealer];
    if !(tracer.dkg_broadcasts@.contains_key(dealer) && tracer.dkg_broadcasts@[dealer]
        == broadcast) {
        let i = choose|i: int|
            0 <= i < outcomes.len() && (ids_of(items)[i] + 1) as usize == dealer
                && #[trigger] outcomes[i] == Some(broadcast);
        assert(tracer.hears_broadcast(items[i].0, items[i].1, times[i], outcomes[i]));
        assert(vouched_broadcast(tracer, items[i].0, items[i].1, times[i], broadcast));
        assert(tracer.peer_tracers->0@.len() == tracer.peer_tracers->0.len());
        assert(items[i].0 + 1 == dealer);
    }
}

// === Tracing ===============================================================

/// Every tracer verifies and traces on the very evidence that the combiner
/// announced, and on nothing that the combiner did not sign.
pub proof fn evidence_arrives<P: Scheme>(
    combiner: Combiner<P>,
    combiner_keys: ActorKeys,
    evidence: combiner::TracerPackage<P::Proofs, P::Attestation>,
    text: Seq<u8>,
    package: BroadcastPackage,
    tracer: Tracer<P>,
    now: u64,
    res: Result<(), Error>,
    after: Tracer<P>,
)
    requires
        keeps_evidence::<P>(),
        owns(combiner.identity_kp, combiner.transport_kp, combiner_keys),
        writes_evidence::<P>(evidence, text),
        announces(combiner.identity_kp, text, package),
        tracer.combiner_keys == Some(combiner_keys),
        tracer.loads_from_combiner(package, now, res, after),
    ensures
        fresh(package.timestamp, MAX_AGE_SECONDS, now) ==> tracer.accepts_evidence(
            Some(evidence),
            res,
            after,
        ) && res is Ok,
        !fresh(package.timestamp, MAX_AGE_SECONDS, now) ==> res == Err::<(), Error>(
            Error::InvalidSignature,
        ) && after == tracer,
{
    assert(broadcast_valid(combiner.identity_kp.public(), package, MAX_AGE_SECONDS, now) == fresh(
        package.timestamp,
        MAX_AGE_SECONDS,
        now,
    ));
}

/// What a tracer verifies is about its own registry: whatever evidence it
/// loads, the keys that it checks against and its share stay its own.
pub proof fn evidence_leaves_own_keys_alone<P: Scheme>(
    tracer: Tracer<P>,
    package: BroadcastPackage,
    now: u64,
    res: Result<(), Error>,
    after: Tracer<P>,
    sigma: Sigma<P::Attestation>,
)
    requires
        tracer.loads_from_combiner(package, now, res, after),
    ensures
        after.pk == tracer.pk,
        after.pk_e == tracer.pk_e,
        after.tracer_key_share == tracer.tracer_key_share,
        after.statement_for(sigma).pk == &tracer.pk->0,
{
}

/// A partial decryption that one tracer seals for another reaches it as it
/// was sent.
pub proof fn partial_decryption_arrives<P: Scheme>(
    sender: Tracer<P>,
    sender_keys: ActorKeys,
    tracer: Tracer<P>,
    tracer_keys: ActorKeys,
    from: usize,
    partial: PartialDecryption<P::PartialBody>,
    plain: Seq<u8>,
    package: SecurePackage,
    now: u64,
    outcome: Option<PartialDecryption<P::PartialBody>>,
)
    requires
        keeps_partials::<P>(),
        owns(sender.identity_kp, sender.transport_kp, sender_keys),
        owns(tracer.identity_kp, tracer.transport_kp, tracer_keys),
        tracer.peer_keys(from as int) == Some(sender_keys),
        writes_partial::<P>(partial, plain),
        sender.sends(tracer_keys, plain, Ok(package)),
        tracer.receives_partial(from, package, now, outcome),
    ensures
        fresh(package.timestamp, MAX_AGE_SECONDS, now) ==> outcome == Some(partial),
        !fresh(package.timestamp, MAX_AGE_SECONDS, now) ==> outcome is None,
{
    sealed_data_is_read(
        sender.identity_kp,
        sender.transport_kp,
        sender_keys,
        tracer.transport_kp,
        plain,
        package,
        now,
    );
}

} // verus!
