//! What holds of the signing protocol, in terms of what goes in, what the
//! scheme answers, and what comes out.
use vstd::pervasive::cloned;
use vstd::prelude::*;

use crate::authority;
use crate::authority::{ActorKeys, Authority, KeyPairs};
use crate::combiner;
use crate::combiner::{all_there, in_order, values_at, Combiner, TracerPublicKeyPackage};
use crate::crypto::{
    announces, broadcast_valid, fresh, opened, owns, seals, BroadcastPackage, SecurePackage,
    TransportKeyPair, MAX_AGE_SECONDS,
};
use crate::group::Gt;
use crate::keys::{Error, PublicKey};
use crate::laws::{
    keeps_challenges, keeps_commitments, keeps_evidence, keeps_public_keys, keeps_signs,
    sealed_data_is_read,
};
use crate::network::AuthorityAnchor;
use crate::scheme::{ElGamalCiphertext, Scheme, Sigma};
use crate::signer::{CommitmentPackage, SigmaPackage, Signer};
use crate::signing::{first_components, second_components};
use crate::tracer::{DkgSharePayload, Tracer};
use crate::wire::{
    reads_challenge, reads_combiner_credentials, reads_commitment, reads_sign,
    reads_signer_credentials, reads_tracer_public_key, writes_challenge, writes_commitment,
    writes_evidence, writes_share, writes_sign, writes_tracer_public_key,
};

verus! {

broadcast use {
    vstd::std_specs::btree::group_btree_axioms,
    vstd::std_specs::hash::group_hash_axioms,
};

// === Configuration =========================================================

/// The Authority is known by the two keys that it published, each in its own
/// place.
pub proof fn anchors_name_both_keys(anchor: AuthorityAnchor)
    ensures
        anchor.actor_keys().identity_pk == anchor.identity_pk,
        anchor.actor_keys().transport_pk == anchor.transport_pk,
{
}

/// A signer takes over its key pair and the combiner's keys, and nothing else
/// changes; credentials that cannot be read change nothing.
pub proof fn signers_take_over_their_credentials<P: Scheme>(
    signer: Signer<P>,
    config: Option<authority::SignerPackage<P::KeyPair>>,
    res: Result<(), Error>,
    after: Signer<P>,
)
    requires
        signer.configures(config, res, after),
    ensures
        res is Ok <==> config is Some,
        config is None ==> res == Err::<(), Error>(Error::InvalidMessage) && after == signer,
        config is Some ==> {
            &&& after.taps_kp == Some(config->0.my_kp)
            &&& after.combiner_keys == Some(config->0.combiner_keys)
            &&& after.id == signer.id
            &&& after.identity_kp == signer.identity_kp
            &&& after.transport_kp == signer.transport_kp
            &&& after.current_commitment == signer.current_commitment
        },
{
}

/// The combiner takes over its credentials whole where each roster has one
/// entry per actor, and not at all otherwise; what it has collected stays.
pub proof fn combiners_take_over_their_credentials<P: Scheme>(
    combiner: Combiner<P>,
    config: Option<authority::CombinerPackage<P::KeyPair, P::Quorum>>,
    res: Result<(), Error>,
    after: Combiner<P>,
)
    requires
        combiner.configures(config, res, after),
    ensures
        res is Ok <==> config is Some && config->0.signer_keys@.len() == config->0.n
            && config->0.tracer_keys@.len() == config->0.n3,
        res is Err ==> res == Err::<(), Error>(Error::InvalidMessage) && after == combiner,
        res is Ok ==> {
            &&& after.taps_kp == Some(config->0.kp_cs)
            &&& after.pk_i == Some(config->0.pk_i)
            &&& after.quorum == Some(config->0.quo)
            &&& after.n == Some(config->0.n)
            &&& after.t == Some(config->0.t)
            &&& after.n3 == Some(config->0.n3)
            &&& after.te == Some(config->0.te)
            &&& after.signer_keys == Some(config->0.signer_keys)
            &&& after.tracer_keys == Some(config->0.tracer_keys)
            &&& after.identity_kp == combiner.identity_kp
            &&& after.transport_kp == combiner.transport_kp
            &&& after.commitments == combiner.commitments
            &&& after.sigmas == combiner.sigmas
            &&& after.tracer_public_keys == combiner.tracer_public_keys
            &&& after.pk == combiner.pk
            &&& after.pk_e == combiner.pk_e
        },
{
}

/// Credentials are read with the keys that the Authority published, and
/// refused for the reason for which the package cannot be opened.
pub proof fn credentials_are_opened_with_the_anchor<P: Scheme>(
    signer: Signer<P>,
    combiner: Combiner<P>,
    package: SecurePackage,
    anchor: AuthorityAnchor,
    now: u64,
    signer_res: Result<(), Error>,
    signer_after: Signer<P>,
    combiner_res: Result<(), Error>,
    combiner_after: Combiner<P>,
)
    requires
        signer.loads_from_authority(package, anchor, now, signer_res, signer_after),
        combiner.loads_from_authority(package, anchor, now, combiner_res, combiner_after),
    ensures
        ({
            let keys = ActorKeys {
                identity_pk: anchor.identity_pk,
                transport_pk: anchor.transport_pk,
            };
            let for_signer = opened(signer.transport_kp.secret(), keys, package, now);
            let for_combiner = opened(combiner.transport_kp.secret(), keys, package, now);
            &&& for_signer is Err ==> signer_after == signer && signer_res == Err::<(), Error>(
                for_signer->Err_0,
            )
            &&& for_combiner is Err ==> combiner_after == combiner && combiner_res == Err::<
                (),
                Error,
            >(for_combiner->Err_0)
            &&& for_signer is Ok && signer_res is Ok ==> exists|
                config: authority::SignerPackage<P::KeyPair>,
            |
                {
                    &&& #[trigger] reads_signer_credentials::<P>(for_signer->Ok_0, Some(config))
                    &&& signer_after.taps_kp == Some(config.my_kp)
                    &&& signer_after.combiner_keys == Some(config.combiner_keys)
                }
            &&& for_combiner is Ok && combiner_res is Ok ==> exists|
                config: authority::CombinerPackage<P::KeyPair, P::Quorum>,
            |
                {
                    &&& #[trigger] reads_combiner_credentials::<P>(
                        for_combiner->Ok_0,
                        Some(config),
                    )
                    &&& combiner_after.n == Some(config.n)
                    &&& combiner_after.signer_keys == Some(config.signer_keys)
                    &&& combiner_after.tracer_keys == Some(config.tracer_keys)
                }
        }),
{
    let keys = anchor.actor_keys();
    if let Ok(plain) = opened(signer.transport_kp.secret(), keys, package, now) {
        let config = choose|config: Option<authority::SignerPackage<P::KeyPair>>|
            reads_signer_credentials::<P>(plain, config) && #[trigger] signer.configures(
                config,
                signer_res,
                signer_after,
            );
        if let Some(read) = config {
            assert(reads_signer_credentials::<P>(plain, Some(read)));
        }
    }
    if let Ok(plain) = opened(combiner.transport_kp.secret(), keys, package, now) {
        let config = choose|config: Option<authority::CombinerPackage<P::KeyPair, P::Quorum>>|
            reads_combiner_credentials::<P>(plain, config) && #[trigger] combiner.configures(
                config,
                combiner_res,
                combiner_after,
            );
        if let Some(read) = config {
            assert(reads_combiner_credentials::<P>(plain, Some(read)));
        }
    }
}

/// Every signer and tracer on its roster is known by its entry, and nobody
/// else.
pub proof fn combiners_know_their_rosters<P: Scheme>(combiner: Combiner<P>, id: usize)
    ensures
        combiner.signer_keys is Some && id < combiner.signer_keys->0@.len()
            ==> combiner.signer_keys_of(id) == Some(combiner.signer_keys->0@[id as int]),
        combiner.signer_keys is None || id >= combiner.signer_keys->0@.len()
            ==> combiner.signer_keys_of(id) is None,
        combiner.tracer_keys is Some && id < combiner.tracer_keys->0@.len()
            ==> combiner.tracer_keys_of(id) == Some(combiner.tracer_keys->0@[id as int]),
        combiner.tracer_keys is None || id >= combiner.tracer_keys->0@.len()
            ==> combiner.tracer_keys_of(id) is None,
{
}

/// What a signer or tracer sends is opened with that actor's own keys; nobody
/// outside the rosters is heard.
pub proof fn packages_are_opened_with_the_senders_keys<P: Scheme>(
    combiner: Combiner<P>,
    id: usize,
    package: SecurePackage,
    now: u64,
)
    ensures
        combiner.signer_keys is Some && id < combiner.signer_keys->0@.len()
            ==> combiner.opened_from_signer(id, package, now) == opened(
            combiner.transport_kp.secret(),
            combiner.signer_keys->0@[id as int],
            package,
            now,
        ),
        combiner.signer_keys is None || id >= combiner.signer_keys->0@.len()
            ==> combiner.opened_from_signer(id, package, now) == Err::<Seq<u8>, Error>(
            Error::InvalidMessage,
        ),
        combiner.tracer_keys is Some && id < combiner.tracer_keys->0@.len()
            ==> combiner.opened_from_tracer(id, package, now) == opened(
            combiner.transport_kp.secret(),
            combiner.tracer_keys->0@[id as int],
            package,
            now,
        ),
        combiner.tracer_keys is None || id >= combiner.tracer_keys->0@.len()
            ==> combiner.opened_from_tracer(id, package, now) == Err::<Seq<u8>, Error>(
            Error::InvalidMessage,
        ),
{
}

/// The Authority hands out the public key of every signer, by signer id.
pub proof fn every_signer_key_is_listed<P: Scheme>(keys: KeyPairs<P>, pks: Seq<PublicKey>, id: int)
    requires
        keys.lists_public_keys(pks),
    ensures
        pks.len() == keys.signers_keys@.len(),
        0 <= id < keys.signers_keys@.len() ==> call_ensures(
            P::public_key,
            (&keys.signers_keys@[id],),
            pks[id],
        ),
{
}

// === Sending ===============================================================

/// What the Authority sends, its receiver reads for a minute; only data that
/// is too long for the cipher is not sent.
pub proof fn the_authority_is_heard<P: Scheme>(
    authority: Authority<P>,
    keys: ActorKeys,
    receiver: TransportKeyPair,
    plain: Seq<u8>,
    res: Result<SecurePackage, Error>,
)
    requires
        authority.sends(receiver.public(), plain, res),
        owns(authority.identity_kp, authority.transport_kp, keys),
        receiver.wf(),
    ensures
        res is Ok <==> plain.len() <= 68_719_476_736,
        res is Err ==> res == Err::<SecurePackage, Error>(Error::InvalidMessage),
        res is Ok ==> forall|now: u64|
            fresh((res->Ok_0).timestamp, MAX_AGE_SECONDS, now) ==> #[trigger] opened(
                receiver.secret(),
                keys,
                res->Ok_0,
                now,
            ) == Ok::<Seq<u8>, Error>(plain),
{
    if let Ok(package) = res {
        assert forall|now: u64|
            fresh(package.timestamp, MAX_AGE_SECONDS, now) implies #[trigger] opened(
            receiver.secret(),
            keys,
            package,
            now,
        ) == Ok::<Seq<u8>, Error>(plain) by {
            sealed_data_is_read(
                authority.identity_kp,
                authority.transport_kp,
                keys,
                receiver,
                plain,
                package,
                now,
            );
        }
    }
}

/// What a signer sends to the owner of some keys, that owner reads for a
/// minute; only data that is too long for the cipher is not sent.
pub proof fn signers_are_heard<P: Scheme>(
    signer: Signer<P>,
    keys: ActorKeys,
    to: ActorKeys,
    receiver: TransportKeyPair,
    plain: Seq<u8>,
    res: Result<SecurePackage, Error>,
)
    requires
        signer.sends(to, plain, res),
        owns(signer.identity_kp, signer.transport_kp, keys),
        receiver.wf(),
        to.transport_pk == receiver.public(),
    ensures
        res is Ok <==> plain.len() <= 68_719_476_736,
        res is Err ==> res == Err::<SecurePackage, Error>(Error::InvalidMessage),
        res is Ok ==> forall|now: u64|
            fresh((res->Ok_0).timestamp, MAX_AGE_SECONDS, now) ==> #[trigger] opened(
                receiver.secret(),
                keys,
                res->Ok_0,
                now,
            ) == Ok::<Seq<u8>, Error>(plain),
{
    if let Ok(package) = res {
        assert forall|now: u64|
            fresh(package.timestamp, MAX_AGE_SECONDS, now) implies #[trigger] opened(
            receiver.secret(),
            keys,
            package,
            now,
        ) == Ok::<Seq<u8>, Error>(plain) by {
            sealed_data_is_read(
                signer.identity_kp,
                signer.transport_kp,
                keys,
                receiver,
                plain,
                package,
                now,
            );
        }
    }
}

/// What a tracer sends to the owner of some keys, that owner reads for a
/// minute; only data that is too long for the cipher is not sent.
pub proof fn tracers_are_heard<P: Scheme>(
    tracer: Tracer<P>,
    keys: ActorKeys,
    to: ActorKeys,
    receiver: TransportKeyPair,
    plain: Seq<u8>,
    res: Result<SecurePackage, Error>,
)
    requires
        tracer.sends(to, plain, res),
        owns(tracer.identity_kp, tracer.transport_kp, keys),
        receiver.wf(),
        to.transport_pk == receiver.public(),
    ensures
        res is Ok <==> plain.len() <= 68_719_476_736,
        res is Err ==> res == Err::<SecurePackage, Error>(Error::InvalidMessage),
        res is Ok ==> forall|now: u64|
            fresh((res->Ok_0).timestamp, MAX_AGE_SECONDS, now) ==> #[trigger] opened(
                receiver.secret(),
                keys,
                res->Ok_0,
                now,
            ) == Ok::<Seq<u8>, Error>(plain),
{
    if let Ok(package) = res {
        assert forall|now: u64|
            fresh(package.timestamp, MAX_AGE_SECONDS, now) implies #[trigger] opened(
            receiver.secret(),
            keys,
            package,
            now,
        ) == Ok::<Seq<u8>, Error>(plain) by {
            sealed_data_is_read(
                tracer.identity_kp,
                tracer.transport_kp,
                keys,
                receiver,
                plain,
                package,
                now,
            );
        }
    }
}

/// A tracer owes every tracer on its roster the share for that tracer's own
/// party index, and sends it sealed for that tracer; it owes nobody else one.
pub proof fn every_peer_is_dealt_its_share<P: Scheme>(
    tracer: Tracer<P>,
    peer: usize,
    res: Result<SecurePackage, Error>,
)
    requires
        tracer.sends_share(peer, res),
    ensures
        tracer.peer_tracers is None || peer >= tracer.peer_tracers->0@.len() ==> res == Err::<
            SecurePackage,
            Error,
        >(Error::InvalidMessage),
        tracer.peer_tracers is Some && peer < tracer.peer_tracers->0@.len() ==> exists|
            share: P::Share,
            plain: Seq<u8>,
        |
            {
                &&& call_ensures(
                    P::share_for,
                    (&tracer.dkg_participant->0, (peer + 1) as usize),
                    share,
                )
                &&& #[trigger] writes_share::<P>(DkgSharePayload { share }, plain)
                &&& res is Ok <==> plain.len() <= 68_719_476_736
                &&& res is Ok ==> seals(
                    tracer.identity_kp,
                    tracer.transport_kp,
                    tracer.peer_tracers->0@[peer as int].transport_pk,
                    plain,
                    res->Ok_0,
                )
            },
{
    if let Some(keys) = tracer.peer_keys(peer as int) {
        let (share, plain) = choose|share: P::Share, plain: Seq<u8>|
            #![trigger writes_share::<P>(DkgSharePayload { share }, plain)]
            {
                &&& call_ensures(
                    P::share_for,
                    (&tracer.dkg_participant->0, (peer + 1) as usize),
                    share,
                )
                &&& writes_share::<P>(DkgSharePayload { share }, plain)
                &&& tracer.sends(keys, plain, res)
            };
        assert(writes_share::<P>(DkgSharePayload { share }, plain));
    }
}

// === The signers' contributions ============================================

/// A commitment that a signer on the roster sealed for the combiner within the
/// last minute is stored under that signer's id, whichever id below `n` that
/// is, in place of any earlier one; nobody else's changes. A signer with an id
/// from `n` on changes nothing.
pub proof fn good_commitments_are_stored<P: Scheme>(
    combiner: Combiner<P>,
    signer: Signer<P>,
    id: usize,
    commitment: P::Commitment,
    plain: Seq<u8>,
    package: SecurePackage,
    now: u64,
    res: Result<(), Error>,
    after: Combiner<P>,
)
    requires
        keeps_commitments::<P>(),
        combiner.loads_commitment(id, package, now, res, after),
        combiner.transport_kp.wf(),
        combiner.n is Some,
        combiner.signer_keys is Some,
        id < combiner.signer_keys->0@.len(),
        owns(signer.identity_kp, signer.transport_kp, combiner.signer_keys->0@[id as int]),
        writes_commitment::<P>(CommitmentPackage { commitment }, plain),
        seals(
            signer.identity_kp,
            signer.transport_kp,
            combiner.transport_kp.public(),
            plain,
            package,
        ),
        fresh(package.timestamp, MAX_AGE_SECONDS, now),
    ensures
        res is Ok,
        id < combiner.n->0 ==> {
            &&& after.commitments@.contains_key(id)
            &&& after.commitments@[id] == commitment
            &&& after.commitments@.dom() == combiner.commitments@.dom().insert(id)
            &&& forall|other: usize|
                other != id && combiner.commitments@.contains_key(other)
                    ==> #[trigger] after.commitments@[other] == combiner.commitments@[other]
        },
        id >= combiner.n->0 ==> after.commitments@ == combiner.commitments@,
        after == (Combiner { commitments: after.commitments, ..combiner }),
{
    sealed_data_is_read(
        signer.identity_kp,
        signer.transport_kp,
        combiner.signer_keys->0@[id as int],
        combiner.transport_kp,
        plain,
        package,
        now,
    );
    assert(combiner.takes_commitment(id, plain, res, after));
}

/// A signature share that a signer on the roster sealed for the combiner
/// within the last minute is stored under that signer's id, whichever id below
/// `n` that is, in place of any earlier one; nobody else's changes. A signer
/// with an id from `n` on changes nothing.
pub proof fn good_signature_shares_are_stored<P: Scheme>(
    combiner: Combiner<P>,
    signer: Signer<P>,
    id: usize,
    z: P::Sign,
    plain: Seq<u8>,
    package: SecurePackage,
    now: u64,
    res: Result<(), Error>,
    after: Combiner<P>,
)
    requires
        keeps_signs::<P>(),
        combiner.loads_sign(id, package, now, res, after),
        combiner.transport_kp.wf(),
        combiner.n is Some,
        combiner.signer_keys is Some,
        id < combiner.signer_keys->0@.len(),
        owns(signer.identity_kp, signer.transport_kp, combiner.signer_keys->0@[id as int]),
        writes_sign::<P>(SigmaPackage { z }, plain),
        seals(
            signer.identity_kp,
            signer.transport_kp,
            combiner.transport_kp.public(),
            plain,
            package,
        ),
        fresh(package.timestamp, MAX_AGE_SECONDS, now),
    ensures
        res is Ok,
        id < combiner.n->0 ==> {
            &&& after.sigmas@.contains_key(id)
            &&& after.sigmas@[id] == z
            &&& after.sigmas@.dom() == combiner.sigmas@.dom().insert(id)
            &&& forall|other: usize|
                other != id && combiner.sigmas@.contains_key(other)
                    ==> #[trigger] after.sigmas@[other] == combiner.sigmas@[other]
        },
        id >= combiner.n->0 ==> after.sigmas@ == combiner.sigmas@,
        after == (Combiner { sigmas: after.sigmas, ..combiner }),
{
    sealed_data_is_read(
        signer.identity_kp,
        signer.transport_kp,
        combiner.signer_keys->0@[id as int],
        combiner.transport_kp,
        plain,
        package,
        now,
    );
    assert(combiner.takes_sign(id, plain, res, after));
}

/// The same contributions, handed in already decoded: kept exactly where the
/// signer's id is below `n`.
pub proof fn participants_contributions_are_kept<P: Scheme>(
    combiner: Combiner<P>,
    id: usize,
    commitment: P::Commitment,
    z: P::Sign,
    committed: Combiner<P>,
    signed: Combiner<P>,
)
    requires
        combiner.stores_commitment(id, commitment, committed),
        combiner.stores_sign(id, z, signed),
    ensures
        combiner.n is Some && id < combiner.n->0 ==> {
            &&& committed.commitments@ == combiner.commitments@.insert(id, commitment)
            &&& signed.sigmas@ == combiner.sigmas@.insert(id, z)
        },
        combiner.n is None || id >= combiner.n->0 ==> {
            &&& committed.commitments@ == combiner.commitments@
            &&& signed.sigmas@ == combiner.sigmas@
        },
        committed.sigmas == combiner.sigmas,
        signed.commitments == combiner.commitments,
        committed == (Combiner { commitments: committed.commitments, ..combiner }),
        signed == (Combiner { sigmas: signed.sigmas, ..combiner }),
{
}

/// A `pk_k` that a tracer on the roster sealed for the combiner within the
/// last minute is stored under that tracer's id, whichever it is.
pub proof fn good_public_keys_are_stored<P: Scheme>(
    combiner: Combiner<P>,
    tracer: Tracer<P>,
    id: usize,
    pk: Gt,
    plain: Seq<u8>,
    package: SecurePackage,
    now: u64,
    res: Result<(), Error>,
    after: Combiner<P>,
)
    requires
        keeps_public_keys::<P>(),
        combiner.loads_public_key(id, package, now, res, after),
        combiner.transport_kp.wf(),
        combiner.tracer_keys is Some,
        id < combiner.tracer_keys->0@.len(),
        owns(tracer.identity_kp, tracer.transport_kp, combiner.tracer_keys->0@[id as int]),
        writes_tracer_public_key::<P>(TracerPublicKeyPackage { pk }, plain),
        seals(
            tracer.identity_kp,
            tracer.transport_kp,
            combiner.transport_kp.public(),
            plain,
            package,
        ),
        fresh(package.timestamp, MAX_AGE_SECONDS, now),
    ensures
        res is Ok,
        after.tracer_public_keys@.contains_key(id),
        after.tracer_public_keys@[id] == pk,
        after.tracer_public_keys@.dom() == combiner.tracer_public_keys@.dom().insert(id),
        forall|other: usize|
            other != id && combiner.tracer_public_keys@.contains_key(other)
                ==> #[trigger] after.tracer_public_keys@[other]
                == combiner.tracer_public_keys@[other],
        after == (Combiner { tracer_public_keys: after.tracer_public_keys, ..combiner }),
{
    sealed_data_is_read(
        tracer.identity_kp,
        tracer.transport_kp,
        combiner.tracer_keys->0@[id as int],
        combiner.transport_kp,
        plain,
        package,
        now,
    );
    assert(combiner.takes_public_key(id, plain, res, after));
}

/// A commitment goes to the combiner as the scheme makes it from the nonce
/// that was drawn.
pub proof fn commitments_are_made_from_the_nonce<P: Scheme>(
    signer: Signer<P>,
    keys: ActorKeys,
    commit: P::Commit,
    res: Result<SecurePackage, Error>,
)
    requires
        signer.sends_commitment(keys, commit, res),
    ensures
        exists|commitment: P::Commitment, plain: Seq<u8>|
            {
                &&& call_ensures(P::commitment, (&commit,), commitment)
                &&& #[trigger] writes_commitment::<P>(CommitmentPackage { commitment }, plain)
                &&& res is Ok <==> plain.len() <= 68_719_476_736
                &&& res is Err ==> res == Err::<SecurePackage, Error>(Error::InvalidMessage)
                &&& res is Ok ==> seals(
                    signer.identity_kp,
                    signer.transport_kp,
                    keys.transport_pk,
                    plain,
                    res->Ok_0,
                )
            },
{
    let (commitment, plain) = choose|commitment: P::Commitment, plain: Seq<u8>|
        #![trigger writes_commitment::<P>(CommitmentPackage { commitment }, plain)]
        {
            &&& call_ensures(P::commitment, (&commit,), commitment)
            &&& writes_commitment::<P>(CommitmentPackage { commitment }, plain)
            &&& signer.sends(keys, plain, res)
        };
    assert(writes_commitment::<P>(CommitmentPackage { commitment }, plain));
}

/// A challenge that the combiner signed within the last minute is answered
/// with the share that the signer's own nonce and key make for it, sealed for
/// the combiner.
pub proof fn good_challenges_are_answered<P: Scheme>(
    signer: Signer<P>,
    challenge: combiner::SignerPackage,
    package: BroadcastPackage,
    now: u64,
    res: Result<SecurePackage, Error>,
)
    requires
        keeps_challenges::<P>(),
        signer.sets_sigma(package, now, res),
        signer.combiner_keys is Some,
        signer.current_commitment is Some,
        signer.taps_kp is Some,
        broadcast_valid(signer.combiner_keys->0.identity_pk, package, MAX_AGE_SECONDS, now),
        writes_challenge::<P>(challenge, package.text@),
    ensures
        exists|z: P::Sign, plain: Seq<u8>|
            {
                &&& call_ensures(
                    P::sign,
                    (&signer.current_commitment->0, &signer.taps_kp->0, &challenge.c),
                    z,
                )
                &&& #[trigger] writes_sign::<P>(SigmaPackage { z }, plain)
                &&& res is Ok <==> plain.len() <= 68_719_476_736
                &&& res is Err ==> res == Err::<SecurePackage, Error>(Error::InvalidMessage)
                &&& res is Ok ==> seals(
                    signer.identity_kp,
                    signer.transport_kp,
                    signer.combiner_keys->0.transport_pk,
                    plain,
                    res->Ok_0,
                )
            },
{
    let keys = signer.combiner_keys->0;
    assert(signer.answers(keys, Some(challenge), res));
    let (z, plain) = choose|z: P::Sign, plain: Seq<u8>|
        #![trigger writes_sign::<P>(SigmaPackage { z }, plain)]
        {
            &&& call_ensures(
                P::sign,
                (&signer.current_commitment->0, &signer.taps_kp->0, &challenge.c),
                z,
            )
            &&& writes_sign::<P>(SigmaPackage { z }, plain)
            &&& signer.sends(keys, plain, res)
        };
    assert(writes_sign::<P>(SigmaPackage { z }, plain));
}

/// What the combiner did not sign recently gets no answer, nor does anything
/// before the signer has its credentials and a nonce of this round.
pub proof fn other_challenges_are_not_answered<P: Scheme>(
    signer: Signer<P>,
    package: BroadcastPackage,
    now: u64,
    res: Result<SecurePackage, Error>,
)
    requires
        signer.sets_sigma(package, now, res),
    ensures
        signer.combiner_keys is None ==> res == Err::<SecurePackage, Error>(Error::InvalidMessage),
        signer.combiner_keys is Some && !broadcast_valid(
            signer.combiner_keys->0.identity_pk,
            package,
            MAX_AGE_SECONDS,
            now,
        ) ==> res == Err::<SecurePackage, Error>(Error::InvalidSignature),
        signer.combiner_keys is Some && broadcast_valid(
            signer.combiner_keys->0.identity_pk,
            package,
            MAX_AGE_SECONDS,
            now,
        ) && (signer.current_commitment is None || signer.taps_kp is None) ==> res == Err::<
            SecurePackage,
            Error,
        >(Error::InvalidMessage),
{
    if let Some(keys) = signer.combiner_keys {
        if broadcast_valid(keys.identity_pk, package, MAX_AGE_SECONDS, now) {
            let challenge = choose|challenge: Option<combiner::SignerPackage>|
                reads_challenge::<P>(package.text@, challenge)
                    && #[trigger] signer.answers(keys, challenge, res);
            assert(signer.answers(keys, challenge, res));
        }
    }
}

// === Aggregation ===========================================================

/// Everyone is there exactly when no signer below `n` is missing.
pub proof fn everyone_is_there_or_someone_is_missing<V>(map: Map<usize, V>, n: usize)
    ensures
        all_there(map, n) <==> !exists|i: usize| i < n && !#[trigger] map.contains_key(i),
{
}

/// What goes into an aggregate is every signer's contribution, by ascending
/// id.
pub proof fn aggregates_take_everyone_in_order<V>(
    list: Seq<&V>,
    map: Map<usize, V>,
    n: usize,
    id: usize,
)
    requires
        in_order(list, map, n),
    ensures
        list.len() == n,
        id < n ==> *list[id as int] == map[id],
{
}

/// The nonce is what the scheme makes of every signer's commitment, by
/// ascending id, and of the quorum; where the scheme refuses, so does the
/// combiner, and nothing changes.
pub proof fn nonces_are_made_from_all_commitments<P: Scheme>(
    combiner: Combiner<P>,
    res: Result<(), Error>,
    after: Combiner<P>,
)
    requires
        combiner.aggregates_nonce(res, after),
    ensures
        exists|list: Vec<&P::Commitment>, aggregate: Result<PublicKey, Error>|
            {
                &&& list@.len() == combiner.n->0
                &&& forall|i: int|
                    0 <= i < list@.len() ==> *(#[trigger] list@[i])
                        == combiner.commitments@[i as usize]
                &&& #[trigger] call_ensures(
                    P::aggregate_commitments,
                    (&list, &combiner.quorum->0),
                    aggregate,
                )
                &&& aggregate is Ok ==> res is Ok && after.R == Some(aggregate->Ok_0)
                &&& aggregate is Err ==> res == Err::<(), Error>(aggregate->Err_0) && after
                    == combiner
            },
        after == (Combiner { R: after.R, ..combiner }),
{
    let (list, aggregate) = choose|
        list: Vec<&P::Commitment>,
        aggregate: Result<PublicKey, Error>,
    |
        {
            &&& in_order(list@, combiner.commitments@, combiner.n->0)
            &&& #[trigger] call_ensures(
                P::aggregate_commitments,
                (&list, &combiner.quorum->0),
                aggregate,
            )
            &&& match aggregate {
                Ok(R) => res == Ok::<(), Error>(()) && after == (Combiner {
                    R: Some(R),
                    ..combiner
                }),
                Err(e) => res == Err::<(), Error>(e) && after == combiner,
            }
        };
    assert(call_ensures(P::aggregate_commitments, (&list, &combiner.quorum->0), aggregate));
}

/// The reports that are added up are those on file, in the order of the ids.
pub proof fn reports_are_added_in_order(reports: Map<usize, Gt>, ids: Seq<usize>, i: int)
    ensures
        values_at(reports, ids).len() == ids.len(),
        0 <= i < ids.len() ==> values_at(reports, ids)[i] == reports[ids[i]],
{
}

/// The group key is the sum of what the tracers reported. With it the registry
/// is complete: the signers' keys, the combiner's own, and the group key. A sum
/// that is no key is refused, and so is a combiner without credentials.
pub proof fn group_key_completes_the_registry<P: Scheme>(
    combiner: Combiner<P>,
    total: Option<Seq<u8>>,
    res: Result<(), Error>,
    after: Combiner<P>,
)
    requires
        combiner.establishes(total, res, after),
    ensures
        total is None ==> res == Err::<(), Error>(Error::InvalidPublicKey) && after == combiner,
        total is Some ==> {
            &&& after.pk_e is Some
            &&& after.pk_e->0@ == total->0
            &&& res is Ok <==> combiner.pk_i is Some && combiner.taps_kp is Some
            &&& res is Err ==> res == Err::<(), Error>(Error::InvalidMessage)
        },
        res is Ok ==> {
            &&& after.pk is Some
            &&& after.pk->0.pk_i@ == combiner.pk_i->0@
            &&& Some(after.pk->0.pk_e) == after.pk_e
            &&& call_ensures(P::public_key, (&combiner.taps_kp->0,), after.pk->0.pk_cs)
        },
        after == (Combiner { pk_e: after.pk_e, pk: after.pk, ..combiner }),
{
}

// === The statement =========================================================

/// Both halves of every encrypted bit are kept, each in its own place: put
/// together again they are the ciphertexts.
pub proof fn encrypted_bits_are_kept_whole(ciphertexts: Seq<ElGamalCiphertext>)
    ensures
        first_components(ciphertexts).len() == ciphertexts.len(),
        second_components(ciphertexts).len() == ciphertexts.len(),
        Seq::new(
            ciphertexts.len(),
            |i: int|
                ElGamalCiphertext {
                    c0: first_components(ciphertexts)[i],
                    c1: second_components(ciphertexts)[i],
                },
        ) == ciphertexts,
{
}

/// The combiner's statement carries everything, each in its own place: the
/// registry, the encrypted threshold, the nonce, the message, the encrypted
/// signature, and both halves of the encrypted bits.
pub proof fn combiners_state_everything<P: Scheme>(combiner: Combiner<P>)
    requires
        combiner.pk is Some,
        combiner.T is Some,
        combiner.R is Some,
        combiner.message is Some,
        combiner.C is Some,
        combiner.v0 is Some,
        combiner.v_vec is Some,
    ensures
        combiner.statement_known(),
        Some(*combiner.public_statement().pk) == combiner.pk,
        Some(*combiner.public_statement().T) == combiner.T,
        Some(*combiner.public_statement().R) == combiner.R,
        Some(*combiner.public_statement().m) == combiner.message,
        Some(*combiner.public_statement().ct) == combiner.C,
        Some(*combiner.public_statement().v0) == combiner.v0,
        Some(*combiner.public_statement().v) == combiner.v_vec,
{
}

/// Two combiners' statements are the same only if they agree in every part.
pub proof fn different_rounds_make_different_statements<P: Scheme>(a: Combiner<P>, b: Combiner<P>)
    requires
        a.pk is Some && b.pk is Some,
        a.T is Some && b.T is Some,
        a.R is Some && b.R is Some,
        a.message is Some && b.message is Some,
        a.C is Some && b.C is Some,
        a.v0 is Some && b.v0 is Some,
        a.v_vec is Some && b.v_vec is Some,
    ensures
        a.public_statement() == b.public_statement() <==> {
            &&& a.pk == b.pk
            &&& a.T == b.T
            &&& a.R == b.R
            &&& a.message == b.message
            &&& a.C == b.C
            &&& a.v0 == b.v0
            &&& a.v_vec == b.v_vec
        },
{
}

/// Nothing can be stated before every part is known.
pub proof fn statements_need_every_part<P: Scheme>(combiner: Combiner<P>)
    ensures
        combiner.statement_known() <==> {
            &&& combiner.pk is Some
            &&& combiner.T is Some
            &&& combiner.R is Some
            &&& combiner.message is Some
            &&& combiner.C is Some
            &&& combiner.v0 is Some
            &&& combiner.v_vec is Some
        },
{
}

/// The evidence carries the encrypted threshold, both halves of the encrypted
/// bits, the proof, the signature and the message.
pub proof fn evidence_carries_everything<P: Scheme>(
    combiner: Combiner<P>,
    sigma: Sigma<P::Attestation>,
    m: Seq<u8>,
    payload: combiner::TracerPackage<P::Proofs, P::Attestation>,
)
    requires
        combiner.is_evidence(sigma, m, payload),
        combiner.T is Some,
        combiner.v0 is Some,
        combiner.v_vec is Some,
        combiner.proofs is Some,
    ensures
        Some(payload.T) == combiner.T,
        payload.v0@ == combiner.v0->0@,
        payload.v_vec@ == combiner.v_vec->0@,
        cloned(combiner.proofs->0, payload.proof),
        payload.sigma.R == sigma.R,
        payload.sigma.ct == sigma.ct,
        cloned(sigma.attestation, payload.sigma.attestation),
        payload.m@ == m,
{
}

/// A tracer that takes the combiner's evidence within a minute, and holds the
/// same registry, verifies the very statement that the combiner proved: it
/// agrees in the registry, the encrypted threshold, the nonce, the message,
/// the encrypted signature, and both halves of the encrypted bits.
pub proof fn tracers_verify_what_the_combiner_proved<P: Scheme>(
    combiner: Combiner<P>,
    sigma: Sigma<P::Attestation>,
    payload: combiner::TracerPackage<P::Proofs, P::Attestation>,
    text: Seq<u8>,
    package: BroadcastPackage,
    tracer: Tracer<P>,
    now: u64,
    res: Result<(), Error>,
    after: Tracer<P>,
)
    requires
        keeps_evidence::<P>(),
        combiner.identity_kp.wf(),
        combiner.pk is Some,
        combiner.T is Some,
        combiner.R is Some,
        combiner.message is Some,
        combiner.C is Some,
        combiner.v0 is Some,
        combiner.v_vec is Some,
        sigma.R == combiner.R->0,
        sigma.ct == combiner.C->0,
        combiner.is_evidence(sigma, combiner.message->0@, payload),
        writes_evidence::<P>(payload, text),
        announces(combiner.identity_kp, text, package),
        fresh(package.timestamp, MAX_AGE_SECONDS, now),
        tracer.combiner_keys is Some,
        tracer.combiner_keys->0.identity_pk == combiner.identity_kp.public(),
        tracer.pk == combiner.pk,
        tracer.loads_from_combiner(package, now, res, after),
    ensures
        res is Ok,
        after.sigma == Some(payload.sigma),
        after.proof == Some(payload.proof),
        ({
            let stated = combiner.public_statement();
            let verified = after.statement_for(payload.sigma);
            &&& *verified.pk == combiner.pk->0 && *stated.pk == combiner.pk->0
            &&& *verified.T == combiner.T->0 && *stated.T == combiner.T->0
            &&& *verified.R == combiner.R->0 && *stated.R == combiner.R->0
            &&& verified.m@ == combiner.message->0@ && stated.m@ == combiner.message->0@
            &&& *verified.ct == combiner.C->0 && *stated.ct == combiner.C->0
            &&& verified.v0@ == combiner.v0->0@ && stated.v0@ == combiner.v0->0@
            &&& verified.v@ == combiner.v_vec->0@ && stated.v@ == combiner.v_vec->0@
        }),
{
    assert(broadcast_valid(combiner.identity_kp.public(), package, MAX_AGE_SECONDS, now) == fresh(
        package.timestamp,
        MAX_AGE_SECONDS,
        now,
    ));
}

/// A contribution counts as taken only if something could be read from it,
/// and it is what was read that is stored; where nothing can be read, it is
/// refused and changes nothing.
pub proof fn unreadable_contributions_are_refused<P: Scheme>(
    combiner: Combiner<P>,
    id: usize,
    plain: Seq<u8>,
    committed: Result<(), Error>,
    with_commitment: Combiner<P>,
    signed: Result<(), Error>,
    with_sign: Combiner<P>,
    reported: Result<(), Error>,
    with_key: Combiner<P>,
)
    requires
        combiner.takes_commitment(id, plain, committed, with_commitment),
        combiner.takes_sign(id, plain, signed, with_sign),
        combiner.takes_public_key(id, plain, reported, with_key),
    ensures
        committed is Ok ==> exists|payload: CommitmentPackage<P::Commitment>| #[trigger]
            reads_commitment::<P>(plain, Some(payload)) && (combiner.n is Some && id < combiner.n->0
                ==> with_commitment.commitments@ == combiner.commitments@.insert(
                id,
                payload.commitment,
            )),
        committed is Err ==> committed == Err::<(), Error>(Error::InvalidMessage) && with_commitment
            == combiner && reads_commitment::<P>(plain, None),
        signed is Ok ==> exists|payload: SigmaPackage<P::Sign>| #[trigger]
            reads_sign::<P>(plain, Some(payload)) && (combiner.n is Some && id < combiner.n->0
                ==> with_sign.sigmas@ == combiner.sigmas@.insert(id, payload.z)),
        signed is Err ==> signed == Err::<(), Error>(Error::InvalidMessage) && with_sign == combiner
            && reads_sign::<P>(plain, None),
        reported is Ok ==> exists|payload: TracerPublicKeyPackage| #[trigger]
            reads_tracer_public_key::<P>(plain, Some(payload)) && with_key.tracer_public_keys@
                == combiner.tracer_public_keys@.insert(id, payload.pk),
        reported is Err ==> reported == Err::<(), Error>(Error::InvalidMessage) && with_key
            == combiner && reads_tracer_public_key::<P>(plain, None),
{
}

} // verus!
