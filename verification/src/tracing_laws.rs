//! What holds of the tracers' key generation and tracing, in terms of what goes
//! in, what the scheme answers, and what comes out.
use vstd::prelude::*;

use crate::authority::{ActorKeys, TracerPackage};
use crate::combiner;
use crate::crypto::{
    broadcast_valid, fresh, opened, owns, seals, BroadcastPackage, SecurePackage, MAX_AGE_SECONDS,
};
use crate::group::Gt;
use crate::keys::{Error, PublicKey, Scalar};
use crate::laws::{keeps_broadcasts, keeps_shares, sealed_data_is_read};
use crate::network::AuthorityAnchor;
use crate::scheme::{
    DecryptionInput, PartialDecryption, Scheme, Sigma, Statement, TracerKeyShare,
};
use crate::text::decimal;
use crate::tracer::{absorbed, evidence_judged, ids_of, present, DkgSharePayload, Tracer};
use crate::tracing::{concludes, decodes, kept, ones, ones_are_the_ones};
use crate::wire::{
    reads_evidence, reads_partial, reads_tracer_credentials, writes_broadcast, writes_share,
};

verus! {

// === Rosters and configuration =============================================

/// Every tracer on the roster is known by its entry, and nobody else.
pub proof fn tracers_know_their_roster<P: Scheme>(tracer: Tracer<P>, peer: usize)
    ensures
        tracer.peer_tracers is Some && peer < tracer.peer_tracers->0@.len() ==> tracer.peer_keys(
            peer as int,
        ) == Some(tracer.peer_tracers->0@[peer as int]),
        tracer.peer_tracers is None || peer >= tracer.peer_tracers->0@.len() ==> tracer.peer_keys(
            peer as int,
        ) is None,
{
}

/// A configuration is taken over whole where its roster has one entry per
/// tracer, and not at all otherwise; nothing else changes.
pub proof fn configuration_is_taken_over_whole<P: Scheme>(
    tracer: Tracer<P>,
    config: TracerPackage,
    res: Result<(), Error>,
    after: Tracer<P>,
)
    requires
        tracer.configures(Some(config), res, after),
    ensures
        res is Ok <==> config.peer_tracers@.len() == config.n3,
        res is Err ==> res == Err::<(), Error>(Error::InvalidMessage) && after == tracer,
        res is Ok ==> {
            &&& after.index == Some(config.index)
            &&& after.n3 == Some(config.n3)
            &&& after.te == Some(config.te)
            &&& after.t == Some(config.t)
            &&& after.n is Some
            &&& after.n->0 == config.pk_i@.len()
            &&& after.pk_i is Some
            &&& after.pk_i->0@ == config.pk_i@
            &&& after.pk_cs == Some(config.pk_cs)
            &&& after.combiner_keys == Some(config.combiner_keys)
            &&& after.peer_tracers is Some
            &&& after.peer_tracers->0@ == config.peer_tracers@
            &&& after.identity_kp == tracer.identity_kp
            &&& after.transport_kp == tracer.transport_kp
            &&& after.dkg_participant == tracer.dkg_participant
            &&& after.dkg_broadcasts == tracer.dkg_broadcasts
            &&& after.dkg_shares_received == tracer.dkg_shares_received
            &&& after.tracer_key_share == tracer.tracer_key_share
            &&& after.pk_e == tracer.pk_e
            &&& after.pk == tracer.pk
            &&& after.sigma == tracer.sigma
        },
{
    assert(config.pk_i@.len() == config.pk_i.len());
}

/// Credentials that cannot be read are refused.
pub proof fn unreadable_configuration_is_refused<P: Scheme>(
    tracer: Tracer<P>,
    res: Result<(), Error>,
    after: Tracer<P>,
)
    requires
        tracer.configures(None, res, after),
    ensures
        res == Err::<(), Error>(Error::InvalidMessage),
        after == tracer,
{
}

// === Distributed key generation ============================================

/// Whatever an item came to is on file under its own party index: exactly so
/// where no other item bears the same id.
proof fn lemma_absorbed_has<V>(
    map: Map<usize, V>,
    ids: Seq<usize>,
    outcomes: Seq<Option<V>>,
    i: int,
)
    requires
        ids.len() >= outcomes.len(),
        0 <= i < outcomes.len(),
        outcomes[i] is Some,
    ensures
        absorbed(map, ids, outcomes).contains_key((ids[i] + 1) as usize),
        (forall|j: int| 0 <= j < outcomes.len() && j != i ==> (#[trigger] ids[j] + 1) as usize != (
        ids[i] + 1) as usize) ==> absorbed(map, ids, outcomes)[(ids[i] + 1) as usize]
            == outcomes[i]->0,
    decreases outcomes.len(),
{
    let rest = outcomes.drop_last();
    let last = outcomes.len() - 1;
    if i < last {
        assert(rest[i] == outcomes[i]);
        lemma_absorbed_has(map, ids, rest, i);
        if forall|j: int| 0 <= j < outcomes.len() && j != i ==> (#[trigger] ids[j] + 1) as usize != (
        ids[i] + 1) as usize {
            assert((ids[last] + 1) as usize != (ids[i] + 1) as usize);
        }
    }
}

/// What was on file stays on file.
proof fn lemma_absorbed_keeps<V>(
    map: Map<usize, V>,
    ids: Seq<usize>,
    outcomes: Seq<Option<V>>,
    key: usize,
)
    requires
        map.contains_key(key),
    ensures
        absorbed(map, ids, outcomes).contains_key(key),
        (forall|j: int|
            0 <= j < outcomes.len() && outcomes[j] is Some ==> (#[trigger] ids[j] + 1) as usize
                != key) ==> absorbed(map, ids, outcomes)[key] == map[key],
    decreases outcomes.len(),
{
    if outcomes.len() > 0 {
        let rest = outcomes.drop_last();
        let last = outcomes.len() - 1;
        if forall|j: int|
            0 <= j < outcomes.len() && outcomes[j] is Some ==> (#[trigger] ids[j] + 1) as usize
                != key {
            assert forall|j: int| 0 <= j < rest.len() && rest[j] is Some implies (#[trigger] ids[j]
                + 1) as usize != key by {
                assert(rest[j] == outcomes[j]);
            }
            assert(outcomes[last] is Some ==> (ids[last] + 1) as usize != key);
        }
        lemma_absorbed_keeps(map, ids, rest, key);
    }
}

/// Every good share is recorded: where a tracer on the roster sealed a share
/// for this one within the last minute, its broadcast is on file, and the
/// share always verifies against that broadcast, the share is on file under
/// that dealer's party index once the inbox is loaded - the very share, where
/// the dealer sent no other. Which dealer it is has no say.
pub proof fn good_shares_are_recorded<P: Scheme>(
    tracer: Tracer<P>,
    items: Seq<(usize, SecurePackage)>,
    times: Seq<u64>,
    after: Tracer<P>,
    i: int,
    dealer: Tracer<P>,
    dealer_keys: ActorKeys,
    share: P::Share,
    plain: Seq<u8>,
)
    requires
        keeps_shares::<P>(),
        tracer.receives_inbox(items, times, after),
        0 <= i < items.len(),
        tracer.transport_kp.wf(),
        tracer.peer_tracers is Some,
        items[i].0 < tracer.peer_tracers->0@.len(),
        tracer.peer_tracers->0@[items[i].0 as int] == dealer_keys,
        owns(dealer.identity_kp, dealer.transport_kp, dealer_keys),
        writes_share::<P>(DkgSharePayload { share }, plain),
        seals(
            dealer.identity_kp,
            dealer.transport_kp,
            tracer.transport_kp.public(),
            plain,
            items[i].1,
        ),
        fresh(items[i].1.timestamp, MAX_AGE_SECONDS, times[i]),
        tracer.dkg_broadcasts@.contains_key((items[i].0 + 1) as usize),
        forall|ok: bool| #[trigger]
            call_ensures(
                P::verify_share,
                (
                    &tracer.dkg_broadcasts@[(items[i].0 + 1) as usize],
                    &share,
                    (tracer.index->0 + 1) as usize,
                ),
                ok,
            ) ==> ok,
    ensures
        after.dkg_shares_received@.contains_key((items[i].0 + 1) as usize),
        (forall|j: int| 0 <= j < items.len() && j != i ==> (#[trigger] items[j]).0 != items[i].0)
            ==> after.dkg_shares_received@[(items[i].0 + 1) as usize] == share,
        after.dkg_broadcasts == tracer.dkg_broadcasts,
        after.dkg_participant == tracer.dkg_participant,
{
    let outcomes = choose|outcomes: Seq<Option<P::Share>>|
        {
            &&& outcomes.len() == items.len()
            &&& forall|i: int|
                0 <= i < items.len() ==> tracer.receives_share(
                    items[i].0,
                    items[i].1,
                    times[i],
                    #[trigger] outcomes[i],
                )
            &&& tracer.same_but_shares(after)
            &&& after.dkg_shares_received@ == #[trigger] absorbed(
                tracer.dkg_shares_received@,
                ids_of(items),
                outcomes,
            )
        };
    let from = items[i].0;
    sealed_data_is_read(
        dealer.identity_kp,
        dealer.transport_kp,
        dealer_keys,
        tracer.transport_kp,
        plain,
        items[i].1,
        times[i],
    );
    assert(tracer.receives_share(from, items[i].1, times[i], outcomes[i]));
    assert(tracer.takes_share(from, plain, outcomes[i]));
    assert(tracer.judges_share((from + 1) as usize, share, outcomes[i]));
    assert(outcomes[i] == Some(share));
    let ids = ids_of(items);
    lemma_absorbed_has(tracer.dkg_shares_received@, ids, outcomes, i);
    if forall|j: int| 0 <= j < items.len() && j != i ==> (#[trigger] items[j]).0 != from {
        assert(tracer.peer_tracers->0@.len() == tracer.peer_tracers->0.len());
        assert forall|j: int| 0 <= j < outcomes.len() && j != i && outcomes[j] is Some implies (
        #[trigger] ids[j] + 1) as usize != (ids[i] + 1) as usize by {
            assert(tracer.receives_share(items[j].0, items[j].1, times[j], outcomes[j]));
            assert(items[j].0 != from);
        }
        lemma_absorbed_only(tracer.dkg_shares_received@, ids, outcomes, i);
    }
}

/// As `lemma_absorbed_has`, but items that came to nothing do not matter.
proof fn lemma_absorbed_only<V>(
    map: Map<usize, V>,
    ids: Seq<usize>,
    outcomes: Seq<Option<V>>,
    i: int,
)
    requires
        ids.len() >= outcomes.len(),
        0 <= i < outcomes.len(),
        outcomes[i] is Some,
        forall|j: int|
            0 <= j < outcomes.len() && j != i && outcomes[j] is Some ==> (#[trigger] ids[j]
                + 1) as usize != (ids[i] + 1) as usize,
    ensures
        absorbed(map, ids, outcomes).contains_key((ids[i] + 1) as usize),
        absorbed(map, ids, outcomes)[(ids[i] + 1) as usize] == outcomes[i]->0,
    decreases outcomes.len(),
{
    let rest = outcomes.drop_last();
    let last = outcomes.len() - 1;
    if i < last {
        assert(rest[i] == outcomes[i]);
        assert forall|j: int| 0 <= j < rest.len() && j != i && rest[j] is Some implies (
        #[trigger] ids[j] + 1) as usize != (ids[i] + 1) as usize by {
            assert(rest[j] == outcomes[j]);
        }
        lemma_absorbed_only(map, ids, rest, i);
        assert(outcomes[last] is Some ==> (ids[last] + 1) as usize != (ids[i] + 1) as usize);
    }
}

/// Shares on file before the inbox is loaded stay on file.
pub proof fn recorded_shares_stay_on_file<P: Scheme>(
    tracer: Tracer<P>,
    items: Seq<(usize, SecurePackage)>,
    times: Seq<u64>,
    after: Tracer<P>,
    dealer: usize,
)
    requires
        tracer.receives_inbox(items, times, after),
        tracer.dkg_shares_received@.contains_key(dealer),
    ensures
        after.dkg_shares_received@.contains_key(dealer),
{
    let outcomes = choose|outcomes: Seq<Option<P::Share>>|
        {
            &&& outcomes.len() == items.len()
            &&& forall|i: int|
                0 <= i < items.len() ==> tracer.receives_share(
                    items[i].0,
                    items[i].1,
                    times[i],
                    #[trigger] outcomes[i],
                )
            &&& tracer.same_but_shares(after)
            &&& after.dkg_shares_received@ == #[trigger] absorbed(
                tracer.dkg_shares_received@,
                ids_of(items),
                outcomes,
            )
        };
    lemma_absorbed_keeps(tracer.dkg_shares_received@, ids_of(items), outcomes, dealer);
}

/// Every good broadcast is recorded: where a tracer on the roster signed it
/// within the last minute and its proof of knowledge always verifies, it is on
/// file under that tracer's party index once round one is loaded.
pub proof fn good_broadcasts_are_recorded<P: Scheme>(
    tracer: Tracer<P>,
    items: Seq<(usize, BroadcastPackage)>,
    times: Seq<u64>,
    after: Tracer<P>,
    i: int,
    broadcast: P::DkgBroadcast,
)
    requires
        keeps_broadcasts::<P>(),
        tracer.hears_round1(items, times, after),
        0 <= i < items.len(),
        tracer.peer_tracers is Some,
        items[i].0 < tracer.peer_tracers->0@.len(),
        broadcast_valid(
            tracer.peer_tracers->0@[items[i].0 as int].identity_pk,
            items[i].1,
            MAX_AGE_SECONDS,
            times[i],
        ),
        writes_broadcast::<P>(broadcast, items[i].1.text@),
        forall|ok: bool| #[trigger]
            call_ensures(P::verify_broadcast, (&broadcast, tracer.te->0), ok) ==> ok,
    ensures
        after.dkg_broadcasts@.contains_key((items[i].0 + 1) as usize),
        (forall|j: int| 0 <= j < items.len() && j != i ==> (#[trigger] items[j]).0 != items[i].0)
            ==> after.dkg_broadcasts@[(items[i].0 + 1) as usize] == broadcast,
        after.dkg_shares_received == tracer.dkg_shares_received,
{
    let outcomes = choose|outcomes: Seq<Option<P::DkgBroadcast>>|
        {
            &&& outcomes.len() == items.len()
            &&& forall|i: int|
                0 <= i < items.len() ==> tracer.hears_broadcast(
                    items[i].0,
                    items[i].1,
                    times[i],
                    #[trigger] outcomes[i],
                )
            &&& tracer.same_but_broadcasts(after)
            &&& after.dkg_broadcasts@ == #[trigger] absorbed(
                tracer.dkg_broadcasts@,
                ids_of(items),
                outcomes,
            )
        };
    assert(tracer.hears_broadcast(items[i].0, items[i].1, times[i], outcomes[i]));
    assert(tracer.judges_broadcast(broadcast, outcomes[i]));
    assert(outcomes[i] == Some(broadcast));
    let ids = ids_of(items);
    lemma_absorbed_has(tracer.dkg_broadcasts@, ids, outcomes, i);
    if forall|j: int| 0 <= j < items.len() && j != i ==> (#[trigger] items[j]).0 != items[i].0 {
        assert(tracer.peer_tracers->0@.len() == tracer.peer_tracers->0.len());
        assert forall|j: int| 0 <= j < outcomes.len() && j != i && outcomes[j] is Some implies (
        #[trigger] ids[j] + 1) as usize != (ids[i] + 1) as usize by {
            assert(tracer.hears_broadcast(items[j].0, items[j].1, times[j], outcomes[j]));
            assert(items[j].0 != items[i].0);
        }
        lemma_absorbed_only(tracer.dkg_broadcasts@, ids, outcomes, i);
    }
}

/// The same holds of broadcasts that are handed in already decoded.
pub proof fn good_bundled_broadcasts_are_recorded<P: Scheme>(
    tracer: Tracer<P>,
    items: Seq<(usize, P::DkgBroadcast)>,
    after: Tracer<P>,
    i: int,
)
    requires
        tracer.loads_round1(items, after),
        0 <= i < items.len(),
        forall|ok: bool| #[trigger]
            call_ensures(P::verify_broadcast, (&items[i].1, tracer.te->0), ok) ==> ok,
    ensures
        after.dkg_broadcasts@.contains_key((items[i].0 + 1) as usize),
        after.dkg_shares_received == tracer.dkg_shares_received,
{
    let outcomes = choose|outcomes: Seq<Option<P::DkgBroadcast>>|
        {
            &&& outcomes.len() == items.len()
            &&& forall|i: int|
                0 <= i < items.len() ==> tracer.judges_broadcast(
                    items[i].1,
                    #[trigger] outcomes[i],
                )
            &&& tracer.same_but_broadcasts(after)
            &&& after.dkg_broadcasts@ == #[trigger] absorbed(
                tracer.dkg_broadcasts@,
                ids_of(items),
                outcomes,
            )
        };
    assert(tracer.judges_broadcast(items[i].1, outcomes[i]));
    assert(outcomes[i] == Some(items[i].1));
    lemma_absorbed_has(tracer.dkg_broadcasts@, ids_of(items), outcomes, i);
}

/// A broadcast or a share comes to itself exactly when the scheme finds it
/// good, and to nothing otherwise; a share also needs its dealer's broadcast.
pub proof fn only_good_contributions_count<P: Scheme>(
    tracer: Tracer<P>,
    broadcast: P::DkgBroadcast,
    heard: Option<P::DkgBroadcast>,
    dealer: usize,
    share: P::Share,
    received: Option<P::Share>,
)
    requires
        tracer.judges_broadcast(broadcast, heard),
        tracer.judges_share(dealer, share, received),
    ensures
        heard is Some ==> heard == Some(broadcast) && call_ensures(
            P::verify_broadcast,
            (&broadcast, tracer.te->0),
            true,
        ),
        heard is None ==> call_ensures(P::verify_broadcast, (&broadcast, tracer.te->0), false),
        !tracer.dkg_broadcasts@.contains_key(dealer) ==> received is None,
        received is Some ==> received == Some(share) && call_ensures(
            P::verify_share,
            (&tracer.dkg_broadcasts@[dealer], &share, (tracer.index->0 + 1) as usize),
            true,
        ),
        received is None && tracer.dkg_broadcasts@.contains_key(dealer) ==> call_ensures(
            P::verify_share,
            (&tracer.dkg_broadcasts@[dealer], &share, (tracer.index->0 + 1) as usize),
            false,
        ),
{
}

/// A tracer's own broadcast goes on file under its own party index where its
/// proof always verifies, and what it sends to the others is that broadcast.
pub proof fn own_broadcast_goes_on_file<P: Scheme>(
    tracer: Tracer<P>,
    participant: P::DkgParticipant,
    package: BroadcastPackage,
    after: Tracer<P>,
)
    requires
        tracer.starts_dkg(participant, package, after),
        tracer.identity_kp.wf(),
        forall|broadcast: P::DkgBroadcast, ok: bool|
            call_ensures(P::dkg_broadcast, (&participant,), broadcast) && #[trigger] call_ensures(
                P::verify_broadcast,
                (&broadcast, tracer.te->0),
                ok,
            ) ==> ok,
    ensures
        after.dkg_participant == Some(participant),
        after.dkg_broadcasts@.contains_key((tracer.index->0 + 1) as usize),
        call_ensures(
            P::dkg_broadcast,
            (&participant,),
            after.dkg_broadcasts@[(tracer.index->0 + 1) as usize],
        ),
        writes_broadcast::<P>(
            after.dkg_broadcasts@[(tracer.index->0 + 1) as usize],
            package.text@,
        ),
        broadcast_valid(
            tracer.identity_kp.public(),
            package,
            MAX_AGE_SECONDS,
            package.timestamp,
        ),
        after.dkg_shares_received == tracer.dkg_shares_received,
        after.peer_tracers == tracer.peer_tracers,
{
    assert(broadcast_valid(
        tracer.identity_kp.public(),
        package,
        MAX_AGE_SECONDS,
        package.timestamp,
    ) == fresh(package.timestamp, MAX_AGE_SECONDS, package.timestamp));
}

/// The key share is taken over whole: the tracer holds it, its group key, and
/// a registry of the signers' keys, the combiner's and that group key. Only
/// where the tracer was never configured is there no registry.
pub proof fn key_share_is_taken_over_whole<P: Scheme>(
    tracer: Tracer<P>,
    key: TracerKeyShare<P::TracerSecret>,
    res: Result<(), String>,
    after: Tracer<P>,
)
    requires
        tracer.accepts_key_share(Ok(key), res, after),
    ensures
        after.tracer_key_share == Some(key),
        after.pk_e == Some(key.pk_e),
        res is Ok <==> tracer.pk_i is Some && tracer.pk_cs is Some,
        res is Ok ==> {
            &&& after.pk is Some
            &&& after.pk->0.pk_i@ == tracer.pk_i->0@
            &&& Some(after.pk->0.pk_cs) == tracer.pk_cs
            &&& after.pk->0.pk_e == key.pk_e
        },
        after.dkg_broadcasts == tracer.dkg_broadcasts,
        after.dkg_shares_received == tracer.dkg_shares_received,
        after.peer_tracers == tracer.peer_tracers,
        after.t == tracer.t,
        after.te == tracer.te,
        after.sigma == tracer.sigma,
{
}

/// Where no key share could be computed, that is what is reported, and nothing
/// changes.
pub proof fn missing_key_share_is_reported<P: Scheme>(
    tracer: Tracer<P>,
    e: String,
    res: Result<(), String>,
    after: Tracer<P>,
)
    requires
        tracer.accepts_key_share(Err(e), res, after),
    ensures
        res == Err::<(), String>(e),
        after == tracer,
{
}

// === Evidence ==============================================================

/// Evidence is taken over whole, and unreadable evidence not at all.
pub proof fn evidence_is_taken_over_whole<P: Scheme>(
    tracer: Tracer<P>,
    evidence: Option<combiner::TracerPackage<P::Proofs, P::Attestation>>,
    res: Result<(), Error>,
    after: Tracer<P>,
)
    requires
        tracer.accepts_evidence(evidence, res, after),
    ensures
        res is Ok <==> evidence is Some,
        evidence is None ==> res == Err::<(), Error>(Error::InvalidMessage) && after == tracer,
        evidence is Some ==> {
            &&& after.T == Some(evidence->0.T)
            &&& after.v0 == Some(evidence->0.v0)
            &&& after.v_vec == Some(evidence->0.v_vec)
            &&& after.proof == Some(evidence->0.proof)
            &&& after.sigma == Some(evidence->0.sigma)
            &&& after.message == Some(evidence->0.m)
            &&& after.pk == tracer.pk
            &&& after.pk_e == tracer.pk_e
            &&& after.tracer_key_share == tracer.tracer_key_share
            &&& after.dkg_broadcasts == tracer.dkg_broadcasts
            &&& after.t == tracer.t
            &&& after.te == tracer.te
        },
{
}

/// The statement that a tracer verifies carries everything, each in its own
/// place: its own registry, the encrypted threshold, the signature's nonce and
/// ciphertext, the message, and both halves of the encrypted bits.
pub proof fn tracers_verify_the_whole_statement<P: Scheme>(
    tracer: Tracer<P>,
    sigma: Sigma<P::Attestation>,
)
    requires
        tracer.pk is Some,
        tracer.T is Some,
        tracer.message is Some,
        tracer.v0 is Some,
        tracer.v_vec is Some,
    ensures
        Some(*tracer.statement_for(sigma).pk) == tracer.pk,
        Some(*tracer.statement_for(sigma).T) == tracer.T,
        *tracer.statement_for(sigma).R == sigma.R,
        Some(*tracer.statement_for(sigma).m) == tracer.message,
        *tracer.statement_for(sigma).ct == sigma.ct,
        Some(*tracer.statement_for(sigma).v0) == tracer.v0,
        Some(*tracer.statement_for(sigma).v) == tracer.v_vec,
{
}

/// Two tracers' statements are the same only if they agree in every part.
pub proof fn different_evidence_makes_different_statements<P: Scheme>(
    a: Tracer<P>,
    sigma_a: Sigma<P::Attestation>,
    b: Tracer<P>,
    sigma_b: Sigma<P::Attestation>,
)
    requires
        a.pk is Some && b.pk is Some,
        a.T is Some && b.T is Some,
        a.message is Some && b.message is Some,
        a.v0 is Some && b.v0 is Some,
        a.v_vec is Some && b.v_vec is Some,
    ensures
        a.statement_for(sigma_a) == b.statement_for(sigma_b) <==> {
            &&& a.pk == b.pk
            &&& a.T == b.T
            &&& a.message == b.message
            &&& a.v0 == b.v0
            &&& a.v_vec == b.v_vec
            &&& sigma_a.R == sigma_b.R
            &&& sigma_a.ct == sigma_b.ct
        },
{
}

/// What the tracers decrypt together is the signature's ciphertext and, in
/// their own places, both halves of the encrypted bits.
pub proof fn tracers_decrypt_everything<P: Scheme>(tracer: Tracer<P>)
    requires
        tracer.sigma is Some,
        tracer.v0 is Some,
        tracer.v_vec is Some,
    ensures
        *tracer.decryption_input().ct == tracer.sigma->0.ct,
        Some(*tracer.decryption_input().v0) == tracer.v0,
        Some(*tracer.decryption_input().v1) == tracer.v_vec,
{
}

/// What a tracer says of signature and proof is what the scheme says of them,
/// asked about this tracer's own registry and the evidence it received.
pub proof fn verdicts_are_those_of_the_scheme<P: Scheme>(
    tracer: Tracer<P>,
    sigma: Result<bool, String>,
    nizk: Result<bool, String>,
)
    requires
        tracer.says_of_sigma(sigma),
        tracer.says_of_proof(nizk),
        tracer.pk is Some,
        tracer.T is Some,
        tracer.message is Some,
        tracer.v0 is Some,
        tracer.v_vec is Some,
        tracer.sigma is Some,
        tracer.proof is Some,
    ensures
        sigma is Ok ==> call_ensures(
            P::verify_attestation,
            (&tracer.pk->0, &tracer.message->0, &tracer.sigma->0),
            sigma,
        ),
        sigma is Err ==> exists|e: String| #[trigger]
            call_ensures(
                P::verify_attestation,
                (&tracer.pk->0, &tracer.message->0, &tracer.sigma->0),
                Err(e),
            ) && (sigma->Err_0)@ == "Sigma verification failed: "@ + e@,
        nizk is Ok ==> call_ensures(
            P::verify_proofs,
            (
                &tracer.proof->0,
                &tracer.sigma->0,
                &(Statement {
                    pk: &tracer.pk->0,
                    T: &tracer.T->0,
                    R: &tracer.sigma->0.R,
                    m: &tracer.message->0,
                    ct: &tracer.sigma->0.ct,
                    v0: &tracer.v0->0,
                    v: &tracer.v_vec->0,
                }),
            ),
            nizk,
        ),
        nizk is Err ==> exists|e: String| #[trigger]
            call_ensures(
                P::verify_proofs,
                (
                    &tracer.proof->0,
                    &tracer.sigma->0,
                    &(Statement {
                        pk: &tracer.pk->0,
                        T: &tracer.T->0,
                        R: &tracer.sigma->0.R,
                        m: &tracer.message->0,
                        ct: &tracer.sigma->0.ct,
                        v0: &tracer.v0->0,
                        v: &tracer.v_vec->0,
                    }),
                ),
                Err(e),
            ) && (nizk->Err_0)@ == "Proof verification failed: "@ + e@,
{
}

/// Evidence holds exactly when signature and proof are both valid.
pub proof fn evidence_needs_both_parts(
    sigma: Result<bool, String>,
    nizk: Result<bool, String>,
    res: Result<(), String>,
)
    requires
        evidence_judged(sigma, nizk, res),
    ensures
        res is Ok <==> sigma == Ok::<bool, String>(true) && nizk == Ok::<bool, String>(true),
        sigma is Err ==> (res->Err_0)@ == (sigma->Err_0)@,
        sigma == Ok::<bool, String>(false) ==> (res->Err_0)@
            == "Combiner signature (sigma) is invalid"@,
        sigma == Ok::<bool, String>(true) && nizk == Ok::<bool, String>(false) ==> (res->Err_0)@
            == "Accountability proof is invalid"@,
        sigma == Ok::<bool, String>(true) && nizk is Err ==> (res->Err_0)@ == (nizk->Err_0)@,
{
}

// === Tracing ===============================================================

/// A choice from a sequence: the elements at these positions, in order.
pub open spec fn chosen<D>(all: Seq<D>, positions: Seq<int>, some: Seq<D>) -> bool {
    &&& some.len() == positions.len()
    &&& forall|i: int, j: int| 0 <= i < j < positions.len() ==> positions[i] < positions[j]
    &&& forall|j: int|
        0 <= j < positions.len() ==> 0 <= #[trigger] positions[j] < all.len() && some[j]
            == all[positions[j]]
}

proof fn lemma_present<V>(outcomes: Seq<Option<V>>) -> (positions: Seq<int>)
    ensures
        present(outcomes).len() == positions.len(),
        forall|i: int, j: int| 0 <= i < j < positions.len() ==> positions[i] < positions[j],
        forall|j: int|
            0 <= j < positions.len() ==> 0 <= #[trigger] positions[j] < outcomes.len()
                && outcomes[positions[j]] == Some(present(outcomes)[j]),
        forall|i: int| #[trigger]
            positions.contains(i) <==> 0 <= i < outcomes.len() && outcomes[i] is Some,
    decreases outcomes.len(),
{
    if outcomes.len() == 0 {
        Seq::empty()
    } else {
        let rest = outcomes.drop_last();
        let before = lemma_present(rest);
        let last = outcomes.len() - 1;
        let positions = if outcomes.last() is Some {
            before.push(last)
        } else {
            before
        };
        assert forall|j: int| 0 <= j < positions.len() implies 0 <= #[trigger] positions[j]
            < outcomes.len() && outcomes[positions[j]] == Some(present(outcomes)[j]) by {
            if j < before.len() {
                assert(positions[j] == before[j]);
                assert(rest[before[j]] == outcomes[before[j]]);
            }
        }
        assert forall|i: int| #[trigger]
            positions.contains(i) <==> 0 <= i < outcomes.len() && outcomes[i] is Some by {
            if before.contains(i) {
                let p = choose|p: int| 0 <= p < before.len() && before[p] == i;
                assert(positions[p] == i);
                assert(rest[i] == outcomes[i]);
            }
            if 0 <= i < last {
                assert(rest[i] == outcomes[i]);
            }
            if outcomes.last() is Some {
                assert(positions[before.len() as int] == last);
            }
            if positions.contains(i) {
                let p = choose|p: int| 0 <= p < positions.len() && positions[p] == i;
                if p < before.len() {
                    assert(before[p] == i);
                }
            }
        }
        positions
    }
}

/// The partial decryptions that come out of the other tracers' packages are
/// those of the packages that can be opened and read, in order, each as it was
/// read.
pub proof fn readable_partials_come_out<P: Scheme>(
    tracer: Tracer<P>,
    items: Seq<(usize, SecurePackage)>,
    times: Seq<u64>,
    partials: Seq<PartialDecryption<P::PartialBody>>,
) -> (positions: Seq<int>)
    requires
        tracer.opens_partials(items, times, partials),
    ensures
        partials.len() == positions.len(),
        forall|i: int, j: int| 0 <= i < j < positions.len() ==> positions[i] < positions[j],
        forall|j: int|
            0 <= j < positions.len() ==> {
                let k = #[trigger] positions[j];
                &&& 0 <= k < items.len()
                &&& tracer.peer_keys(items[k].0 as int) is Some
                &&& opened(
                    tracer.transport_kp.secret(),
                    tracer.peer_keys(items[k].0 as int)->0,
                    items[k].1,
                    times[k],
                ) is Ok
                &&& reads_partial::<P>(
                    opened(
                        tracer.transport_kp.secret(),
                        tracer.peer_keys(items[k].0 as int)->0,
                        items[k].1,
                        times[k],
                    )->Ok_0,
                    Some(partials[j]),
                )
            },
        forall|k: int|
            0 <= k < items.len() && !(#[trigger] positions.contains(k)) && tracer.peer_keys(
                items[k].0 as int,
            ) is Some && opened(
                tracer.transport_kp.secret(),
                tracer.peer_keys(items[k].0 as int)->0,
                items[k].1,
                times[k],
            ) is Ok ==> reads_partial::<P>(
                opened(
                    tracer.transport_kp.secret(),
                    tracer.peer_keys(items[k].0 as int)->0,
                    items[k].1,
                    times[k],
                )->Ok_0,
                None,
            ),
{
    let outcomes = choose|outcomes: Seq<Option<PartialDecryption<P::PartialBody>>>|
        {
            &&& outcomes.len() == items.len()
            &&& forall|i: int|
                0 <= i < items.len() ==> tracer.receives_partial(
                    items[i].0,
                    items[i].1,
                    times[i],
                    #[trigger] outcomes[i],
                )
            &&& partials == #[trigger] present(outcomes)
        };
    let positions = lemma_present(outcomes);
    assert forall|j: int| 0 <= j < positions.len() implies {
        let k = #[trigger] positions[j];
        &&& 0 <= k < items.len()
        &&& tracer.peer_keys(items[k].0 as int) is Some
        &&& opened(
            tracer.transport_kp.secret(),
            tracer.peer_keys(items[k].0 as int)->0,
            items[k].1,
            times[k],
        ) is Ok
        &&& reads_partial::<P>(
            opened(
                tracer.transport_kp.secret(),
                tracer.peer_keys(items[k].0 as int)->0,
                items[k].1,
                times[k],
            )->Ok_0,
            Some(partials[j]),
        )
    } by {
        let k = positions[j];
        assert(tracer.receives_partial(items[k].0, items[k].1, times[k], outcomes[k]));
    }
    assert forall|k: int|
        0 <= k < items.len() && !(#[trigger] positions.contains(k)) && tracer.peer_keys(
            items[k].0 as int,
        ) is Some && opened(
            tracer.transport_kp.secret(),
            tracer.peer_keys(items[k].0 as int)->0,
            items[k].1,
            times[k],
        ) is Ok implies reads_partial::<P>(
        opened(
            tracer.transport_kp.secret(),
            tracer.peer_keys(items[k].0 as int)->0,
            items[k].1,
            times[k],
        )->Ok_0,
        None,
    ) by {
        assert(tracer.receives_partial(items[k].0, items[k].1, times[k], outcomes[k]));
    }
    positions
}

proof fn lemma_kept<D>(partials: Seq<D>, verdicts: Seq<Result<bool, String>>) -> (positions: Seq<
    int,
>)
    requires
        verdicts.len() <= partials.len(),
    ensures
        chosen(partials, positions, kept(partials, verdicts)),
        forall|i: int| #[trigger]
            positions.contains(i) <==> 0 <= i < verdicts.len() && verdicts[i] == Ok::<bool, String>(
                true,
            ),
    decreases verdicts.len(),
{
    if verdicts.len() == 0 {
        Seq::empty()
    } else {
        let rest = verdicts.drop_last();
        let before = lemma_kept(partials, rest);
        let last = verdicts.len() - 1;
        let keep = verdicts.last() == Ok::<bool, String>(true);
        let positions = if keep {
            before.push(last)
        } else {
            before
        };
        assert forall|j: int| 0 <= j < before.len() implies 0 <= #[trigger] before[j] < last by {
            assert(before.contains(before[j]));
        }
        assert forall|j: int| 0 <= j < positions.len() implies 0 <= #[trigger] positions[j]
            < partials.len() && kept(partials, verdicts)[j] == partials[positions[j]] by {
            if j < before.len() {
                assert(positions[j] == before[j]);
            }
        }
        assert forall|i: int| #[trigger]
            positions.contains(i) <==> 0 <= i < verdicts.len() && verdicts[i] == Ok::<bool, String>(
                true,
            ) by {
            if before.contains(i) {
                let p = choose|p: int| 0 <= p < before.len() && before[p] == i;
                assert(positions[p] == i);
                assert(rest[i] == verdicts[i]);
            }
            if 0 <= i < last {
                assert(rest[i] == verdicts[i]);
            }
            if keep {
                assert(positions[before.len() as int] == last);
            }
            if positions.contains(i) {
                let p = choose|p: int| 0 <= p < positions.len() && positions[p] == i;
                if p < before.len() {
                    assert(before[p] == i);
                }
            }
        }
        positions
    }
}

/// What the scheme says of one partial decryption: that its verification key
/// can be computed, and whether it is valid under it.
pub open spec fn found<P: Scheme>(
    tracer: Tracer<P>,
    partial: PartialDecryption<P::PartialBody>,
    valid: bool,
) -> bool {
    exists|vk: P::VerificationKey|
        {
            &&& call_ensures(
                P::verification_key,
                (&tracer.tracer_key_share->0.qual, &tracer.dkg_broadcasts, partial.tracer_index),
                Ok(vk),
            )
            &&& #[trigger] call_ensures(
                P::verify_partial,
                (
                    &partial,
                    &(DecryptionInput {
                        ct: &tracer.sigma->0.ct,
                        v0: &tracer.v0->0,
                        v1: &tracer.v_vec->0,
                    }),
                    &vk,
                ),
                valid,
            )
        }
}

/// The partial decryptions passed on to recombination are exactly those that
/// the scheme finds valid, in order, each judged on its own: an invalid one is
/// left out and takes no other with it.
pub proof fn valid_partials_are_passed_on<P: Scheme>(
    tracer: Tracer<P>,
    partials: Seq<PartialDecryption<P::PartialBody>>,
    valid: Vec<PartialDecryption<P::PartialBody>>,
) -> (res: (Seq<bool>, Seq<int>))
    requires
        tracer.checks_partials(partials, Ok(valid)),
    ensures
        res.0.len() == partials.len(),
        forall|i: int|
            0 <= i < partials.len() ==> found(tracer, partials[i], #[trigger] res.0[i]),
        chosen(partials, res.1, valid@),
        forall|i: int| #[trigger]
            res.1.contains(i) <==> 0 <= i < partials.len() && res.0[i],
{
    let verdicts = choose|verdicts: Seq<Result<bool, String>>| #[trigger]
        tracer.judges_partials(partials, verdicts) && verdicts.len() == partials.len() && (
        forall|i: int| 0 <= i < verdicts.len() ==> (#[trigger] verdicts[i]) is Ok) && valid@
            == kept(partials, verdicts);
    let flags = Seq::new(verdicts.len(), |i: int| verdicts[i] == Ok::<bool, String>(true));
    assert forall|i: int| 0 <= i < partials.len() implies found(
        tracer,
        partials[i],
        #[trigger] flags[i],
    ) by {
        assert(verdicts[i] is Ok);
        assert(tracer.judges_partial(partials[i], verdicts[i]));
    }
    let positions = lemma_kept(partials, verdicts);
    (flags, positions)
}

/// Where a partial decryption stops the tracing, the scheme could not compute
/// its verification key, and every one before it was judged.
pub proof fn missing_keys_stop_the_tracing<P: Scheme>(
    tracer: Tracer<P>,
    partials: Seq<PartialDecryption<P::PartialBody>>,
    e: String,
) -> (at: int)
    requires
        tracer.checks_partials(partials, Err(e)),
    ensures
        0 <= at < partials.len(),
        call_ensures(
            P::verification_key,
            (&tracer.tracer_key_share->0.qual, &tracer.dkg_broadcasts, partials[at].tracer_index),
            Err(e),
        ),
{
    let verdicts = choose|verdicts: Seq<Result<bool, String>>| #[trigger]
        tracer.judges_partials(partials, verdicts) && verdicts.len() > 0 && (forall|i: int|
            0 <= i < verdicts.len() - 1 ==> (#[trigger] verdicts[i]) is Ok) && verdicts.last()
            == Err::<bool, String>(e);
    let at = verdicts.len() - 1;
    assert(tracer.judges_partial(partials[at], verdicts[at]));
    at
}

/// Whether the scheme reads these bits from these elements.
pub open spec fn bits_read<P: Scheme>(elements: Seq<Gt>, bits: Seq<u8>) -> bool {
    &&& bits.len() == elements.len()
    &&& forall|i: int|
        0 <= i < elements.len() ==> call_ensures(
            P::decode_bit,
            (&elements[i], i as usize),
            Ok(#[trigger] bits[i]),
        )
}

/// A traced quorum is justified: the valid ones among the partial decryptions
/// combine, under the threshold `t_e`, to a signature and to elements; the
/// quorum lists in ascending order exactly the signers whose element reads as
/// a one; the signature is the one that this quorum makes for the challenge of
/// the tracer's own statement; and at least `t` signers are listed.
pub proof fn traced_quorums_are_justified<P: Scheme>(
    tracer: Tracer<P>,
    partials: Seq<PartialDecryption<P::PartialBody>>,
    quorum: Vec<usize>,
)
    requires
        tracer.traces(partials, Ok(quorum)),
    ensures
        tracer.sigma is Some && tracer.v0 is Some && tracer.v_vec is Some
            && tracer.tracer_key_share is Some && tracer.te is Some && tracer.pk is Some
            && tracer.t is Some,
        exists|
            valid: Vec<PartialDecryption<P::PartialBody>>,
            g_z: Gt,
            elements: Vec<Gt>,
            bits: Vec<u8>,
            signers: P::Quorum,
            c: Scalar,
            expected: PublicKey,
        |
            #![trigger tracer.checks_partials(partials, Ok(valid)), bits_read::<P>(elements@, bits@), call_ensures(P::combine_partials, (&(DecryptionInput { ct: &tracer.sigma->0.ct, v0: &tracer.v0->0, v1: &tracer.v_vec->0 }), &valid, tracer.te->0), Ok((g_z, elements))), call_ensures(P::schnorr_signature, (&tracer.sigma->0.R, &signers, &c), expected)]
            {
                &&& tracer.checks_partials(partials, Ok(valid))
                &&& call_ensures(
                    P::combine_partials,
                    (
                        &(DecryptionInput {
                            ct: &tracer.sigma->0.ct,
                            v0: &tracer.v0->0,
                            v1: &tracer.v_vec->0,
                        }),
                        &valid,
                        tracer.te->0,
                    ),
                    Ok((g_z, elements)),
                )
                &&& bits_read::<P>(elements@, bits@)
                &&& call_ensures(P::quorum_of_bits, (&tracer.pk->0, &bits), signers)
                &&& call_ensures(
                    P::statement_c,
                    (&(Statement {
                        pk: &tracer.pk->0,
                        T: &tracer.T->0,
                        R: &tracer.sigma->0.R,
                        m: &tracer.message->0,
                        ct: &tracer.sigma->0.ct,
                        v0: &tracer.v0->0,
                        v: &tracer.v_vec->0,
                    }),),
                    c,
                )
                &&& call_ensures(
                    P::schnorr_signature,
                    (&tracer.sigma->0.R, &signers, &c),
                    expected,
                )
                &&& g_z.point == Some(expected)
                &&& quorum@.len() >= tracer.t->0
                &&& forall|i: int, j: int| 0 <= i < j < quorum@.len() ==> quorum@[i] < quorum@[j]
                &&& forall|i: usize| #[trigger]
                    quorum@.contains(i) <==> i < bits@.len() && bits@[i as int] == 1
            },
{
    let res: Result<Vec<usize>, String> = Ok(quorum);
    let checked = choose|checked: Result<Vec<PartialDecryption<P::PartialBody>>, String>| #[trigger]
        tracer.checks_partials(partials, checked) && (match checked {
            Ok(valid) => tracer.traces_valid(valid, res),
            Err(e) => res == Err::<Vec<usize>, String>(e),
        });
    let valid = checked->Ok_0;
    let combined = choose|combined: Result<(Gt, Vec<Gt>), String>| #[trigger]
        call_ensures(
            P::combine_partials,
            (&tracer.decryption_input(), &valid, tracer.te->0),
            combined,
        ) && (match combined {
            Ok((g_z, elements)) => tracer.traces_elements(g_z, elements@, res),
            Err(e) => res == Err::<Vec<usize>, String>(e),
        });
    let (g_z, elements) = combined->Ok_0;
    let decoded = choose|decoded: Result<Vec<u8>, String>| #[trigger]
        decodes::<P>(elements@, decoded) && (match decoded {
            Ok(bits) => tracer.traces_bits(g_z, bits, res),
            Err(e) => res == Err::<Vec<usize>, String>(e),
        });
    let bits = decoded->Ok_0;
    assert(bits_read::<P>(elements@, bits@));
    let pk = tracer.pk->0;
    let (signers, c, expected) = choose|signers: P::Quorum, c: Scalar, expected: PublicKey|
        {
            &&& call_ensures(P::quorum_of_bits, (&pk, &bits), signers)
            &&& call_ensures(P::statement_c, (&tracer.statement_for(tracer.sigma->0),), c)
            &&& #[trigger] call_ensures(
                P::schnorr_signature,
                (&tracer.sigma->0.R, &signers, &c),
                expected,
            )
            &&& concludes(bits@, g_z, expected, tracer.t, res)
        };
    assert(bits@.len() == bits.len());
    ones_are_the_ones(bits@);
    assert(combined == Ok::<(Gt, Vec<Gt>), String>((g_z, elements)));
}

/// Tracing fails only for a reason: something was not set, the scheme failed,
/// the decrypted signature is not the one the quorum makes, or too few signers
/// are listed. Whatever else the inputs are, the quorum is returned.
pub proof fn tracing_fails_for_a_reason(
    bits: Seq<u8>,
    g_z: Gt,
    expected: PublicKey,
    t: Option<usize>,
    res: Result<Vec<usize>, String>,
)
    requires
        concludes(bits, g_z, expected, t, res),
        bits.len() <= usize::MAX,
    ensures
        res is Err <==> {
            ||| g_z.point != Some(expected)
            ||| t is None
            ||| exists|listing: Seq<usize>| #[trigger]
                lists_ones(listing, bits) && listing.len() < t->0
        },
        res is Ok ==> lists_ones(res->Ok_0@, bits),
{
    ones_are_the_ones(bits);
    assert(lists_ones(ones(bits), bits));
    assert forall|listing: Seq<usize>| #[trigger] lists_ones(listing, bits) implies listing.len()
        == ones(bits).len() by {
        lemma_same_listing(listing, ones(bits), bits);
    }
}

/// Whether a listing has exactly the positions of ones, in ascending order.
pub open spec fn lists_ones(listing: Seq<usize>, bits: Seq<u8>) -> bool {
    &&& forall|i: int, j: int| 0 <= i < j < listing.len() ==> listing[i] < listing[j]
    &&& forall|i: usize| #[trigger]
        listing.contains(i) <==> i < bits.len() && bits[i as int] == 1
}

proof fn lemma_same_listing(a: Seq<usize>, b: Seq<usize>, bits: Seq<u8>)
    requires
        lists_ones(a, bits),
        lists_ones(b, bits),
    ensures
        a.len() == b.len(),
{
    assert(a.no_duplicates());
    assert(b.no_duplicates());
    a.unique_seq_to_set();
    b.unique_seq_to_set();
    assert forall|k: usize| #[trigger] a.to_set().contains(k) <==> b.to_set().contains(k) by {
        assert(a.contains(k) <==> b.contains(k));
    }
    assert(a.to_set() =~= b.to_set());
}

/// Where everything is set, a failure to trace is one of these: a verification
/// key that cannot be computed, a recombination or a bit that the scheme
/// refuses, or bits from which no quorum follows.
pub proof fn every_failure_to_trace_is_told<P: Scheme>(
    tracer: Tracer<P>,
    partials: Seq<PartialDecryption<P::PartialBody>>,
    e: String,
)
    requires
        tracer.traces(partials, Err(e)),
        tracer.sigma is Some,
        tracer.v0 is Some,
        tracer.v_vec is Some,
        tracer.tracer_key_share is Some,
        tracer.te is Some,
        tracer.pk is Some,
    ensures
        ({
            let input = DecryptionInput {
                ct: &tracer.sigma->0.ct,
                v0: &tracer.v0->0,
                v1: &tracer.v_vec->0,
            };
            ||| exists|i: int|
                0 <= i < partials.len() && call_ensures(
                    P::verification_key,
                    (
                        &tracer.tracer_key_share->0.qual,
                        &tracer.dkg_broadcasts,
                        (#[trigger] partials[i]).tracer_index,
                    ),
                    Err(e),
                )
            ||| exists|valid: Vec<PartialDecryption<P::PartialBody>>|
                tracer.checks_partials(partials, Ok(valid)) && #[trigger] call_ensures(
                    P::combine_partials,
                    (&input, &valid, tracer.te->0),
                    Err(e),
                )
            ||| exists|element: Gt, position: usize| #[trigger]
                call_ensures(P::decode_bit, (&element, position), Err(e))
            ||| exists|bits: Vec<u8>, g_z: Gt, expected: PublicKey| #[trigger]
                concludes(bits@, g_z, expected, tracer.t, Err(e))
        }),
{
    let res: Result<Vec<usize>, String> = Err(e);
    let checked = choose|checked: Result<Vec<PartialDecryption<P::PartialBody>>, String>| #[trigger]
        tracer.checks_partials(partials, checked) && (match checked {
            Ok(valid) => tracer.traces_valid(valid, res),
            Err(e) => res == Err::<Vec<usize>, String>(e),
        });
    if checked is Err {
        assert(checked == Err::<Vec<PartialDecryption<P::PartialBody>>, String>(e));
        let at = missing_keys_stop_the_tracing(tracer, partials, e);
        assert(partials[at].tracer_index == partials[at].tracer_index);
    } else {
        let valid = checked->Ok_0;
        let combined = choose|combined: Result<(Gt, Vec<Gt>), String>| #[trigger]
            call_ensures(
                P::combine_partials,
                (&tracer.decryption_input(), &valid, tracer.te->0),
                combined,
            ) && (match combined {
                Ok((g_z, elements)) => tracer.traces_elements(g_z, elements@, res),
                Err(e) => res == Err::<Vec<usize>, String>(e),
            });
        if combined is Ok {
            let (g_z, elements) = combined->Ok_0;
            let decoded = choose|decoded: Result<Vec<u8>, String>| #[trigger]
                decodes::<P>(elements@, decoded) && (match decoded {
                    Ok(bits) => tracer.traces_bits(g_z, bits, res),
                    Err(e) => res == Err::<Vec<usize>, String>(e),
                });
            if decoded is Err {
                let bits = choose|bits: Seq<u8>|
                    {
                        &&& #[trigger] bits.len() < elements@.len()
                        &&& forall|i: int|
                            0 <= i < bits.len() ==> call_ensures(
                                P::decode_bit,
                                (&elements@[i], i as usize),
                                Ok(#[trigger] bits[i]),
                            )
                        &&& call_ensures(
                            P::decode_bit,
                            (&elements@[bits.len() as int], bits.len() as usize),
                            Err(decoded->Err_0),
                        )
                    };
                assert(call_ensures(
                    P::decode_bit,
                    (&elements@[bits.len() as int], bits.len() as usize),
                    Err(e),
                ));
            }
        }
    }
}

/// Whether the scheme reads a bit from this element at this position.
pub open spec fn reads_as_a_bit<P: Scheme>(element: Gt, position: usize) -> bool {
    exists|bit: u8| #[trigger] call_ensures(P::decode_bit, (&element, position), Ok(bit))
}

/// Bits are read from the elements one by one, each at its own position; the
/// first element that reads as no bit is what stops the reading.
pub proof fn bits_are_read_one_by_one<P: Scheme>(elements: Seq<Gt>, res: Result<Vec<u8>, String>)
    requires
        decodes::<P>(elements, res),
    ensures
        res is Ok ==> bits_read::<P>(elements, (res->Ok_0)@),
        res is Err ==> exists|k: int|
            {
                &&& 0 <= k < elements.len()
                &&& call_ensures(
                    P::decode_bit,
                    (&#[trigger] elements[k], k as usize),
                    Err(res->Err_0),
                )
                &&& forall|i: int|
                    0 <= i < k ==> reads_as_a_bit::<P>(#[trigger] elements[i], i as usize)
            },
{
    if let Err(e) = res {
        let bits = choose|bits: Seq<u8>|
            {
                &&& #[trigger] bits.len() < elements.len()
                &&& forall|i: int|
                    0 <= i < bits.len() ==> call_ensures(
                        P::decode_bit,
                        (&elements[i], i as usize),
                        Ok(#[trigger] bits[i]),
                    )
                &&& call_ensures(
                    P::decode_bit,
                    (&elements[bits.len() as int], bits.len() as usize),
                    Err(e),
                )
            };
        let k = bits.len() as int;
        assert forall|i: int| 0 <= i < k implies reads_as_a_bit::<P>(
            #[trigger] elements[i],
            i as usize,
        ) by {
            assert(call_ensures(P::decode_bit, (&elements[i], i as usize), Ok(bits[i])));
        }
        assert(call_ensures(P::decode_bit, (&elements[k], k as usize), Err(e)));
    }
}

/// Where something is not set, that is what is reported: the signature, the
/// encrypted bits, the key share and the threshold `t_e`, in this order.
pub proof fn tracing_needs_everything<P: Scheme>(
    tracer: Tracer<P>,
    partials: Seq<PartialDecryption<P::PartialBody>>,
    res: Result<Vec<usize>, String>,
)
    requires
        tracer.traces(partials, res),
        tracer.sigma is None || tracer.v0 is None || tracer.v_vec is None
            || tracer.tracer_key_share is None || tracer.te is None,
    ensures
        res is Err,
        (res->Err_0)@ == (if tracer.sigma is None {
            "Sigma not set in Tracer"@
        } else if tracer.v0 is None {
            "v0 not set in Tracer"@
        } else if tracer.v_vec is None {
            "v_vec not set in Tracer"@
        } else if tracer.tracer_key_share is None {
            "DKG not finalized for this tracer"@
        } else {
            "t_e not set"@
        }),
{
}

/// A conclusion that fails says why: the signature does not match, the
/// threshold is not set, or the quorum is too small - and then how many
/// signers it has and how many it needs.
pub proof fn failed_conclusions_are_explained(
    bits: Seq<u8>,
    g_z: Gt,
    expected: PublicKey,
    t: Option<usize>,
    res: Result<Vec<usize>, String>,
    listing: Seq<usize>,
)
    requires
        concludes(bits, g_z, expected, t, res),
        res is Err,
        bits.len() <= usize::MAX,
        lists_ones(listing, bits),
    ensures
        (res->Err_0)@ == (if g_z.point != Some(expected) {
            "Tracing failed: g^z from the decrypted quorum does not match the decrypted signature."@
        } else if t is None {
            "Threshold t not set in Tracer"@
        } else {
            "Tracing failed: quorum of "@ + decimal(listing.len())
                + " signers is below the threshold t="@ + decimal(t->0 as nat)
        }),
        g_z.point == Some(expected) && t is Some ==> listing.len() < t->0,
{
    ones_are_the_ones(bits);
    assert(lists_ones(ones(bits), bits));
    lemma_same_listing(listing, ones(bits), bits);
}

/// A tracer that was never configured says which keys it lacks.
pub proof fn missing_keys_are_named<P: Scheme>(
    tracer: Tracer<P>,
    key: TracerKeyShare<P::TracerSecret>,
    res: Result<(), String>,
    after: Tracer<P>,
)
    requires
        tracer.accepts_key_share(Ok(key), res, after),
        tracer.pk_i is None || tracer.pk_cs is None,
    ensures
        res is Err,
        (res->Err_0)@ == (if tracer.pk_i is None {
            "pk_i not set"@
        } else {
            "pk_cs not set"@
        }),
        after.pk == tracer.pk,
{
}

/// Tracing succeeds wherever the scheme does its part: every verification key
/// can be computed, the valid partial decryptions combine, every element reads
/// as a bit, the quorum makes the decrypted signature, and it is large enough.
/// Neither the number of partial decryptions nor that of invalid ones has a
/// say of its own.
pub proof fn tracing_succeeds_where_the_scheme_does<P: Scheme>(
    tracer: Tracer<P>,
    partials: Seq<PartialDecryption<P::PartialBody>>,
    res: Result<Vec<usize>, String>,
)
    requires
        tracer.traces(partials, res),
        tracer.sigma is Some,
        tracer.v0 is Some,
        tracer.v_vec is Some,
        tracer.tracer_key_share is Some,
        tracer.te is Some,
        tracer.pk is Some,
        tracer.t is Some,
        forall|i: int, key: Result<P::VerificationKey, String>|
            0 <= i < partials.len() && #[trigger] call_ensures(
                P::verification_key,
                (
                    &tracer.tracer_key_share->0.qual,
                    &tracer.dkg_broadcasts,
                    partials[i].tracer_index,
                ),
                key,
            ) ==> key is Ok,
        forall|
            valid: Vec<PartialDecryption<P::PartialBody>>,
            combined: Result<(Gt, Vec<Gt>), String>,
        |
            tracer.checks_partials(partials, Ok(valid)) && #[trigger] call_ensures(
                P::combine_partials,
                (
                    &(DecryptionInput {
                        ct: &tracer.sigma->0.ct,
                        v0: &tracer.v0->0,
                        v1: &tracer.v_vec->0,
                    }),
                    &valid,
                    tracer.te->0,
                ),
                combined,
            ) ==> combined is Ok,
        forall|element: Gt, position: usize, read: Result<u8, String>| #[trigger]
            call_ensures(P::decode_bit, (&element, position), read) ==> read is Ok,
        forall|
            valid: Vec<PartialDecryption<P::PartialBody>>,
            g_z: Gt,
            elements: Vec<Gt>,
            bits: Vec<u8>,
            signers: P::Quorum,
            c: Scalar,
            expected: PublicKey,
        |
            #![trigger call_ensures(P::combine_partials, (&(DecryptionInput { ct: &tracer.sigma->0.ct, v0: &tracer.v0->0, v1: &tracer.v_vec->0 }), &valid, tracer.te->0), Ok((g_z, elements))), bits_read::<P>(elements@, bits@), call_ensures(P::schnorr_signature, (&tracer.sigma->0.R, &signers, &c), expected)]
            {
                &&& tracer.checks_partials(partials, Ok(valid))
                &&& call_ensures(
                    P::combine_partials,
                    (
                        &(DecryptionInput {
                            ct: &tracer.sigma->0.ct,
                            v0: &tracer.v0->0,
                            v1: &tracer.v_vec->0,
                        }),
                        &valid,
                        tracer.te->0,
                    ),
                    Ok((g_z, elements)),
                )
                &&& bits_read::<P>(elements@, bits@)
                &&& call_ensures(P::quorum_of_bits, (&tracer.pk->0, &bits), signers)
                &&& call_ensures(
                    P::statement_c,
                    (&(Statement {
                        pk: &tracer.pk->0,
                        T: &tracer.T->0,
                        R: &tracer.sigma->0.R,
                        m: &tracer.message->0,
                        ct: &tracer.sigma->0.ct,
                        v0: &tracer.v0->0,
                        v: &tracer.v_vec->0,
                    }),),
                    c,
                )
                &&& call_ensures(
                    P::schnorr_signature,
                    (&tracer.sigma->0.R, &signers, &c),
                    expected,
                )
            } ==> g_z.point == Some(expected) && exists|listing: Seq<usize>| #[trigger]
                lists_ones(listing, bits@) && listing.len() >= tracer.t->0,
    ensures
        res is Ok,
{
    let checked = choose|checked: Result<Vec<PartialDecryption<P::PartialBody>>, String>| #[trigger]
        tracer.checks_partials(partials, checked) && (match checked {
            Ok(valid) => tracer.traces_valid(valid, res),
            Err(e) => res == Err::<Vec<usize>, String>(e),
        });
    if let Err(e) = checked {
        let at = missing_keys_stop_the_tracing(tracer, partials, e);
        let key: Result<P::VerificationKey, String> = Err(e);
        assert(call_ensures(
            P::verification_key,
            (&tracer.tracer_key_share->0.qual, &tracer.dkg_broadcasts, partials[at].tracer_index),
            key,
        ));
        assert(false);
    }
    let valid = checked->Ok_0;
    let combined = choose|combined: Result<(Gt, Vec<Gt>), String>| #[trigger]
        call_ensures(
            P::combine_partials,
            (&tracer.decryption_input(), &valid, tracer.te->0),
            combined,
        ) && (match combined {
            Ok((g_z, elements)) => tracer.traces_elements(g_z, elements@, res),
            Err(e) => res == Err::<Vec<usize>, String>(e),
        });
    assert(combined is Ok);
    let (g_z, elements) = combined->Ok_0;
    assert(combined == Ok::<(Gt, Vec<Gt>), String>((g_z, elements)));
    let decoded = choose|decoded: Result<Vec<u8>, String>| #[trigger]
        decodes::<P>(elements@, decoded) && (match decoded {
            Ok(bits) => tracer.traces_bits(g_z, bits, res),
            Err(e) => res == Err::<Vec<usize>, String>(e),
        });
    bits_are_read_one_by_one::<P>(elements@, decoded);
    if let Err(e) = decoded {
        let k = choose|k: int|
            0 <= k < elements@.len() && call_ensures(
                P::decode_bit,
                (&#[trigger] elements@[k], k as usize),
                Err(e),
            );
        let read: Result<u8, String> = Err(e);
        assert(call_ensures(P::decode_bit, (&elements@[k], k as usize), read));
        assert(false);
    }
    let bits = decoded->Ok_0;
    let pk = tracer.pk->0;
    let (signers, c, expected) = choose|signers: P::Quorum, c: Scalar, expected: PublicKey|
        {
            &&& call_ensures(P::quorum_of_bits, (&pk, &bits), signers)
            &&& call_ensures(P::statement_c, (&tracer.statement_for(tracer.sigma->0),), c)
            &&& #[trigger] call_ensures(
                P::schnorr_signature,
                (&tracer.sigma->0.R, &signers, &c),
                expected,
            )
            &&& concludes(bits@, g_z, expected, tracer.t, res)
        };
    assert(bits_read::<P>(elements@, bits@));
    assert(call_ensures(P::schnorr_signature, (&tracer.sigma->0.R, &signers, &c), expected));
    let listing = choose|listing: Seq<usize>| #[trigger]
        lists_ones(listing, bits@) && listing.len() >= tracer.t->0;
    assert(bits@.len() == bits.len());
    if res is Err {
        failed_conclusions_are_explained(bits@, g_z, expected, tracer.t, res, listing);
    }
}

/// Credentials are read with the keys that the Authority published, and
/// refused for the reason for which the package cannot be opened.
pub proof fn tracers_open_credentials_with_the_anchor<P: Scheme>(
    tracer: Tracer<P>,
    package: SecurePackage,
    anchor: AuthorityAnchor,
    now: u64,
    res: Result<(), Error>,
    after: Tracer<P>,
)
    requires
        tracer.loads_from_authority(package, anchor, now, res, after),
    ensures
        ({
            let keys = ActorKeys {
                identity_pk: anchor.identity_pk,
                transport_pk: anchor.transport_pk,
            };
            let read = opened(tracer.transport_kp.secret(), keys, package, now);
            &&& read is Err ==> res == Err::<(), Error>(read->Err_0) && after == tracer
            &&& read is Ok && res is Ok ==> exists|config: TracerPackage|
                {
                    &&& #[trigger] reads_tracer_credentials::<P>(read->Ok_0, Some(config))
                    &&& config.peer_tracers@.len() == config.n3
                    &&& after.index == Some(config.index)
                    &&& after.peer_tracers == Some(config.peer_tracers)
                }
            &&& read is Ok && res is Err ==> res == Err::<(), Error>(Error::InvalidMessage)
                && after == tracer
        }),
{
    if let Ok(plain) = opened(
        tracer.transport_kp.secret(),
        anchor.actor_keys(),
        package,
        now,
    ) {
        let config = choose|config: Option<TracerPackage>|
            reads_tracer_credentials::<P>(plain, config) && #[trigger] tracer.configures(
                config,
                res,
                after,
            );
        if let Some(read) = config {
            assert(reads_tracer_credentials::<P>(plain, Some(read)));
        }
    }
}

/// Evidence is taken only from a combiner whose keys the Authority issued, and
/// only if that combiner signed it within the last minute; anything else is
/// refused and changes nothing.
pub proof fn other_evidence_is_refused<P: Scheme>(
    tracer: Tracer<P>,
    package: BroadcastPackage,
    now: u64,
    res: Result<(), Error>,
    after: Tracer<P>,
)
    requires
        tracer.loads_from_combiner(package, now, res, after),
    ensures
        tracer.combiner_keys is None ==> res == Err::<(), Error>(Error::InvalidMessage) && after
            == tracer,
        tracer.combiner_keys is Some && !broadcast_valid(
            tracer.combiner_keys->0.identity_pk,
            package,
            MAX_AGE_SECONDS,
            now,
        ) ==> res == Err::<(), Error>(Error::InvalidSignature) && after == tracer,
        tracer.combiner_keys is Some && broadcast_valid(
            tracer.combiner_keys->0.identity_pk,
            package,
            MAX_AGE_SECONDS,
            now,
        ) && res is Err ==> res == Err::<(), Error>(Error::InvalidMessage) && after == tracer
            && reads_evidence::<P>(package.text@, None),
{
}

/// What a tracer on the roster sends is opened with that tracer's own keys;
/// nobody else is heard.
pub proof fn peers_are_heard_by_their_own_keys<P: Scheme>(
    tracer: Tracer<P>,
    peer: usize,
    package: SecurePackage,
    now: u64,
)
    ensures
        tracer.peer_tracers is Some && peer < tracer.peer_tracers->0@.len()
            ==> tracer.opened_from_peer(peer, package, now) == opened(
            tracer.transport_kp.secret(),
            tracer.peer_tracers->0@[peer as int],
            package,
            now,
        ),
        tracer.peer_tracers is None || peer >= tracer.peer_tracers->0@.len()
            ==> tracer.opened_from_peer(peer, package, now) == Err::<Seq<u8>, Error>(
            Error::InvalidMessage,
        ),
{
}

} // verus!
