//! A relay for tracers that cannot reach each other directly.
//!
//! It stands in for the mesh where a deployment allows no links between the
//! tracers: they hand their broadcasts, shares and partial decryptions to the
//! relay, which passes them on. It authenticates who hands in what, but it
//! cannot read a share: those are encrypted tracer-to-tracer.
use std::collections::BTreeMap;
use vstd::prelude::*;

use crate::authority::ActorKeys;
use crate::crypto::{
    announce, announces, clock_told, current_timestamp, open_at, opened, seal, seals, BroadcastPackage,
    IdentityKeyPair, SecurePackage, TransportKeyPair,
};
use crate::keys::Error;
use crate::ordered::{keys_in_order, lists_keys};
use crate::primitives::MAX_PLAINTEXT;
use crate::scheme::{PartialDecryption, Scheme};
use crate::wire::{reads_broadcast, reads_partial};

verus! {

broadcast use vstd::std_specs::btree::group_btree_axioms;

/// The bundle of every tracer's round-1 broadcast.
#[derive(Debug, Clone, PartialEq, Eq)]
pub struct DkgRound1Bundle<'a, B> {
    /// `(tracer id, broadcast)`, 0-based tracer ids.
    pub broadcasts: Vec<(usize, &'a B)>,
}

/// The shares one tracer computed for every other tracer, each individually
/// encrypted and signed tracer-to-tracer. The relay only routes these - it
/// cannot decrypt them.
#[derive(Debug, Clone, PartialEq, Eq)]
pub struct DkgSharesPackage {
    /// `(recipient tracer id, package addressed to that recipient)`.
    pub shares: Vec<(usize, SecurePackage)>,
}

/// The inbox the relay reassembles for one recipient tracer.
#[derive(Debug, Clone, PartialEq, Eq)]
pub struct DkgShareInbox<'a> {
    /// `(sender tracer id, package from that sender)`.
    pub items: Vec<(usize, &'a SecurePackage)>,
}

/// The bundle of every tracer's partial decryption, so that each tracer can
/// recombine any `t_e` of them.
#[derive(Debug, Clone, PartialEq, Eq)]
pub struct PartialDecryptionBundle<'a, D> {
    pub partials: Vec<&'a PartialDecryption<D>>,
}

/// Shares may be read from `plain`.
pub open spec fn reads_shares<P: Scheme>(plain: Seq<u8>, payload: Option<DkgSharesPackage>) -> bool {
    exists|bytes: Vec<u8>|
        bytes@ == plain && #[trigger] call_ensures(P::decode_shares, (&bytes,), payload)
}

/// Whether a list holds every value of a map by ascending key, each labelled
/// with its key.
pub open spec fn lists_entries<V>(entries: Seq<(usize, &V)>, map: Map<usize, V>) -> bool {
    &&& forall|i: int, j: int|
        0 <= i < j < entries.len() ==> (#[trigger] entries[i]).0 < (#[trigger] entries[j]).0
    &&& forall|i: int|
        0 <= i < entries.len() ==> map.contains_key((#[trigger] entries[i]).0) && *entries[i].1
            == map[entries[i].0]
    &&& forall|id: usize| #[trigger]
        map.contains_key(id) ==> exists|i: int|
            0 <= i < entries.len() && (#[trigger] entries[i]).0 == id
}

/// The parcels among these that are addressed to tracer `to`, labelled with
/// the tracer they come from.
pub open spec fn addressed(parcels: Seq<(usize, SecurePackage)>, from: usize, to: usize) -> Seq<
    (usize, SecurePackage),
>
    decreases parcels.len(),
{
    if parcels.len() == 0 {
        Seq::empty()
    } else {
        let before = addressed(parcels.drop_last(), from, to);
        if parcels.last().0 == to {
            before.push((from, parcels.last().1))
        } else {
            before
        }
    }
}

/// Passes messages on between tracers.
pub struct TracerRelay<P: Scheme> {
    pub identity_kp: IdentityKeyPair,
    pub transport_kp: TransportKeyPair,
    /// Network keys of each tracer, as issued by the Authority. Indexed by id.
    pub tracer_keys: Vec<ActorKeys>,
    /// Round-1 broadcasts, by the id of the tracer that handed them in.
    pub dkg_round1: BTreeMap<usize, P::DkgBroadcast>,
    /// For each recipient, who sent it what.
    pub dkg_inboxes: BTreeMap<usize, Vec<(usize, SecurePackage)>>,
    /// Partial decryptions, by the id of the tracer that handed them in.
    pub partials: BTreeMap<usize, PartialDecryption<P::PartialBody>>,
}

impl<P: Scheme> TracerRelay<P> {
    /// A relay for the tracers on this roster.
    pub fn new(
        identity_kp: IdentityKeyPair,
        transport_kp: TransportKeyPair,
        tracer_keys: Vec<ActorKeys>,
    ) -> (relay: Self)
        ensures
            relay.dkg_round1@ == Map::<usize, P::DkgBroadcast>::empty(),
            relay.dkg_inboxes@ == Map::<usize, Vec<(usize, SecurePackage)>>::empty(),
            relay.partials@ == Map::<usize, PartialDecryption<P::PartialBody>>::empty(),
            relay == (TracerRelay::<P> {
                identity_kp,
                transport_kp,
                tracer_keys,
                dkg_round1: relay.dkg_round1,
                dkg_inboxes: relay.dkg_inboxes,
                partials: relay.partials,
            }),
    {
        TracerRelay {
            identity_kp,
            transport_kp,
            tracer_keys,
            dkg_round1: BTreeMap::new(),
            dkg_inboxes: BTreeMap::new(),
            partials: BTreeMap::new(),
        }
    }

    /// What the relay reads at time `now` from a package that claims to come
    /// from tracer `id`, or why it is refused.
    pub open spec fn opened_from(self, id: usize, package: SecurePackage, now: u64) -> Result<
        Seq<u8>,
        Error,
    > {
        if id < self.tracer_keys@.len() {
            opened(self.transport_kp.secret(), self.tracer_keys@[id as int], package, now)
        } else {
            Err(Error::InvalidMessage)
        }
    }

    fn open_tracer_package(&self, id: usize, package: &SecurePackage, now: u64) -> (res: Result<
        Vec<u8>,
        Error,
    >)
        ensures
            match res {
                Ok(plain) => self.opened_from(id, *package, now) == Ok::<Seq<u8>, Error>(plain@),
                Err(e) => self.opened_from(id, *package, now) == Err::<Seq<u8>, Error>(e),
            },
    {
        if id < self.tracer_keys.len() {
            open_at(&self.transport_kp, &self.tracer_keys[id], package, now)
        } else {
            Err(Error::InvalidMessage)
        }
    }

    /// What becomes of the relay, and what it answers, once it has opened what
    /// tracer `id` handed in as its round-1 broadcast.
    pub open spec fn takes_round1(
        self,
        id: usize,
        plain: Seq<u8>,
        res: Result<(), Error>,
        after: Self,
    ) -> bool {
        exists|broadcast: Option<P::DkgBroadcast>| #[trigger]
            reads_broadcast::<P>(plain, broadcast) && (match broadcast {
                Some(b) => {
                    &&& res == Ok::<(), Error>(())
                    &&& after == (TracerRelay { dkg_round1: after.dkg_round1, ..self })
                    &&& after.dkg_round1@ == self.dkg_round1@.insert(id, b)
                },
                None => res == Err::<(), Error>(Error::InvalidMessage) && after == self,
            })
    }

    /// What becomes of the relay, and what it answers, when tracer `id` hands
    /// in its round-1 broadcast at time `now`.
    pub open spec fn loads_round1(
        self,
        id: usize,
        package: SecurePackage,
        now: u64,
        res: Result<(), Error>,
        after: Self,
    ) -> bool {
        match self.opened_from(id, package, now) {
            Ok(plain) => self.takes_round1(id, plain, res, after),
            Err(e) => res == Err::<(), Error>(e) && after == self,
        }
    }

    /// Takes tracer `tracer_id`'s round-1 broadcast at time `now`.
    pub fn load_dkg_round1_at(&mut self, tracer_id: usize, secure_pkg: &SecurePackage, now: u64) -> (res:
        Result<(), Error>)
        ensures
            old(self).loads_round1(tracer_id, *secure_pkg, now, res, *final(self)),
    {
        let plain: Vec<u8> = match self.open_tracer_package(tracer_id, secure_pkg, now) {
            Ok(plain) => plain,
            Err(e) => {
                return Err(e);
            },
        };
        let broadcast = P::decode_broadcast(&plain);
        proof {
            assert(reads_broadcast::<P>(plain@, broadcast));
        }
        let res: Result<(), Error> = match broadcast {
            Some(b) => {
                self.dkg_round1.insert(tracer_id, b);
                Ok(())
            },
            None => Err(Error::InvalidMessage),
        };
        proof {
            assert(old(self).takes_round1(tracer_id, plain@, res, *self));
        }
        res
    }

    /// Takes tracer `tracer_id`'s round-1 broadcast.
    pub fn load_dkg_round1(&mut self, tracer_id: usize, secure_pkg: &SecurePackage) -> (res: Result<
        (),
        Error,
    >)
        ensures
            exists|now: u64|
                clock_told(now) && #[trigger] old(self).loads_round1(tracer_id, *secure_pkg, now, res, *final(self)),
    {
        let now: u64 = current_timestamp();
        self.load_dkg_round1_at(tracer_id, secure_pkg, now)
    }

    /// Whether as many tracers have handed in a broadcast as there are.
    pub fn dkg_round1_complete(&self) -> (complete: bool)
        ensures
            complete == (self.dkg_round1@.len() == self.tracer_keys@.len()),
    {
        self.dkg_round1.len() == self.tracer_keys.len()
    }

    /// Every broadcast handed in, by ascending tracer id.
    pub fn dkg_round1_bundle(&self) -> (bundle: DkgRound1Bundle<'_, P::DkgBroadcast>)
        ensures
            lists_entries(bundle.broadcasts@, self.dkg_round1@),
    {
        DkgRound1Bundle { broadcasts: entries_in_order(&self.dkg_round1) }
    }

    /// Signs the bundle of broadcasts for every tracer to read.
    pub fn prepare_dkg_round1_bundle(&self) -> (package: BroadcastPackage)
        ensures
            exists|bundle: DkgRound1Bundle<'_, P::DkgBroadcast>, text: Vec<u8>|
                {
                    &&& lists_entries(bundle.broadcasts@, self.dkg_round1@)
                    &&& #[trigger] call_ensures(P::encode_broadcast_bundle, (&bundle,), text)
                    &&& announces(self.identity_kp, text@, package)
                    &&& clock_told(package.timestamp)
                },
    {
        let bundle = self.dkg_round1_bundle();
        let text: Vec<u8> = P::encode_broadcast_bundle(&bundle);
        announce(&self.identity_kp, text)
    }

    /// What waits for tracer `id`: who sent it what, in the order in which it
    /// was handed in.
    pub open spec fn inbox(self, id: usize) -> Seq<(usize, SecurePackage)> {
        if self.dkg_inboxes@.contains_key(id) {
            self.dkg_inboxes@[id]@
        } else {
            Seq::empty()
        }
    }

    /// This relay with other inboxes.
    pub open spec fn same_but_inboxes(self, after: Self) -> bool {
        after == (TracerRelay { dkg_inboxes: after.dkg_inboxes, ..self })
    }

    /// Puts parcels into the inboxes of their recipients.
    pub fn route(&mut self, from: usize, parcels: Vec<(usize, SecurePackage)>)
        ensures
            old(self).same_but_inboxes(*final(self)),
            forall|to: usize| #[trigger]
                final(self).inbox(to) == old(self).inbox(to) + addressed(parcels@, from, to),
    {
        let ghost all = parcels@;
        proof {
            assert(all.take(0) =~= Seq::<(usize, SecurePackage)>::empty());
            assert forall|to: usize| #[trigger]
                self.inbox(to) == old(self).inbox(to) + addressed(all.take(0), from, to) by {
                assert(self.inbox(to) + Seq::<(usize, SecurePackage)>::empty() =~= self.inbox(to));
            }
        }
        for parcel in it: parcels
            invariant
                it.seq() == all,
                old(self).same_but_inboxes(*self),
                forall|to: usize| #[trigger]
                    self.inbox(to) == old(self).inbox(to) + addressed(
                        all.take(it.index() as int),
                        from,
                        to,
                    ),
        {
            let (to, package) = parcel;
            let ghost before = *self;
            let mut waiting: Vec<(usize, SecurePackage)> = match self.dkg_inboxes.remove(&to) {
                Some(waiting) => waiting,
                None => Vec::new(),
            };
            proof {
                assert(waiting@ =~= before.inbox(to));
            }
            waiting.push((from, package));
            self.dkg_inboxes.insert(to, waiting);
            proof {
                let k = it.index() as int;
                assert(all.take(k + 1).drop_last() =~= all.take(k));
                assert forall|other: usize| #[trigger]
                    self.inbox(other) == old(self).inbox(other) + addressed(
                        all.take(k + 1),
                        from,
                        other,
                    ) by {
                    assert(before.inbox(other) == old(self).inbox(other) + addressed(
                        all.take(k),
                        from,
                        other,
                    ));
                    if other == to {
                        assert(self.inbox(other) =~= before.inbox(other).push((from, package)));
                    } else {
                        assert(self.inbox(other) =~= before.inbox(other));
                    }
                    assert(self.inbox(other) =~= old(self).inbox(other) + addressed(
                        all.take(k + 1),
                        from,
                        other,
                    ));
                }
            }
        }
        proof {
            assert(all.take(all.len() as int) =~= all);
        }
    }

    /// What becomes of the relay, and what it answers, once it has opened the
    /// parcels that tracer `from` handed in.
    pub open spec fn takes_shares(
        self,
        from: usize,
        plain: Seq<u8>,
        res: Result<(), Error>,
        after: Self,
    ) -> bool {
        exists|payload: Option<DkgSharesPackage>| #[trigger]
            reads_shares::<P>(plain, payload) && (match payload {
                Some(p) => {
                    &&& res == Ok::<(), Error>(())
                    &&& self.same_but_inboxes(after)
                    &&& forall|to: usize| #[trigger]
                        after.inbox(to) == self.inbox(to) + addressed(p.shares@, from, to)
                },
                None => res == Err::<(), Error>(Error::InvalidMessage) && after == self,
            })
    }

    /// What becomes of the relay, and what it answers, when tracer `from`
    /// hands in its shares at time `now`.
    pub open spec fn loads_shares(
        self,
        from: usize,
        package: SecurePackage,
        now: u64,
        res: Result<(), Error>,
        after: Self,
    ) -> bool {
        match self.opened_from(from, package, now) {
            Ok(plain) => self.takes_shares(from, plain, res, after),
            Err(e) => res == Err::<(), Error>(e) && after == self,
        }
    }

    /// Relays tracer `from`'s point-to-point shares into the per-recipient
    /// inboxes at time `now`, without inspecting their (encrypted) contents.
    pub fn load_dkg_shares_at(&mut self, from: usize, secure_pkg: &SecurePackage, now: u64) -> (res:
        Result<(), Error>)
        ensures
            old(self).loads_shares(from, *secure_pkg, now, res, *final(self)),
    {
        let plain: Vec<u8> = match self.open_tracer_package(from, secure_pkg, now) {
            Ok(plain) => plain,
            Err(e) => {
                return Err(e);
            },
        };
        let payload = P::decode_shares(&plain);
        proof {
            assert(reads_shares::<P>(plain@, payload));
        }
        let res: Result<(), Error> = match payload {
            Some(p) => {
                self.route(from, p.shares);
                Ok(())
            },
            None => Err(Error::InvalidMessage),
        };
        proof {
            assert(old(self).takes_shares(from, plain@, res, *self));
        }
        res
    }

    /// Relays tracer `from`'s point-to-point shares.
    pub fn load_dkg_shares(&mut self, from: usize, secure_pkg: &SecurePackage) -> (res: Result<
        (),
        Error,
    >)
        ensures
            exists|now: u64|
                clock_told(now) && #[trigger] old(self).loads_shares(from, *secure_pkg, now, res, *final(self)),
    {
        let now: u64 = current_timestamp();
        self.load_dkg_shares_at(from, secure_pkg, now)
    }

    /// Whether every tracer has as many shares waiting as there are tracers.
    pub fn dkg_inboxes_complete(&self) -> (complete: bool)
        ensures
            complete == (forall|id: usize|
                id < self.tracer_keys@.len() ==> #[trigger] self.inbox(id).len()
                    == self.tracer_keys@.len()),
    {
        let n3: usize = self.tracer_keys.len();
        let mut id: usize = 0;
        while id < n3
            invariant
                n3 == self.tracer_keys@.len(),
                id <= n3,
                forall|k: usize| k < id ==> #[trigger] self.inbox(k).len() == n3,
            decreases n3 - id,
        {
            let waiting: usize = match self.dkg_inboxes.get(&id) {
                Some(inbox) => inbox.len(),
                None => 0,
            };
            proof {
                assert(waiting == self.inbox(id).len());
            }
            if waiting != n3 {
                return false;
            }
            id = id + 1;
        }
        true
    }

    /// Whether `items` is what waits for tracer `id`.
    pub open spec fn waits(self, id: usize, items: Seq<(usize, &SecurePackage)>) -> bool {
        &&& items.len() == self.inbox(id).len()
        &&& forall|i: int|
            0 <= i < items.len() ==> (#[trigger] items[i]).0 == self.inbox(id)[i].0 && *items[i].1
                == self.inbox(id)[i].1
    }

    /// What waits for tracer `id`.
    pub fn dkg_inbox_for(&self, id: usize) -> (inbox: DkgShareInbox<'_>)
        ensures
            self.waits(id, inbox.items@),
    {
        let mut items: Vec<(usize, &SecurePackage)> = Vec::new();
        if let Some(inbox) = self.dkg_inboxes.get(&id) {
            let mut i: usize = 0;
            while i < inbox.len()
                invariant
                    i <= inbox@.len(),
                    inbox@ == self.inbox(id),
                    items@.len() == i,
                    forall|j: int|
                        0 <= j < i ==> (#[trigger] items@[j]).0 == self.inbox(id)[j].0
                            && *items@[j].1 == self.inbox(id)[j].1,
                decreases inbox@.len() - i,
            {
                let item: &(usize, SecurePackage) = &inbox[i];
                items.push((item.0, &item.1));
                i = i + 1;
            }
        }
        DkgShareInbox { items }
    }

    /// Seals what waits for tracer `id`, for that tracer.
    pub fn seal_inbox_for(&self, id: usize) -> (res: Result<SecurePackage, Error>)
        ensures
            if id < self.tracer_keys@.len() {
                exists|inbox: DkgShareInbox<'_>, plain: Vec<u8>|
                    {
                        &&& self.waits(id, inbox.items@)
                        &&& #[trigger] call_ensures(P::encode_inbox, (&inbox,), plain)
                        &&& match res {
                            Ok(package) => plain@.len() <= MAX_PLAINTEXT && clock_told(
                                package.timestamp,
                            ) && seals(
                                self.identity_kp,
                                self.transport_kp,
                                self.tracer_keys@[id as int].transport_pk,
                                plain@,
                                package,
                            ),
                            Err(e) => plain@.len() > MAX_PLAINTEXT && e == Error::InvalidMessage,
                        }
                    }
            } else {
                res == Err::<SecurePackage, Error>(Error::InvalidMessage)
            },
    {
        if id >= self.tracer_keys.len() {
            return Err(Error::InvalidMessage);
        }
        let inbox = self.dkg_inbox_for(id);
        let plain: Vec<u8> = P::encode_inbox(&inbox);
        seal(
            &self.identity_kp,
            &self.transport_kp,
            &self.tracer_keys[id].transport_pk,
            plain.as_slice(),
        )
    }

    /// What becomes of the relay, and what it answers, once it has opened what
    /// tracer `id` handed in as its partial decryption.
    pub open spec fn takes_partial(
        self,
        id: usize,
        plain: Seq<u8>,
        res: Result<(), Error>,
        after: Self,
    ) -> bool {
        exists|partial: Option<PartialDecryption<P::PartialBody>>| #[trigger]
            reads_partial::<P>(plain, partial) && (match partial {
                Some(p) => {
                    &&& res == Ok::<(), Error>(())
                    &&& after == (TracerRelay { partials: after.partials, ..self })
                    &&& after.partials@ == self.partials@.insert(id, p)
                },
                None => res == Err::<(), Error>(Error::InvalidMessage) && after == self,
            })
    }

    /// What becomes of the relay, and what it answers, when tracer `id` hands
    /// in its partial decryption at time `now`.
    pub open spec fn loads_partial(
        self,
        id: usize,
        package: SecurePackage,
        now: u64,
        res: Result<(), Error>,
        after: Self,
    ) -> bool {
        match self.opened_from(id, package, now) {
            Ok(plain) => self.takes_partial(id, plain, res, after),
            Err(e) => res == Err::<(), Error>(e) && after == self,
        }
    }

    /// Takes tracer `tracer_id`'s partial decryption at time `now`.
    pub fn load_partial_decryption_at(
        &mut self,
        tracer_id: usize,
        secure_pkg: &SecurePackage,
        now: u64,
    ) -> (res: Result<(), Error>)
        ensures
            old(self).loads_partial(tracer_id, *secure_pkg, now, res, *final(self)),
    {
        let plain: Vec<u8> = match self.open_tracer_package(tracer_id, secure_pkg, now) {
            Ok(plain) => plain,
            Err(e) => {
                return Err(e);
            },
        };
        let partial = P::decode_partial(&plain);
        proof {
            assert(reads_partial::<P>(plain@, partial));
        }
        let res: Result<(), Error> = match partial {
            Some(p) => {
                self.partials.insert(tracer_id, p);
                Ok(())
            },
            None => Err(Error::InvalidMessage),
        };
        proof {
            assert(old(self).takes_partial(tracer_id, plain@, res, *self));
        }
        res
    }

    /// Takes tracer `tracer_id`'s partial decryption.
    pub fn load_partial_decryption(&mut self, tracer_id: usize, secure_pkg: &SecurePackage) -> (res:
        Result<(), Error>)
        ensures
            exists|now: u64|
                clock_told(now) && #[trigger] old(self).loads_partial(tracer_id, *secure_pkg, now, res, *final(self)),
    {
        let now: u64 = current_timestamp();
        self.load_partial_decryption_at(tracer_id, secure_pkg, now)
    }

    /// Whether as many tracers have handed in a partial decryption as there
    /// are.
    pub fn partial_decryptions_complete(&self) -> (complete: bool)
        ensures
            complete == (self.partials@.len() == self.tracer_keys@.len()),
    {
        self.partials.len() == self.tracer_keys.len()
    }

    /// Signs every partial decryption handed in, by ascending tracer id, for
    /// every tracer to read.
    pub fn prepare_partial_decryption_bundle(&self) -> (package: BroadcastPackage)
        ensures
            exists|
                entries: Seq<(usize, &PartialDecryption<P::PartialBody>)>,
                bundle: PartialDecryptionBundle<'_, P::PartialBody>,
                text: Vec<u8>,
            |
                #![trigger lists_entries(entries, self.partials@), call_ensures(P::encode_partial_bundle, (&bundle,), text)]
                {
                    &&& lists_entries(entries, self.partials@)
                    &&& bundle.partials@.len() == entries.len()
                    &&& forall|i: int|
                        0 <= i < entries.len() ==> (#[trigger] bundle.partials@[i]) == entries[i].1
                    &&& call_ensures(P::encode_partial_bundle, (&bundle,), text)
                    &&& announces(self.identity_kp, text@, package)
                    &&& clock_told(package.timestamp)
                },
    {
        let entries: Vec<(usize, &PartialDecryption<P::PartialBody>)> = entries_in_order(
            &self.partials,
        );
        let mut partials: Vec<&PartialDecryption<P::PartialBody>> = Vec::new();
        let mut i: usize = 0;
        while i < entries.len()
            invariant
                i <= entries@.len(),
                partials@.len() == i,
                forall|j: int| 0 <= j < i ==> (#[trigger] partials@[j]) == entries@[j].1,
            decreases entries@.len() - i,
        {
            partials.push(entries[i].1);
            i = i + 1;
        }
        let bundle = PartialDecryptionBundle { partials };
        let text: Vec<u8> = P::encode_partial_bundle(&bundle);
        proof {
            assert(lists_entries(entries@, self.partials@));
        }
        announce(&self.identity_kp, text)
    }
}

/// The entries of a map by ascending key.
fn entries_in_order<V>(map: &BTreeMap<usize, V>) -> (entries: Vec<(usize, &V)>)
    ensures
        lists_entries(entries@, map@),
{
    let ids: Vec<usize> = keys_in_order(map);
    let mut entries: Vec<(usize, &V)> = Vec::new();
    let mut i: usize = 0;
    while i < ids.len()
        invariant
            i <= ids@.len(),
            lists_keys(ids@, map@),
            entries@.len() == i,
            forall|j: int|
                0 <= j < i ==> (#[trigger] entries@[j]).0 == ids@[j] && map@.contains_key(ids@[j])
                    && *entries@[j].1 == map@[ids@[j]],
        decreases ids@.len() - i,
    {
        proof {
            assert(ids@.to_set().contains(ids@[i as int]));
        }
        let id: usize = ids[i];
        entries.push((id, map.get(&id).unwrap()));
        i = i + 1;
    }
    proof {
        assert forall|id: usize| #[trigger] map@.contains_key(id) implies exists|j: int|
            0 <= j < entries@.len() && (#[trigger] entries@[j]).0 == id by {
            assert(ids@.to_set().contains(id));
            let j = choose|j: int| 0 <= j < ids@.len() && ids@[j] == id;
            assert(entries@[j].0 == id);
        }
    }
    entries
}

/// A parcel reaches the tracer it is addressed to, and only that one, with its
/// sender's id and in the order in which the parcels were handed in.
pub proof fn parcels_reach_their_recipients(
    parcels: Seq<(usize, SecurePackage)>,
    from: usize,
    to: usize,
) -> (positions: Seq<int>)
    ensures
        addressed(parcels, from, to).len() == positions.len(),
        forall|i: int, j: int| 0 <= i < j < positions.len() ==> positions[i] < positions[j],
        forall|j: int|
            0 <= j < positions.len() ==> 0 <= #[trigger] positions[j] < parcels.len()
                && addressed(parcels, from, to)[j] == (from, parcels[positions[j]].1),
        forall|i: int| #[trigger]
            positions.contains(i) <==> 0 <= i < parcels.len() && parcels[i].0 == to,
    decreases parcels.len(),
{
    if parcels.len() == 0 {
        Seq::empty()
    } else {
        let rest = parcels.drop_last();
        let before = parcels_reach_their_recipients(rest, from, to);
        let last = parcels.len() - 1;
        let positions = if parcels.last().0 == to {
            before.push(last)
        } else {
            before
        };
        assert forall|j: int| 0 <= j < positions.len() implies 0 <= #[trigger] positions[j]
            < parcels.len() && addressed(parcels, from, to)[j] == (
            from,
            parcels[positions[j]].1,
        ) by {
            if j < before.len() {
                assert(positions[j] == before[j]);
                assert(rest[before[j]] == parcels[before[j]]);
            }
        }
        assert forall|i: int| #[trigger]
            positions.contains(i) <==> 0 <= i < parcels.len() && parcels[i].0 == to by {
            if before.contains(i) {
                let p = choose|p: int| 0 <= p < before.len() && before[p] == i;
                assert(positions[p] == i);
                assert(rest[i] == parcels[i]);
            }
            if 0 <= i < last {
                assert(rest[i] == parcels[i]);
            }
            if parcels.last().0 == to {
                assert(positions[before.len() as int] == last);
            }
            if positions.contains(i) {
                let p = choose|p: int| 0 <= p < positions.len() && positions[p] == i;
                if p < before.len() {
                    assert(before[p] == i);
                }
            }
        }
        positions
    }
}

/// What waits for a tracer is what its inbox holds, and nothing where it has
/// none; what it is handed is that, in order.
pub proof fn inboxes_are_handed_over_whole<P: Scheme>(
    relay: TracerRelay<P>,
    id: usize,
    items: Seq<(usize, &SecurePackage)>,
)
    requires
        relay.waits(id, items),
    ensures
        !relay.dkg_inboxes@.contains_key(id) ==> items.len() == 0,
        relay.dkg_inboxes@.contains_key(id) ==> {
            &&& items.len() == relay.dkg_inboxes@[id]@.len()
            &&& forall|i: int|
                0 <= i < items.len() ==> (#[trigger] items[i]).0 == relay.dkg_inboxes@[id]@[i].0
                    && *items[i].1 == relay.dkg_inboxes@[id]@[i].1
        },
{
}

/// What a tracer on the roster hands in is opened with that tracer's own keys;
/// nobody else is heard.
pub proof fn relays_know_their_roster<P: Scheme>(
    relay: TracerRelay<P>,
    id: usize,
    package: SecurePackage,
    now: u64,
)
    ensures
        id < relay.tracer_keys@.len() ==> relay.opened_from(id, package, now) == opened(
            relay.transport_kp.secret(),
            relay.tracer_keys@[id as int],
            package,
            now,
        ),
        id >= relay.tracer_keys@.len() ==> relay.opened_from(id, package, now) == Err::<
            Seq<u8>,
            Error,
        >(Error::InvalidMessage),
{
}

/// A broadcast that can be read is filed under the tracer that handed it in,
/// and so is a partial decryption; nobody else's changes. What cannot be read
/// is refused.
pub proof fn readable_contributions_are_filed<P: Scheme>(
    relay: TracerRelay<P>,
    id: usize,
    plain: Seq<u8>,
    heard: Result<(), Error>,
    with_broadcast: TracerRelay<P>,
    taken: Result<(), Error>,
    with_partial: TracerRelay<P>,
)
    requires
        relay.takes_round1(id, plain, heard, with_broadcast),
        relay.takes_partial(id, plain, taken, with_partial),
    ensures
        heard is Ok ==> {
            &&& with_broadcast.dkg_round1@.contains_key(id)
            &&& reads_broadcast::<P>(plain, Some(with_broadcast.dkg_round1@[id]))
            &&& with_broadcast.dkg_round1@.dom() == relay.dkg_round1@.dom().insert(id)
            &&& with_broadcast.dkg_round1@.remove(id) == relay.dkg_round1@.remove(id)
            &&& with_broadcast.dkg_inboxes == relay.dkg_inboxes
            &&& with_broadcast.partials == relay.partials
        },
        heard is Err ==> heard == Err::<(), Error>(Error::InvalidMessage) && with_broadcast == relay
            && reads_broadcast::<P>(plain, None),
        taken is Ok ==> {
            &&& with_partial.partials@.contains_key(id)
            &&& reads_partial::<P>(plain, Some(with_partial.partials@[id]))
            &&& with_partial.partials@.dom() == relay.partials@.dom().insert(id)
            &&& with_partial.partials@.remove(id) == relay.partials@.remove(id)
            &&& with_partial.dkg_inboxes == relay.dkg_inboxes
            &&& with_partial.dkg_round1 == relay.dkg_round1
        },
        taken is Err ==> taken == Err::<(), Error>(Error::InvalidMessage) && with_partial == relay
            && reads_partial::<P>(plain, None),
{
    if heard is Ok {
        assert(with_broadcast.dkg_round1@.remove(id) =~= relay.dkg_round1@.remove(id));
    }
    if taken is Ok {
        assert(with_partial.partials@.remove(id) =~= relay.partials@.remove(id));
    }
}

/// Parcels that can be read are put behind what waits for their recipients
/// already; nothing else changes. What cannot be read is refused.
pub proof fn readable_parcels_are_routed<P: Scheme>(
    relay: TracerRelay<P>,
    from: usize,
    plain: Seq<u8>,
    res: Result<(), Error>,
    after: TracerRelay<P>,
)
    requires
        relay.takes_shares(from, plain, res, after),
    ensures
        res is Ok ==> exists|parcels: DkgSharesPackage|
            {
                &&& #[trigger] reads_shares::<P>(plain, Some(parcels))
                &&& forall|to: usize, i: int|
                    #![trigger relay.inbox(to), parcels.shares@[i]]
                    0 <= i < parcels.shares@.len() && parcels.shares@[i].0 == to
                        ==> after.inbox(to).contains((from, parcels.shares@[i].1))
            },
        res is Ok ==> forall|to: usize, i: int|
            0 <= i < relay.inbox(to).len() ==> i < after.inbox(to).len() && (
            #[trigger] after.inbox(to)[i]) == relay.inbox(to)[i],
        res is Ok ==> after.dkg_round1 == relay.dkg_round1 && after.partials == relay.partials
            && after.tracer_keys == relay.tracer_keys,
        res is Err ==> res == Err::<(), Error>(Error::InvalidMessage) && after == relay
            && reads_shares::<P>(plain, None),
{
    if res is Ok {
        let payload = choose|payload: Option<DkgSharesPackage>| #[trigger]
            reads_shares::<P>(plain, payload) && (match payload {
                Some(p) => {
                    &&& res == Ok::<(), Error>(())
                    &&& relay.same_but_inboxes(after)
                    &&& forall|to: usize| #[trigger]
                        after.inbox(to) == relay.inbox(to) + addressed(p.shares@, from, to)
                },
                None => res == Err::<(), Error>(Error::InvalidMessage) && after == relay,
            });
        let parcels = payload->0;
        assert(reads_shares::<P>(plain, Some(parcels)));
        assert forall|to: usize, i: int|
            #![trigger relay.inbox(to), parcels.shares@[i]]
            0 <= i < parcels.shares@.len() && parcels.shares@[i].0 == to implies after.inbox(
            to,
        ).contains((from, parcels.shares@[i].1)) by {
            let positions = parcels_reach_their_recipients(parcels.shares@, from, to);
            assert(positions.contains(i));
            let j = choose|j: int| 0 <= j < positions.len() && positions[j] == i;
            let routed = addressed(parcels.shares@, from, to);
            assert(routed[j] == (from, parcels.shares@[i].1));
            assert(after.inbox(to)[relay.inbox(to).len() + j] == routed[j]);
        }
    }
}

/// A bundle has one entry for every value on file, and no other, by ascending
/// id.
pub proof fn bundles_hold_everything<V>(
    entries: Seq<(usize, &V)>,
    map: Map<usize, V>,
    id: usize,
)
    requires
        lists_entries(entries, map),
    ensures
        map.contains_key(id) <==> exists|i: int|
            0 <= i < entries.len() && (#[trigger] entries[i]).0 == id && *entries[i].1 == map[id],
        forall|i: int, j: int|
            0 <= i < j < entries.len() ==> (#[trigger] entries[i]).0 < (#[trigger] entries[j]).0,
{
    if map.contains_key(id) {
        let i = choose|i: int| 0 <= i < entries.len() && (#[trigger] entries[i]).0 == id;
        assert(entries[i].0 == id && *entries[i].1 == map[id]);
    }
}

} // verus!
