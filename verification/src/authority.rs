//! The Authority: generates the signers' and the combiner's keys, sets the
//! thresholds, and hands every actor its credentials.
use vstd::pervasive::cloned;
use vstd::prelude::*;
use vstd::string::StringExecFns;

use crate::crypto::{clock_told, seal, seals, IdentityKeyPair, SecurePackage, TransportKeyPair};
use crate::keys::{pair_drawn, Error, PublicKey};
use crate::network::AuthorityAnchor;
use crate::primitives::MAX_PLAINTEXT;
use crate::scheme::Scheme;
use crate::wire::{
    writes_combiner_credentials, writes_signer_credentials, writes_tracer_credentials,
};

verus! {

/// Signer threshold `t = floor(n/2) + 1`.
pub open spec fn spec_signer_threshold(n: nat) -> nat {
    n / 2 + 1
}

/// Tracer reconstruction threshold `t_e = floor(2*n_3/3) + 1`.
pub open spec fn spec_tracer_threshold(n3: nat) -> nat {
    (2 * n3) / 3 + 1
}

/// Signer threshold `t = floor(n/2) + 1`.
pub fn signer_threshold(n: usize) -> (t: usize)
    ensures
        t == spec_signer_threshold(n as nat),
{
    n / 2 + 1
}

/// Tracer reconstruction threshold `t_e = floor(2*n_3/3) + 1`.
pub fn tracer_threshold(n3: usize) -> (te: usize)
    requires
        2 * n3 <= usize::MAX,
    ensures
        te == spec_tracer_threshold(n3 as nat),
{
    (2 * n3) / 3 + 1
}

/// A quorum is a strict majority of the signers: it exists, and any two
/// quorums share a signer.
pub proof fn signer_quorums_overlap(n: nat)
    requires
        n >= 1,
    ensures
        1 <= spec_signer_threshold(n) <= n,
        2 * spec_signer_threshold(n) > n,
        2 * (spec_signer_threshold(n) - 1) <= n,
{
}

/// More than two thirds of the tracers can always reconstruct, and no fewer
/// can; a single tracer can on its own.
pub proof fn tracer_threshold_is_two_thirds(n3: nat)
    requires
        n3 >= 1,
    ensures
        1 <= spec_tracer_threshold(n3) <= n3,
        3 * spec_tracer_threshold(n3) > 2 * n3,
        3 * (spec_tracer_threshold(n3) - 1) <= 2 * n3,
        n3 == 1 ==> spec_tracer_threshold(n3) == 1,
{
}

/// The signer and tracer thresholds of a deployment. Impossible parameters
/// are rejected with a clear message.
pub fn deployment_thresholds(n: usize, n3: usize) -> (res: Result<(usize, usize), String>)
    requires
        2 * n3 <= usize::MAX,
    ensures
        match res {
            Ok((t, te)) => {
                &&& n >= 1
                &&& n3 >= 1
                &&& t == spec_signer_threshold(n as nat)
                &&& te == spec_tracer_threshold(n3 as nat)
                &&& 1 <= t <= n
                &&& 1 <= te <= n3
            },
            Err(e) => if n == 0 {
                e@ == "N must be at least 1"@
            } else {
                n3 == 0 && e@ == "N3 (tracer count) must be at least 1"@
            },
        },
{
    if n == 0 {
        return Err(String::from_str("N must be at least 1"));
    }
    if n3 == 0 {
        return Err(String::from_str("N3 (tracer count) must be at least 1"));
    }
    Ok((signer_threshold(n), tracer_threshold(n3)))
}

/// Keys the Authority generates directly: signers and the combiner. The
/// tracer group key `pk_e` is not generated here - the `n_3` tracers produce
/// it themselves via distributed key generation, and
/// the Authority never learns any tracer secret.
pub struct KeyPairs<P: Scheme> {
    pub signers_keys: Vec<P::KeyPair>,
    pub combiner_keys: P::KeyPair,
}

impl<P: Scheme> KeyPairs<P> {
    /// Fresh keys for `n` signers and the combiner.
    pub fn new(n: usize) -> (keys: Self)
        ensures
            keys.signers_keys@.len() == n,
            forall|i: int|
                0 <= i < n ==> call_ensures(
                    P::create_key_pair,
                    (),
                    #[trigger] keys.signers_keys@[i],
                ),
            call_ensures(P::create_key_pair, (), keys.combiner_keys),
    {
        let mut signers: Vec<P::KeyPair> = Vec::new();
        while signers.len() < n
            invariant
                signers@.len() <= n,
                forall|i: int|
                    0 <= i < signers@.len() ==> call_ensures(
                        P::create_key_pair,
                        (),
                        #[trigger] signers@[i],
                    ),
            decreases n - signers@.len(),
        {
            signers.push(P::create_key_pair());
        }
        let combiner_keys = P::create_key_pair();
        KeyPairs { signers_keys: signers, combiner_keys }
    }

    /// Whether `pks` are the signers' public keys, by signer id.
    pub open spec fn lists_public_keys(self, pks: Seq<PublicKey>) -> bool {
        &&& pks.len() == self.signers_keys@.len()
        &&& forall|i: int|
            0 <= i < pks.len() ==> call_ensures(
                P::public_key,
                (&self.signers_keys@[i],),
                #[trigger] pks[i],
            )
    }

    /// The signers' public keys, by signer id.
    pub fn signer_public_keys(&self) -> (pks: Vec<PublicKey>)
        ensures
            self.lists_public_keys(pks@),
    {
        let mut pks: Vec<PublicKey> = Vec::new();
        let mut i: usize = 0;
        while i < self.signers_keys.len()
            invariant
                i <= self.signers_keys@.len(),
                pks@.len() == i,
                forall|j: int|
                    0 <= j < i ==> call_ensures(
                        P::public_key,
                        (&self.signers_keys@[j],),
                        #[trigger] pks@[j],
                    ),
            decreases self.signers_keys@.len() - i,
        {
            pks.push(P::public_key(&self.signers_keys[i]));
            i = i + 1;
        }
        pks
    }

    /// Draws the quorum of `t` signers.
    pub fn set_quorum(&self, t: usize) -> (quorum: P::Quorum)
        requires
            1 <= t <= self.signers_keys@.len(),
        ensures
            call_ensures(
                P::choose_quorum,
                (self.signers_keys@.len() as usize, t, &self.signers_keys),
                quorum,
            ),
    {
        P::choose_quorum(self.signers_keys.len(), t, &self.signers_keys)
    }
}

/// Network keys of one actor, as registered with the Authority.
#[derive(Debug, Clone, Copy, PartialEq, Eq)]
pub struct ActorKeys {
    pub identity_pk: PublicKey,
    pub transport_pk: PublicKey,
}

/// What a signer gets from the Authority.
#[derive(Debug, Clone, PartialEq, Eq)]
pub struct SignerPackage<K> {
    pub my_kp: K,
    /// Authenticated network keys of the Combiner, so the signer never has to
    /// take them from an unverified handshake.
    pub combiner_keys: ActorKeys,
}

impl<K: Clone> SignerPackage<K> {
    /// The credentials of signer `index`.
    pub fn new<P: Scheme<KeyPair = K>>(
        auth_keys: &KeyPairs<P>,
        index: usize,
        combiner_keys: ActorKeys,
    ) -> (package: Self)
        requires
            index < auth_keys.signers_keys@.len(),
        ensures
            package.combiner_keys == combiner_keys,
            cloned(auth_keys.signers_keys@[index as int], package.my_kp),
    {
        SignerPackage { my_kp: auth_keys.signers_keys[index].clone(), combiner_keys }
    }
}

/// What the combiner gets from the Authority.
#[derive(Debug, Clone, PartialEq, Eq)]
pub struct CombinerPackage<K, Q> {
    pub kp_cs: K,
    pub pk_i: Vec<PublicKey>,
    pub n: usize,
    pub t: usize,
    /// Number of tracers and the reconstruction threshold they will use.
    pub n3: usize,
    pub te: usize,
    pub quo: Q,
    /// Network keys of every signer, indexed by signer id. This is what lets
    /// the Combiner tell a real share from signer #i apart from an
    /// impersonated one.
    pub signer_keys: Vec<ActorKeys>,
    /// Network keys of every tracer, indexed by tracer id (0-based; the DKG
    /// party index is `id + 1`).
    pub tracer_keys: Vec<ActorKeys>,
}

impl<K: Clone, Q> CombinerPackage<K, Q> {
    /// The combiner's credentials.
    pub fn new<P: Scheme<KeyPair = K, Quorum = Q>>(
        auth_keys: &KeyPairs<P>,
        quo: Q,
        n: usize,
        t: usize,
        n3: usize,
        te: usize,
        signer_keys: Vec<ActorKeys>,
        tracer_keys: Vec<ActorKeys>,
    ) -> (package: Self)
        ensures
            cloned(auth_keys.combiner_keys, package.kp_cs),
            auth_keys.lists_public_keys(package.pk_i@),
            package == (CombinerPackage {
                kp_cs: package.kp_cs,
                pk_i: package.pk_i,
                n,
                t,
                n3,
                te,
                quo,
                signer_keys,
                tracer_keys,
            }),
    {
        CombinerPackage {
            kp_cs: auth_keys.combiner_keys.clone(),
            pk_i: auth_keys.signer_public_keys(),
            n,
            t,
            n3,
            te,
            quo,
            signer_keys,
            tracer_keys,
        }
    }
}

/// What a tracer gets from the Authority.
#[derive(Debug, Clone, PartialEq, Eq)]
pub struct TracerPackage {
    /// 0-based tracer id; the DKG party index is `index + 1`.
    pub index: usize,
    pub n3: usize,
    pub te: usize,
    pub pk_i: Vec<PublicKey>,
    pub pk_cs: PublicKey,
    /// Public system threshold. The tracer needs it to check that the quorum
    /// it recovers is actually large enough.
    pub t: usize,
    /// Authenticated network keys of the Combiner.
    pub combiner_keys: ActorKeys,
    /// Authenticated network keys of every tracer (including itself), indexed
    /// by tracer id, so tracers can authenticate each other on their direct
    /// peer links.
    pub peer_tracers: Vec<ActorKeys>,
}

impl TracerPackage {
    /// The credentials of tracer `index`.
    pub fn new<P: Scheme>(
        auth_keys: &KeyPairs<P>,
        index: usize,
        n3: usize,
        te: usize,
        t: usize,
        combiner_keys: ActorKeys,
        peer_tracers: Vec<ActorKeys>,
    ) -> (package: Self)
        ensures
            auth_keys.lists_public_keys(package.pk_i@),
            call_ensures(P::public_key, (&auth_keys.combiner_keys,), package.pk_cs),
            package == (TracerPackage {
                index,
                n3,
                te,
                pk_i: package.pk_i,
                pk_cs: package.pk_cs,
                t,
                combiner_keys,
                peer_tracers,
            }),
    {
        TracerPackage {
            index,
            n3,
            te,
            pk_i: auth_keys.signer_public_keys(),
            pk_cs: P::public_key(&auth_keys.combiner_keys),
            t,
            combiner_keys,
            peer_tracers,
        }
    }
}

/// The setup server.
pub struct Authority<P: Scheme> {
    pub keys: KeyPairs<P>,
    pub identity_kp: IdentityKeyPair,
    pub transport_kp: TransportKeyPair,
}

impl<P: Scheme> Authority<P> {
    /// An authority with fresh keys for itself, `n` signers and the combiner.
    pub fn new(n: usize) -> (authority: Self)
        ensures
            authority.identity_kp.wf(),
            authority.transport_kp.wf(),
            pair_drawn(authority.identity_kp.secret(), authority.identity_kp.public()@),
            pair_drawn(authority.transport_kp.secret(), authority.transport_kp.public()@),
            authority.keys.signers_keys@.len() == n,
            forall|i: int|
                0 <= i < n ==> call_ensures(
                    P::create_key_pair,
                    (),
                    #[trigger] authority.keys.signers_keys@[i],
                ),
            call_ensures(P::create_key_pair, (), authority.keys.combiner_keys),
    {
        Authority {
            keys: KeyPairs::new(n),
            identity_kp: IdentityKeyPair::new(),
            transport_kp: TransportKeyPair::new(),
        }
    }

    /// Whether `res` is what the Authority sends so that the owner of
    /// `receiver_pk` reads `plain`. Only data too long for the cipher is not
    /// sent.
    pub open spec fn sends(
        self,
        receiver_pk: PublicKey,
        plain: Seq<u8>,
        res: Result<SecurePackage, Error>,
    ) -> bool {
        match res {
            Ok(package) => {
                &&& plain.len() <= MAX_PLAINTEXT
                &&& clock_told(package.timestamp)
                &&& seals(self.identity_kp, self.transport_kp, receiver_pk, plain, package)
            },
            Err(e) => plain.len() > MAX_PLAINTEXT && e == Error::InvalidMessage,
        }
    }

    /// Encrypts (transport) and signs (identity).
    fn secure_package(&self, plain: &Vec<u8>, receiver_pk: &PublicKey) -> (res: Result<
        SecurePackage,
        Error,
    >)
        ensures
            self.sends(*receiver_pk, plain@, res),
    {
        seal(&self.identity_kp, &self.transport_kp, receiver_pk, plain.as_slice())
    }

    /// The Authority's own public keys, published as the trust anchor.
    pub fn anchor(&self) -> (anchor: AuthorityAnchor)
        ensures
            anchor.identity_pk == self.identity_kp.public(),
            anchor.transport_pk == self.transport_kp.public(),
    {
        AuthorityAnchor {
            identity_pk: self.identity_kp.public_key(),
            transport_pk: self.transport_kp.public_key(),
        }
    }

    /// Seals the credentials of signer `index`: its key pair, and the
    /// combiner's network keys.
    pub fn prepare_signer_package(
        &self,
        index: usize,
        combiner_keys: ActorKeys,
        receiver_pk: &PublicKey,
    ) -> (res: Result<SecurePackage, Error>)
        requires
            index < self.keys.signers_keys@.len(),
        ensures
            exists|package: SignerPackage<P::KeyPair>, plain: Seq<u8>|
                {
                    &&& package.combiner_keys == combiner_keys
                    &&& cloned(self.keys.signers_keys@[index as int], package.my_kp)
                    &&& #[trigger] writes_signer_credentials::<P>(package, plain)
                    &&& self.sends(*receiver_pk, plain, res)
                },
    {
        let package = SignerPackage::new(&self.keys, index, combiner_keys);
        let plain: Vec<u8> = P::encode_signer_credentials(&package);
        proof {
            assert(writes_signer_credentials::<P>(package, plain@));
        }
        self.secure_package(&plain, receiver_pk)
    }

    /// Seals the combiner's credentials: its key pair, the signers' public
    /// keys, the quorum, the parameters, and both rosters.
    pub fn prepare_combiner_package(
        &self,
        quorum: P::Quorum,
        n: usize,
        t: usize,
        n3: usize,
        te: usize,
        signer_keys: Vec<ActorKeys>,
        tracer_keys: Vec<ActorKeys>,
        receiver_pk: &PublicKey,
    ) -> (res: Result<SecurePackage, Error>)
        ensures
            exists|package: CombinerPackage<P::KeyPair, P::Quorum>, plain: Seq<u8>|
                {
                    &&& cloned(self.keys.combiner_keys, package.kp_cs)
                    &&& self.keys.lists_public_keys(package.pk_i@)
                    &&& package == (CombinerPackage {
                        kp_cs: package.kp_cs,
                        pk_i: package.pk_i,
                        n,
                        t,
                        n3,
                        te,
                        quo: quorum,
                        signer_keys,
                        tracer_keys,
                    })
                    &&& #[trigger] writes_combiner_credentials::<P>(package, plain)
                    &&& self.sends(*receiver_pk, plain, res)
                },
    {
        let package = CombinerPackage::new(
            &self.keys,
            quorum,
            n,
            t,
            n3,
            te,
            signer_keys,
            tracer_keys,
        );
        let plain: Vec<u8> = P::encode_combiner_credentials(&package);
        proof {
            assert(writes_combiner_credentials::<P>(package, plain@));
        }
        self.secure_package(&plain, receiver_pk)
    }

    /// Seals the credentials of tracer `index`: its id, the parameters, the
    /// public keys, and the network keys of the combiner and every tracer.
    pub fn prepare_tracer_package(
        &self,
        index: usize,
        n3: usize,
        te: usize,
        t: usize,
        combiner_keys: ActorKeys,
        peer_tracers: Vec<ActorKeys>,
        receiver_pk: &PublicKey,
    ) -> (res: Result<SecurePackage, Error>)
        ensures
            exists|package: TracerPackage, plain: Seq<u8>|
                {
                    &&& self.keys.lists_public_keys(package.pk_i@)
                    &&& call_ensures(P::public_key, (&self.keys.combiner_keys,), package.pk_cs)
                    &&& package == (TracerPackage {
                        index,
                        n3,
                        te,
                        pk_i: package.pk_i,
                        pk_cs: package.pk_cs,
                        t,
                        combiner_keys,
                        peer_tracers,
                    })
                    &&& #[trigger] writes_tracer_credentials::<P>(package, plain)
                    &&& self.sends(*receiver_pk, plain, res)
                },
    {
        let package = TracerPackage::new(
            &self.keys,
            index,
            n3,
            te,
            t,
            combiner_keys,
            peer_tracers,
        );
        let plain: Vec<u8> = P::encode_tracer_credentials(&package);
        proof {
            assert(writes_tracer_credentials::<P>(package, plain@));
        }
        self.secure_package(&plain, receiver_pk)
    }
}

/// The thresholds are the smallest numbers above one half of the signers and
/// two thirds of the tracers, however many there are.
pub proof fn thresholds_are_the_smallest_possible(n: nat, t: nat)
    ensures
        2 * t > n <==> t >= spec_signer_threshold(n),
        3 * t > 2 * n <==> t >= spec_tracer_threshold(n),
{
}

} // verus!
