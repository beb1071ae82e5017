//! The actors, run with a small but complete scheme: Schnorr multi-signatures
//! for the signers, Feldman key generation and threshold ElGamal for the
//! tracers.
use secp256k1::{ecdsa, Message as Digested, Secp256k1, SecretKey};
use sha2::{Digest, Sha256};
use simulation_taps_tt::authority::{
    self, deployment_thresholds, signer_threshold, tracer_threshold, ActorKeys, Authority,
    CombinerPackage, KeyPairs,
};
use simulation_taps_tt::combiner::{self, Combiner, TracerPublicKeyPackage};
use simulation_taps_tt::crypto::{
    announce_at, current_timestamp, seal_at, BroadcastPackage, IdentityKeyPair, SecurePackage,
    TransportKeyPair,
};
use simulation_taps_tt::group::Gt;
use simulation_taps_tt::keys::{Error, PublicKey, Scalar, Signature};
use simulation_taps_tt::network::{AuthorityAnchor, Message, Role};
use simulation_taps_tt::relay::{
    DkgRound1Bundle, DkgShareInbox, DkgSharesPackage, PartialDecryptionBundle, TracerRelay,
};
use simulation_taps_tt::scheme::{
    DecryptionInput, ElGamalCiphertext, PartialDecryption, Pi, Scheme, Sigma, Statement,
    TracerKeyShare, PK,
};
use simulation_taps_tt::signer::{CommitmentPackage, SigmaPackage, Signer};
use simulation_taps_tt::tracer::{judge_evidence, DkgSharePayload, Tracer};
use simulation_taps_tt::tracer_mesh::{MeshStep, TracerMesh};
use simulation_taps_tt::tracing::conclude;
use std::collections::BTreeMap;

// --- Curve arithmetic -------------------------------------------------------

type Point = secp256k1::PublicKey;

fn fresh() -> SecretKey {
    SecretKey::new(&mut secp256k1::rand::rng())
}

fn times_g(x: &SecretKey) -> Point {
    Point::from_secret_key(&Secp256k1::new(), x)
}

fn times(p: &Point, x: &SecretKey) -> Point {
    p.mul_tweak(&Secp256k1::new(), &secp256k1::Scalar::from(*x)).unwrap()
}

fn plus(a: Option<Point>, b: Option<Point>) -> Option<Point> {
    match (a, b) {
        (Some(x), Some(y)) => x.combine(&y).ok(),
        (x, None) => x,
        (None, y) => y,
    }
}

fn minus(a: Option<Point>, b: Point) -> Option<Point> {
    plus(a, Some(b.negate(&Secp256k1::new())))
}

fn product(a: &SecretKey, b: &SecretKey) -> SecretKey {
    a.mul_tweak(&secp256k1::Scalar::from(*b)).unwrap()
}

fn sum(a: &SecretKey, b: &SecretKey) -> SecretKey {
    a.add_tweak(&secp256k1::Scalar::from(*b)).unwrap()
}

fn small(n: usize) -> SecretKey {
    let mut bytes = [0u8; 32];
    bytes[24..].copy_from_slice(&(n as u64).to_be_bytes());
    SecretKey::from_byte_array(bytes).unwrap()
}

/// The inverse, as the power by the group order minus two.
fn inverse(x: &SecretKey) -> SecretKey {
    let mut exponent = secp256k1::constants::CURVE_ORDER;
    exponent[31] -= 2;
    let mut result = small(1);
    for byte in exponent {
        for bit in (0..8).rev() {
            result = product(&result, &result);
            if byte >> bit & 1 == 1 {
                result = product(&result, x);
            }
        }
    }
    result
}

fn own(p: &Point) -> PublicKey {
    PublicKey::from_slice(&p.serialize()).unwrap()
}

fn theirs(p: &PublicKey) -> Point {
    Point::from_slice(&p.serialize()).unwrap()
}

fn as_secret(s: &Scalar) -> SecretKey {
    SecretKey::from_byte_array(s.to_be_bytes()).unwrap()
}

fn hash(parts: &[&[u8]]) -> [u8; 32] {
    let mut hasher = Sha256::new();
    for part in parts {
        hasher.update((part.len() as u64).to_be_bytes());
        hasher.update(part);
    }
    hasher.finalize().into()
}

fn hash_to_scalar(parts: &[&[u8]]) -> Scalar {
    Scalar::from_be_bytes(hash(parts)).unwrap()
}

fn list_bytes(points: &[PublicKey]) -> Vec<u8> {
    points.iter().flat_map(|p| p.serialize()).collect()
}

// --- Bytes ------------------------------------------------------------------

struct Writer(Vec<u8>);

impl Writer {
    fn new() -> Writer {
        Writer(Vec::new())
    }
    fn number(mut self, n: usize) -> Writer {
        self.0.extend((n as u64).to_be_bytes());
        self
    }
    fn raw(mut self, bytes: &[u8]) -> Writer {
        self.0.extend(bytes);
        self
    }
    fn block(self, bytes: &[u8]) -> Writer {
        self.number(bytes.len()).raw(bytes)
    }
    fn points(mut self, points: &[PublicKey]) -> Writer {
        self = self.number(points.len());
        self.raw(&list_bytes(points))
    }
    fn actors(mut self, keys: &[ActorKeys]) -> Writer {
        self = self.number(keys.len());
        for k in keys {
            self = self.raw(&k.identity_pk.serialize()).raw(&k.transport_pk.serialize());
        }
        self
    }
    fn package(self, p: &SecurePackage) -> Writer {
        self.block(&p.ciphertext)
            .block(&p.nonce)
            .number(p.timestamp as usize)
            .raw(&p.signature.compact)
    }
}

struct Reader<'a>(&'a [u8]);

impl<'a> Reader<'a> {
    fn raw(&mut self, len: usize) -> Option<&'a [u8]> {
        if self.0.len() < len {
            return None;
        }
        let (head, tail) = self.0.split_at(len);
        self.0 = tail;
        Some(head)
    }
    fn number(&mut self) -> Option<usize> {
        Some(u64::from_be_bytes(self.raw(8)?.try_into().unwrap()) as usize)
    }
    fn block(&mut self) -> Option<Vec<u8>> {
        let len = self.number()?;
        Some(self.raw(len)?.to_vec())
    }
    fn point(&mut self) -> Option<PublicKey> {
        PublicKey::from_slice(self.raw(33)?).ok()
    }
    fn points(&mut self) -> Option<Vec<PublicKey>> {
        (0..self.number()?).map(|_| self.point()).collect()
    }
    fn scalar(&mut self) -> Option<Scalar> {
        Scalar::from_be_bytes(self.raw(32)?.try_into().unwrap())
    }
    fn secret(&mut self) -> Option<SecretKey> {
        SecretKey::from_byte_array(self.raw(32)?.try_into().unwrap()).ok()
    }
    fn actor(&mut self) -> Option<ActorKeys> {
        Some(ActorKeys { identity_pk: self.point()?, transport_pk: self.point()? })
    }
    fn actors(&mut self) -> Option<Vec<ActorKeys>> {
        (0..self.number()?).map(|_| self.actor()).collect()
    }
    fn package(&mut self) -> Option<SecurePackage> {
        Some(SecurePackage {
            ciphertext: self.block()?,
            nonce: self.block()?,
            timestamp: self.number()? as u64,
            signature: Signature { compact: self.raw(64)?.try_into().unwrap() },
        })
    }
    fn end<T>(self, value: T) -> Option<T> {
        if self.0.is_empty() {
            Some(value)
        } else {
            None
        }
    }
}

fn ciphertext_bytes(ct: &ElGamalCiphertext) -> Vec<u8> {
    list_bytes(&[ct.c0, ct.c1])
}

// --- The scheme -------------------------------------------------------------

struct Toy;

#[derive(Clone, Debug, PartialEq)]
struct Quorum {
    bits: Vec<u8>,
    members: Vec<PublicKey>,
}

struct Participant {
    coefficients: Vec<SecretKey>,
    index: usize,
}

fn statement_bytes(s: &Statement<'_>) -> Vec<u8> {
    Writer::new()
        .points(&s.pk.pk_i)
        .points(&[s.pk.pk_cs, s.pk.pk_e, s.T.c0, s.T.c1, *s.R, s.ct.c0, s.ct.c1])
        .points(s.v0)
        .points(s.v)
        .block(s.m)
        .0
}

impl Scheme for Toy {
    type KeyPair = SecretKey;
    type Quorum = Quorum;
    type Commit = SecretKey;
    type Commitment = PublicKey;
    type Sign = SecretKey;
    type Secret = SecretKey;
    type Phis = usize;
    type Blinds = usize;
    type Witnesses = Vec<u8>;
    type Hats = Vec<u8>;
    type Proofs = Vec<u8>;
    type Attestation = [u8; 64];
    type DkgParticipant = Participant;
    type DkgBroadcast = Vec<PublicKey>;
    type Share = SecretKey;
    type TracerSecret = (usize, SecretKey);
    type PartialBody = Vec<PublicKey>;
    type VerificationKey = PublicKey;

    fn create_key_pair() -> SecretKey {
        fresh()
    }

    fn public_key(kp: &SecretKey) -> PublicKey {
        own(&times_g(kp))
    }

    fn choose_quorum(n: usize, t: usize, keys: &Vec<SecretKey>) -> Quorum {
        // The last t signers.
        let bits: Vec<u8> = (0..n).map(|i| u8::from(i + t >= n)).collect();
        let members = (n - t..n).map(|i| Toy::public_key(&keys[i])).collect();
        Quorum { bits, members }
    }

    fn quorum_of_bits(pk: &PK, bits: &Vec<u8>) -> Quorum {
        let members = (0..bits.len()).filter(|&i| bits[i] == 1).map(|i| pk.pk_i[i]).collect();
        Quorum { bits: bits.clone(), members }
    }

    fn commit() -> SecretKey {
        fresh()
    }

    fn commitment(commit: &SecretKey) -> PublicKey {
        own(&times_g(commit))
    }

    fn aggregate_commitments(list: &Vec<&PublicKey>, quorum: &Quorum) -> Result<PublicKey, Error> {
        let mut total = None;
        for (i, c) in list.iter().enumerate() {
            if quorum.bits[i] == 1 {
                total = plus(total, Some(theirs(c)));
            }
        }
        total.map(|p| own(&p)).ok_or(Error::InvalidPublicKeySum)
    }

    fn challenge(pk: &PK, T: &ElGamalCiphertext, R: &PublicKey, m: &[u8]) -> Scalar {
        hash_to_scalar(&[
            &list_bytes(&pk.pk_i),
            &list_bytes(&[pk.pk_cs, pk.pk_e, T.c0, T.c1, *R]),
            m,
        ])
    }

    fn sign(commit: &SecretKey, kp: &SecretKey, c: &Scalar) -> SecretKey {
        sum(commit, &product(kp, &as_secret(c)))
    }

    fn aggregate_signs(signs: &Vec<&SecretKey>, quorum: &Quorum) -> SecretKey {
        let chosen: Vec<&SecretKey> =
            (0..signs.len()).filter(|&i| quorum.bits[i] == 1).map(|i| signs[i]).collect();
        let mut total = *chosen[0];
        for z in &chosen[1..] {
            total = sum(&total, z);
        }
        total
    }

    fn create_secret() -> SecretKey {
        fresh()
    }

    fn encrypt_value(secret: &SecretKey, value: &Scalar) -> ElGamalCiphertext {
        let mask = times(&times_g(&small(7)), secret);
        let c1 = plus(Some(times_g(&as_secret(value))), Some(mask)).unwrap();
        ElGamalCiphertext { c0: own(&times_g(secret)), c1: own(&c1) }
    }

    fn encrypt_sign(secret: &SecretKey, z: &SecretKey, pk: &PK) -> ElGamalCiphertext {
        let mask = times(&theirs(&pk.pk_e), secret);
        let c1 = plus(Some(times_g(z)), Some(mask)).unwrap();
        ElGamalCiphertext { c0: own(&times_g(secret)), c1: own(&c1) }
    }

    fn encrypt_bits(quorum: &Quorum, pk_e: &PublicKey) -> (Vec<SecretKey>, Vec<ElGamalCiphertext>) {
        let mut gammas = Vec::new();
        let mut list = Vec::new();
        for bit in &quorum.bits {
            let gamma = fresh();
            let mask = times(&theirs(pk_e), &gamma);
            let plain = if *bit == 1 { Some(times_g(&small(1))) } else { None };
            list.push(ElGamalCiphertext {
                c0: own(&times_g(&gamma)),
                c1: own(&plus(plain, Some(mask)).unwrap()),
            });
            gammas.push(gamma);
        }
        (gammas, list)
    }

    fn statement_c(s: &Statement<'_>) -> Scalar {
        Toy::challenge(s.pk, s.T, s.R, s.m)
    }

    fn statement_alpha(s: &Statement<'_>, c: &Scalar) -> Scalar {
        hash_to_scalar(&[b"alpha", &statement_bytes(s), &c.to_be_bytes()])
    }

    fn statement_beta(s: &Statement<'_>, alpha: &Scalar, proofs: &Vec<u8>) -> Scalar {
        hash_to_scalar(&[b"beta", &statement_bytes(s), &alpha.to_be_bytes(), proofs])
    }

    fn phis(_alpha: &Scalar, gammas: &Vec<SecretKey>, quorum: &Quorum) -> usize {
        assert_eq!(gammas.len(), quorum.bits.len());
        gammas.len()
    }

    fn blinds(n: usize) -> usize {
        n
    }

    fn proofs(
        blinds: &usize,
        pk: &PK,
        pk_e: &PublicKey,
        v: &Vec<PublicKey>,
        c: &Scalar,
        alpha: &Scalar,
    ) -> Vec<u8> {
        assert_eq!((*blinds, pk.pk_e), (v.len(), *pk_e));
        Writer::new().raw(&c.to_be_bytes()).raw(&alpha.to_be_bytes()).0
    }

    fn witnesses(
        z: &SecretKey,
        rho: &SecretKey,
        gammas: &Vec<SecretKey>,
        psi: &SecretKey,
        quorum: &Quorum,
        phis: &usize,
    ) -> Vec<u8> {
        assert_eq!(*phis, gammas.len());
        hash(&[&z[..], &rho[..], &psi[..], &quorum.bits]).to_vec()
    }

    fn hats(beta: &Scalar, witnesses: &Vec<u8>, blinds: &usize) -> Vec<u8> {
        hash(&[&beta.to_be_bytes(), witnesses, &blinds.to_be_bytes()]).to_vec()
    }

    fn attest(
        kp: &SecretKey,
        m: &[u8],
        R: &PublicKey,
        ct: &ElGamalCiphertext,
        _pi: &Pi<Vec<u8>>,
    ) -> [u8; 64] {
        let digest = hash(&[m, &R.serialize(), &ciphertext_bytes(ct)]);
        Secp256k1::new().sign_ecdsa(Digested::from_digest(digest), kp).serialize_compact()
    }

    fn verify_attestation(pk: &PK, m: &Vec<u8>, sigma: &Sigma<[u8; 64]>) -> Result<bool, String> {
        let digest = hash(&[m, &sigma.R.serialize(), &ciphertext_bytes(&sigma.ct)]);
        let signature =
            ecdsa::Signature::from_compact(&sigma.attestation).map_err(|e| format!("{:?}", e))?;
        Ok(Secp256k1::new()
            .verify_ecdsa(Digested::from_digest(digest), &signature, &theirs(&pk.pk_cs))
            .is_ok())
    }

    fn verify_proofs(
        proofs: &Vec<u8>,
        _sigma: &Sigma<[u8; 64]>,
        s: &Statement<'_>,
    ) -> Result<bool, String> {
        if proofs.len() != 64 {
            return Err("length".to_string());
        }
        let c = Toy::statement_c(s);
        let alpha = Toy::statement_alpha(s, &c);
        Ok(proofs[..32] == c.to_be_bytes() && proofs[32..] == alpha.to_be_bytes())
    }

    fn schnorr_signature(R: &PublicKey, quorum: &Quorum, c: &Scalar) -> PublicKey {
        let mut total = None;
        for member in &quorum.members {
            total = plus(total, Some(theirs(member)));
        }
        let signed = total.map(|p| times(&p, &as_secret(c)));
        own(&plus(Some(theirs(R)), signed).unwrap())
    }

    fn dkg_participant(index: usize, te: usize, _n3: usize) -> Participant {
        Participant { coefficients: (0..te).map(|_| fresh()).collect(), index }
    }

    fn dkg_broadcast(participant: &Participant) -> Vec<PublicKey> {
        assert!(participant.index >= 1);
        participant.coefficients.iter().map(|a| own(&times_g(a))).collect()
    }

    fn share_for(participant: &Participant, index: usize) -> SecretKey {
        let mut value = *participant.coefficients.last().unwrap();
        for a in participant.coefficients.iter().rev().skip(1) {
            value = sum(&product(&value, &small(index)), a);
        }
        value
    }

    fn verify_broadcast(broadcast: &Vec<PublicKey>, te: usize) -> bool {
        broadcast.len() == te
    }

    fn verify_share(broadcast: &Vec<PublicKey>, share: &SecretKey, index: usize) -> bool {
        commitment_at(broadcast, index) == Some(times_g(share))
    }

    fn finalize(
        participant: &Participant,
        qual: &Vec<usize>,
        broadcasts: &BTreeMap<usize, Vec<PublicKey>>,
        shares: &BTreeMap<usize, SecretKey>,
    ) -> Result<TracerKeyShare<(usize, SecretKey)>, String> {
        let mut pk_e = None;
        let mut secret: Option<SecretKey> = None;
        for k in qual {
            pk_e = plus(pk_e, Some(theirs(&broadcasts[k][0])));
            secret = Some(secret.map_or(shares[k], |s| sum(&s, &shares[k])));
        }
        Ok(TracerKeyShare {
            qual: qual.clone(),
            threshold: participant.coefficients.len(),
            pk: Gt::from_public_key(&own(&times_g(&participant.coefficients[0]))),
            pk_e: own(&pk_e.ok_or("empty QUAL")?),
            secret: (participant.index, secret.unwrap()),
        })
    }

    fn partial_decrypt(
        share: &TracerKeyShare<(usize, SecretKey)>,
        input: &DecryptionInput<'_>,
    ) -> PartialDecryption<Vec<PublicKey>> {
        let mut body = vec![own(&times(&theirs(&input.ct.c0), &share.secret.1))];
        for v in input.v0 {
            body.push(own(&times(&theirs(v), &share.secret.1)));
        }
        PartialDecryption { tracer_index: share.secret.0, body }
    }

    fn verification_key(
        qual: &Vec<usize>,
        broadcasts: &BTreeMap<usize, Vec<PublicKey>>,
        index: usize,
    ) -> Result<PublicKey, String> {
        if index == 0 {
            return Err("party indices start at one".to_string());
        }
        let mut total = None;
        for k in qual {
            total = plus(total, commitment_at(&broadcasts[k], index));
        }
        total.map(|p| own(&p)).ok_or("no key".to_string())
    }

    fn verify_partial(
        partial: &PartialDecryption<Vec<PublicKey>>,
        input: &DecryptionInput<'_>,
        key: &PublicKey,
    ) -> bool {
        // Stands in for the proofs of equal logarithms.
        partial.body.len() == input.v0.len() + 1
            && key.serialize()[0] >= 2
            && !partial.body[0].same_as(&input.ct.c0)
    }

    fn combine_partials(
        input: &DecryptionInput<'_>,
        partials: &Vec<PartialDecryption<Vec<PublicKey>>>,
        te: usize,
    ) -> Result<(Gt, Vec<Gt>), String> {
        if partials.len() < te {
            return Err("not enough partial decryptions".to_string());
        }
        let used = &partials[..te];
        let weights: Vec<SecretKey> = used
            .iter()
            .map(|p| {
                let mut weight = small(1);
                for q in used {
                    if q.tracer_index != p.tracer_index {
                        let (i, j) = (small(p.tracer_index), small(q.tracer_index));
                        let gap = sum(&j, &i.negate());
                        weight = product(&weight, &product(&j, &inverse(&gap)));
                    }
                }
                weight
            })
            .collect();
        let open = |masked: &PublicKey, column: usize| {
            let mut mask = None;
            for (p, w) in used.iter().zip(&weights) {
                mask = plus(mask, Some(times(&theirs(&p.body[column]), w)));
            }
            Gt { point: minus(Some(theirs(masked)), mask.unwrap()).map(|p| own(&p)) }
        };
        let bits = input.v1.iter().enumerate().map(|(i, v)| open(v, i + 1)).collect();
        Ok((open(&input.ct.c1, 0), bits))
    }

    fn decode_bit(element: &Gt, position: usize) -> Result<u8, String> {
        match element.to_public_key() {
            None => Ok(0),
            Some(p) if p.same_as(&own(&times_g(&small(1)))) => Ok(1),
            Some(_) => Err(format!("no bit at {}", position)),
        }
    }

    fn encode_signer_credentials(p: &authority::SignerPackage<SecretKey>) -> Vec<u8> {
        Writer::new().raw(&p.my_kp[..]).actors(&[p.combiner_keys]).0
    }

    fn decode_signer_credentials(bytes: &Vec<u8>) -> Option<authority::SignerPackage<SecretKey>> {
        let mut r = Reader(bytes);
        let my_kp = r.secret()?;
        let combiner_keys = *r.actors()?.first()?;
        r.end(authority::SignerPackage { my_kp, combiner_keys })
    }

    fn encode_combiner_credentials(p: &CombinerPackage<SecretKey, Quorum>) -> Vec<u8> {
        Writer::new()
            .raw(&p.kp_cs[..])
            .points(&p.pk_i)
            .number(p.n)
            .number(p.t)
            .number(p.n3)
            .number(p.te)
            .block(&p.quo.bits)
            .points(&p.quo.members)
            .actors(&p.signer_keys)
            .actors(&p.tracer_keys)
            .0
    }

    fn decode_combiner_credentials(bytes: &Vec<u8>) -> Option<CombinerPackage<SecretKey, Quorum>> {
        let mut r = Reader(bytes);
        let package = CombinerPackage {
            kp_cs: r.secret()?,
            pk_i: r.points()?,
            n: r.number()?,
            t: r.number()?,
            n3: r.number()?,
            te: r.number()?,
            quo: Quorum { bits: r.block()?, members: r.points()? },
            signer_keys: r.actors()?,
            tracer_keys: r.actors()?,
        };
        r.end(package)
    }

    fn encode_tracer_credentials(p: &authority::TracerPackage) -> Vec<u8> {
        Writer::new()
            .number(p.index)
            .number(p.n3)
            .number(p.te)
            .number(p.t)
            .points(&p.pk_i)
            .points(&[p.pk_cs])
            .actors(&[p.combiner_keys])
            .actors(&p.peer_tracers)
            .0
    }

    fn decode_tracer_credentials(bytes: &Vec<u8>) -> Option<authority::TracerPackage> {
        let mut r = Reader(bytes);
        let package = authority::TracerPackage {
            index: r.number()?,
            n3: r.number()?,
            te: r.number()?,
            t: r.number()?,
            pk_i: r.points()?,
            pk_cs: *r.points()?.first()?,
            combiner_keys: *r.actors()?.first()?,
            peer_tracers: r.actors()?,
        };
        r.end(package)
    }

    fn encode_commitment(p: &CommitmentPackage<PublicKey>) -> Vec<u8> {
        p.commitment.serialize().to_vec()
    }

    fn decode_commitment(bytes: &Vec<u8>) -> Option<CommitmentPackage<PublicKey>> {
        let mut r = Reader(bytes);
        let commitment = r.point()?;
        r.end(CommitmentPackage { commitment })
    }

    fn encode_sign(p: &SigmaPackage<SecretKey>) -> Vec<u8> {
        p.z[..].to_vec()
    }

    fn decode_sign(bytes: &Vec<u8>) -> Option<SigmaPackage<SecretKey>> {
        let mut r = Reader(bytes);
        let z = r.secret()?;
        r.end(SigmaPackage { z })
    }

    fn encode_challenge(p: &combiner::SignerPackage) -> Vec<u8> {
        Writer::new().raw(&p.R.serialize()).raw(&p.c.to_be_bytes()).0
    }

    fn decode_challenge(bytes: &Vec<u8>) -> Option<combiner::SignerPackage> {
        let mut r = Reader(bytes);
        let package = combiner::SignerPackage { R: r.point()?, c: r.scalar()? };
        r.end(package)
    }

    fn encode_evidence(p: &combiner::TracerPackage<Vec<u8>, [u8; 64]>) -> Vec<u8> {
        Writer::new()
            .points(&[p.T.c0, p.T.c1, p.sigma.R, p.sigma.ct.c0, p.sigma.ct.c1])
            .points(&p.v0)
            .points(&p.v_vec)
            .block(&p.proof)
            .raw(&p.sigma.attestation)
            .block(&p.m)
            .0
    }

    fn decode_evidence(bytes: &Vec<u8>) -> Option<combiner::TracerPackage<Vec<u8>, [u8; 64]>> {
        let mut r = Reader(bytes);
        let fixed = r.points()?;
        if fixed.len() != 5 {
            return None;
        }
        let package = combiner::TracerPackage {
            T: ElGamalCiphertext { c0: fixed[0], c1: fixed[1] },
            v0: r.points()?,
            v_vec: r.points()?,
            proof: r.block()?,
            sigma: Sigma {
                R: fixed[2],
                ct: ElGamalCiphertext { c0: fixed[3], c1: fixed[4] },
                attestation: r.raw(64)?.try_into().unwrap(),
            },
            m: r.block()?,
        };
        r.end(package)
    }

    fn encode_tracer_public_key(p: &TracerPublicKeyPackage) -> Vec<u8> {
        p.pk.to_public_key().map_or(vec![], |pk| pk.serialize().to_vec())
    }

    fn decode_tracer_public_key(bytes: &Vec<u8>) -> Option<TracerPublicKeyPackage> {
        let point = if bytes.is_empty() {
            None
        } else {
            Some(PublicKey::from_slice(bytes).ok()?)
        };
        Some(TracerPublicKeyPackage { pk: Gt { point } })
    }

    fn encode_broadcast(broadcast: &Vec<PublicKey>) -> Vec<u8> {
        Writer::new().points(broadcast).0
    }

    fn decode_broadcast(bytes: &Vec<u8>) -> Option<Vec<PublicKey>> {
        let mut r = Reader(bytes);
        let points = r.points()?;
        r.end(points)
    }

    fn encode_share(p: &DkgSharePayload<SecretKey>) -> Vec<u8> {
        p.share[..].to_vec()
    }

    fn decode_share(bytes: &Vec<u8>) -> Option<DkgSharePayload<SecretKey>> {
        let mut r = Reader(bytes);
        let share = r.secret()?;
        r.end(DkgSharePayload { share })
    }

    fn encode_partial(p: &PartialDecryption<Vec<PublicKey>>) -> Vec<u8> {
        Writer::new().number(p.tracer_index).points(&p.body).0
    }

    fn decode_partial(bytes: &Vec<u8>) -> Option<PartialDecryption<Vec<PublicKey>>> {
        let mut r = Reader(bytes);
        let partial = PartialDecryption { tracer_index: r.number()?, body: r.points()? };
        r.end(partial)
    }

    fn encode_broadcast_bundle(payload: &DkgRound1Bundle<'_, Vec<PublicKey>>) -> Vec<u8> {
        let mut w = Writer::new().number(payload.broadcasts.len());
        for (id, broadcast) in &payload.broadcasts {
            w = w.number(*id).points(broadcast);
        }
        w.0
    }

    fn decode_shares(bytes: &Vec<u8>) -> Option<DkgSharesPackage> {
        read_parcels(bytes).map(|shares| DkgSharesPackage { shares })
    }

    fn encode_inbox(payload: &DkgShareInbox<'_>) -> Vec<u8> {
        write_parcels(&payload.items)
    }

    fn encode_partial_bundle(payload: &PartialDecryptionBundle<'_, Vec<PublicKey>>) -> Vec<u8> {
        let mut w = Writer::new().number(payload.partials.len());
        for partial in &payload.partials {
            w = w.block(&Toy::encode_partial(partial));
        }
        w.0
    }
}

fn write_parcels(parcels: &[(usize, &SecurePackage)]) -> Vec<u8> {
    let mut w = Writer::new().number(parcels.len());
    for (id, package) in parcels {
        w = w.number(*id).package(package);
    }
    w.0
}

fn read_parcels(bytes: &[u8]) -> Option<Vec<(usize, SecurePackage)>> {
    let mut r = Reader(bytes);
    let mut parcels = Vec::new();
    for _ in 0..r.number()? {
        parcels.push((r.number()?, r.package()?));
    }
    r.end(parcels)
}

/// The dealer's polynomial at `index`, in the exponent.
fn commitment_at(broadcast: &[PublicKey], index: usize) -> Option<Point> {
    let mut total = None;
    let mut power = small(1);
    for a in broadcast {
        total = plus(total, Some(times(&theirs(a), &power)));
        power = product(&power, &small(index));
    }
    total
}

// --- In-process deployments -------------------------------------------------

fn fresh_actor_keys() -> ActorKeys {
    ActorKeys {
        identity_pk: IdentityKeyPair::new().pk,
        transport_pk: TransportKeyPair::new().pk,
    }
}

fn keys_of_tracer(tracer: &Tracer<Toy>) -> ActorKeys {
    ActorKeys {
        identity_pk: tracer.identity_kp.pk,
        transport_pk: tracer.transport_kp.pk,
    }
}

fn keys_of_signer(signer: &Signer<Toy>) -> ActorKeys {
    ActorKeys {
        identity_pk: signer.identity_kp.pk,
        transport_pk: signer.transport_kp.pk,
    }
}

fn keys_of_combiner(combiner: &Combiner<Toy>) -> ActorKeys {
    ActorKeys {
        identity_pk: combiner.identity_kp.pk,
        transport_pk: combiner.transport_kp.pk,
    }
}

fn hello_of(tracer: &Tracer<Toy>, index: usize) -> Message {
    Message::Hello {
        id: index,
        role: Role::Tracer,
        pk: tracer.transport_kp.pk.serialize().to_vec(),
        identity_pk: tracer.identity_kp.pk.serialize().to_vec(),
    }
}

/// Bootstraps a Combiner, `n` signers and `n3` tracers in-process, exactly as
/// the Authority would.
fn bootstrap_all(n: usize, n3: usize) -> (Combiner<Toy>, Vec<Signer<Toy>>, Vec<Tracer<Toy>>) {
    let auth: Authority<Toy> = Authority::new(n);
    let anchor = auth.anchor();
    let t = signer_threshold(n);
    let te = tracer_threshold(n3);

    let mut combiner: Combiner<Toy> = Combiner::new();
    let combiner_keys = keys_of_combiner(&combiner);
    let mut tracers: Vec<Tracer<Toy>> = (0..n3).map(|_| Tracer::new()).collect();
    let tracer_keys: Vec<ActorKeys> = tracers.iter().map(keys_of_tracer).collect();
    let mut signers: Vec<Signer<Toy>> = (0..n).map(Signer::new).collect();
    let signer_keys: Vec<ActorKeys> = signers.iter().map(keys_of_signer).collect();

    let pkg = auth
        .prepare_combiner_package(
            auth.keys.set_quorum(t),
            n,
            t,
            n3,
            te,
            signer_keys,
            tracer_keys.clone(),
            &combiner.transport_kp.pk,
        )
        .expect("seal");
    combiner.load_from_authority(&pkg, &anchor).expect("combiner bootstrap");

    for (i, signer) in signers.iter_mut().enumerate() {
        let pkg = auth
            .prepare_signer_package(i, combiner_keys, &signer.transport_kp.pk)
            .expect("seal");
        signer.load_from_authority(&pkg, &anchor).expect("signer bootstrap");
    }
    for (i, tracer) in tracers.iter_mut().enumerate() {
        let pkg = auth
            .prepare_tracer_package(
                i,
                n3,
                te,
                t,
                combiner_keys,
                tracer_keys.clone(),
                &tracer.transport_kp.pk,
            )
            .expect("seal");
        tracer.load_from_authority(&pkg, &anchor).expect("tracer bootstrap");
    }
    (combiner, signers, tracers)
}

fn bootstrap(n: usize, n3: usize) -> (Combiner<Toy>, Vec<Tracer<Toy>>) {
    let (combiner, _, tracers) = bootstrap_all(n, n3);
    (combiner, tracers)
}

/// Opens every link between the tracers, as their processes would.
fn establish(tracers: &[Tracer<Toy>]) -> Vec<TracerMesh<()>> {
    let n3 = tracers.len();
    let mut meshes: Vec<TracerMesh<()>> =
        (0..n3).map(|i| TracerMesh::begin(i, n3).expect("mesh")).collect();
    for i in 0..n3 {
        let roster = tracers[i].peer_tracers.clone().expect("roster");
        while let MeshStep::Dial(peer) = meshes[i].next_step() {
            assert!(meshes[peer].accept(&roster, &hello_of(&tracers[i], i), ()));
            meshes[i].link_dialed(());
        }
    }
    for mesh in &meshes {
        assert_eq!(mesh.next_step(), MeshStep::Ready);
    }
    meshes
}

/// One communication round: delivers what every tracer sends.
fn exchange<M>(
    meshes: &[TracerMesh<()>],
    outgoing: Vec<BTreeMap<usize, M>>,
) -> Vec<Vec<(usize, M)>> {
    let mut received: Vec<Vec<(usize, M)>> = meshes.iter().map(|_| Vec::new()).collect();
    for (from, messages) in outgoing.into_iter().enumerate() {
        for (to, message) in meshes[from].exchange_plan(messages).expect("plan") {
            received[to].push((from, message));
        }
    }
    received
}

/// Runs the tracers' DKG over the mesh.
fn run_all_dkgs(tracers: &mut Vec<Tracer<Toy>>) -> Vec<TracerMesh<()>> {
    let meshes = establish(tracers);
    let mut outgoing: Vec<BTreeMap<usize, BroadcastPackage>> = Vec::new();
    for (i, tracer) in tracers.iter_mut().enumerate() {
        outgoing.push(meshes[i].broadcast_plan(&tracer.start_dkg()));
    }
    for (i, received) in exchange(&meshes, outgoing).into_iter().enumerate() {
        tracers[i].load_dkg_round1_from_peers(received);
    }
    let mut outgoing: Vec<BTreeMap<usize, SecurePackage>> = Vec::new();
    for (i, tracer) in tracers.iter().enumerate() {
        let mut messages = BTreeMap::new();
        for peer in meshes[i].peer_ids() {
            messages.insert(peer, tracer.dkg_share_for_peer(peer).expect("seal share"));
        }
        outgoing.push(messages);
    }
    for (i, received) in exchange(&meshes, outgoing).into_iter().enumerate() {
        tracers[i].load_own_dkg_share();
        tracers[i].load_dkg_inbox(received);
        tracers[i].finalize_dkg().expect("tracer DKG failed");
    }
    meshes
}

fn report_public_keys(combiner: &mut Combiner<Toy>, tracers: &[Tracer<Toy>]) {
    for (i, tracer) in tracers.iter().enumerate() {
        let pkg = tracer
            .secure_package_for_combiner(&TracerPublicKeyPackage { pk: tracer.own_public_key() })
            .expect("seal pk_k");
        combiner.load_tracer_public_key(i, &pkg).expect("pk_k accepted");
    }
}

const MESSAGE: &[u8] = b"Hello TAPS: Distributed Privacy-Preserving Blockchain Transaction";

/// Runs both signing rounds and everything up to the final signature.
fn sign_round(combiner: &mut Combiner<Toy>, signers: &mut [Signer<Toy>]) -> Sigma<[u8; 64]> {
    for (id, signer) in signers.iter_mut().enumerate() {
        let pkg = signer.set_commitment().expect("commitment");
        combiner.load_commitment(&id, &pkg).expect("commitment accepted");
    }
    combiner.compute_aggregated_nonce().expect("R");
    combiner.encrypt_threshold().expect("T");
    combiner.compute_parameters(MESSAGE).expect("c");
    let challenge = combiner.prepare_signer_package();
    for (id, signer) in signers.iter().enumerate() {
        let pkg = signer.set_sigma(&challenge).expect("share");
        combiner.load_sigma(&id, &pkg).expect("share accepted");
    }
    combiner.compute_aggregated_sign().expect("z");
    combiner.compute_encrypted_signature().expect("C");
    combiner.compute_encrypted_bits().expect("bits");
    combiner.compute_alpha().expect("alpha");
    combiner.compute_phis().expect("phis");
    combiner.compute_blinds(signers.len()).expect("blinds");
    combiner.compute_proofs().expect("proofs");
    combiner.compute_beta().expect("beta");
    combiner.compute_hats().expect("hats");
    combiner.construct_sigma(MESSAGE).expect("sigma")
}

// --- Key generation ---------------------------------------------------------

#[test]
fn combiner_derives_pk_e_from_tracer_public_keys_only() {
    let (n, n3) = (4, 4);
    let (mut combiner, mut tracers) = bootstrap(n, n3);

    run_all_dkgs(&mut tracers);

    // Every tracer reached the same group key on its own.
    let pk_e = tracers[0].pk_e.expect("pk_e");
    for tracer in &tracers {
        assert_eq!(tracer.pk_e, Some(pk_e));
    }

    // The Combiner only gets pk_k from each tracer ...
    report_public_keys(&mut combiner, &tracers);
    assert!(combiner.tracer_public_keys_complete());

    // ... and computes the very same pk_e = prod_k pk_k.
    combiner.finalize_group_key().expect("group key");
    assert_eq!(combiner.pk_e, Some(pk_e));
}

#[test]
fn product_of_pk_k_equals_group_key() {
    let (_, mut tracers) = bootstrap(3, 3);
    run_all_dkgs(&mut tracers);

    let mut product = Gt::identity();
    for tracer in &tracers {
        product = product.add(&tracer.own_public_key());
    }
    assert_eq!(product.to_public_key(), tracers[0].pk_e);
}

#[test]
fn single_tracer_needs_no_peers() {
    let (mut combiner, mut tracers) = bootstrap(3, 1);
    let meshes = run_all_dkgs(&mut tracers);

    assert_eq!(meshes[0].peer_count(), 0);

    report_public_keys(&mut combiner, &tracers);
    combiner.finalize_group_key().expect("group key");
    assert_eq!(combiner.pk_e, tracers[0].pk_e);
}

#[test]
fn mesh_routes_each_message_to_its_recipient() {
    let (_, tracers) = bootstrap(3, 3);
    let meshes = establish(&tracers);

    let outgoing: Vec<BTreeMap<usize, Message>> = meshes
        .iter()
        .enumerate()
        .map(|(i, mesh)| {
            mesh.peer_ids()
                .into_iter()
                .map(|w| {
                    let tag = Message::Hello {
                        id: i * 10 + w,
                        role: Role::Tracer,
                        pk: vec![],
                        identity_pk: vec![],
                    };
                    (w, tag)
                })
                .collect()
        })
        .collect();

    for (me, received) in exchange(&meshes, outgoing).into_iter().enumerate() {
        assert_eq!(received.len(), 2);
        for (from, msg) in received {
            match msg {
                Message::Hello { id, .. } => assert_eq!(id, from * 10 + me),
                other => panic!("unexpected message {:?}", other),
            }
        }
    }
}

#[test]
fn share_sealed_for_one_tracer_cannot_be_opened_by_another() {
    let (_, mut tracers) = bootstrap(3, 3);
    for tracer in tracers.iter_mut() {
        tracer.start_dkg();
    }

    // Tracer 0 seals a share for tracer 1; tracer 2 must not be able to read it.
    let pkg = tracers[0].dkg_share_for_peer(1).expect("seal");
    let opened = tracers[1].open_from_peer(0, &pkg);
    assert!(opened.is_ok());
    let payload = Toy::decode_share(&opened.unwrap()).expect("a share");
    let dealt = Toy::share_for(tracers[0].dkg_participant.as_ref().unwrap(), 2);
    assert_eq!(payload.share, dealt);
    assert!(tracers[2].open_from_peer(0, &pkg).is_err());

    // And tracer 1 must reject it if it is attributed to the wrong sender.
    assert!(tracers[1].open_from_peer(2, &pkg).is_err());
}

#[test]
fn combiner_rejects_pk_k_attributed_to_the_wrong_tracer() {
    let (mut combiner, mut tracers) = bootstrap(3, 2);
    for tracer in tracers.iter_mut() {
        tracer.start_dkg();
        tracer.load_own_dkg_share();
    }

    let pkg = tracers[0]
        .secure_package_for_combiner(&TracerPublicKeyPackage {
            pk: Gt::from_public_key(&own(&times_g(&small(1)))),
        })
        .expect("seal");
    assert!(combiner.load_tracer_public_key(1, &pkg).is_err());
    assert!(combiner.load_tracer_public_key(0, &pkg).is_ok());
    assert!(!combiner.tracer_public_keys_complete());
}

#[test]
fn test_authority_initialization() {
    let n = 5;
    let auth: KeyPairs<Toy> = KeyPairs::new(n);

    assert_eq!(auth.signers_keys.len(), n);
}

#[test]
fn test_threshold_formulas() {
    assert_eq!(signer_threshold(100), 51);
    assert_eq!(signer_threshold(1), 1);
    assert_eq!(tracer_threshold(1), 1);
    assert_eq!(tracer_threshold(5), 4);
    assert_eq!(tracer_threshold(3), 3);
    assert_eq!(tracer_threshold(4), 3);
}

#[test]
fn quorums_overlap_and_two_thirds_reconstruct() {
    for n in 1..200usize {
        let t = signer_threshold(n);
        assert!(1 <= t && t <= n && 2 * t > n && 2 * (t - 1) <= n);
        let te = tracer_threshold(n);
        assert!(1 <= te && te <= n && 3 * te > 2 * n && 3 * (te - 1) <= 2 * n);
    }
}

#[test]
fn thresholds_of_a_deployment() {
    assert_eq!(deployment_thresholds(100, 5), Ok((51, 4)));
    assert_eq!(deployment_thresholds(1, 1), Ok((1, 1)));
    assert_eq!(
        deployment_thresholds(0, 0),
        Err("N must be at least 1".to_string())
    );
    assert_eq!(
        deployment_thresholds(6, 0),
        Err("N3 (tracer count) must be at least 1".to_string())
    );
}

// --- The whole protocol -----------------------------------------------------

#[test]
fn quorum_is_traced_from_the_signature() {
    let (n, n3) = (5, 4);
    let (mut combiner, mut signers, mut tracers) = bootstrap_all(n, n3);
    let meshes = run_all_dkgs(&mut tracers);
    report_public_keys(&mut combiner, &tracers);
    combiner.finalize_group_key().expect("group key");

    let sigma = sign_round(&mut combiner, &mut signers);
    let evidence = combiner.prepare_tracer_package(&sigma, MESSAGE);
    let mut own_partials = Vec::new();
    for tracer in tracers.iter_mut() {
        let own_keys = (tracer.pk.clone(), tracer.pk_e, tracer.own_public_key());
        tracer.load_from_combiner(&evidence).expect("evidence");
        assert_eq!(
            own_keys,
            (tracer.pk.clone(), tracer.pk_e, tracer.own_public_key())
        );
        assert_eq!(tracer.challenge_c(), combiner.c.unwrap());
        assert_eq!(tracer.verify_sigma(), Ok(true));
        assert_eq!(tracer.verify_proof(), Ok(true));
        own_partials.push(tracer.partial_decrypt());
    }

    let mut outgoing: Vec<BTreeMap<usize, SecurePackage>> = Vec::new();
    for (i, tracer) in tracers.iter().enumerate() {
        let mut messages = BTreeMap::new();
        for peer in meshes[i].peer_ids() {
            let package = tracer.partial_for_peer(peer, &own_partials[i]).expect("seal partial");
            messages.insert(peer, package);
        }
        outgoing.push(messages);
    }
    for (i, received) in exchange(&meshes, outgoing).into_iter().enumerate() {
        let mut partials = tracers[i].open_peer_partials(received);
        assert_eq!(partials.len(), 3);
        partials.push(own_partials[i].clone());
        // t = 3 of the 5 signers: the last three.
        assert_eq!(tracers[i].combine_and_trace(partials), Ok(vec![2, 3, 4]));
    }
}

/// A tracer with evidence and partial decryptions, ready to trace.
fn ready_to_trace() -> (Tracer<Toy>, Vec<PartialDecryption<Vec<PublicKey>>>) {
    let (mut combiner, mut signers, mut tracers) = bootstrap_all(3, 3);
    run_all_dkgs(&mut tracers);
    report_public_keys(&mut combiner, &tracers);
    combiner.finalize_group_key().expect("group key");
    let sigma = sign_round(&mut combiner, &mut signers);
    let evidence = combiner.prepare_tracer_package(&sigma, MESSAGE);
    for tracer in tracers.iter_mut() {
        tracer.load_from_combiner(&evidence).expect("evidence");
    }
    let partials = tracers.iter().map(|t| t.partial_decrypt()).collect();
    (tracers.remove(0), partials)
}

#[test]
fn invalid_partials_are_ignored() {
    let (mut tracer, mut partials) = ready_to_trace();
    assert_eq!(tracer.combine_and_trace(partials.clone()), Ok(vec![1, 2]));

    // A truncated one is dropped; then there are too few.
    partials[1].body.truncate(1);
    assert_eq!(
        tracer.combine_and_trace(partials.clone()),
        Err("not enough partial decryptions".to_string())
    );
    // One that names no tracer stops the tracing.
    partials[1].tracer_index = 0;
    assert_eq!(
        tracer.combine_and_trace(partials),
        Err("party indices start at one".to_string())
    );
    tracer.te = None;
    assert_eq!(tracer.combine_and_trace(vec![]), Err("t_e not set".to_string()));
}

#[test]
fn tracing_needs_everything_in_place() {
    let fresh_tracer: Tracer<Toy> = Tracer::new();
    assert_eq!(
        fresh_tracer.combine_and_trace(vec![]),
        Err("Sigma not set in Tracer".to_string())
    );
    let (mut tracer, partials) = ready_to_trace();
    tracer.pk = None;
    assert_eq!(
        tracer.combine_and_trace(partials.clone()),
        Err("PK not set in Tracer".to_string())
    );
    tracer.tracer_key_share = None;
    assert_eq!(
        tracer.combine_and_trace(partials.clone()),
        Err("DKG not finalized for this tracer".to_string())
    );
    tracer.v_vec = None;
    assert_eq!(
        tracer.combine_and_trace(partials.clone()),
        Err("v_vec not set in Tracer".to_string())
    );
    tracer.v0 = None;
    assert_eq!(
        tracer.combine_and_trace(partials),
        Err("v0 not set in Tracer".to_string())
    );
}

#[test]
fn swapped_partials_do_not_decode() {
    let (tracer, mut partials) = ready_to_trace();
    // Attributed to each other's indices, the parts do not fit together.
    partials[1].tracer_index = 3;
    partials[2].tracer_index = 2;
    assert_eq!(
        tracer.combine_and_trace(partials),
        Err("no bit at 0".to_string())
    );
}

#[test]
fn conclusion_checks_signature_and_threshold() {
    let key = own(&times_g(&small(5)));
    let g_z = Gt::from_public_key(&key);
    let bits = vec![1u8, 0, 0, 1, 2];
    assert_eq!(conclude(&bits, &g_z, &key, Some(2)), Ok(vec![0, 3]));
    assert_eq!(
        conclude(&bits, &g_z, &key, Some(3)),
        Err("Tracing failed: quorum of 2 signers is below the threshold t=3".to_string())
    );
    assert_eq!(
        conclude(&bits, &g_z, &key, None),
        Err("Threshold t not set in Tracer".to_string())
    );
    let mismatch = "Tracing failed: g^z from the decrypted quorum does not match the \
                    decrypted signature.";
    assert_eq!(
        conclude(&bits, &Gt::identity(), &key, Some(2)),
        Err(mismatch.to_string())
    );
    let other = own(&times_g(&small(6)));
    assert_eq!(conclude(&bits, &g_z, &other, None), Err(mismatch.to_string()));
}

#[test]
fn verification_failures_are_told_in_words() {
    let (mut tracer, _) = ready_to_trace();
    tracer.proof = Some(vec![]);
    assert_eq!(
        tracer.verify_proof(),
        Err("Proof verification failed: length".to_string())
    );
    let mut sigma = tracer.sigma.unwrap();
    sigma.attestation = [0xff; 64];
    tracer.sigma = Some(sigma);
    assert_eq!(
        tracer.verify_sigma(),
        Err("Sigma verification failed: InvalidSignature".to_string())
    );
    // Another message: the attestation is not about it.
    let (mut tracer, _) = ready_to_trace();
    tracer.message = Some(b"something else".to_vec());
    assert_eq!(tracer.verify_sigma(), Ok(false));
    assert_eq!(tracer.verify_proof(), Ok(false));
}

#[test]
fn evidence_needs_signature_and_proof() {
    let (mut tracer, _) = ready_to_trace();
    assert_eq!(tracer.check_evidence(), Ok(()));
    tracer.proof = Some(vec![0; 64]);
    assert_eq!(
        tracer.check_evidence(),
        Err("Accountability proof is invalid".to_string())
    );
    tracer.proof = Some(vec![]);
    assert_eq!(
        tracer.check_evidence(),
        Err("Proof verification failed: length".to_string())
    );
    // The signature is judged first.
    tracer.message = Some(b"something else".to_vec());
    assert_eq!(
        tracer.check_evidence(),
        Err("Combiner signature (sigma) is invalid".to_string())
    );
    assert_eq!(
        judge_evidence(Err("no".to_string()), Ok(true)),
        Err("no".to_string())
    );
    assert_eq!(judge_evidence(Ok(true), Ok(true)), Ok(()));
}

// --- Key generation, step by step -------------------------------------------

#[test]
fn shares_need_a_matching_broadcast() {
    let (_, mut tracers) = bootstrap(3, 3);
    let broadcasts: Vec<BroadcastPackage> = tracers.iter_mut().map(|t| t.start_dkg()).collect();
    let share = tracers[0].dkg_share_for_peer(1).unwrap();

    // No broadcast of tracer 0 is on file yet.
    tracers[1].load_dkg_inbox(vec![(0, share.clone())]);
    assert!(tracers[1].dkg_shares_received.is_empty());

    // Attributed to tracer 2, the broadcast is dropped.
    tracers[1].load_dkg_round1_from_peers(vec![(2, broadcasts[0].clone()), (9, broadcasts[0].clone())]);
    assert_eq!(tracers[1].dkg_broadcasts.len(), 1);

    tracers[1].load_dkg_round1_from_peers(vec![(0, broadcasts[0].clone())]);
    assert_eq!(tracers[1].dkg_broadcasts.len(), 2);
    tracers[1].load_dkg_inbox(vec![(2, share.clone()), (9, share.clone()), (0, share.clone())]);
    assert_eq!(
        tracers[1].dkg_shares_received.keys().copied().collect::<Vec<_>>(),
        vec![1]
    );

    // A share for another tracer does not fit this one.
    let mine = Toy::share_for(tracers[0].dkg_participant.as_ref().unwrap(), 3);
    let now = current_timestamp();
    let wrong = seal_at(
        &tracers[0].identity_kp,
        &tracers[0].transport_kp,
        &tracers[1].transport_kp.pk,
        &mine[..],
        now,
    )
    .unwrap();
    tracers[1].dkg_shares_received.clear();
    tracers[1].load_dkg_inbox_at(vec![(0, wrong)], now);
    assert!(tracers[1].dkg_shares_received.is_empty());
    // And what is no share at all is dropped too.
    let garbage = seal_at(
        &tracers[0].identity_kp,
        &tracers[0].transport_kp,
        &tracers[1].transport_kp.pk,
        b"no share",
        now,
    )
    .unwrap();
    tracers[1].load_dkg_inbox_at(vec![(0, garbage)], now);
    assert!(tracers[1].dkg_shares_received.is_empty());
}

#[test]
fn stale_shares_and_broadcasts_are_dropped() {
    let (_, mut tracers) = bootstrap(3, 2);
    let broadcasts: Vec<BroadcastPackage> = tracers.iter_mut().map(|t| t.start_dkg()).collect();
    let late = broadcasts[0].timestamp + 61;
    tracers[1].load_dkg_round1_from_peers_at(vec![(0, broadcasts[0].clone())], late);
    assert_eq!(tracers[1].dkg_broadcasts.len(), 1);
    tracers[1].load_dkg_round1_from_peers_at(vec![(0, broadcasts[0].clone())], late - 1);
    assert_eq!(tracers[1].dkg_broadcasts.len(), 2);

    let share = tracers[0].dkg_share_for_peer(1).unwrap();
    let late = share.timestamp + 61;
    tracers[1].load_dkg_inbox_at(vec![(0, share.clone())], late);
    assert!(tracers[1].dkg_shares_received.is_empty());
    assert_eq!(
        tracers[1].open_from_peer_at(0, &share, late),
        Err(Error::InvalidSignature)
    );
    tracers[1].load_dkg_inbox_at(vec![(0, share)], late - 1);
    assert_eq!(tracers[1].dkg_shares_received.len(), 1);
}

#[test]
fn broadcasts_without_a_proof_are_dropped() {
    let (_, mut tracers) = bootstrap(3, 2);
    let good = Toy::dkg_broadcast(&Toy::dkg_participant(1, 2, 2));
    let bad = vec![good[0]];
    tracers[1].load_dkg_round1(vec![(0, bad.clone()), (5, good.clone())]);
    assert_eq!(
        tracers[1].dkg_broadcasts.keys().copied().collect::<Vec<_>>(),
        vec![6]
    );
    // The last one that verifies is the one on file.
    let newer = Toy::dkg_broadcast(&Toy::dkg_participant(1, 2, 2));
    tracers[1].load_dkg_round1(vec![(5, newer.clone()), (5, bad)]);
    assert_eq!(tracers[1].dkg_broadcasts[&6], newer);
}

#[test]
fn shares_for_everyone_are_labelled() {
    let (_, mut tracers) = bootstrap(3, 3);
    for tracer in tracers.iter_mut() {
        tracer.start_dkg();
    }
    let shares = tracers[1].compute_shares_for_peers().expect("sealed");
    assert_eq!(shares.len(), 3);
    for (i, (recipient, package)) in shares.iter().enumerate() {
        assert_eq!(*recipient, i);
        assert!(tracers[i].open_from_peer(1, package).is_ok());
    }
    assert_eq!(tracers[1].dkg_share_for_peer(3), Err(Error::InvalidMessage));
    assert_eq!(
        tracers[1].open_from_peer(3, &shares[1].1),
        Err(Error::InvalidMessage)
    );
}

#[test]
fn finalizing_needs_a_start_and_a_configuration() {
    let mut tracer: Tracer<Toy> = Tracer::new();
    assert_eq!(
        tracer.finalize_dkg(),
        Err("DKG not started for this tracer".to_string())
    );
    let (_, mut tracers) = bootstrap(3, 1);
    let tracer = &mut tracers[0];
    tracer.start_dkg();
    assert_eq!(tracer.finalize_dkg(), Err("empty QUAL".to_string()));
    tracer.load_own_dkg_share();
    let pk_cs = tracer.pk_cs.take();
    assert_eq!(tracer.finalize_dkg(), Err("pk_cs not set".to_string()));
    assert!(tracer.tracer_key_share.is_some() && tracer.pk.is_none());
    tracer.pk_cs = pk_cs;
    let pk_i = tracer.pk_i.take();
    assert_eq!(tracer.finalize_dkg(), Err("pk_i not set".to_string()));
    tracer.pk_i = pk_i.clone();
    assert_eq!(tracer.finalize_dkg(), Ok(()));
    let pk = tracer.pk.as_ref().unwrap();
    assert_eq!(
        (Some(&pk.pk_i), Some(pk.pk_cs), Some(pk.pk_e)),
        (pk_i.as_ref(), pk_cs, tracer.pk_e)
    );
}

// --- Bootstrapping ----------------------------------------------------------

#[test]
fn credentials_are_taken_from_the_authority_only() {
    let auth: Authority<Toy> = Authority::new(2);
    let impostor: Authority<Toy> = Authority::new(2);
    let mut signer: Signer<Toy> = Signer::new(1);
    assert_eq!(signer.combiner_keys(), Err(Error::InvalidMessage));
    assert!(signer.set_commitment().is_err());
    let combiner_keys = fresh_actor_keys();
    let pkg = auth
        .prepare_signer_package(1, combiner_keys, &signer.transport_kp.pk)
        .expect("seal");
    assert_eq!(
        signer.load_from_authority(&pkg, &impostor.anchor()),
        Err(Error::InvalidSignature)
    );
    assert_eq!(
        signer.load_from_authority_at(&pkg, &auth.anchor(), pkg.timestamp + 61),
        Err(Error::InvalidSignature)
    );
    assert!(signer.taps_kp.is_none());
    assert_eq!(signer.load_from_authority(&pkg, &auth.anchor()), Ok(()));
    assert_eq!(signer.taps_kp, Some(auth.keys.signers_keys[1]));
    assert_eq!(signer.combiner_keys(), Ok(combiner_keys));

    // Somebody else's credentials cannot be read.
    let other: Signer<Toy> = Signer::new(0);
    let pkg = auth
        .prepare_signer_package(0, combiner_keys, &other.transport_kp.pk)
        .expect("seal");
    assert_eq!(
        signer.load_from_authority(&pkg, &auth.anchor()),
        Err(Error::InvalidMessage)
    );
    let key = fresh();
    signer.set_taps_key(key);
    assert_eq!(signer.taps_kp, Some(key));
}

#[test]
fn unreadable_credentials_are_refused() {
    let auth: Authority<Toy> = Authority::new(1);
    let anchor: AuthorityAnchor = auth.anchor();
    let mut tracer: Tracer<Toy> = Tracer::new();
    let mut combiner: Combiner<Toy> = Combiner::new();
    let now = current_timestamp();
    for pk in [tracer.transport_kp.pk, combiner.transport_kp.pk] {
        let pkg = seal_at(&auth.identity_kp, &auth.transport_kp, &pk, b"?", now).unwrap();
        let refusals = [
            tracer.load_from_authority_at(&pkg, &anchor, now),
            combiner.load_from_authority_at(&pkg, &anchor, now),
        ];
        assert_eq!(refusals, [Err(Error::InvalidMessage), Err(Error::InvalidMessage)]);
    }
    assert!(tracer.index.is_none() && combiner.n.is_none());
}

#[test]
fn rosters_have_one_entry_per_actor() {
    let auth: Authority<Toy> = Authority::new(2);
    let anchor = auth.anchor();
    let mut combiner: Combiner<Toy> = Combiner::new();
    let two = vec![fresh_actor_keys(), fresh_actor_keys()];
    for (signers, tracers, expected) in [
        (two.clone(), vec![], Err(Error::InvalidMessage)),
        (vec![], two.clone(), Err(Error::InvalidMessage)),
        (two.clone(), two.clone(), Ok(())),
    ] {
        let pkg = auth
            .prepare_combiner_package(
                auth.keys.set_quorum(2),
                2,
                2,
                2,
                2,
                signers,
                tracers,
                &combiner.transport_kp.pk,
            )
            .expect("seal");
        assert_eq!(combiner.load_from_authority(&pkg, &anchor), expected);
        assert_eq!(combiner.n.is_some(), expected.is_ok());
    }
    assert_eq!((combiner.t, combiner.te), (Some(2), Some(2)));

    let mut tracer: Tracer<Toy> = Tracer::new();
    let pkg = auth
        .prepare_tracer_package(0, 3, 3, 2, fresh_actor_keys(), two, &tracer.transport_kp.pk)
        .expect("seal");
    assert_eq!(
        tracer.load_from_authority(&pkg, &anchor),
        Err(Error::InvalidMessage)
    );
}

// --- Signing, step by step --------------------------------------------------

#[test]
fn contributions_are_bound_to_their_signer() {
    let (mut combiner, mut signers, _) = bootstrap_all(3, 1);
    let pkg = signers[0].set_commitment().expect("commitment");
    assert_eq!(combiner.load_commitment(&1, &pkg), Err(Error::InvalidSignature));
    assert_eq!(combiner.load_commitment(&3, &pkg), Err(Error::InvalidMessage));
    assert_eq!(
        combiner.load_commitment_at(&0, &pkg, pkg.timestamp + 61),
        Err(Error::InvalidSignature)
    );
    assert!(combiner.commitments.is_empty());
    assert_eq!(combiner.load_commitment(&0, &pkg), Ok(()));
    assert_eq!(
        combiner.commitments[&0],
        Toy::commitment(signers[0].current_commitment.as_ref().unwrap())
    );
    // A commitment is no signature share.
    assert_eq!(combiner.load_sigma(&0, &pkg), Err(Error::InvalidMessage));
    assert_eq!(combiner.load_sigma(&1, &pkg), Err(Error::InvalidSignature));
    assert_eq!(combiner.load_sigma(&3, &pkg), Err(Error::InvalidMessage));
    assert!(combiner.sigmas.is_empty());
}

#[test]
fn every_signer_is_needed() {
    let (mut combiner, mut signers, _) = bootstrap_all(2, 1);
    let pkg = signers[1].set_commitment().expect("commitment");
    combiner.load_commitment(&1, &pkg).expect("accepted");
    assert_eq!(combiner.compute_aggregated_nonce(), Err(Error::InvalidPublicKey));
    assert!(combiner.R.is_none());
    assert_eq!(combiner.compute_aggregated_sign(), Err(Error::InvalidPublicKey));

    // Contributions from outside the configuration are ignored.
    combiner.handle_commitment(2, own(&times_g(&small(3))));
    combiner.handle_sigma(2, small(3));
    assert_eq!(combiner.commitments.len(), 1);
    assert!(combiner.sigmas.is_empty());
    let mut blank: Combiner<Toy> = Combiner::new();
    blank.handle_commitment(0, own(&times_g(&small(3))));
    blank.handle_sigma(0, small(3));
    assert!(blank.commitments.is_empty() && blank.sigmas.is_empty());

    combiner.handle_commitment(0, own(&times_g(&small(3))));
    assert_eq!(combiner.compute_aggregated_nonce(), Ok(()));
    // A quorum of two adds both commitments up.
    let expected = plus(
        Some(times_g(&small(3))),
        Some(theirs(&combiner.commitments[&1])),
    );
    assert_eq!(combiner.R, Some(own(&expected.unwrap())));
}

#[test]
fn commitments_that_cancel_out_are_refused() {
    let (mut combiner, _, _) = bootstrap_all(2, 1);
    let point = times_g(&small(3));
    combiner.handle_commitment(0, own(&point));
    combiner.handle_commitment(1, own(&point.negate(&Secp256k1::new())));
    assert_eq!(
        combiner.compute_aggregated_nonce(),
        Err(Error::InvalidPublicKeySum)
    );
}

#[test]
fn signers_answer_only_the_combiner() {
    let (mut combiner, mut signers, _) = bootstrap_all(1, 1);
    signers[0].set_commitment().expect("commitment");
    let (R, c) = (own(&times_g(&small(2))), hash_to_scalar(&[b"c"]));
    let text = Toy::encode_challenge(&combiner::SignerPackage { R, c });
    let genuine = announce_at(&combiner.identity_kp, text.clone(), 1000);
    let forged = announce_at(&IdentityKeyPair::new(), text, 1000);
    let garbage = announce_at(&combiner.identity_kp, b"?".to_vec(), 1000);

    assert_eq!(
        signers[0].set_sigma_at(&forged, 1000),
        Err(Error::InvalidSignature)
    );
    assert_eq!(
        signers[0].set_sigma_at(&genuine, 1061),
        Err(Error::InvalidSignature)
    );
    assert_eq!(
        signers[0].set_sigma_at(&garbage, 1000),
        Err(Error::InvalidMessage)
    );
    let answer = signers[0].set_sigma_at(&genuine, 1060).expect("share");
    combiner.load_sigma(&0, &answer).expect("accepted");
    let z = Toy::sign(
        signers[0].current_commitment.as_ref().unwrap(),
        signers[0].taps_kp.as_ref().unwrap(),
        &c,
    );
    assert_eq!(combiner.sigmas[&0], z);

    let stranger: Signer<Toy> = Signer::new(0);
    assert_eq!(
        stranger.set_sigma_at(&genuine, 1000),
        Err(Error::InvalidMessage)
    );

    // Without a commitment a bad broadcast is still refused as such, and a
    // good one cannot be answered.
    signers[0].current_commitment = None;
    assert_eq!(
        signers[0].set_sigma_at(&forged, 1000),
        Err(Error::InvalidSignature)
    );
    assert_eq!(
        signers[0].set_sigma_at(&genuine, 1000),
        Err(Error::InvalidMessage)
    );
}

#[test]
fn group_key_needs_keys_that_do_not_cancel() {
    let (mut combiner, tracers) = bootstrap(1, 2);
    assert!(!Combiner::<Toy>::new().tracer_public_keys_complete());
    let point = times_g(&small(9));
    for (i, p) in [point, point.negate(&Secp256k1::new())].iter().enumerate() {
        let pkg = tracers[i]
            .secure_package_for_combiner(&TracerPublicKeyPackage {
                pk: Gt::from_public_key(&own(p)),
            })
            .unwrap();
        combiner.load_tracer_public_key(i, &pkg).unwrap();
    }
    assert!(combiner.tracer_public_keys_complete());
    assert_eq!(combiner.finalize_group_key(), Err(Error::InvalidPublicKey));
    assert!(combiner.pk_e.is_none());

    // Without a configuration there is a group key, but no registry.
    let mut blank: Combiner<Toy> = Combiner::new();
    assert_eq!(blank.finalize_group_key(), Err(Error::InvalidPublicKey));
    blank.tracer_public_keys.insert(0, Gt::from_public_key(&own(&point)));
    assert_eq!(blank.finalize_group_key(), Err(Error::InvalidMessage));
    assert_eq!(blank.pk_e, Some(own(&point)));
    assert!(blank.pk.is_none());

    // An unreadable report is refused; a tracer without a combiner sends none.
    let now = current_timestamp();
    let garbage = seal_at(
        &tracers[0].identity_kp,
        &tracers[0].transport_kp,
        &combiner.transport_kp.pk,
        b"?",
        now,
    )
    .unwrap();
    assert_eq!(
        combiner.load_tracer_public_key_at(0, &garbage, now),
        Err(Error::InvalidMessage)
    );
    let stranger: Tracer<Toy> = Tracer::new();
    assert_eq!(
        stranger.secure_package_for_combiner(&TracerPublicKeyPackage { pk: Gt::identity() }),
        Err(Error::InvalidMessage)
    );
}

#[test]
fn group_elements_add_up() {
    let g = Gt::from_public_key(&own(&times_g(&small(1))));
    let two = Gt::from_public_key(&own(&times_g(&small(2))));
    assert!(g.add(&g).same_as(&two));
    assert!(g.add(&Gt::identity()).same_as(&g));
    assert!(Gt::identity().add(&g).same_as(&g));
    assert!(!g.same_as(&two) && !g.same_as(&Gt::identity()));
    assert_eq!(Gt::identity().to_public_key(), None);
}

#[test]
fn threshold_is_encrypted_as_a_number() {
    let (mut combiner, _, _) = bootstrap_all(5, 1);
    combiner.encrypt_threshold().expect("T");
    let ct = combiner.T.unwrap();
    let mask = times(&times_g(&small(7)), combiner.w_psi.as_ref().unwrap());
    assert_eq!(
        minus(Some(theirs(&ct.c1)), mask),
        Some(times_g(&small(signer_threshold(5))))
    );
}

#[test]
fn tracers_take_evidence_from_the_combiner_only() {
    let (mut combiner, mut signers, mut tracers) = bootstrap_all(1, 1);
    run_all_dkgs(&mut tracers);
    report_public_keys(&mut combiner, &tracers);
    combiner.finalize_group_key().expect("group key");
    let sigma = sign_round(&mut combiner, &mut signers);
    let evidence = combiner.prepare_tracer_package(&sigma, MESSAGE);
    let tracer = &mut tracers[0];
    let forged = announce_at(&IdentityKeyPair::new(), evidence.text.clone(), evidence.timestamp);
    let now = evidence.timestamp;
    assert_eq!(
        tracer.load_from_combiner_at(&forged, now),
        Err(Error::InvalidSignature)
    );
    assert_eq!(
        tracer.load_from_combiner_at(&evidence, now + 61),
        Err(Error::InvalidSignature)
    );
    let garbage = combiner.sign_package(b"?".to_vec());
    assert_eq!(
        tracer.load_from_combiner_at(&garbage, garbage.timestamp),
        Err(Error::InvalidMessage)
    );
    assert!(tracer.sigma.is_none());
    assert_eq!(tracer.load_from_combiner_at(&evidence, now + 60), Ok(()));
    assert_eq!(tracer.message, Some(MESSAGE.to_vec()));
    let mut stranger: Tracer<Toy> = Tracer::new();
    assert_eq!(
        stranger.load_from_combiner(&evidence),
        Err(Error::InvalidMessage)
    );
}

#[test]
fn combiner_seals_for_tracers_on_the_roster() {
    let (combiner, tracers) = bootstrap(1, 2);
    let sealed = combiner.seal_for_tracer(1, &b"for you".to_vec()).expect("sealed");
    let opened = simulation_taps_tt::crypto::open_at(
        &tracers[1].transport_kp,
        &keys_of_combiner(&combiner),
        &sealed,
        sealed.timestamp,
    );
    assert_eq!(opened, Ok(b"for you".to_vec()));
    assert_eq!(
        combiner.seal_for_tracer(2, &vec![]),
        Err(Error::InvalidMessage)
    );
}

// --- The relay --------------------------------------------------------------

#[test]
fn relay_passes_messages_on() {
    let (combiner, mut tracers) = bootstrap(1, 2);
    let roster = tracers[0].peer_tracers.clone().unwrap();
    let relay_keys = keys_of_combiner(&combiner);
    let mut relay: TracerRelay<Toy> =
        TracerRelay::new(combiner.identity_kp, combiner.transport_kp, roster);
    let now = current_timestamp();
    let hand_in = |tracer: &Tracer<Toy>, bytes: &[u8]| {
        seal_at(
            &tracer.identity_kp,
            &tracer.transport_kp,
            &relay_keys.transport_pk,
            bytes,
            now,
        )
        .unwrap()
    };

    // Round 1.
    let broadcasts: Vec<BroadcastPackage> = tracers.iter_mut().map(|t| t.start_dkg()).collect();
    let pkg = hand_in(&tracers[1], &broadcasts[1].text);
    assert_eq!(
        relay.load_dkg_round1_at(0, &pkg, now),
        Err(Error::InvalidSignature)
    );
    assert_eq!(
        relay.load_dkg_round1_at(2, &pkg, now),
        Err(Error::InvalidMessage)
    );
    relay.load_dkg_round1_at(1, &pkg, now).unwrap();
    assert!(!relay.dkg_round1_complete());
    relay.load_dkg_round1_at(0, &hand_in(&tracers[0], &broadcasts[0].text), now).unwrap();
    assert!(relay.dkg_round1_complete());
    let bundle: Vec<(usize, Vec<PublicKey>)> =
        relay.dkg_round1_bundle().broadcasts.into_iter().map(|(i, b)| (i, b.clone())).collect();
    assert_eq!(bundle.iter().map(|(i, _)| *i).collect::<Vec<_>>(), vec![0, 1]);
    let announced = relay.prepare_dkg_round1_bundle();
    assert!(IdentityKeyPair::verify_broadcast_data(&relay_keys.identity_pk, &announced));
    for tracer in tracers.iter_mut() {
        tracer.load_dkg_round1(bundle.clone());
    }

    // Round 2: every share comes out labelled with its dealer.
    assert!(!relay.dkg_inboxes_complete());
    for i in 0..2 {
        let shares = tracers[i].compute_shares_for_peers().unwrap();
        let parcels: Vec<(usize, &SecurePackage)> = shares.iter().map(|(to, p)| (*to, p)).collect();
        let pkg = hand_in(&tracers[i], &write_parcels(&parcels));
        relay.load_dkg_shares_at(i, &pkg, now).unwrap();
    }
    assert!(relay.dkg_inboxes_complete());
    assert!(relay.dkg_inbox_for(7).items.is_empty());
    for i in 0..2 {
        let from: Vec<usize> = relay.dkg_inbox_for(i).items.iter().map(|(k, _)| *k).collect();
        assert_eq!(from, vec![0, 1]);
        let sealed = relay.seal_inbox_for(i).unwrap();
        let plain = simulation_taps_tt::crypto::open_at(
            &tracers[i].transport_kp,
            &relay_keys,
            &sealed,
            sealed.timestamp,
        )
        .unwrap();
        let inbox = read_parcels(&plain).unwrap();
        tracers[i].load_dkg_inbox(inbox);
        tracers[i].finalize_dkg().unwrap();
    }
    assert_eq!(tracers[0].pk_e, tracers[1].pk_e);
    assert_eq!(relay.seal_inbox_for(2), Err(Error::InvalidMessage));
    assert_eq!(
        relay.load_dkg_shares_at(0, &hand_in(&tracers[0], b"?"), now),
        Err(Error::InvalidMessage)
    );
}

#[test]
fn relay_bundles_partial_decryptions() {
    let (combiner, tracers) = bootstrap(1, 2);
    let roster = tracers[0].peer_tracers.clone().unwrap();
    let relay_pk = combiner.transport_kp.pk;
    let mut relay: TracerRelay<Toy> =
        TracerRelay::new(combiner.identity_kp, combiner.transport_kp, roster);
    let partials: Vec<PartialDecryption<Vec<PublicKey>>> = (1..3)
        .map(|i| PartialDecryption { tracer_index: i, body: vec![own(&times_g(&small(i)))] })
        .collect();
    for i in [1, 0] {
        assert!(!relay.partial_decryptions_complete());
        let pkg = seal_at(
            &tracers[i].identity_kp,
            &tracers[i].transport_kp,
            &relay_pk,
            &Toy::encode_partial(&partials[i]),
            current_timestamp(),
        )
        .unwrap();
        relay.load_partial_decryption(i, &pkg).unwrap();
    }
    assert!(relay.partial_decryptions_complete());
    let bundle = relay.prepare_partial_decryption_bundle();
    assert_eq!(
        bundle.text,
        Toy::encode_partial_bundle(&PartialDecryptionBundle {
            partials: vec![&partials[0], &partials[1]],
        })
    );
}
