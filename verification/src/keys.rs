//! Keys, scalars and signatures, held as their canonical encodings.
use vstd::prelude::*;

use crate::bytes::{
    be_bytes, be_value, encode_be, lemma_be_bytes_len, lemma_be_bytes_of_value,
    lemma_be_round_trip, lemma_be_value_bound, lemma_be_value_concat, lemma_be_value_zeros, pow256,
    same_bytes,
};
use crate::primitives;
use crate::primitives::{
    public_key_encoding, public_key_of, public_key_sum, valid_public_key, valid_secret_key, CURVE_ORDER,
};

verus! {

/// Why an actor refused something: the failures that curve arithmetic knows,
/// of which the actors themselves report the first three.
#[derive(Debug, Clone, Copy, PartialEq, Eq, Structural)]
pub enum Error {
    /// A package is not signed by its sender, or not fresh.
    InvalidSignature,
    /// A package cannot be opened or read, or does not fit the configuration.
    InvalidMessage,
    /// Bytes encode no public key, or a contribution is missing.
    InvalidPublicKey,
    InvalidPublicKeySum,
    InvalidSecretKey,
    InvalidSharedSecret,
    InvalidRecoveryId,
    InvalidTweak,
    InvalidParityValue,
    InvalidEllSwift,
    IncorrectSignature,
    NotEnoughMemory,
}

/// A secp256k1 public key.
#[derive(Debug, Clone, Copy, PartialEq, Eq)]
pub struct PublicKey {
    bytes: [u8; 33],
}

impl View for PublicKey {
    type V = Seq<u8>;

    /// The compressed encoding.
    closed spec fn view(&self) -> Seq<u8> {
        self.bytes@
    }
}

impl PublicKey {
    #[verifier::type_invariant]
    spec fn well_formed(self) -> bool {
        valid_public_key(self.bytes@)
    }

    /// Reads a key from its compressed or uncompressed encoding.
    pub fn from_slice(data: &[u8]) -> (res: Result<PublicKey, Error>)
        ensures
            match res {
                Ok(pk) => public_key_encoding(data@) == Some(pk@),
                Err(e) => e == Error::InvalidPublicKey && public_key_encoding(data@) is None,
            },
    {
        match primitives::parse_public_key(data) {
            Some(bytes) => Ok(PublicKey { bytes }),
            None => Err(Error::InvalidPublicKey),
        }
    }

    /// The compressed encoding.
    pub fn serialize(&self) -> (bytes: [u8; 33])
        ensures
            bytes@ == self@,
            valid_public_key(bytes@),
    {
        proof {
            use_type_invariant(self);
        }
        self.bytes
    }

    /// The sum of two keys, unless it is the identity.
    pub fn combine(&self, other: &PublicKey) -> (sum: Option<PublicKey>)
        ensures
            match sum {
                Some(pk) => public_key_sum(self@, other@) == Some(pk@),
                None => public_key_sum(self@, other@) is None,
            },
    {
        match primitives::combine(&self.serialize(), &other.serialize()) {
            Some(bytes) => Some(PublicKey { bytes }),
            None => None,
        }
    }

    /// Whether two keys are the same.
    pub fn same_as(&self, other: &PublicKey) -> (same: bool)
        ensures
            same == (*self == *other),
    {
        proof {
            lemma_same_key(*self, *other);
        }
        same_bytes(self.bytes.as_slice(), other.bytes.as_slice())
    }
}

/// A key is determined by its encoding.
pub proof fn lemma_same_key(a: PublicKey, b: PublicKey)
    ensures
        a == b <==> a@ == b@,
{
    if a@ == b@ {
        assert(a.bytes =~= b.bytes);
    }
}

/// A copy of a list of keys.
pub fn copy_keys(keys: &Vec<PublicKey>) -> (copy: Vec<PublicKey>)
    ensures
        copy@ == keys@,
{
    let mut copy: Vec<PublicKey> = Vec::new();
    let mut i: usize = 0;
    while i < keys.len()
        invariant
            i <= keys@.len(),
            copy@ == keys@.take(i as int),
        decreases keys@.len() - i,
    {
        copy.push(keys[i]);
        proof {
            assert(keys@.take(i + 1) =~= keys@.take(i as int).push(keys@[i as int]));
        }
        i = i + 1;
    }
    proof {
        assert(keys@.take(keys@.len() as int) =~= keys@);
    }
    copy
}

/// A secp256k1 secret key.
#[derive(Clone, Copy)]
pub struct SecretKey {
    bytes: [u8; 32],
}

impl View for SecretKey {
    type V = Seq<u8>;

    /// The key as 32 big-endian bytes.
    closed spec fn view(&self) -> Seq<u8> {
        self.bytes@
    }
}

impl SecretKey {
    #[verifier::type_invariant]
    spec fn well_formed(self) -> bool {
        valid_secret_key(self.bytes@)
    }

    /// The key as 32 big-endian bytes.
    pub fn secret_bytes(&self) -> (bytes: [u8; 32])
        ensures
            bytes@ == self@,
            valid_secret_key(bytes@),
    {
        proof {
            use_type_invariant(self);
        }
        self.bytes
    }
}

/// Whether these two keys may have been drawn at random.
pub closed spec fn pair_drawn(sk: Seq<u8>, pk: Seq<u8>) -> bool {
    exists|pair: ([u8; 32], [u8; 33])|
        pair.0@ == sk && pair.1@ == pk && #[trigger] call_ensures(primitives::generate, (), pair)
}

/// Draws a fresh secret key and returns it with the public key that belongs
/// to it.
pub fn generate_keypair() -> (pair: (SecretKey, PublicKey))
    ensures
        pair_drawn(pair.0@, pair.1@),
        pair.1@ == public_key_of(pair.0@),
        valid_secret_key(pair.0@),
{
    let (sk, pk) = primitives::generate();
    (SecretKey { bytes: sk }, PublicKey { bytes: pk })
}

/// An ECDSA signature in compact form.
#[derive(Debug, Clone, Copy, PartialEq, Eq)]
pub struct Signature {
    pub compact: [u8; 64],
}

impl View for Signature {
    type V = Seq<u8>;

    open spec fn view(&self) -> Seq<u8> {
        self.compact@
    }
}

/// A number below the secp256k1 group order.
#[derive(Debug, Clone, Copy, PartialEq, Eq)]
pub struct Scalar {
    bytes: [u8; 32],
}

impl View for Scalar {
    type V = nat;

    closed spec fn view(&self) -> nat {
        be_value(self.bytes@)
    }
}

impl Scalar {
    #[verifier::type_invariant]
    spec fn well_formed(self) -> bool {
        be_value(self.bytes@) < be_value(CURVE_ORDER@)
    }

    /// Reads a scalar from 32 big-endian bytes; there is none at or above the
    /// group order.
    pub fn from_be_bytes(bytes: [u8; 32]) -> (res: Option<Scalar>)
        ensures
            match res {
                Some(s) => s@ == be_value(bytes@) && be_value(bytes@) < be_value(CURVE_ORDER@),
                None => be_value(bytes@) >= be_value(CURVE_ORDER@),
            },
    {
        let order: [u8; 32] = CURVE_ORDER;
        let mut i: usize = 0;
        while i < 32
            invariant
                i <= 32,
                order@ == CURVE_ORDER@,
                bytes@.take(i as int) == order@.take(i as int),
            decreases 32 - i,
        {
            if bytes[i] < order[i] {
                proof {
                    lemma_lexicographic(bytes@, order@, i as int);
                }
                return Some(Scalar { bytes });
            }
            if bytes[i] > order[i] {
                proof {
                    assert(order@.take(i as int) == bytes@.take(i as int));
                    lemma_lexicographic(order@, bytes@, i as int);
                }
                return None;
            }
            proof {
                assert(bytes@.take(i + 1) =~= bytes@.take(i as int).push(bytes@[i as int]));
                assert(order@.take(i + 1) =~= order@.take(i as int).push(order@[i as int]));
            }
            i = i + 1;
        }
        proof {
            assert(bytes@.take(32) =~= bytes@);
            assert(order@.take(32) =~= order@);
        }
        None
    }

    /// The scalar as 32 big-endian bytes.
    pub fn to_be_bytes(&self) -> (bytes: [u8; 32])
        ensures
            bytes@ == be_bytes(self@, 32),
            be_value(bytes@) == self@,
            self@ < be_value(CURVE_ORDER@),
    {
        proof {
            use_type_invariant(self);
            lemma_be_bytes_of_value(self.bytes@);
        }
        self.bytes
    }
}

/// Of two byte strings of one length, the one with the smaller byte at the
/// first difference encodes the smaller number.
pub proof fn lemma_lexicographic(a: Seq<u8>, b: Seq<u8>, i: int)
    requires
        a.len() == b.len(),
        0 <= i < a.len(),
        a.take(i) == b.take(i),
        a[i] < b[i],
    ensures
        be_value(a) < be_value(b),
{
    let ta = a.skip(i + 1);
    let tb = b.skip(i + 1);
    let ha = a.take(i + 1);
    let hb = b.take(i + 1);
    assert(a =~= ha + ta);
    assert(b =~= hb + tb);
    lemma_be_value_concat(ha, ta);
    lemma_be_value_concat(hb, tb);
    lemma_be_value_bound(ta);
    assert(ha.drop_last() =~= a.take(i));
    assert(hb.drop_last() =~= b.take(i));
    let p: nat = pow256(ta.len());
    let va: nat = be_value(ha);
    let vb: nat = be_value(hb);
    assert(va + 1 <= vb);
    assert(va * p + p <= vb * p) by (nonlinear_arith)
        requires
            va + 1 <= vb,
    ;
}

/// The scalar that stands for a small number.
pub fn scalar_of(n: u64) -> (s: Scalar)
    ensures
        s@ == n as nat,
{
    let tail: Vec<u8> = encode_be(n, 8);
    let mut bytes: [u8; 32] = [0u8; 32];
    proof {
        lemma_be_bytes_len(n as nat, 8);
    }
    let mut i: usize = 0;
    while i < 8
        invariant
            i <= 8,
            tail@.len() == 8,
            forall|j: int| 0 <= j < 24 ==> bytes@[j] == 0,
            forall|j: int| 0 <= j < i ==> bytes@[24 + j] == tail@[j],
        decreases 8 - i,
    {
        bytes[24 + i] = tail[i];
        i = i + 1;
    }
    proof {
        let head = bytes@.take(24);
        assert(bytes@ =~= head + tail@);
        lemma_be_value_concat(head, tail@);
        lemma_be_value_zeros(head);
        assert(pow256(8) == 0x1_0000_0000_0000_0000) by {
            reveal_with_fuel(pow256, 9);
        }
        lemma_be_round_trip(n as nat, 8);
        assert(0 * pow256(8) == 0);
        assert(bytes@.take(0) =~= CURVE_ORDER@.take(0));
        lemma_lexicographic(bytes@, CURVE_ORDER@, 0);
    }
    Scalar { bytes }
}

} // verus!
