//! What travels between actors: messages, their framing, and the Authority's
//! trust anchor.
use vstd::prelude::*;
use vstd::string::StringExecFns;

use crate::authority::ActorKeys;
use crate::bytes::{
    append, be_bytes, be_value, decode_be, encode_be, lemma_be_bytes_len, lemma_be_round_trip,
    pow256,
};
use crate::crypto::{BroadcastPackage, SecurePackage};
use crate::keys::{Error, PublicKey};
use crate::primitives::{public_key_encoding, valid_public_key};
use crate::text::{decimal, decimal_round_trip, usize_text};

verus! {

/// File the Authority publishes its public keys to, and the only piece of key
/// material any actor trusts a priori.
///
/// Verifying a package against a key taken from that same package proves
/// nothing, so the chain of trust has to start somewhere outside the wire. In
/// a deployment this anchor would be pinned in a config file or a CA; here
/// every actor runs from the same working directory, so a file stands in for
/// that out-of-band channel. Everything else - signer, combiner and tracer
/// keys - is then distributed by the Authority inside packages signed with
/// this identity key.
pub const AUTHORITY_ANCHOR_FILE: &'static str = "taps_authority.pub";

/// Length of the trust anchor in bytes: two compressed public keys.
pub const ANCHOR_LEN: usize = 66;

/// The Authority's public keys, as pinned by every other actor.
#[derive(Debug, Clone, Copy, PartialEq, Eq)]
pub struct AuthorityAnchor {
    pub identity_pk: PublicKey,
    pub transport_pk: PublicKey,
}

/// Why a trust anchor cannot be read.
#[derive(Debug, Clone, Copy, PartialEq, Eq, Structural)]
pub enum AnchorError {
    /// It has this many bytes, and not as many as two keys take.
    Length(usize),
    /// One of its halves is no public key.
    Key(Error),
}

impl AuthorityAnchor {
    /// The Authority's keys, as those of any other actor.
    pub open spec fn actor_keys(&self) -> ActorKeys {
        ActorKeys { identity_pk: self.identity_pk, transport_pk: self.transport_pk }
    }

    /// The Authority's keys, as those of any other actor.
    pub fn keys(&self) -> (keys: ActorKeys)
        ensures
            keys == self.actor_keys(),
    {
        ActorKeys { identity_pk: self.identity_pk, transport_pk: self.transport_pk }
    }

    /// The content of the trust anchor file: both keys, compressed.
    pub open spec fn spec_encode(&self) -> Seq<u8> {
        self.identity_pk@ + self.transport_pk@
    }

    /// The content of the trust anchor file.
    pub fn encode(&self) -> (bytes: Vec<u8>)
        ensures
            bytes@ == self.spec_encode(),
            bytes@.len() == ANCHOR_LEN,
            valid_public_key(self.identity_pk@),
            valid_public_key(self.transport_pk@),
    {
        let mut bytes: Vec<u8> = Vec::new();
        append(&mut bytes, self.identity_pk.serialize().as_slice());
        append(&mut bytes, self.transport_pk.serialize().as_slice());
        proof {
            assert(bytes@ =~= self.spec_encode());
        }
        bytes
    }

    /// Reads a trust anchor file's content.
    pub fn parse(bytes: &[u8]) -> (res: Result<AuthorityAnchor, AnchorError>)
        ensures
            match res {
                Ok(anchor) => {
                    &&& bytes@.len() == ANCHOR_LEN
                    &&& public_key_encoding(bytes@.take(33)) == Some(anchor.identity_pk@)
                    &&& public_key_encoding(bytes@.skip(33)) == Some(anchor.transport_pk@)
                },
                Err(AnchorError::Length(len)) => bytes@.len() == len && len != ANCHOR_LEN,
                Err(AnchorError::Key(e)) => {
                    &&& bytes@.len() == ANCHOR_LEN
                    &&& e == Error::InvalidPublicKey
                    &&& public_key_encoding(bytes@.take(33)) is None || public_key_encoding(
                        bytes@.skip(33),
                    ) is None
                },
            },
    {
        if bytes.len() != ANCHOR_LEN {
            return Err(AnchorError::Length(bytes.len()));
        }
        let first: &[u8] = vstd::slice::slice_subrange(bytes, 0, 33);
        let second: &[u8] = vstd::slice::slice_subrange(bytes, 33, 66);
        proof {
            assert(first@ =~= bytes@.take(33));
            assert(second@ =~= bytes@.skip(33));
        }
        let identity_pk: PublicKey = match PublicKey::from_slice(first) {
            Ok(pk) => pk,
            Err(e) => {
                return Err(AnchorError::Key(e));
            },
        };
        match PublicKey::from_slice(second) {
            Ok(transport_pk) => Ok(AuthorityAnchor { identity_pk, transport_pk }),
            Err(e) => Err(AnchorError::Key(e)),
        }
    }
}

impl AnchorError {
    /// What to tell a user.
    pub open spec fn spec_message(&self) -> Seq<char> {
        match *self {
            AnchorError::Length(len) =>
                "Malformed Authority trust anchor 'taps_authority.pub': expected 66 bytes, found "@
                + decimal(len as nat),
            AnchorError::Key(_) => "malformed public key"@,
        }
    }

    /// What to tell a user.
    pub fn message(&self) -> (text: String)
        ensures
            text@ == self.spec_message(),
    {
        match *self {
            AnchorError::Length(len) => String::from_str(
                "Malformed Authority trust anchor 'taps_authority.pub': expected 66 bytes, found ",
            ).concat(usize_text(len).as_str()),
            AnchorError::Key(_) => String::from_str("malformed public key"),
        }
    }
}

/// Every actor reads from the published anchor the keys that the Authority
/// put there.
pub proof fn anchor_round_trip(anchor: AuthorityAnchor, bytes: Seq<u8>)
    requires
        valid_public_key(anchor.identity_pk@),
        valid_public_key(anchor.transport_pk@),
        bytes == anchor.spec_encode(),
    ensures
        bytes.len() == ANCHOR_LEN,
        public_key_encoding(bytes.take(33)) == Some(anchor.identity_pk@),
        public_key_encoding(bytes.skip(33)) == Some(anchor.transport_pk@),
{
    assert(bytes.take(33) =~= anchor.identity_pk@);
    assert(bytes.skip(33) =~= anchor.transport_pk@);
}

/// The roles an actor can play in the system.
#[derive(Debug, Clone, Copy, PartialEq, Eq, Structural)]
pub enum Role {
    Signer,
    Combiner,
    Tracer,
}

/// The protocol messages exchanged over TCP.
#[derive(Debug, Clone, PartialEq, Eq)]
pub enum Message {
    /// Sent by an actor to the Authority or the Combiner to join the network,
    /// and by a tracer to another tracer when it opens a peer-to-peer link.
    Hello {
        /// The signer's or tracer's id; zero for the Combiner.
        id: usize,
        role: Role,
        /// Transport public key, serialized.
        pk: Vec<u8>,
        /// Long-term identity public key, serialized.
        identity_pk: Vec<u8>,
    },
    /// Point-to-point, encrypted and signed. The sender's keys are not carried
    /// here on purpose: the receiver already holds them, either pinned (the
    /// Authority) or distributed by the Authority (everyone else).
    Secure { package: SecurePackage },
    /// One-to-many, signed but not encrypted. Same reasoning for the keys.
    Broadcast { package: BroadcastPackage },
}

/// How often an actor tries to bind its port before it gives up.
pub const BIND_ATTEMPTS: usize = 60;

/// What to do after a failed attempt to bind a port.
#[derive(Debug, Clone, Copy, PartialEq, Eq, Structural)]
pub struct BindRetry {
    /// Whether to tell the user that the port is in use.
    pub report: bool,
    /// Whether to try again.
    pub again: bool,
}

/// What to do after attempt number `attempt`, counted from zero, has failed,
/// given whether it failed because the address was in use.
///
/// Back-to-back runs can start a new process before the system has released
/// the previous one's socket; retrying absorbs that delay. Any other failure
/// is final.
pub fn after_failed_bind(attempt: usize, in_use: bool) -> (next: BindRetry)
    ensures
        next.again == (in_use && attempt + 1 < BIND_ATTEMPTS),
        next.report == (in_use && attempt == 0),
{
    BindRetry {
        report: in_use && attempt == 0,
        again: in_use && attempt < BIND_ATTEMPTS - 1,
    }
}

/// Number of values that a frame's length header distinguishes.
pub const FRAME_LIMIT: u64 = 0x1_0000_0000;

/// A payload as it travels: its length in four big-endian bytes, of which a
/// longer payload keeps the low ones, and then the payload.
pub open spec fn framed(payload: Seq<u8>) -> Seq<u8> {
    be_bytes(payload.len() % (FRAME_LIMIT as nat), 4) + payload
}

/// The payload and what follows it, read from a stream of frames; none while
/// the stream holds no whole frame.
pub open spec fn unframed(stream: Seq<u8>) -> Option<(Seq<u8>, Seq<u8>)> {
    if stream.len() < 4 {
        None
    } else {
        let len = be_value(stream.take(4));
        if stream.len() < 4 + len {
            None
        } else {
            Some((stream.subrange(4, (4 + len) as int), stream.skip((4 + len) as int)))
        }
    }
}

/// The length header that goes before a payload.
pub fn frame_header(len: usize) -> (header: Vec<u8>)
    ensures
        header@ == be_bytes(len as nat % (FRAME_LIMIT as nat), 4),
        header@.len() == 4,
{
    proof {
        lemma_be_bytes_len(len as nat % (FRAME_LIMIT as nat), 4);
        assert(pow256(4) == FRAME_LIMIT) by {
            reveal_with_fuel(pow256, 5);
        }
    }
    encode_be(len as u64 % FRAME_LIMIT, 4)
}

/// The payload's length, read from its header.
pub fn frame_length(header: &[u8]) -> (len: usize)
    requires
        header@.len() == 4,
    ensures
        len == be_value(header@),
{
    let len: u64 = decode_be(header);
    proof {
        crate::bytes::lemma_be_value_bound(header@);
        assert(pow256(4) == FRAME_LIMIT) by {
            reveal_with_fuel(pow256, 5);
        }
    }
    len as usize
}

/// Puts a payload into a frame.
pub fn frame(payload: &[u8]) -> (bytes: Vec<u8>)
    ensures
        bytes@ == framed(payload@),
{
    let mut bytes: Vec<u8> = frame_header(payload.len());
    append(&mut bytes, payload);
    bytes
}

/// What is framed and sent comes out of the stream again, with whatever was
/// sent after it left over.
pub proof fn frame_round_trip(payload: Seq<u8>, rest: Seq<u8>)
    requires
        payload.len() < FRAME_LIMIT,
    ensures
        unframed(framed(payload) + rest) == Some((payload, rest)),
{
    let stream = framed(payload) + rest;
    let len: nat = payload.len();
    assert(len % (FRAME_LIMIT as nat) == len) by (nonlinear_arith)
        requires
            len < FRAME_LIMIT,
    ;
    lemma_be_bytes_len(len, 4);
    assert(pow256(4) == FRAME_LIMIT) by {
        reveal_with_fuel(pow256, 5);
    }
    lemma_be_round_trip(len, 4);
    assert(stream.take(4) =~= be_bytes(len, 4));
    assert(stream.subrange(4, (4 + len) as int) =~= payload);
    assert(stream.skip((4 + len) as int) =~= rest);
}

/// A frame is four bytes that tell the payload's length, most significant
/// first, and the payload after them.
pub proof fn frames_tell_their_length(payload: Seq<u8>)
    requires
        payload.len() <= 0xffff_ffff,
    ensures
        framed(payload).len() == payload.len() + 4,
        framed(payload).skip(4) == payload,
        framed(payload)[0] * 0x100_0000 + framed(payload)[1] * 0x1_0000 + framed(payload)[2] * 0x100
            + framed(payload)[3] == payload.len(),
{
    let len: nat = payload.len();
    assert(len % (FRAME_LIMIT as nat) == len) by (nonlinear_arith)
        requires
            len < FRAME_LIMIT,
    ;
    lemma_be_bytes_len(len, 4);
    assert(pow256(4) == FRAME_LIMIT) by {
        reveal_with_fuel(pow256, 5);
    }
    lemma_be_round_trip(len, 4);
    let header = be_bytes(len, 4);
    assert(framed(payload).skip(4) =~= payload);
    lemma_four_bytes(header);
    assert(forall|i: int| 0 <= i < 4 ==> framed(payload)[i] == header[i]);
}

proof fn lemma_four_bytes(s: Seq<u8>)
    requires
        s.len() == 4,
    ensures
        be_value(s) == s[0] * 0x100_0000 + s[1] * 0x1_0000 + s[2] * 0x100 + s[3],
{
    reveal_with_fuel(be_value, 6);
    let three = s.drop_last();
    let two = three.drop_last();
    let one = two.drop_last();
    assert(be_value(one) == s[0]) by {
        assert(one.drop_last().len() == 0);
    }
    assert(be_value(two) == be_value(one) * 256 + s[1]);
    assert(be_value(three) == be_value(two) * 256 + s[2]);
}

/// A stream holds a whole frame exactly when it is as long as its first four
/// bytes say; the payload is what follows them, and nothing of the stream is
/// lost.
pub proof fn whole_frames_are_read(stream: Seq<u8>)
    ensures
        unframed(stream) is None <==> stream.len() < 4 || stream.len() < 4 + stream[0] * 0x100_0000
            + stream[1] * 0x1_0000 + stream[2] * 0x100 + stream[3],
        unframed(stream) is Some ==> {
            let (payload, rest) = unframed(stream)->0;
            &&& stream == stream.take(4) + payload + rest
            &&& payload.len() == stream[0] * 0x100_0000 + stream[1] * 0x1_0000 + stream[2] * 0x100
                + stream[3]
        },
{
    if stream.len() >= 4 {
        lemma_four_bytes(stream.take(4));
        if let Some((payload, rest)) = unframed(stream) {
            assert(stream =~= stream.take(4) + payload + rest);
        }
    }
}

/// The anchor file names the identity key first and the transport key after
/// it.
pub proof fn anchors_hold_identity_then_transport(anchor: AuthorityAnchor)
    requires
        valid_public_key(anchor.identity_pk@),
        valid_public_key(anchor.transport_pk@),
    ensures
        anchor.spec_encode().len() == 66,
        anchor.spec_encode().take(33) == anchor.identity_pk@,
        anchor.spec_encode().skip(33) == anchor.transport_pk@,
{
    assert(anchor.spec_encode().take(33) =~= anchor.identity_pk@);
    assert(anchor.spec_encode().skip(33) =~= anchor.transport_pk@);
}

/// A malformed anchor's message tells its length, so that two lengths are told
/// apart; a malformed key has a message of its own.
pub proof fn anchor_errors_tell_the_length(len: usize, other: usize, e: Error)
    ensures
        AnchorError::Length(len).spec_message()
            == "Malformed Authority trust anchor 'taps_authority.pub': expected 66 bytes, found "@
            + decimal(len as nat),
        AnchorError::Length(len).spec_message() == AnchorError::Length(other).spec_message()
            ==> len == other,
        AnchorError::Key(e).spec_message() == "malformed public key"@,
{
    let prefix =
        "Malformed Authority trust anchor 'taps_authority.pub': expected 66 bytes, found "@;
    let a = AnchorError::Length(len).spec_message();
    let b = AnchorError::Length(other).spec_message();
    assert(a.skip(prefix.len() as int) =~= decimal(len as nat));
    assert(b.skip(prefix.len() as int) =~= decimal(other as nat));
    if a == b {
        decimal_round_trip(len as nat);
        decimal_round_trip(other as nat);
    }
}

} // verus!
