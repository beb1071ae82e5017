//! Big-endian byte strings.
use vstd::prelude::*;

verus! {

/// The number that `s` encodes, most significant byte first.
pub open spec fn be_value(s: Seq<u8>) -> nat
    decreases s.len(),
{
    if s.len() == 0 {
        0
    } else {
        be_value(s.drop_last()) * 256 + s.last() as nat
    }
}

/// The `len` bytes that encode `n` modulo `256^len`, most significant byte
/// first.
pub open spec fn be_bytes(n: nat, len: nat) -> Seq<u8>
    decreases len,
{
    if len == 0 {
        Seq::empty()
    } else {
        be_bytes(n / 256, (len - 1) as nat).push((n % 256) as u8)
    }
}

/// `256^len`.
pub open spec fn pow256(len: nat) -> nat
    decreases len,
{
    if len == 0 {
        1
    } else {
        256 * pow256((len - 1) as nat)
    }
}

/// `be_bytes` has the length it was asked for.
pub proof fn lemma_be_bytes_len(n: nat, len: nat)
    ensures
        be_bytes(n, len).len() == len,
    decreases len,
{
    if len > 0 {
        lemma_be_bytes_len(n / 256, (len - 1) as nat);
    }
}

/// Reading back an encoded number gives that number, as long as it fits.
pub proof fn lemma_be_round_trip(n: nat, len: nat)
    requires
        n < pow256(len),
    ensures
        be_value(be_bytes(n, len)) == n,
    decreases len,
{
    if len > 0 {
        let shorter: nat = (len - 1) as nat;
        assert(n / 256 < pow256(shorter));
        lemma_be_round_trip(n / 256, shorter);
        let s = be_bytes(n, len);
        assert(s.drop_last() =~= be_bytes(n / 256, shorter));
    }
}

/// A byte string of length `len` encodes a number below `256^len`.
pub proof fn lemma_be_value_bound(s: Seq<u8>)
    ensures
        be_value(s) < pow256(s.len()),
    decreases s.len(),
{
    if s.len() > 0 {
        lemma_be_value_bound(s.drop_last());
        let high: nat = be_value(s.drop_last());
        let bound: nat = pow256((s.len() - 1) as nat);
        assert(high + 1 <= bound);
        assert(be_value(s) == high * 256 + s.last() as nat);
    }
}

/// Bytes equal to an encoded number are that number's only encoding.
pub proof fn lemma_be_bytes_of_value(s: Seq<u8>)
    ensures
        be_bytes(be_value(s), s.len()) == s,
    decreases s.len(),
{
    if s.len() > 0 {
        lemma_be_bytes_of_value(s.drop_last());
        let v: nat = be_value(s);
        assert(v / 256 == be_value(s.drop_last()));
        assert(v % 256 == s.last());
        assert(s.drop_last().push(s.last()) =~= s);
    } else {
        assert(s =~= Seq::<u8>::empty());
    }
}

/// Leading zero bytes do not change the number.
pub proof fn lemma_be_value_zeros(s: Seq<u8>)
    requires
        forall|i: int| 0 <= i < s.len() ==> s[i] == 0,
    ensures
        be_value(s) == 0,
    decreases s.len(),
{
    if s.len() > 0 {
        lemma_be_value_zeros(s.drop_last());
    }
}

/// A number written after a prefix that encodes `high`.
pub proof fn lemma_be_value_concat(a: Seq<u8>, b: Seq<u8>)
    ensures
        be_value(a + b) == be_value(a) * pow256(b.len()) + be_value(b),
    decreases b.len(),
{
    if b.len() == 0 {
        assert(a + b =~= a);
        assert(be_value(a) * 1 == be_value(a));
    } else {
        assert((a + b).drop_last() =~= a + b.drop_last());
        lemma_be_value_concat(a, b.drop_last());
        let p: nat = pow256((b.len() - 1) as nat);
        let va: nat = be_value(a);
        let vb: nat = be_value(b.drop_last());
        assert((va * p + vb) * 256 == va * (256 * p) + vb * 256) by (nonlinear_arith);
        assert(pow256(b.len()) == 256 * p);
        assert((a + b).last() == b.last());
    }
}

/// The `len` big-endian bytes of `n`.
pub fn encode_be(n: u64, len: usize) -> (bytes: Vec<u8>)
    ensures
        bytes@ == be_bytes(n as nat, len as nat),
{
    let mut bytes: Vec<u8> = Vec::new();
    let mut filled: usize = 0;
    while filled < len
        invariant
            filled <= len,
            bytes@.len() == filled,
        decreases len - filled,
    {
        bytes.push(0);
        filled = filled + 1;
    }
    let mut rest: u64 = n;
    let mut i: usize = len;
    assert(bytes@.subrange(len as int, len as int) =~= Seq::<u8>::empty());
    assert(be_bytes(n as nat, len as nat) =~= be_bytes(rest as nat, i as nat) + bytes@.subrange(
        i as int,
        len as int,
    ));
    while i > 0
        invariant
            i <= len,
            bytes@.len() == len,
            be_bytes(n as nat, len as nat) == be_bytes(rest as nat, i as nat) + bytes@.subrange(
                i as int,
                len as int,
            ),
        decreases i,
    {
        let ghost before = bytes@;
        let byte: u8 = (rest % 256) as u8;
        bytes.set(i - 1, byte);
        proof {
            let tail = before.subrange(i as int, len as int);
            assert(bytes@.subrange(i - 1, len as int) =~= seq![byte] + tail);
            assert(be_bytes(rest as nat, i as nat) + tail =~= be_bytes(
                (rest / 256) as nat,
                (i - 1) as nat,
            ) + (seq![byte] + tail));
        }
        rest = rest / 256;
        i = i - 1;
    }
    assert(bytes@.subrange(0, len as int) =~= bytes@);
    assert(be_bytes(rest as nat, 0) + bytes@ =~= bytes@);
    bytes
}

/// Reads a big-endian number of at most eight bytes.
pub fn decode_be(bytes: &[u8]) -> (n: u64)
    requires
        bytes@.len() <= 8,
    ensures
        n as nat == be_value(bytes@),
{
    let mut n: u64 = 0;
    let mut i: usize = 0;
    assert(bytes@.take(0) =~= Seq::<u8>::empty());
    while i < bytes.len()
        invariant
            i <= bytes@.len() <= 8,
            n as nat == be_value(bytes@.take(i as int)),
        decreases bytes@.len() - i,
    {
        proof {
            lemma_be_value_bound(bytes@.take(i as int));
            assert(pow256(7) == 0x100_0000_0000_0000) by {
                reveal_with_fuel(pow256, 8);
            }
            lemma_pow256_grows(i as nat, 7);
            assert(bytes@.take(i + 1).drop_last() =~= bytes@.take(i as int));
        }
        n = n * 256 + bytes[i] as u64;
        i = i + 1;
    }
    assert(bytes@.take(bytes@.len() as int) =~= bytes@);
    n
}

/// `256^len` grows with `len`.
pub proof fn lemma_pow256_grows(a: nat, b: nat)
    requires
        a <= b,
    ensures
        1 <= pow256(a) <= pow256(b),
    decreases b,
{
    if b > 0 {
        if a == b {
            lemma_pow256_grows((a - 1) as nat, (b - 1) as nat);
        } else {
            lemma_pow256_grows(a, (b - 1) as nat);
        }
    }
}

/// Appends `tail` to `buffer`.
pub fn append(buffer: &mut Vec<u8>, tail: &[u8])
    ensures
        final(buffer)@ == old(buffer)@ + tail@,
{
    let mut i: usize = 0;
    while i < tail.len()
        invariant
            i <= tail@.len(),
            buffer@ == old(buffer)@ + tail@.take(i as int),
        decreases tail@.len() - i,
    {
        buffer.push(tail[i]);
        proof {
            assert(tail@.take(i + 1) =~= tail@.take(i as int).push(tail@[i as int]));
        }
        i = i + 1;
    }
    assert(tail@.take(tail@.len() as int) =~= tail@);
}

/// A copy of `source`.
pub fn copy_of(source: &[u8]) -> (copy: Vec<u8>)
    ensures
        copy@ == source@,
{
    let mut copy: Vec<u8> = Vec::new();
    append(&mut copy, source);
    assert(copy@ =~= source@);
    copy
}

/// Whether two byte strings are the same.
pub fn same_bytes(a: &[u8], b: &[u8]) -> (same: bool)
    ensures
        same == (a@ == b@),
{
    if a.len() != b.len() {
        return false;
    }
    let mut i: usize = 0;
    while i < a.len()
        invariant
            a@.len() == b@.len(),
            i <= a@.len(),
            forall|j: int| 0 <= j < i ==> a@[j] == b@[j],
        decreases a@.len() - i,
    {
        if a[i] != b[i] {
            return false;
        }
        i = i + 1;
    }
    assert(a@ =~= b@);
    true
}

/// Bytes are read with the most significant first: every byte behind the
/// others counts them 256 times.
pub proof fn bytes_count_by_position(s: Seq<u8>, b: u8)
    ensures
        be_value(Seq::empty()) == 0,
        be_value(s.push(b)) == 256 * be_value(s) + b,
{
    assert(s.push(b).drop_last() =~= s);
}

} // verus!
