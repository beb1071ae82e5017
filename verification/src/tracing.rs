//! Tracing: from the tracers' partial decryptions to the quorum that signed.
use vstd::prelude::*;
use vstd::string::StringExecFns;

use crate::group::Gt;
use crate::keys::{PublicKey, Scalar};
use crate::ordered::ascending;
use crate::scheme::{DecryptionInput, PartialDecryption, Scheme, Sigma, TracerKeyShare, PK};
use crate::text::{decimal, usize_text};
use crate::tracer::{fails_with, Tracer};

verus! {

/// The positions at which a bit string has a one, in ascending order.
pub open spec fn ones(bits: Seq<u8>) -> Seq<usize>
    decreases bits.len(),
{
    if bits.len() == 0 {
        Seq::empty()
    } else {
        let before = ones(bits.drop_last());
        if bits.last() == 1 {
            before.push((bits.len() - 1) as usize)
        } else {
            before
        }
    }
}

/// The partial decryptions that were found valid, in order.
pub open spec fn kept<D>(partials: Seq<D>, verdicts: Seq<Result<bool, String>>) -> Seq<D>
    decreases verdicts.len(),
{
    if verdicts.len() == 0 {
        Seq::empty()
    } else {
        let before = kept(partials, verdicts.drop_last());
        if verdicts.last() == Ok::<bool, String>(true) {
            before.push(partials[verdicts.len() - 1])
        } else {
            before
        }
    }
}

/// The outcome of tracing once the bits are known: the decrypted signature
/// has to be the one that the traced quorum makes, and the quorum has to meet
/// the threshold.
pub open spec fn concludes(
    bits: Seq<u8>,
    g_z: Gt,
    expected: PublicKey,
    t: Option<usize>,
    res: Result<Vec<usize>, String>,
) -> bool {
    if g_z.point != Some(expected) {
        fails_with(
            res,
            "Tracing failed: g^z from the decrypted quorum does not match the decrypted signature."@,
        )
    } else {
        match t {
            None => fails_with(res, "Threshold t not set in Tracer"@),
            Some(t) => if ones(bits).len() < t {
                fails_with(
                    res,
                    "Tracing failed: quorum of "@ + decimal(ones(bits).len())
                        + " signers is below the threshold t="@ + decimal(t as nat),
                )
            } else {
                res matches Ok(quorum) && quorum@ == ones(bits)
            },
        }
    }
}

/// Finds the positions of the ones.
fn positions_of_ones(bits: &Vec<u8>) -> (positions: Vec<usize>)
    ensures
        positions@ == ones(bits@),
{
    let mut positions: Vec<usize> = Vec::new();
    let mut i: usize = 0;
    while i < bits.len()
        invariant
            i <= bits@.len(),
            positions@ == ones(bits@.take(i as int)),
        decreases bits@.len() - i,
    {
        proof {
            assert(bits@.take(i + 1).drop_last() =~= bits@.take(i as int));
        }
        if bits[i] == 1 {
            positions.push(i);
        }
        i = i + 1;
    }
    proof {
        assert(bits@.take(bits@.len() as int) =~= bits@);
    }
    positions
}

/// Draws the conclusion from the decrypted bits and the decrypted signature.
pub fn conclude(bits: &Vec<u8>, g_z: &Gt, expected: &PublicKey, t: Option<usize>) -> (res: Result<
    Vec<usize>,
    String,
>)
    ensures
        concludes(bits@, *g_z, *expected, t, res),
{
    if !g_z.same_as(&Gt::from_public_key(expected)) {
        return Err(
            String::from_str(
                "Tracing failed: g^z from the decrypted quorum does not match the decrypted signature.",
            ),
        );
    }
    let quorum: Vec<usize> = positions_of_ones(bits);
    match t {
        None => Err(String::from_str("Threshold t not set in Tracer")),
        Some(t) => if quorum.len() < t {
            let mut text: String = String::from_str("Tracing failed: quorum of ");
            text.append(usize_text(quorum.len()).as_str());
            text.append(" signers is below the threshold t=");
            text.append(usize_text(t).as_str());
            Err(text)
        } else {
            Ok(quorum)
        },
    }
}

/// Whether the bits are what the elements decode to, or the failure is that
/// of the first element that decodes to none.
pub open spec fn decodes<P: Scheme>(elements: Seq<Gt>, res: Result<Vec<u8>, String>) -> bool {
    match res {
        Ok(bits) => {
            &&& bits@.len() == elements.len()
            &&& forall|i: int|
                0 <= i < elements.len() ==> call_ensures(
                    P::decode_bit,
                    (&elements[i], i as usize),
                    Ok(#[trigger] bits@[i]),
                )
        },
        Err(e) => exists|bits: Seq<u8>|
            {
                &&& #[trigger] bits.len() < elements.len()
                &&& forall|i: int|
                    0 <= i < bits.len() ==> call_ensures(
                        P::decode_bit,
                        (&elements[i], i as usize),
                        Ok(#[trigger] bits[i]),
                    )
                &&& call_ensures(
                    P::decode_bit,
                    (&elements[bits.len() as int], bits.len() as usize),
                    Err(e),
                )
            },
    }
}

fn decode_bits<P: Scheme>(elements: &Vec<Gt>) -> (res: Result<Vec<u8>, String>)
    ensures
        decodes::<P>(elements@, res),
{
    let mut bits: Vec<u8> = Vec::new();
    let mut i: usize = 0;
    while i < elements.len()
        invariant
            i <= elements@.len(),
            bits@.len() == i,
            forall|j: int|
                0 <= j < i ==> call_ensures(
                    P::decode_bit,
                    (&elements@[j], j as usize),
                    Ok(#[trigger] bits@[j]),
                ),
        decreases elements@.len() - i,
    {
        match P::decode_bit(&elements[i], i) {
            Ok(bit) => {
                bits.push(bit);
            },
            Err(e) => {
                proof {
                    assert(bits@.len() < elements@.len());
                }
                return Err(e);
            },
        }
        i = i + 1;
    }
    Ok(bits)
}

impl<P: Scheme> Tracer<P> {
    /// What a partial decryption comes to: a verdict under the verification
    /// key of the tracer that it claims to come from, or the failure to
    /// compute that key.
    pub open spec fn judges_partial(
        self,
        partial: PartialDecryption<P::PartialBody>,
        verdict: Result<bool, String>,
    ) -> bool {
        exists|key: Result<P::VerificationKey, String>| #[trigger]
            call_ensures(
                P::verification_key,
                (&self.tracer_key_share->0.qual, &self.dkg_broadcasts, partial.tracer_index),
                key,
            ) && (match key {
                Ok(vk) => exists|ok: bool| #[trigger]
                    call_ensures(P::verify_partial, (&partial, &self.decryption_input(), &vk), ok)
                        && verdict == Ok::<bool, String>(ok),
                Err(e) => verdict == Err::<bool, String>(e),
            })
    }

    /// Whether the first partial decryptions come to these verdicts.
    pub open spec fn judges_partials(
        self,
        partials: Seq<PartialDecryption<P::PartialBody>>,
        verdicts: Seq<Result<bool, String>>,
    ) -> bool {
        &&& verdicts.len() <= partials.len()
        &&& forall|i: int|
            0 <= i < verdicts.len() ==> self.judges_partial(partials[i], #[trigger] verdicts[i])
    }

    /// Whether `res` holds the valid ones among the partial decryptions, or
    /// the first failure to compute a verification key.
    pub open spec fn checks_partials(
        self,
        partials: Seq<PartialDecryption<P::PartialBody>>,
        res: Result<Vec<PartialDecryption<P::PartialBody>>, String>,
    ) -> bool {
        exists|verdicts: Seq<Result<bool, String>>| #[trigger]
            self.judges_partials(partials, verdicts) && (match res {
                Ok(valid) => {
                    &&& verdicts.len() == partials.len()
                    &&& forall|i: int| 0 <= i < verdicts.len() ==> (#[trigger] verdicts[i]) is Ok
                    &&& valid@ == kept(partials, verdicts)
                },
                Err(e) => {
                    &&& verdicts.len() > 0
                    &&& forall|i: int| 0 <= i < verdicts.len() - 1 ==> (#[trigger] verdicts[i]) is Ok
                    &&& verdicts.last() == Err::<bool, String>(e)
                },
            })
    }

    /// Keeps the partial decryptions that verify.
    fn check_partials(
        &self,
        partials: Vec<PartialDecryption<P::PartialBody>>,
        share: &TracerKeyShare<P::TracerSecret>,
        input: &DecryptionInput<'_>,
    ) -> (res: Result<Vec<PartialDecryption<P::PartialBody>>, String>)
        requires
            self.tracer_key_share == Some(*share),
            *input == self.decryption_input(),
        ensures
            self.checks_partials(partials@, res),
    {
        let ghost all = partials@;
        let ghost mut verdicts: Seq<Result<bool, String>> = Seq::empty();
        let mut valid: Vec<PartialDecryption<P::PartialBody>> = Vec::new();
        for partial in it: partials
            invariant
                it.seq() == all,
                self.tracer_key_share == Some(*share),
                *input == self.decryption_input(),
                verdicts.len() == it.index(),
                self.judges_partials(all, verdicts),
                forall|i: int| 0 <= i < verdicts.len() ==> (#[trigger] verdicts[i]) is Ok,
                valid@ == kept(all, verdicts),
        {
            let ghost before = verdicts;
            match P::verification_key(&share.qual, &self.dkg_broadcasts, partial.tracer_index) {
                Ok(vk) => {
                    let ok: bool = P::verify_partial(&partial, input, &vk);
                    proof {
                        verdicts = verdicts.push(Ok(ok));
                        assert(verdicts.drop_last() =~= before);
                        assert(self.judges_partial(all[it.index() as int], Ok(ok)));
                    }
                    if ok {
                        valid.push(partial);
                    }
                },
                Err(e) => {
                    proof {
                        verdicts = verdicts.push(Err(e));
                        assert(self.judges_partial(all[it.index() as int], Err(e)));
                        assert(self.judges_partials(all, verdicts));
                    }
                    return Err(e);
                },
            }
        }
        Ok(valid)
    }

    /// Whether `res` follows from the decrypted signature and bits.
    pub open spec fn traces_bits(
        self,
        g_z: Gt,
        bits: Vec<u8>,
        res: Result<Vec<usize>, String>,
    ) -> bool {
        match self.pk {
            None => fails_with(res, "PK not set in Tracer"@),
            Some(pk) => exists|quorum: P::Quorum, c: Scalar, expected: PublicKey|
                {
                    &&& call_ensures(P::quorum_of_bits, (&pk, &bits), quorum)
                    &&& call_ensures(P::statement_c, (&self.statement_for(self.sigma->0),), c)
                    &&& #[trigger] call_ensures(
                        P::schnorr_signature,
                        (&self.sigma->0.R, &quorum, &c),
                        expected,
                    )
                    &&& concludes(bits@, g_z, expected, self.t, res)
                },
        }
    }

    /// Whether `res` follows from the decrypted signature and the elements
    /// that stand for the bits.
    pub open spec fn traces_elements(
        self,
        g_z: Gt,
        elements: Seq<Gt>,
        res: Result<Vec<usize>, String>,
    ) -> bool {
        exists|decoded: Result<Vec<u8>, String>| #[trigger]
            decodes::<P>(elements, decoded) && (match decoded {
                Ok(bits) => self.traces_bits(g_z, bits, res),
                Err(e) => res == Err::<Vec<usize>, String>(e),
            })
    }

    /// Whether `res` follows from the valid partial decryptions.
    pub open spec fn traces_valid(
        self,
        valid: Vec<PartialDecryption<P::PartialBody>>,
        res: Result<Vec<usize>, String>,
    ) -> bool {
        exists|combined: Result<(Gt, Vec<Gt>), String>| #[trigger]
            call_ensures(
                P::combine_partials,
                (&self.decryption_input(), &valid, self.te->0),
                combined,
            ) && (match combined {
                Ok((g_z, elements)) => self.traces_elements(g_z, elements@, res),
                Err(e) => res == Err::<Vec<usize>, String>(e),
            })
    }

    /// Whether `res` is what tracing from these partial decryptions comes to.
    pub open spec fn traces(
        self,
        partials: Seq<PartialDecryption<P::PartialBody>>,
        res: Result<Vec<usize>, String>,
    ) -> bool {
        if self.sigma is None {
            fails_with(res, "Sigma not set in Tracer"@)
        } else if self.v0 is None {
            fails_with(res, "v0 not set in Tracer"@)
        } else if self.v_vec is None {
            fails_with(res, "v_vec not set in Tracer"@)
        } else if self.tracer_key_share is None {
            fails_with(res, "DKG not finalized for this tracer"@)
        } else if self.te is None {
            fails_with(res, "t_e not set"@)
        } else {
            exists|checked: Result<Vec<PartialDecryption<P::PartialBody>>, String>| #[trigger]
                self.checks_partials(partials, checked) && (match checked {
                    Ok(valid) => self.traces_valid(valid, res),
                    Err(e) => res == Err::<Vec<usize>, String>(e),
                })
        }
    }

    /// Verifies every collected partial decryption against the
    /// publicly recomputed verification keys, recombines any `t_e` valid
    /// ones, and runs `Trace` to recover the quorum.
    pub fn combine_and_trace(&self, partials: Vec<PartialDecryption<P::PartialBody>>) -> (res: Result<
        Vec<usize>,
        String,
    >)
        requires
            self.sigma is Some && self.v0 is Some && self.v_vec is Some
                && self.tracer_key_share is Some && self.te is Some && self.pk is Some ==> self.T
                is Some && self.message is Some,
        ensures
            self.traces(partials@, res),
            res matches Ok(quorum) ==> ascending(quorum@) && self.t is Some && quorum@.len()
                >= self.t->0,
    {
        let sigma: &Sigma<P::Attestation> = match &self.sigma {
            Some(sigma) => sigma,
            None => {
                return Err(String::from_str("Sigma not set in Tracer"));
            },
        };
        let v0: &Vec<PublicKey> = match &self.v0 {
            Some(v0) => v0,
            None => {
                return Err(String::from_str("v0 not set in Tracer"));
            },
        };
        let v1: &Vec<PublicKey> = match &self.v_vec {
            Some(v1) => v1,
            None => {
                return Err(String::from_str("v_vec not set in Tracer"));
            },
        };
        let share: &TracerKeyShare<P::TracerSecret> = match &self.tracer_key_share {
            Some(share) => share,
            None => {
                return Err(String::from_str("DKG not finalized for this tracer"));
            },
        };
        let te: usize = match self.te {
            Some(te) => te,
            None => {
                return Err(String::from_str("t_e not set"));
            },
        };
        let input = DecryptionInput { ct: &sigma.ct, v0, v1 };
        let valid: Vec<PartialDecryption<P::PartialBody>> = match self.check_partials(
            partials,
            share,
            &input,
        ) {
            Ok(valid) => valid,
            Err(e) => {
                return Err(e);
            },
        };
        let (g_z, elements): (Gt, Vec<Gt>) = match P::combine_partials(&input, &valid, te) {
            Ok(combined) => combined,
            Err(e) => {
                proof {
                    assert(self.traces_valid(valid, Err(e)));
                }
                return Err(e);
            },
        };
        let bits: Vec<u8> = match decode_bits::<P>(&elements) {
            Ok(bits) => bits,
            Err(e) => {
                proof {
                    assert(self.traces_elements(g_z, elements@, Err(e)));
                    assert(self.traces_valid(valid, Err(e)));
                }
                return Err(e);
            },
        };
        let res: Result<Vec<usize>, String> = self.trace_bits(sigma, &g_z, &bits);
        proof {
            assert(self.traces_elements(g_z, elements@, res));
            assert(self.traces_valid(valid, res));
            assert(bits@.len() == bits.len());
            ones_are_the_ones(bits@);
        }
        res
    }

    /// Checks the quorum that the bits name against the decrypted
    /// signature. The challenge is this tracer's own.
    fn trace_bits(&self, sigma: &Sigma<P::Attestation>, g_z: &Gt, bits: &Vec<u8>) -> (res: Result<
        Vec<usize>,
        String,
    >)
        requires
            self.sigma == Some(*sigma),
            self.v0 is Some,
            self.v_vec is Some,
            self.pk is Some ==> self.T is Some && self.message is Some,
        ensures
            self.traces_bits(*g_z, *bits, res),
            res is Ok ==> self.t is Some && res->Ok_0@ == ones(bits@) && ones(bits@).len()
                >= self.t->0,
    {
        let pk: &PK = match &self.pk {
            Some(pk) => pk,
            None => {
                return Err(String::from_str("PK not set in Tracer"));
            },
        };
        let quorum = P::quorum_of_bits(pk, bits);
        let c: Scalar = self.challenge_c();
        let expected: PublicKey = P::schnorr_signature(&sigma.R, &quorum, &c);
        conclude(bits, g_z, &expected, self.t)
    }
}

/// The traced quorum lists exactly the signers whose bit is one, each once
/// and in ascending order.
pub proof fn ones_are_the_ones(bits: Seq<u8>)
    requires
        bits.len() <= usize::MAX,
    ensures
        ascending(ones(bits)),
        forall|i: usize| #[trigger] ones(bits).contains(i) <==> (i < bits.len() && bits[i as int] == 1),
    decreases bits.len(),
{
    if bits.len() > 0 {
        let shorter = bits.drop_last();
        let last: usize = (bits.len() - 1) as usize;
        ones_are_the_ones(shorter);
        let before = ones(shorter);
        assert forall|j: int| 0 <= j < before.len() implies before[j] < last by {
            assert(before.contains(before[j]));
        }
        assert forall|i: usize| #[trigger] ones(bits).contains(i) <==> (i < bits.len()
            && bits[i as int] == 1) by {
            if bits.last() == 1 {
                assert(ones(bits) == before.push(last));
                assert(ones(bits)[before.len() as int] == last);
                if before.contains(i) {
                    let j = choose|j: int| 0 <= j < before.len() && before[j] == i;
                    assert(ones(bits)[j] == i);
                }
                if ones(bits).contains(i) && i != last {
                    let j = choose|j: int| 0 <= j < ones(bits).len() && ones(bits)[j] == i;
                    assert(before[j] == i);
                }
            } else {
                assert(ones(bits) == before);
            }
            if i < last {
                assert(shorter[i as int] == bits[i as int]);
            }
        }
    }
}

} // verus!
