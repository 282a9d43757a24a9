//! A stand-in for a zero-knowledge range proof.
//!
//! The proof of a commitment `C` is the single scalar `2*C + b`, where the bit `b`
//! says whether the committed value is non-negative. It is bound to `C`, but it is
//! neither hiding nor sound against a prover who knows the encoding: a real
//! system puts a zero-knowledge range proof behind the same two operations.

use vstd::prelude::*;
use crate::commitment::commitment;
use crate::field::is_scalar;

verus! {

/// The validity bit: 1 for a non-negative value, 0 for a negative one.
pub open spec fn validity_bit(value: int) -> int {
    if value >= 0 {
        1
    } else {
        0
    }
}

/// The proof that a prover holding `value` makes for `commitment`.
pub open spec fn proof_for(value: int, commitment: int) -> int {
    commitment * 2 + validity_bit(value)
}

/// Whether `proof` is the proof of a non-negative value for exactly this commitment.
pub open spec fn accepts(commitment: int, proof: int) -> bool {
    proof == commitment * 2 + 1
}

/// Whether both proofs that can be made for `commitment` fit a 64-bit scalar.
pub open spec fn encodable(commitment: int) -> bool {
    i64::MIN <= commitment * 2 && commitment * 2 + 1 <= i64::MAX
}

/// Whether an amount lies in the valid range, that is, is not negative.
pub fn range_proof(value: i64) -> (ok: bool)
    ensures
        ok == (value >= 0),
{
    value >= 0
}

/// Makes the proof for `commitment` from the secret `value` behind it.
///
/// The commitment must leave room for the encoding; every field element does
/// (see [`lemma_scalars_are_encodable`]).
pub fn toy_range_proof_create(value: i64, commitment: i64) -> (proof: i64)
    requires
        encodable(commitment as int),
    ensures
        proof == proof_for(value as int, commitment as int),
{
    let valid_bit: i64 = if range_proof(value) {
        1
    } else {
        0
    };
    commitment * 2 + valid_bit
}

/// Checks a proof against a commitment, without the value.
///
/// A malformed proof and the proof of a negative value are both answered with
/// `false`. The comparison is made in 128 bits, so any two arguments are accepted.
pub fn toy_range_proof_verify(commitment: i64, proof: i64) -> (ok: bool)
    ensures
        ok == accepts(commitment as int, proof as int),
{
    proof as i128 == (commitment as i128) * 2 + 1
}

/// Every field element, and so every commitment, leaves room for its proofs.
pub proof fn lemma_scalars_are_encodable(commitment: int)
    requires
        is_scalar(commitment),
    ensures
        encodable(commitment),
{
}

/// A proof is accepted in one case only: it is shown with the commitment it was
/// made for, and the value it was made from is not negative.
pub proof fn lemma_acceptance(value: int, made_for: int, shown_with: int)
    ensures
        accepts(shown_with, proof_for(value, made_for)) <==> shown_with == made_for && value >= 0,
{
}

/// The proof made for a commitment from its own opening is accepted for that
/// commitment exactly when the committed value is not negative.
pub proof fn lemma_proof_accepted_iff_in_range(value: int, blinding: int)
    ensures
        accepts(commitment(value, blinding), proof_for(value, commitment(value, blinding)))
            <==> value >= 0,
        !accepts(commitment(value, blinding), proof_for(value, commitment(value, blinding)))
            <==> value < 0,
{
}

/// A proof is bound to the commitment it was made for: no other commitment accepts
/// it, whatever the value behind it.
pub proof fn lemma_proof_is_not_transferable(value: int, made_for: int, shown_with: int)
    requires
        made_for != shown_with,
    ensures
        !accepts(shown_with, proof_for(value, made_for)),
{
}

/// The proof made from a negative value is accepted for no commitment at all.
pub proof fn lemma_negative_value_is_rejected(value: int, made_for: int, shown_with: int)
    requires
        value < 0,
    ensures
        !accepts(shown_with, proof_for(value, made_for)),
{
}

} // verus!
