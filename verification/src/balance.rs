//! The balance check: one input commitment against the sum of the output commitments.

use vstd::prelude::*;
use crate::commitment::{
    aggregate, aggregated, as_ints, commitment, commitments_to, lemma_aggregate_of_commitments,
    lemma_commitment_is_homomorphic, lemma_same_blinding_commitments,
    lemma_same_value_commitments, total,
};
use crate::field::residue;

verus! {

/// Whether the input commitment equals the aggregate of the output commitments.
pub open spec fn balanced(input: int, outputs: Seq<int>) -> bool {
    input == aggregated(outputs)
}

/// Checks that the outputs of a transaction add up to its input.
///
/// Only commitments are looked at: no value and no blinding factor is needed.
/// The check says nothing about the sign of any single amount.
pub fn verify_balance(input_commitment: i64, output_commitments: &[i64]) -> (ok: bool)
    ensures
        ok == balanced(input_commitment as int, as_ints(output_commitments@)),
{
    input_commitment == aggregate(output_commitments)
}

/// An honestly built transaction with two outputs balances: if the input value is
/// the sum of the output values and the input blinding the sum of the output
/// blindings, the check passes. No amount needs to be non-negative for that.
pub proof fn lemma_honest_transaction_balances(
    value_input: int,
    blinding_input: int,
    value_a: int,
    blinding_a: int,
    value_b: int,
    blinding_b: int,
)
    requires
        value_input == value_a + value_b,
        blinding_input == blinding_a + blinding_b,
    ensures
        balanced(
            commitment(value_input, blinding_input),
            seq![commitment(value_a, blinding_a), commitment(value_b, blinding_b)],
        ),
{
    lemma_commitment_is_homomorphic(value_a, blinding_a, value_b, blinding_b);
}

/// The same for any number of outputs.
pub proof fn lemma_honest_outputs_balance(
    value_input: int,
    blinding_input: int,
    values: Seq<int>,
    blindings: Seq<int>,
)
    requires
        values.len() == blindings.len(),
        value_input == total(values),
        blinding_input == total(blindings),
    ensures
        balanced(commitment(value_input, blinding_input), commitments_to(values, blindings)),
{
    lemma_aggregate_of_commitments(values, blindings);
}

/// With balanced values, a mismatch of the blinding factors fails the check,
/// unless the input blinding is off by a multiple of the modulus: then, and only
/// then, the commitments collide. Any mismatch smaller than the modulus is caught.
pub proof fn lemma_blinding_mismatch_is_caught(
    value_input: int,
    blinding_input: int,
    value_a: int,
    blinding_a: int,
    value_b: int,
    blinding_b: int,
)
    requires
        value_input == value_a + value_b,
        residue(blinding_input - (blinding_a + blinding_b)) != 0,
    ensures
        !balanced(
            commitment(value_input, blinding_input),
            seq![commitment(value_a, blinding_a), commitment(value_b, blinding_b)],
        ),
{
    lemma_commitment_is_homomorphic(value_a, blinding_a, value_b, blinding_b);
    lemma_same_value_commitments(value_input, blinding_input, blinding_a + blinding_b);
}

/// With balanced values, the check passes exactly when the input blinding is
/// congruent to the sum of the output blindings.
pub proof fn lemma_balance_follows_blinding(
    value_input: int,
    blinding_input: int,
    value_a: int,
    blinding_a: int,
    value_b: int,
    blinding_b: int,
)
    requires
        value_input == value_a + value_b,
    ensures
        balanced(
            commitment(value_input, blinding_input),
            seq![commitment(value_a, blinding_a), commitment(value_b, blinding_b)],
        ) <==> residue(blinding_input - (blinding_a + blinding_b)) == 0,
{
    lemma_commitment_is_homomorphic(value_a, blinding_a, value_b, blinding_b);
    lemma_same_value_commitments(value_input, blinding_input, blinding_a + blinding_b);
}

/// With balanced blinding factors, the check passes exactly when the input value
/// is congruent to the sum of the output values: this is what the check is for.
pub proof fn lemma_balance_follows_value(
    value_input: int,
    blinding_input: int,
    value_a: int,
    blinding_a: int,
    value_b: int,
    blinding_b: int,
)
    requires
        blinding_input == blinding_a + blinding_b,
    ensures
        balanced(
            commitment(value_input, blinding_input),
            seq![commitment(value_a, blinding_a), commitment(value_b, blinding_b)],
        ) <==> residue(value_input - (value_a + value_b)) == 0,
{
    lemma_commitment_is_homomorphic(value_a, blinding_a, value_b, blinding_b);
    lemma_same_blinding_commitments(value_input, value_a + value_b, blinding_input);
}

} // verus!
