//! Pedersen-style commitments `C = v*G + r*H (mod p)` and their aggregation.

use vstd::arithmetic::div_mod::lemma_add_mod_noop;
use vstd::prelude::*;
use crate::field::{is_scalar, reduce, residue, MODULUS};

verus! {

/// Generator of the value dimension.
pub const G: i64 = 3;

/// Generator of the blinding dimension.
pub const H: i64 = 7;

/// The commitment to `value` under the blinding factor `blinding`.
///
/// Neither argument is restricted: a negative value commits as well as any other.
pub open spec fn commitment(value: int, blinding: int) -> int {
    residue(value * G + blinding * H)
}

/// The plain integer sum of a sequence.
pub open spec fn total(s: Seq<int>) -> int
    decreases s.len(),
{
    if s.len() == 0 {
        0
    } else {
        total(s.drop_last()) + s.last()
    }
}

/// The commitment that a sequence of commitments adds up to.
pub open spec fn aggregated(commitments: Seq<int>) -> int {
    residue(total(commitments))
}

/// The mathematical integers held by a sequence of machine scalars.
pub open spec fn as_ints(s: Seq<i64>) -> Seq<int> {
    s.map_values(|c: i64| c as int)
}

/// The commitments to `values[i]` under `blindings[i]`, in order.
pub open spec fn commitments_to(values: Seq<int>, blindings: Seq<int>) -> Seq<int>
    recommends
        values.len() == blindings.len(),
{
    Seq::new(values.len(), |i: int| commitment(values[i], blindings[i]))
}

/// Commits to `value` with the blinding factor `blinding`.
///
/// The products are formed in 128 bits, so every pair of 64-bit arguments is
/// accepted and none overflows.
pub fn pedersen_commit(value: i64, blinding: i64) -> (c: i64)
    ensures
        c == commitment(value as int, blinding as int),
        is_scalar(c as int),
{
    proof {
        lemma_term_is_linear(value as int, blinding as int);
    }
    let term: i128 = (value as i128) * (G as i128) + (blinding as i128) * (H as i128);
    reduce(term)
}

/// Adds up a sequence of commitments in the field.
///
/// The elements are summed as they are and the sum is reduced once; the sum of
/// any slice of 64-bit elements fits in 128 bits.
pub fn aggregate(commitments: &[i64]) -> (c: i64)
    ensures
        c == aggregated(as_ints(commitments@)),
        is_scalar(c as int),
{
    let mut sum: i128 = 0;
    let mut i: usize = 0;
    while i < commitments.len()
        invariant
            i <= commitments.len(),
            sum == total(as_ints(commitments@).take(i as int)),
            i * i64::MIN <= sum <= i * i64::MAX,
        decreases commitments.len() - i,
    {
        proof {
            let prefix = as_ints(commitments@).take(i + 1);
            assert(prefix.drop_last() =~= as_ints(commitments@).take(i as int));
            assert(prefix.last() == commitments@[i as int]);
        }
        sum = sum + commitments[i] as i128;
        i += 1;
    }
    proof {
        assert(as_ints(commitments@).take(i as int) =~= as_ints(commitments@));
    }
    reduce(sum)
}

/// The committed term with the generators written out, which makes it linear.
pub proof fn lemma_term_is_linear(value: int, blinding: int)
    ensures
        value * G == 3 * value,
        blinding * H == 7 * blinding,
        value * G + blinding * H == 3 * value + 7 * blinding,
{
    assert(value * G == 3 * value && blinding * H == 7 * blinding) by (nonlinear_arith)
        requires
            G == 3,
            H == 7,
    ;
}

/// Committing is deterministic: whatever two calls on one value and one blinding
/// factor return, they return the same commitment.
pub proof fn lemma_commitment_is_deterministic(value: int, blinding: int, first: int, second: int)
    requires
        first == commitment(value, blinding),
        second == commitment(value, blinding),
    ensures
        first == second,
{
}

/// Every commitment has a second opening: trading `H` units of value against `G`
/// units of blinding leaves it unchanged. A commitment alone fixes neither.
pub proof fn lemma_commitment_has_second_opening(value: int, blinding: int)
    ensures
        (value + H, blinding - G) != (value, blinding),
        commitment(value + H, blinding - G) == commitment(value, blinding),
{
    lemma_term_is_linear(value, blinding);
    lemma_term_is_linear(value + H, blinding - G);
}

/// Committing is not injective: two distinct openings with one commitment exist.
pub proof fn lemma_commitment_is_not_injective()
    ensures
        exists|v1: int, r1: int, v2: int, r2: int|
            #![trigger commitment(v1, r1), commitment(v2, r2)]
            (v1, r1) != (v2, r2) && commitment(v1, r1) == commitment(v2, r2),
{
    lemma_commitment_has_second_opening(0, 0);
    assert((0 + H, 0 - G) != (0int, 0int) && commitment(0 + H, 0 - G) == commitment(0, 0));
}

/// Two commitments to one value are equal exactly when their blinding factors
/// differ by a multiple of the modulus.
pub proof fn lemma_same_value_commitments(value: int, r1: int, r2: int)
    ensures
        commitment(value, r1) == commitment(value, r2) <==> residue(r1 - r2) == 0,
{
    let m = MODULUS as int;
    let d = r1 - r2;
    lemma_term_is_linear(value, r1);
    lemma_term_is_linear(value, r2);
    let x = 3 * value + 7 * r1;
    let y = 3 * value + 7 * r2;
    if x % m == y % m {
        // m divides 7 * d, and m = 7 * k + 1, so the quotient is a multiple of 7.
        let q = x / m - y / m;
        let k = 329406144173384850int;
        assert(7 * d == m * q);
        assert(q == 7 * (d - k * q));
        assert(d == m * (d - k * q));
    }
    if d % m == 0 {
        assert(x == y + m * (7 * (d / m)));
    }
}

/// Two commitments under one blinding factor are equal exactly when their values
/// differ by a multiple of the modulus.
pub proof fn lemma_same_blinding_commitments(v1: int, v2: int, blinding: int)
    ensures
        commitment(v1, blinding) == commitment(v2, blinding) <==> residue(v1 - v2) == 0,
{
    let m = MODULUS as int;
    let d = v1 - v2;
    lemma_term_is_linear(v1, blinding);
    lemma_term_is_linear(v2, blinding);
    let x = 3 * v1 + 7 * blinding;
    let y = 3 * v2 + 7 * blinding;
    if x % m == y % m {
        // m divides 3 * d, and m = 3 * k + 1, so the quotient is a multiple of 3.
        let q = x / m - y / m;
        let k = 768614336404564650int;
        assert(3 * d == m * q);
        assert(q == 3 * (d - k * q));
        assert(d == m * (d - k * q));
    }
    if d % m == 0 {
        assert(x == y + m * (3 * (d / m)));
    }
}

/// Commitments add up as their openings do: the aggregate of two commitments is
/// the commitment to the sum of the values under the sum of the blinding factors.
pub proof fn lemma_commitment_is_homomorphic(v1: int, r1: int, v2: int, r2: int)
    ensures
        aggregated(seq![commitment(v1, r1), commitment(v2, r2)]) == commitment(v1 + v2, r1 + r2),
{
    let pair = seq![commitment(v1, r1), commitment(v2, r2)];
    assert(total(pair) == commitment(v1, r1) + commitment(v2, r2)) by {
        assert(pair.drop_last() =~= seq![commitment(v1, r1)]);
        assert(pair.drop_last().drop_last() =~= Seq::<int>::empty());
        reveal_with_fuel(total, 3);
    }
    lemma_term_is_linear(v1, r1);
    lemma_term_is_linear(v2, r2);
    lemma_term_is_linear(v1 + v2, r1 + r2);
    lemma_add_mod_noop(v1 * G + r1 * H, v2 * G + r2 * H, MODULUS as int);
}

/// The same for any number of commitments: their aggregate is the commitment to
/// the total value under the total blinding.
pub proof fn lemma_aggregate_of_commitments(values: Seq<int>, blindings: Seq<int>)
    requires
        values.len() == blindings.len(),
    ensures
        aggregated(commitments_to(values, blindings)) == commitment(
            total(values),
            total(blindings),
        ),
    decreases values.len(),
{
    let all = commitments_to(values, blindings);
    if values.len() == 0 {
        lemma_term_is_linear(0, 0);
    } else {
        let v = values.last();
        let r = blindings.last();
        let rest_v = values.drop_last();
        let rest_r = blindings.drop_last();
        assert(all.drop_last() =~= commitments_to(rest_v, rest_r));
        assert(all.last() == commitment(v, r));
        lemma_aggregate_of_commitments(rest_v, rest_r);
        lemma_term_is_linear(v, r);
        lemma_term_is_linear(total(rest_v), total(rest_r));
        lemma_term_is_linear(total(values), total(blindings));
        // total(all) is total(all.drop_last()) + commitment(v, r); under the
        // reduction each summand may be replaced by anything congruent to it.
        let m = MODULUS as int;
        lemma_add_mod_noop(total(all.drop_last()), v * G + r * H, m);
        lemma_add_mod_noop(total(rest_v) * G + total(rest_r) * H, v * G + r * H, m);
    }
}

/// Taking one element out of a sequence lowers its sum by that element.
proof fn lemma_total_remove(s: Seq<int>, i: int)
    requires
        0 <= i < s.len(),
    ensures
        total(s) == total(s.remove(i)) + s[i],
    decreases s.len(),
{
    if i == s.len() - 1 {
        assert(s.remove(i) =~= s.drop_last());
    } else {
        lemma_total_remove(s.drop_last(), i);
        assert(s.remove(i).drop_last() =~= s.drop_last().remove(i));
        assert(s.remove(i).last() == s.last());
    }
}

/// The aggregate does not depend on the order of the commitments: two sequences
/// with the same elements, each as often in one as in the other, aggregate alike.
pub proof fn lemma_aggregate_ignores_order(a: Seq<int>, b: Seq<int>)
    requires
        a.to_multiset() == b.to_multiset(),
    ensures
        total(a) == total(b),
        aggregated(a) == aggregated(b),
    decreases a.len(),
{
    a.to_multiset_ensures();
    b.to_multiset_ensures();
    if a.len() > 0 {
        let x = a.last();
        assert(a.contains(x));
        assert(b.to_multiset().count(x) > 0);
        let j = choose|j: int| 0 <= j < b.len() && b[j] == x;
        assert(a.drop_last() =~= a.remove(a.len() - 1));
        lemma_aggregate_ignores_order(a.drop_last(), b.remove(j));
        lemma_total_remove(b, j);
    }
}

} // verus!
