//! Arithmetic modulo the fixed prime of the scheme.

use vstd::prelude::*;

verus! {

/// The prime modulus `p = 2^61 - 1`.
pub const MODULUS: i64 = 2305843009213693951;

/// Whether `x` is a canonical field element, that is, lies in `[0, p)`.
pub open spec fn is_scalar(x: int) -> bool {
    0 <= x < MODULUS
}

/// The canonical representative of `x` modulo `p`: the one scalar congruent to `x`.
pub open spec fn residue(x: int) -> int {
    x % (MODULUS as int)
}

/// Brings any integer of the working width into `[0, p)`, rounding the quotient
/// towards negative infinity, so that negative inputs also give a non-negative result.
pub fn reduce(x: i128) -> (s: i64)
    ensures
        s == residue(x as int),
        is_scalar(s as int),
{
    let p: i128 = MODULUS as i128;
    let r: i128 = ((x % p) + p) % p;
    r as i64
}

/// Reduction lands in `[0, p)` and leaves what is already there untouched.
pub proof fn lemma_residue_is_canonical(x: int)
    ensures
        is_scalar(residue(x)),
        is_scalar(x) ==> residue(x) == x,
        residue(residue(x)) == residue(x),
{
}

} // verus!
