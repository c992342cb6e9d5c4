//! Additive secret sharing of group elements, scalars and polynomials.
//!
//! A value is split into `num` shares: all but the last are sampled
//! uniformly at random, and the last is the value minus their sum, so that
//! the shares add back up to the value while any proper subset of them is
//! independent of it.  Each object is split by a single call, and the
//! contracts state the reconstruction exactly: the fold of the group (or
//! field, or polynomial) addition over the shares gives back the original.

use crate::algebra::{
    fr_add, fr_add_s, fr_rand, fr_sub, fr_zero, g1_add, g1_add_s, g1_rand, g1_sub, g1_valid_s,
    g1_zero, poly_add, poly_add_s, poly_degree, poly_rand, poly_sub, poly_zero, DensePoly, Fr,
    G1Affine, SeededRng,
};
use vstd::prelude::*;

verus! {

/// The sum of a non-empty sequence of group elements, folded left to right.
pub open spec fn g1_sum(s: Seq<G1Affine>) -> G1Affine
    recommends
        s.len() >= 1,
    decreases s.len(),
{
    if s.len() <= 1 {
        s[0]
    } else {
        g1_add_s(g1_sum(s.drop_last()), s.last())
    }
}

/// The sum of a non-empty sequence of scalars, folded left to right.
pub open spec fn fr_sum(s: Seq<Fr>) -> Fr
    recommends
        s.len() >= 1,
    decreases s.len(),
{
    if s.len() <= 1 {
        s[0]
    } else {
        fr_add_s(fr_sum(s.drop_last()), s.last())
    }
}

/// The sum of a non-empty sequence of polynomials, folded left to right.
pub open spec fn poly_sum(s: Seq<DensePoly>) -> DensePoly
    recommends
        s.len() >= 1,
    decreases s.len(),
{
    if s.len() <= 1 {
        s[0]
    } else {
        poly_add_s(poly_sum(s.drop_last()), s.last())
    }
}

/// Split a valid group element into `num` additive shares, all valid.
pub fn share_g1(value: &G1Affine, num: usize, rng: &mut SeededRng) -> (r: Vec<G1Affine>)
    requires
        num >= 1,
        g1_valid_s(*value),
    ensures
        r@.len() == num,
        g1_sum(r@) == *value,
        forall|j: int| 0 <= j < num ==> g1_valid_s(#[trigger] r@[j]),
{
    let mut shares: Vec<G1Affine> = Vec::new();
    let mut acc: G1Affine = g1_zero();
    let mut i: usize = 0;
    while i < num - 1
        invariant
            num >= 1,
            g1_valid_s(*value),
            i <= num - 1,
            shares@.len() == i,
            g1_valid_s(acc),
            forall|j: int| 0 <= j < i ==> g1_valid_s(#[trigger] shares@[j]),
            i == 0 ==> forall|b: G1Affine|
                g1_valid_s(b) ==> #[trigger] g1_add_s(acc, b) == b,
            i >= 1 ==> acc == g1_sum(shares@),
        decreases num - 1 - i,
    {
        let s = g1_rand(rng);
        let ghost prev = shares@;
        shares.push(s);
        proof {
            assert(shares@.drop_last() =~= prev);
        }
        acc = g1_add(&acc, &s);
        i = i + 1;
    }
    let last = if num == 1 {
        *value
    } else {
        g1_sub(value, &acc)
    };
    let ghost prev = shares@;
    shares.push(last);
    proof {
        assert(shares@.drop_last() =~= prev);
    }
    shares
}

/// Split a scalar into `num` additive shares.
pub fn share_fr(value: &Fr, num: usize, rng: &mut SeededRng) -> (r: Vec<Fr>)
    requires
        num >= 1,
    ensures
        r@.len() == num,
        fr_sum(r@) == *value,
{
    let mut shares: Vec<Fr> = Vec::new();
    let mut acc: Fr = fr_zero();
    let mut i: usize = 0;
    while i < num - 1
        invariant
            num >= 1,
            i <= num - 1,
            shares@.len() == i,
            i == 0 ==> forall|b: Fr| #[trigger] fr_add_s(acc, b) == b,
            i >= 1 ==> acc == fr_sum(shares@),
        decreases num - 1 - i,
    {
        let s = fr_rand(rng);
        let ghost prev = shares@;
        shares.push(s);
        proof {
            assert(shares@.drop_last() =~= prev);
        }
        acc = fr_add(&acc, &s);
        i = i + 1;
    }
    let last = if num == 1 {
        *value
    } else {
        fr_sub(value, &acc)
    };
    let ghost prev = shares@;
    shares.push(last);
    proof {
        assert(shares@.drop_last() =~= prev);
    }
    shares
}

/// Split a polynomial into `num` additive shares; the random shares are
/// sampled up to the degree of the polynomial itself.
pub fn share_poly(value: &DensePoly, num: usize, rng: &mut SeededRng) -> (r: Vec<DensePoly>)
    requires
        num >= 1,
    ensures
        r@.len() == num,
        poly_sum(r@) == *value,
{
    let d = poly_degree(value);
    let mut shares: Vec<DensePoly> = Vec::new();
    let mut acc: DensePoly = poly_zero();
    let mut i: usize = 0;
    while i < num - 1
        invariant
            num >= 1,
            i <= num - 1,
            shares@.len() == i,
            i == 0 ==> forall|b: DensePoly| #[trigger] poly_add_s(acc, b) == b,
            i >= 1 ==> acc == poly_sum(shares@),
        decreases num - 1 - i,
    {
        let s = poly_rand(d, rng);
        acc = poly_add(&acc, &s);
        let ghost prev = shares@;
        shares.push(s);
        proof {
            assert(shares@.drop_last() =~= prev);
        }
        i = i + 1;
    }
    let last = if num == 1 {
        value.clone()
    } else {
        poly_sub(value, &acc)
    };
    let ghost prev = shares@;
    shares.push(last);
    proof {
        assert(shares@.drop_last() =~= prev);
    }
    shares
}

} // verus!
