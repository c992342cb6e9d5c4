//! Data structures of the KZG10 commitment scheme: universal parameters,
//! committer powers, verifier keys (plain and prepared), commitments,
//! commitment randomness and evaluation proofs, with their additions,
//! byte serializations and additive secret sharing.

use crate::algebra::{
    fr_add_s, fr_bytes_s, fr_is_zero_s, fr_size_in_bits, fr_to_bytes, g1_add, g1_add_s,
    g1_bytes_s, g1_double, g1_is_zero, g1_is_zero_s, g1_mul, g1_mul_s, g1_to_bytes, g1_valid_s,
    g1_zero, g2_prepared_bytes_s, g2_prepared_to_bytes, g2_to_bytes, g2_bytes_s, DensePoly, Fr,
    G1Affine, G2Affine, G2Prepared, SeededRng,
};
use crate::algebra::{
    poly_add, poly_add_s, poly_cser_s, poly_degree_s, poly_is_zero, poly_is_zero_s, poly_rand,
    poly_scale, poly_scale_s, poly_serialize, poly_serialize_uncompressed, poly_serialized_size,
    poly_uncompressed_size, poly_user_s, poly_zero,
};
use crate::algebra::{poly_read, poly_read_uncompressed, poly_read_unchecked, poly_serialize_unchecked};
use crate::data_structures::{
    DeserializeError, PCCommitment, PCProof, PCRandomness, PCUniversalParams,
};
use crate::share::{fr_sum, g1_sum, poly_sum, share_fr, share_g1, share_poly};
use std::collections::BTreeMap;
use vstd::prelude::*;

verus! {

/// `UniversalParams` are the universal parameters for the KZG10 scheme.
#[derive(Clone)]
pub struct UniversalParams {
    /// Group elements of the form `{ \beta^i G }`, where `i` ranges from 0
    /// to `degree`.
    pub powers_of_g: Vec<G1Affine>,
    /// Group elements of the form `{ \beta^i \gamma G }`, where `i` ranges
    /// from 0 to `degree`, with further hiding slots beyond `degree`.
    pub powers_of_gamma_g: BTreeMap<usize, G1Affine>,
    /// The generator of G2.
    pub h: G2Affine,
    /// \beta times the above generator of G2.
    pub beta_h: G2Affine,
    /// Group elements of the form `{ \beta^{-i} H }`, for negative powers.
    pub prepared_neg_powers_of_h: BTreeMap<usize, G2Prepared>,
    /// The generator of G2, prepared for use in pairings.
    pub prepared_h: G2Prepared,
    /// \beta times the above generator of G2, prepared for use in pairings.
    pub prepared_beta_h: G2Prepared,
}

impl PCUniversalParams for UniversalParams {
    open spec fn wf(&self) -> bool {
        self.powers_of_g@.len() >= 1
    }

    open spec fn spec_max_degree(&self) -> usize {
        (self.powers_of_g@.len() - 1) as usize
    }

    fn max_degree(&self) -> (r: usize) {
        self.powers_of_g.len() - 1
    }
}

/// `Powers` is used to commit to and create evaluation proofs for a given
/// polynomial.
#[derive(Clone)]
pub struct Powers {
    /// Group elements of the form `β^i G`, for different values of `i`.
    pub powers_of_g: Vec<G1Affine>,
    /// Group elements of the form `β^i γG`, for different values of `i`.
    pub powers_of_gamma_g: Vec<G1Affine>,
}

impl Powers {
    /// The number of powers in `self`.
    pub fn size(&self) -> (r: usize)
        ensures
            r == self.powers_of_g@.len(),
    {
        self.powers_of_g.len()
    }
}

/// `VerifierKey` is used to check evaluation proofs for a given commitment.
#[derive(Clone)]
pub struct VerifierKey {
    /// The generator of G1.
    pub g: G1Affine,
    /// The generator of G1 that is used for making a commitment hiding.
    pub gamma_g: G1Affine,
    /// The generator of G2.
    pub h: G2Affine,
    /// \beta times the above generator of G2.
    pub beta_h: G2Affine,
    /// The generator of G2, prepared for use in pairings.
    pub prepared_h: G2Prepared,
    /// \beta times the above generator of G2, prepared for use in pairings.
    pub prepared_beta_h: G2Prepared,
}

impl VerifierKey {
    /// The byte serialization of the key: the two G1 generators, the two G2
    /// generators, then their prepared forms.
    pub open spec fn spec_bytes(&self) -> Seq<u8> {
        g1_bytes_s(self.g) + g1_bytes_s(self.gamma_g) + g2_bytes_s(self.h) + g2_bytes_s(
            self.beta_h,
        ) + g2_prepared_bytes_s(self.prepared_h) + g2_prepared_bytes_s(self.prepared_beta_h)
    }

    /// Append the byte serialization of the key.
    pub fn write(&self, writer: &mut Vec<u8>)
        ensures
            final(writer)@ == old(writer)@ + self.spec_bytes(),
    {
        let mut b = g1_to_bytes(&self.g);
        writer.append(&mut b);
        let mut b = g1_to_bytes(&self.gamma_g);
        writer.append(&mut b);
        let mut b = g2_to_bytes(&self.h);
        writer.append(&mut b);
        let mut b = g2_to_bytes(&self.beta_h);
        writer.append(&mut b);
        let mut b = g2_prepared_to_bytes(&self.prepared_h);
        writer.append(&mut b);
        let mut b = g2_prepared_to_bytes(&self.prepared_beta_h);
        writer.append(&mut b);
        proof {
            assert(writer@ =~= old(writer)@ + self.spec_bytes());
        }
    }
}

/// Whether `t` is the table of successive doublings of `base`: one entry
/// per scalar-field bit, starting at `base` itself.
pub open spec fn doubling_table(base: G1Affine, t: Seq<G1Affine>) -> bool {
    &&& t.len() == 255
    &&& t[0] == base
    &&& forall|j: int| 1 <= j < 255 ==> #[trigger] t[j] == g1_add_s(t[j - 1], t[j - 1])
}

/// The table of successive doublings of `base`, one entry per scalar-field
/// bit.
pub fn doubling_table_of(base: &G1Affine) -> (r: Vec<G1Affine>)
    ensures
        doubling_table(*base, r@),
{
    let supported_bits = fr_size_in_bits();
    let mut table: Vec<G1Affine> = Vec::new();
    let mut cur = *base;
    let mut i: usize = 0;
    while i < supported_bits
        invariant
            supported_bits == 255,
            i <= supported_bits,
            table@.len() == i,
            i >= 1 ==> table@[0] == *base,
            i == 0 ==> cur == *base,
            i >= 1 ==> cur == g1_add_s(table@[i - 1], table@[i - 1]),
            forall|j: int|
                1 <= j < i ==> #[trigger] table@[j] == g1_add_s(table@[j - 1], table@[j - 1]),
        decreases supported_bits - i,
    {
        table.push(cur);
        cur = g1_double(&cur);
        i = i + 1;
    }
    table
}

/// `PreparedVerifierKey` is the fully prepared version for checking
/// evaluation proofs for a given commitment. We omit gamma here for
/// simplicity.
#[derive(Clone)]
pub struct PreparedVerifierKey {
    /// The generator of G1, prepared as the table `2^i · G`.
    pub prepared_g: Vec<G1Affine>,
    /// The generator of G2, prepared for use in pairings.
    pub prepared_h: G2Prepared,
    /// \beta times the above generator of G2, prepared for use in pairings.
    pub prepared_beta_h: G2Prepared,
}

impl PreparedVerifierKey {
    /// prepare `PreparedVerifierKey` from `VerifierKey`: a table of one
    /// doubling of `g` per scalar-field bit.
    pub fn prepare(vk: &VerifierKey) -> (r: Self)
        ensures
            doubling_table(vk.g, r.prepared_g@),
            r.prepared_h == vk.prepared_h,
            r.prepared_beta_h == vk.prepared_beta_h,
    {
        Self {
            prepared_g: doubling_table_of(&vk.g),
            prepared_h: vk.prepared_h.clone(),
            prepared_beta_h: vk.prepared_beta_h.clone(),
        }
    }
}

/// `Commitment` commits to a polynomial. It is output by `KZG10::commit`.
pub struct Commitment(
    /// The commitment is a group element.
    pub G1Affine,
);

impl Clone for Commitment {
    /// An exact copy of the commitment.
    fn clone(&self) -> (r: Self)
        ensures
            r == *self,
    {
        Commitment(self.0)
    }
}

impl Copy for Commitment {}

impl Commitment {
    /// The sum of two commitments, as group elements.
    pub fn add(self, other: Self) -> (r: Self)
        ensures
            r.0 == g1_add_s(self.0, other.0),
            r.0 == g1_add_s(other.0, self.0),
    {
        Commitment(g1_add(&self.0, &other.0))
    }

    /// Add another commitment onto `self`, as group elements.
    pub fn add_assign(&mut self, other: &Self)
        ensures
            final(self).0 == g1_add_s(old(self).0, other.0),
            final(self).0 == g1_add_s(other.0, old(self).0),
    {
        let sum = g1_add(&self.0, &other.0);
        self.0 = sum;
    }

    /// Add `f` times another commitment onto `self`.
    pub fn add_assign_scaled(&mut self, f: Fr, other: &Self)
        ensures
            final(self).0 == g1_add_s(old(self).0, g1_mul_s(f, other.0)),
            final(self).0 == g1_add_s(g1_mul_s(f, other.0), old(self).0),
    {
        let scaled = g1_mul(&f, &other.0);
        let sum = g1_add(&self.0, &scaled);
        self.0 = sum;
    }

    /// The commitment to the zero polynomial: the identity group element,
    /// which leaves every valid element unchanged under addition.
    pub fn zero() -> (r: Self)
        ensures
            g1_is_zero_s(r.0),
            g1_valid_s(r.0),
            forall|b: G1Affine| g1_valid_s(b) ==> #[trigger] g1_add_s(b, r.0) == b,
            forall|b: G1Affine| g1_valid_s(b) ==> #[trigger] g1_add_s(r.0, b) == b,
    {
        Commitment(g1_zero())
    }

    /// Whether the commitment is the identity group element.
    pub fn is_zero(&self) -> (r: bool)
        ensures
            r == g1_is_zero_s(self.0),
    {
        g1_is_zero(&self.0)
    }

    /// Split a valid commitment into `num` additive shares whose sum is
    /// `self`.
    pub fn share(&self, num: usize, rng: &mut SeededRng) -> (r: Vec<Self>)
        requires
            num >= 1,
            g1_valid_s(self.0),
        ensures
            r@.len() == num,
            g1_sum(r@.map_values(|c: Commitment| c.0)) == self.0,
    {
        let shares = share_g1(&self.0, num, rng);
        let n = shares.len();
        let mut out: Vec<Commitment> = Vec::new();
        let mut i: usize = 0;
        while i < n
            invariant
                n == shares@.len(),
                i <= n,
                out@.len() == i,
                forall|j: int| 0 <= j < i ==> (#[trigger] out@[j]).0 == shares@[j],
            decreases n - i,
        {
            out.push(Commitment(shares[i]));
            i = i + 1;
        }
        proof {
            assert(out@.map_values(|c: Commitment| c.0) =~= shares@);
        }
        out
    }

    /// Append the byte serialization of the commitment.
    pub fn write(&self, writer: &mut Vec<u8>)
        ensures
            final(writer)@ == old(writer)@ + g1_bytes_s(self.0),
    {
        let mut b = g1_to_bytes(&self.0);
        writer.append(&mut b);
    }

    /// Reconstruct a shared commitment: the pointwise sum of the shares.
    /// Applied to what `share` returns, it gives back the original.
    pub fn reconstruct(shares: &Vec<Commitment>) -> (r: Commitment)
        requires
            shares@.len() >= 1,
        ensures
            r.0 == g1_sum(shares@.map_values(|c: Commitment| c.0)),
    {
        let ghost vals = shares@.map_values(|c: Commitment| c.0);
        let mut acc = shares[0];
        proof {
            assert(vals.subrange(0, 1) =~= seq![vals[0]]);
        }
        let n = shares.len();
        let mut i: usize = 1;
        while i < n
            invariant
                1 <= i <= n,
                n == shares@.len(),
                vals == shares@.map_values(|c: Commitment| c.0),
                acc.0 == g1_sum(vals.subrange(0, i as int)),
            decreases n - i,
        {
            acc = acc.add(shares[i]);
            proof {
                assert(vals.subrange(0, i + 1 as int).drop_last() =~= vals.subrange(0, i as int));
            }
            i = i + 1;
        }
        proof {
            assert(vals.subrange(0, n as int) =~= vals);
        }
        acc
    }
}

impl PCCommitment for Commitment {
    open spec fn empty_post(r: Self) -> bool {
        g1_is_zero_s(r.0)
    }

    open spec fn spec_has_degree_bound(&self) -> bool {
        false
    }

    open spec fn size_post(&self, r: usize) -> bool {
        r == 48
    }

    fn empty() -> (r: Self) {
        Commitment(g1_zero())
    }

    fn has_degree_bound(&self) -> (r: bool) {
        false
    }

    fn size_in_bytes(&self) -> (r: usize) {
        let b = g1_to_bytes(&self.0);
        b.len() / 2
    }
}

/// `PreparedCommitment` commits to a polynomial and prepares for mul_bits.
#[derive(Clone)]
pub struct PreparedCommitment(
    /// The doubling table of the commitment's group element.
    pub Vec<G1Affine>,
);

impl PreparedCommitment {
    /// prepare `PreparedCommitment` from `Commitment`: a table of one
    /// doubling of the committed element per scalar-field bit.
    pub fn prepare(comm: &Commitment) -> (r: Self)
        ensures
            doubling_table(comm.0, r.0@),
    {
        Self(doubling_table_of(&comm.0))
    }
}

/// `Randomness` hides the polynomial inside a commitment. It is output by
/// `KZG10::commit`.
pub struct Randomness {
    /// For KZG10, the commitment randomness is a random polynomial.
    pub blinding_polynomial: DensePoly,
}

impl Clone for Randomness {
    /// An exact copy of the randomness.
    fn clone(&self) -> (r: Self)
        ensures
            r == *self,
    {
        Randomness { blinding_polynomial: self.blinding_polynomial.clone() }
    }
}

impl Randomness {
    /// Does `self` provide any hiding properties to the corresponding
    /// commitment? `self.is_hiding() == true` only if the underlying
    /// polynomial is non-zero.
    pub fn is_hiding(&self) -> (r: bool)
        ensures
            r == !poly_is_zero_s(self.blinding_polynomial),
    {
        !poly_is_zero(&self.blinding_polynomial)
    }

    /// What is the degree of the hiding polynomial for a given hiding bound?
    pub fn calculate_hiding_polynomial_degree(hiding_bound: usize) -> (r: usize)
        requires
            hiding_bound < usize::MAX,
        ensures
            r == hiding_bound + 1,
    {
        hiding_bound + 1
    }

    /// The sum of two randomness values: the blinding polynomials add.
    pub fn add(self, other: &Self) -> (r: Self)
        ensures
            r.blinding_polynomial == poly_add_s(
                self.blinding_polynomial,
                other.blinding_polynomial,
            ),
            r.blinding_polynomial == poly_add_s(
                other.blinding_polynomial,
                self.blinding_polynomial,
            ),
    {
        Randomness {
            blinding_polynomial: poly_add(&self.blinding_polynomial, &other.blinding_polynomial),
        }
    }

    /// The sum of `self` and `f` times another randomness value.
    pub fn add_scaled(self, f: Fr, other: &Self) -> (r: Self)
        ensures
            r.blinding_polynomial == poly_add_s(
                self.blinding_polynomial,
                poly_scale_s(f, other.blinding_polynomial),
            ),
    {
        let scaled = poly_scale(&f, &other.blinding_polynomial);
        Randomness { blinding_polynomial: poly_add(&self.blinding_polynomial, &scaled) }
    }

    /// Add another randomness value onto `self`.
    pub fn add_assign(&mut self, other: &Self)
        ensures
            final(self).blinding_polynomial == poly_add_s(
                old(self).blinding_polynomial,
                other.blinding_polynomial,
            ),
    {
        let sum = poly_add(&self.blinding_polynomial, &other.blinding_polynomial);
        self.blinding_polynomial = sum;
    }

    /// Add `f` times another randomness value onto `self`.
    pub fn add_assign_scaled(&mut self, f: Fr, other: &Self)
        ensures
            final(self).blinding_polynomial == poly_add_s(
                old(self).blinding_polynomial,
                poly_scale_s(f, other.blinding_polynomial),
            ),
    {
        let scaled = poly_scale(&f, &other.blinding_polynomial);
        let sum = poly_add(&self.blinding_polynomial, &scaled);
        self.blinding_polynomial = sum;
    }

    /// The zero randomness, which hides nothing.
    pub fn zero() -> (r: Self)
        ensures
            poly_is_zero_s(r.blinding_polynomial),
            forall|q: DensePoly| #[trigger] poly_add_s(q, r.blinding_polynomial) == q,
            forall|q: DensePoly| #[trigger] poly_add_s(r.blinding_polynomial, q) == q,
    {
        Randomness { blinding_polynomial: poly_zero() }
    }

    /// Whether the blinding polynomial is zero.
    pub fn is_zero(&self) -> (r: bool)
        ensures
            r == poly_is_zero_s(self.blinding_polynomial),
    {
        poly_is_zero(&self.blinding_polynomial)
    }

    /// Append the canonical serialization of the randomness: that of its
    /// blinding polynomial.
    pub fn serialize(&self, writer: &mut Vec<u8>)
        ensures
            final(writer)@ == old(writer)@ + poly_cser_s(self.blinding_polynomial),
    {
        let mut b = poly_serialize(&self.blinding_polynomial);
        writer.append(&mut b);
    }

    /// The length of the canonical serialization.
    pub fn serialized_size(&self) -> (r: usize)
        ensures
            r == poly_cser_s(self.blinding_polynomial).len(),
    {
        poly_serialized_size(&self.blinding_polynomial)
    }

    /// Append the fully uncompressed serialization of the randomness: that
    /// of its blinding polynomial.
    pub fn serialize_uncompressed(&self, writer: &mut Vec<u8>)
        ensures
            final(writer)@ == old(writer)@ + poly_user_s(self.blinding_polynomial),
    {
        let mut b = poly_serialize_uncompressed(&self.blinding_polynomial);
        writer.append(&mut b);
    }

    /// The length of the fully uncompressed serialization.
    pub fn uncompressed_size(&self) -> (r: usize)
        ensures
            r == poly_user_s(self.blinding_polynomial).len(),
    {
        poly_uncompressed_size(&self.blinding_polynomial)
    }


    /// Reconstruct a shared randomness value: the pointwise sum of the
    /// shares. Applied to what `share` returns, it gives back the original.
    pub fn reconstruct(shares: &Vec<Randomness>) -> (r: Randomness)
        requires
            shares@.len() >= 1,
        ensures
            r.blinding_polynomial == poly_sum(
                shares@.map_values(|x: Randomness| x.blinding_polynomial),
            ),
    {
        let ghost vals = shares@.map_values(|x: Randomness| x.blinding_polynomial);
        let mut acc = shares[0].clone();
        proof {
            assert(vals.subrange(0, 1) =~= seq![vals[0]]);
        }
        let n = shares.len();
        let mut i: usize = 1;
        while i < n
            invariant
                1 <= i <= n,
                n == shares@.len(),
                vals == shares@.map_values(|x: Randomness| x.blinding_polynomial),
                acc.blinding_polynomial == poly_sum(vals.subrange(0, i as int)),
            decreases n - i,
        {
            acc.add_assign(&shares[i]);
            proof {
                assert(vals.subrange(0, i + 1 as int).drop_last() =~= vals.subrange(0, i as int));
            }
            i = i + 1;
        }
        proof {
            assert(vals.subrange(0, n as int) =~= vals);
        }
        acc
    }

    /// Append the unchecked serialization of the randomness, which writes
    /// the same bytes as the uncompressed one.
    pub fn serialize_unchecked(&self, writer: &mut Vec<u8>)
        ensures
            final(writer)@ == old(writer)@ + poly_user_s(self.blinding_polynomial),
    {
        let mut b = poly_serialize_unchecked(&self.blinding_polynomial);
        writer.append(&mut b);
    }

    /// Read back a randomness value written by `serialize`: on a
    /// serialization of a blinding polynomial followed by anything, the
    /// value and the remaining bytes come back.
    pub fn deserialize(bytes: &Vec<u8>) -> (r: Result<(Self, Vec<u8>), DeserializeError>)
        ensures
            forall|p: DensePoly, rest: Seq<u8>|
                bytes@ == #[trigger] (poly_cser_s(p) + rest) ==> (r matches Ok(x)
                    && x.0.blinding_polynomial == p && x.1@ == rest),
    {
        match poly_read(bytes.as_slice()) {
            Some(pr) => Ok((Randomness { blinding_polynomial: pr.0 }, pr.1)),
            None => Err(DeserializeError),
        }
    }

    /// Read back a randomness value written by `serialize_uncompressed`.
    pub fn deserialize_uncompressed(bytes: &Vec<u8>) -> (r: Result<
        (Self, Vec<u8>),
        DeserializeError,
    >)
        ensures
            forall|p: DensePoly, rest: Seq<u8>|
                bytes@ == #[trigger] (poly_user_s(p) + rest) ==> (r matches Ok(x)
                    && x.0.blinding_polynomial == p && x.1@ == rest),
    {
        match poly_read_uncompressed(bytes.as_slice()) {
            Some(pr) => Ok((Randomness { blinding_polynomial: pr.0 }, pr.1)),
            None => Err(DeserializeError),
        }
    }

    /// Read back a randomness value written by `serialize_uncompressed` or
    /// `serialize_unchecked`, without extra validation.
    pub fn deserialize_unchecked(bytes: &Vec<u8>) -> (r: Result<
        (Self, Vec<u8>),
        DeserializeError,
    >)
        ensures
            forall|p: DensePoly, rest: Seq<u8>|
                bytes@ == #[trigger] (poly_user_s(p) + rest) ==> (r matches Ok(x)
                    && x.0.blinding_polynomial == p && x.1@ == rest),
    {
        match poly_read_unchecked(bytes.as_slice()) {
            Some(pr) => Ok((Randomness { blinding_polynomial: pr.0 }, pr.1)),
            None => Err(DeserializeError),
        }
    }

    /// Split the randomness into `num` additive shares whose blinding
    /// polynomials sum to the original one.
    pub fn share(&self, num: usize, rng: &mut SeededRng) -> (r: Vec<Self>)
        requires
            num >= 1,
        ensures
            r@.len() == num,
            poly_sum(r@.map_values(|x: Randomness| x.blinding_polynomial))
                == self.blinding_polynomial,
    {
        let shares = share_poly(&self.blinding_polynomial, num, rng);
        let n = shares.len();
        let mut shares = shares;
        let mut out: Vec<Randomness> = Vec::new();
        let ghost all = shares@;
        let mut i: usize = 0;
        while i < n
            invariant
                n == all.len(),
                shares@ == all.subrange(i as int, n as int),
                i <= n,
                out@.len() == i,
                forall|j: int|
                    0 <= j < i ==> (#[trigger] out@[j]).blinding_polynomial == all[j],
            decreases n - i,
        {
            let p = shares.remove(0);
            out.push(Randomness { blinding_polynomial: p });
            proof {
                assert(shares@ =~= all.subrange(i + 1 as int, n as int));
            }
            i = i + 1;
        }
        proof {
            assert(out@.map_values(|x: Randomness| x.blinding_polynomial) =~= all);
        }
        out
    }
}

impl PCRandomness for Randomness {
    open spec fn empty_post(r: Self) -> bool {
        poly_is_zero_s(r.blinding_polynomial)
    }

    open spec fn rand_req(num_queries: usize) -> bool {
        num_queries < usize::MAX
    }

    open spec fn rand_post(num_queries: usize, has_degree_bound: bool, r: Self) -> bool {
        poly_degree_s(r.blinding_polynomial) <= num_queries + 1
    }

    fn empty() -> (r: Self) {
        Randomness { blinding_polynomial: poly_zero() }
    }

    fn rand(
        num_queries: usize,
        has_degree_bound: bool,
        num_vars: Option<usize>,
        rng: &mut SeededRng,
    ) -> (r: Self) {
        let hiding_poly_degree = Self::calculate_hiding_polynomial_degree(num_queries);
        Randomness { blinding_polynomial: poly_rand(hiding_poly_degree, rng) }
    }
}

/// `Proof` is an evaluation proof that is output by `KZG10::open`.
pub struct Proof {
    /// This is a commitment to the witness polynomial.
    pub w: G1Affine,
    /// This is the evaluation of the random polynomial at the point for
    /// which the evaluation proof was produced.
    pub random_v: Option<Fr>,
}

impl Clone for Proof {
    /// An exact copy of the proof.
    fn clone(&self) -> (r: Self)
        ensures
            r == *self,
    {
        Proof { w: self.w, random_v: self.random_v }
    }
}

impl Copy for Proof {}

impl Proof {
    /// The sum of two proofs: the witness commitments add, and so do the
    /// blinding evaluations where present.  A hiding proof can only absorb
    /// another hiding proof.
    pub fn add(self, other: Self) -> (r: Self)
        requires
            self.random_v is Some ==> other.random_v is Some,
        ensures
            r.w == g1_add_s(self.w, other.w),
            r.w == g1_add_s(other.w, self.w),
            match self.random_v {
                Some(v) => r.random_v == Some(fr_add_s(v, other.random_v->0)),
                None => r.random_v == other.random_v,
            },
    {
        let w = g1_add(&self.w, &other.w);
        let random_v = match (self.random_v, other.random_v) {
            (Some(v), Some(w2)) => Some(crate::algebra::fr_add(&v, &w2)),
            _ => other.random_v,
        };
        Proof { w, random_v }
    }

    /// The zero proof: the identity witness element, which leaves every
    /// valid element unchanged under addition, and no blinding value.
    pub fn zero() -> (r: Self)
        ensures
            g1_is_zero_s(r.w),
            g1_valid_s(r.w),
            r.random_v is None,
            forall|b: G1Affine| g1_valid_s(b) ==> #[trigger] g1_add_s(b, r.w) == b,
            forall|b: G1Affine| g1_valid_s(b) ==> #[trigger] g1_add_s(r.w, b) == b,
    {
        Proof { w: g1_zero(), random_v: None }
    }

    /// Whether the proof is the zero proof: the identity witness element
    /// and an absent or zero blinding evaluation.
    pub fn is_zero(&self) -> (r: bool)
        ensures
            r == (g1_is_zero_s(self.w) && match self.random_v {
                Some(v) => fr_is_zero_s(v),
                None => true,
            }),
    {
        let w_zero = g1_is_zero(&self.w);
        match &self.random_v {
            Some(v) => w_zero && crate::algebra::fr_is_zero(v),
            None => w_zero,
        }
    }

    /// Split a proof with a valid witness element into `num` additive
    /// shares: the witness commitment and, when present, the blinding
    /// evaluation are shared by one call each, so the shares sum back to
    /// the original proof.
    pub fn share(&self, num: usize, rng: &mut SeededRng) -> (r: Vec<Self>)
        requires
            num >= 1,
            g1_valid_s(self.w),
        ensures
            r@.len() == num,
            g1_sum(r@.map_values(|p: Proof| p.w)) == self.w,
            self.random_v is None ==> forall|j: int|
                0 <= j < num ==> (#[trigger] r@[j]).random_v is None,
            self.random_v matches Some(v) ==> {
                &&& forall|j: int| 0 <= j < num ==> (#[trigger] r@[j]).random_v is Some
                &&& fr_sum(r@.map_values(|p: Proof| p.random_v->0)) == v
            },
    {
        let w_shares = share_g1(&self.w, num, rng);
        let n = w_shares.len();
        let mut out: Vec<Proof> = Vec::new();
        match &self.random_v {
            Some(v) => {
                let v_shares = share_fr(v, num, rng);
                let mut i: usize = 0;
                while i < n
                    invariant
                        n == w_shares@.len(),
                        n == v_shares@.len(),
                        i <= n,
                        out@.len() == i,
                        forall|j: int|
                            0 <= j < i ==> (#[trigger] out@[j]).w == w_shares@[j]
                                && out@[j].random_v == Some(v_shares@[j]),
                    decreases n - i,
                {
                    out.push(Proof { w: w_shares[i], random_v: Some(v_shares[i]) });
                    i = i + 1;
                }
                proof {
                    assert(out@.map_values(|p: Proof| p.w) =~= w_shares@);
                    assert(out@.map_values(|p: Proof| p.random_v->0) =~= v_shares@);
                }
            }
            None => {
                let mut i: usize = 0;
                while i < n
                    invariant
                        n == w_shares@.len(),
                        i <= n,
                        out@.len() == i,
                        forall|j: int|
                            0 <= j < i ==> (#[trigger] out@[j]).w == w_shares@[j]
                                && out@[j].random_v is None,
                    decreases n - i,
                {
                    out.push(Proof { w: w_shares[i], random_v: None });
                    i = i + 1;
                }
                proof {
                    assert(out@.map_values(|p: Proof| p.w) =~= w_shares@);
                }
            }
        }
        out
    }


    /// Reconstruct a shared proof: the pointwise sum of the shares, whose
    /// blinding evaluations must be uniformly present or absent.  Applied
    /// to what `share` returns, it gives back the original.
    pub fn reconstruct(shares: &Vec<Proof>) -> (r: Proof)
        requires
            shares@.len() >= 1,
            (forall|j: int| 0 <= j < shares@.len() ==> (#[trigger] shares@[j]).random_v is Some)
                || (forall|j: int|
                0 <= j < shares@.len() ==> (#[trigger] shares@[j]).random_v is None),
        ensures
            r.w == g1_sum(shares@.map_values(|p: Proof| p.w)),
            (forall|j: int| 0 <= j < shares@.len() ==> (#[trigger] shares@[j]).random_v is None)
                ==> r.random_v is None,
            (forall|j: int| 0 <= j < shares@.len() ==> (#[trigger] shares@[j]).random_v is Some)
                ==> r.random_v == Some(
                fr_sum(shares@.map_values(|p: Proof| p.random_v->0)),
            ),
    {
        let ghost ws = shares@.map_values(|p: Proof| p.w);
        let ghost vs = shares@.map_values(|p: Proof| p.random_v->0);
        let mut acc = shares[0];
        proof {
            assert(ws.subrange(0, 1) =~= seq![ws[0]]);
            assert(vs.subrange(0, 1) =~= seq![vs[0]]);
        }
        let n = shares.len();
        let mut i: usize = 1;
        while i < n
            invariant
                1 <= i <= n,
                n == shares@.len(),
                ws == shares@.map_values(|p: Proof| p.w),
                vs == shares@.map_values(|p: Proof| p.random_v->0),
                (forall|j: int|
                    0 <= j < shares@.len() ==> (#[trigger] shares@[j]).random_v is Some) || (
                forall|j: int|
                    0 <= j < shares@.len() ==> (#[trigger] shares@[j]).random_v is None),
                acc.w == g1_sum(ws.subrange(0, i as int)),
                shares@[0].random_v is None ==> acc.random_v is None,
                shares@[0].random_v is Some ==> acc.random_v == Some(
                    fr_sum(vs.subrange(0, i as int)),
                ),
            decreases n - i,
        {
            acc = acc.add(shares[i]);
            proof {
                assert(ws.subrange(0, i + 1 as int).drop_last() =~= ws.subrange(0, i as int));
                assert(vs.subrange(0, i + 1 as int).drop_last() =~= vs.subrange(0, i as int));
            }
            i = i + 1;
        }
        proof {
            assert(ws.subrange(0, n as int) =~= ws);
            assert(vs.subrange(0, n as int) =~= vs);
        }
        acc
    }

    /// Append the byte serialization of the proof: the witness element,
    /// then the blinding evaluation or the zero scalar in its place.
    pub fn write(&self, writer: &mut Vec<u8>)
        ensures
            match self.random_v {
                Some(v) => final(writer)@ == old(writer)@ + g1_bytes_s(self.w) + fr_bytes_s(v),
                None => exists|z: Fr|
                    fr_is_zero_s(z) && final(writer)@ == old(writer)@ + g1_bytes_s(self.w)
                        + fr_bytes_s(z),
            },
    {
        let mut b = g1_to_bytes(&self.w);
        writer.append(&mut b);
        match &self.random_v {
            Some(v) => {
                let mut b = fr_to_bytes(v);
                writer.append(&mut b);
            }
            None => {
                let z = crate::algebra::fr_zero();
                let mut b = fr_to_bytes(&z);
                writer.append(&mut b);
            }
        }
    }
}

impl PCProof for Proof {
    open spec fn size_post(&self, r: usize) -> bool {
        r == 48 + (if self.random_v is Some { 32int } else { 0int })
    }

    fn size_in_bytes(&self) -> (r: usize) {
        let gb = g1_to_bytes(&self.w);
        let base = gb.len() / 2;
        match &self.random_v {
            Some(v) => {
                let fb = fr_to_bytes(v);
                base + fb.len()
            }
            None => base,
        }
    }
}

impl crate::data_structures::LabeledCommitment<Commitment> {
    /// The labeled zero commitment, with an empty label and no bound.
    pub fn zero() -> (r: Self)
        ensures
            r.spec_label() == Seq::<char>::empty(),
            g1_is_zero_s(r.spec_commitment().0),
            r.spec_degree_bound() is None,
    {
        crate::data_structures::LabeledCommitment::new(String::new(), Commitment::zero(), None)
    }

    /// Whether the wrapped commitment is the identity group element.
    pub fn is_zero(&self) -> (r: bool)
        ensures
            r == g1_is_zero_s(self.spec_commitment().0),
    {
        self.commitment().is_zero()
    }

    /// Append the byte serialization of the wrapped commitment.
    pub fn write(&self, writer: &mut Vec<u8>)
        ensures
            final(writer)@ == old(writer)@ + g1_bytes_s(self.spec_commitment().0),
    {
        self.commitment().write(writer)
    }

    /// Split the wrapped valid commitment into `num` additive shares, each
    /// under the same label and degree bound, so the shares sum back to the
    /// original.
    pub fn share(&self, num: usize, rng: &mut SeededRng) -> (r: Vec<Self>)
        requires
            num >= 1,
            g1_valid_s(self.spec_commitment().0),
        ensures
            r@.len() == num,
            g1_sum(
                r@.map_values(
                    |c: crate::data_structures::LabeledCommitment<Commitment>| c.spec_commitment().0,
                ),
            ) == self.spec_commitment().0,
            forall|j: int|
                0 <= j < num ==> (#[trigger] r@[j]).spec_label() == self.spec_label()
                    && r@[j].spec_degree_bound() == self.spec_degree_bound(),
    {
        let shares = self.commitment().share(num, rng);
        let ghost ss = shares@;
        let n = shares.len();
        let mut out: Vec<crate::data_structures::LabeledCommitment<Commitment>> = Vec::new();
        let mut i: usize = 0;
        while i < n
            invariant
                n == ss.len(),
                ss == shares@,
                i <= n,
                out@.len() == i,
                forall|j: int|
                    0 <= j < i ==> (#[trigger] out@[j]).spec_commitment() == ss[j]
                        && out@[j].spec_label() == self.spec_label()
                        && out@[j].spec_degree_bound() == self.spec_degree_bound(),
            decreases n - i,
        {
            let label = self.label().clone();
            out.push(
                crate::data_structures::LabeledCommitment::new(
                    label,
                    shares[i],
                    self.degree_bound(),
                ),
            );
            i = i + 1;
        }
        proof {
            assert(out@.map_values(
                |c: crate::data_structures::LabeledCommitment<Commitment>| c.spec_commitment().0,
            ) =~= ss.map_values(|c: Commitment| c.0));
        }
        out
    }
}

} // verus!
