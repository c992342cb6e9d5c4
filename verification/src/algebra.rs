//! The trusted bridge to the arkworks algebra crates.
//!
//! The scheme is instantiated over the BLS12-381 pairing-friendly curve:
//! commitments and proofs live in its first group, the second group and its
//! pairing-prepared form appear in verifier keys, and blinding polynomials
//! are dense univariate polynomials over the scalar field.
//!
//! Each algebra type holds the arkworks value in a private field, so a value
//! can only be made by the constructors here, which keep it in arkworks'
//! normal form (for polynomials: no trailing zero coefficients).  What an
//! outside operation returns is given a name (`g1_add_s`, `fr_mul_s`, ...),
//! and each wrapper's contract states over those names what the arkworks
//! source shows, for example that subtraction inverts addition.

use ark_ec::{AffineCurve, PairingEngine, ProjectiveCurve};
use ark_ff::{PrimeField, ToBytes, UniformRand, Zero};
use ark_poly::Polynomial as ArkPolynomial;
use ark_poly::UVPolynomial;
use ark_serialize::CanonicalDeserialize;
use ark_serialize::CanonicalSerialize;
use rand::SeedableRng;
use vstd::prelude::*;

verus! {

/// An element of the first pairing group, in affine form.
#[verifier::external_body]
pub struct G1Affine(ark_bls12_381::G1Affine);

/// An element of the second pairing group, in affine form.
#[verifier::external_body]
pub struct G2Affine(ark_bls12_381::G2Affine);

/// A second-group element prepared for repeated pairing evaluation.
#[verifier::external_body]
pub struct G2Prepared(ark_ec::bls12::g2::G2Prepared<ark_bls12_381::Parameters>);

/// An element of the scalar field of BLS12-381.
#[verifier::external_body]
pub struct Fr(ark_bls12_381::Fr);

/// A dense univariate polynomial over the scalar field, in normal form.
#[verifier::external_body]
pub struct DensePoly(ark_poly::univariate::DensePolynomial<ark_bls12_381::Fr>);

/// A seedable random-number generator for the sampling operations.
#[verifier::external_body]
pub struct SeededRng(rand::rngs::StdRng);

impl Clone for G1Affine {
    /// Relies on the arkworks point being a plain copyable value.
    #[verifier::external_body]
    fn clone(&self) -> (r: Self)
        ensures
            r == *self,
    {
        G1Affine(self.0)
    }
}

impl Copy for G1Affine {}

impl Clone for G2Affine {
    /// Relies on the arkworks point being a plain copyable value.
    #[verifier::external_body]
    fn clone(&self) -> (r: Self)
        ensures
            r == *self,
    {
        G2Affine(self.0)
    }
}

impl Copy for G2Affine {}

impl Clone for Fr {
    /// Relies on the arkworks scalar being a plain copyable value.
    #[verifier::external_body]
    fn clone(&self) -> (r: Self)
        ensures
            r == *self,
    {
        Fr(self.0)
    }
}

impl Copy for Fr {}

impl Clone for G2Prepared {
    /// Relies on the derived `Clone` in ark-ec, which copies the value.
    #[verifier::external_body]
    fn clone(&self) -> (r: Self)
        ensures
            r == *self,
    {
        G2Prepared(self.0.clone())
    }
}

impl Clone for DensePoly {
    /// Relies on the derived `Clone` in ark-poly, which copies the
    /// coefficient vector.
    #[verifier::external_body]
    fn clone(&self) -> (r: Self)
        ensures
            r == *self,
    {
        DensePoly(self.0.clone())
    }
}

/// What curve addition in the first group returns.
pub uninterp spec fn g1_add_s(a: G1Affine, b: G1Affine) -> G1Affine;

/// What curve subtraction in the first group returns.
pub uninterp spec fn g1_sub_s(a: G1Affine, b: G1Affine) -> G1Affine;

/// What scalar multiplication in the first group returns.
pub uninterp spec fn g1_mul_s(k: Fr, a: G1Affine) -> G1Affine;

/// Whether a first-group element is the identity (the point at infinity).
pub uninterp spec fn g1_is_zero_s(a: G1Affine) -> bool;

/// Whether a first-group element is valid: on the curve, in the prime-order
/// subgroup, and, when it is the identity, in the canonical encoding that
/// `Zero::zero` uses.  Every constructor here but `g1_read_unchecked`
/// returns only valid elements, and the group identities below hold of the
/// valid ones; an element minted by the unchecked reader from arbitrary
/// bytes carries no such guarantee.
pub uninterp spec fn g1_valid_s(a: G1Affine) -> bool;

/// Whether every element of a list is valid.
pub open spec fn g1_seq_valid(s: Seq<G1Affine>) -> bool {
    forall|i: int| 0 <= i < s.len() ==> g1_valid_s(#[trigger] s[i])
}

/// The byte serialization of a first-group element.
pub uninterp spec fn g1_bytes_s(a: G1Affine) -> Seq<u8>;

/// The byte serialization of a second-group element.
pub uninterp spec fn g2_bytes_s(a: G2Affine) -> Seq<u8>;

/// The byte serialization of a prepared second-group element.
pub uninterp spec fn g2_prepared_bytes_s(a: G2Prepared) -> Seq<u8>;

/// What scalar-field addition returns.
pub uninterp spec fn fr_add_s(a: Fr, b: Fr) -> Fr;

/// What scalar-field subtraction returns.
pub uninterp spec fn fr_sub_s(a: Fr, b: Fr) -> Fr;

/// What scalar-field multiplication returns.
pub uninterp spec fn fr_mul_s(a: Fr, b: Fr) -> Fr;

/// What scalar-field negation returns.
pub uninterp spec fn fr_neg_s(a: Fr) -> Fr;

/// Whether a scalar is zero.
pub uninterp spec fn fr_is_zero_s(a: Fr) -> bool;

/// The byte serialization of a scalar.
pub uninterp spec fn fr_bytes_s(a: Fr) -> Seq<u8>;

/// The scalar that a 64-bit integer maps to.
pub uninterp spec fn fr_from_u64_s(x: u64) -> Fr;

/// What polynomial addition returns.
pub uninterp spec fn poly_add_s(a: DensePoly, b: DensePoly) -> DensePoly;

/// What polynomial subtraction returns.
pub uninterp spec fn poly_sub_s(a: DensePoly, b: DensePoly) -> DensePoly;

/// What multiplying a polynomial by a scalar returns.
pub uninterp spec fn poly_scale_s(k: Fr, p: DensePoly) -> DensePoly;

/// Whether a polynomial is the zero polynomial.
pub uninterp spec fn poly_is_zero_s(p: DensePoly) -> bool;

/// The degree that arkworks reports for a polynomial (0 for the zero one).
pub uninterp spec fn poly_degree_s(p: DensePoly) -> usize;

/// The value of a polynomial at a point.
pub uninterp spec fn poly_eval_s(p: DensePoly, z: Fr) -> Fr;

/// The polynomial built from a list of coefficients, lowest degree first.
pub uninterp spec fn poly_from_coeffs_s(c: Seq<Fr>) -> DensePoly;

/// The compressed canonical serialization of a first-group element.
pub uninterp spec fn g1_cser_s(a: G1Affine) -> Seq<u8>;

/// The uncompressed canonical serialization of a first-group element.
pub uninterp spec fn g1_user_s(a: G1Affine) -> Seq<u8>;

/// The compressed canonical serialization of a polynomial.
pub uninterp spec fn poly_cser_s(p: DensePoly) -> Seq<u8>;

/// The uncompressed canonical serialization of a polynomial.
pub uninterp spec fn poly_user_s(p: DensePoly) -> Seq<u8>;

/// Relies on curve point addition in ark-ec (via the projective form);
/// addition in an abelian group does not depend on the operand order, and
/// the sum of valid elements is valid.
#[verifier::external_body]
pub fn g1_add(a: &G1Affine, b: &G1Affine) -> (r: G1Affine)
    ensures
        r == g1_add_s(*a, *b),
        r == g1_add_s(*b, *a),
        g1_valid_s(*a) && g1_valid_s(*b) ==> g1_valid_s(r),
{
    G1Affine((a.0.into_projective() + b.0.into_projective()).into_affine())
}

/// Relies on curve point subtraction in ark-ec (via the projective form):
/// for valid operands the difference is valid and is the unique element
/// that added to `b` gives back `a`.
#[verifier::external_body]
pub fn g1_sub(a: &G1Affine, b: &G1Affine) -> (r: G1Affine)
    ensures
        r == g1_sub_s(*a, *b),
        g1_valid_s(*a) && g1_valid_s(*b) ==> g1_add_s(r, *b) == *a,
        g1_valid_s(*a) && g1_valid_s(*b) ==> g1_add_s(*b, r) == *a,
        g1_valid_s(*a) && g1_valid_s(*b) ==> g1_valid_s(r),
{
    G1Affine((a.0.into_projective() - b.0.into_projective()).into_affine())
}

/// Relies on point doubling in ark-ec, which adds a point to itself and
/// keeps a valid point valid.
#[verifier::external_body]
pub fn g1_double(a: &G1Affine) -> (r: G1Affine)
    ensures
        r == g1_add_s(*a, *a),
        g1_valid_s(*a) ==> g1_valid_s(r),
{
    G1Affine(a.0.into_projective().double().into_affine())
}

/// Relies on scalar multiplication in ark-ec, which keeps a valid point
/// valid.
#[verifier::external_body]
pub fn g1_mul(k: &Fr, a: &G1Affine) -> (r: G1Affine)
    ensures
        r == g1_mul_s(*k, *a),
        g1_valid_s(*a) ==> g1_valid_s(r),
{
    G1Affine(a.0.mul(k.0.into_repr()).into_affine())
}

/// Relies on `Zero::zero` for affine points: the canonical point at
/// infinity, the additive identity of the group of valid elements.
#[verifier::external_body]
pub fn g1_zero() -> (r: G1Affine)
    ensures
        g1_is_zero_s(r),
        g1_valid_s(r),
        forall|b: G1Affine| g1_valid_s(b) ==> #[trigger] g1_add_s(b, r) == b,
        forall|b: G1Affine| g1_valid_s(b) ==> #[trigger] g1_add_s(r, b) == b,
{
    G1Affine(ark_bls12_381::G1Affine::zero())
}

/// Relies on `Zero::is_zero` for affine points, which tests the infinity flag.
#[verifier::external_body]
pub fn g1_is_zero(a: &G1Affine) -> (r: bool)
    ensures
        r == g1_is_zero_s(*a),
{
    a.0.is_zero()
}

/// Relies on the derived equality of affine points, which compares the
/// (unique) affine coordinates.
#[verifier::external_body]
pub fn g1_eq(a: &G1Affine, b: &G1Affine) -> (r: bool)
    ensures
        r == (*a == *b),
{
    a.0 == b.0
}

/// Relies on `AffineCurve::prime_subgroup_generator`: a valid point that is
/// not the identity.
#[verifier::external_body]
pub fn g1_generator() -> (r: G1Affine)
    ensures
        !g1_is_zero_s(r),
        g1_valid_s(r),
{
    G1Affine(ark_bls12_381::G1Affine::prime_subgroup_generator())
}

/// Relies on `UniformRand` for the first group, which samples a curve point
/// and multiplies by the cofactor, so the result is valid; nothing more is
/// promised of it.
#[verifier::external_body]
pub fn g1_rand(rng: &mut SeededRng) -> (r: G1Affine)
    ensures
        g1_valid_s(r),
{
    G1Affine(ark_bls12_381::G1Projective::rand(&mut rng.0).into_affine())
}

/// Relies on `ToBytes` for affine points, which writes the two 48-byte
/// coordinates and the one-byte infinity flag.
#[verifier::external_body]
pub fn g1_to_bytes(a: &G1Affine) -> (r: Vec<u8>)
    ensures
        r@ == g1_bytes_s(*a),
        r@.len() == 97,
        forall|b: G1Affine| (#[trigger] g1_bytes_s(b)).len() == r@.len(),
{
    let mut buf = Vec::new();
    a.0.write(&mut buf).unwrap();
    buf
}

/// Relies on `AffineCurve::prime_subgroup_generator` for the second group.
#[verifier::external_body]
pub fn g2_generator() -> (r: G2Affine)
{
    G2Affine(ark_bls12_381::G2Affine::prime_subgroup_generator())
}

/// Relies on `UniformRand` for the second group; nothing is promised of the
/// sampled point.
#[verifier::external_body]
pub fn g2_rand(rng: &mut SeededRng) -> (r: G2Affine)
{
    G2Affine(ark_bls12_381::G2Projective::rand(&mut rng.0).into_affine())
}

/// Relies on `ToBytes` for second-group points, which writes the two
/// 96-byte coordinates and the one-byte infinity flag.
#[verifier::external_body]
pub fn g2_to_bytes(a: &G2Affine) -> (r: Vec<u8>)
    ensures
        r@ == g2_bytes_s(*a),
        r@.len() == 193,
        forall|b: G2Affine| (#[trigger] g2_bytes_s(b)).len() == r@.len(),
{
    let mut buf = Vec::new();
    a.0.write(&mut buf).unwrap();
    buf
}

/// Relies on `From<G2Affine>` for prepared points, which precomputes the
/// pairing line coefficients.
#[verifier::external_body]
pub fn g2_prepare(a: &G2Affine) -> (r: G2Prepared)
{
    G2Prepared(<ark_bls12_381::Bls12_381 as PairingEngine>::G2Prepared::from(a.0))
}

/// Relies on `ToBytes` for prepared points.
#[verifier::external_body]
pub fn g2_prepared_to_bytes(a: &G2Prepared) -> (r: Vec<u8>)
    ensures
        r@ == g2_prepared_bytes_s(*a),
{
    let mut buf = Vec::new();
    a.0.write(&mut buf).unwrap();
    buf
}

/// Relies on scalar-field addition in ark-ff; addition in a field does not
/// depend on the operand order.
#[verifier::external_body]
pub fn fr_add(a: &Fr, b: &Fr) -> (r: Fr)
    ensures
        r == fr_add_s(*a, *b),
        r == fr_add_s(*b, *a),
{
    Fr(a.0 + b.0)
}

/// Relies on scalar-field subtraction in ark-ff: the difference is the
/// unique element that added to `b` gives back `a`.
#[verifier::external_body]
pub fn fr_sub(a: &Fr, b: &Fr) -> (r: Fr)
    ensures
        r == fr_sub_s(*a, *b),
        fr_add_s(r, *b) == *a,
        fr_add_s(*b, r) == *a,
{
    Fr(a.0 - b.0)
}

/// Relies on scalar-field multiplication in ark-ff; multiplication in a
/// field does not depend on the operand order.
#[verifier::external_body]
pub fn fr_mul(a: &Fr, b: &Fr) -> (r: Fr)
    ensures
        r == fr_mul_s(*a, *b),
        r == fr_mul_s(*b, *a),
{
    Fr(a.0 * b.0)
}

/// Relies on scalar-field negation in ark-ff.
#[verifier::external_body]
pub fn fr_neg(a: &Fr) -> (r: Fr)
    ensures
        r == fr_neg_s(*a),
{
    Fr(-a.0)
}

/// Relies on `Zero::zero` for the scalar field: the additive identity.
#[verifier::external_body]
pub fn fr_zero() -> (r: Fr)
    ensures
        fr_is_zero_s(r),
        forall|b: Fr| #[trigger] fr_add_s(b, r) == b,
        forall|b: Fr| #[trigger] fr_add_s(r, b) == b,
{
    Fr(ark_bls12_381::Fr::zero())
}

/// Relies on `Zero::is_zero` for the scalar field.
#[verifier::external_body]
pub fn fr_is_zero(a: &Fr) -> (r: bool)
    ensures
        r == fr_is_zero_s(*a),
{
    a.0.is_zero()
}

/// Relies on the derived equality of scalars, which compares the (unique)
/// internal representation.
#[verifier::external_body]
pub fn fr_eq(a: &Fr, b: &Fr) -> (r: bool)
    ensures
        r == (*a == *b),
{
    a.0 == b.0
}

/// Relies on `From<u64>` for the scalar field, which embeds the integer;
/// zero maps to the zero scalar.
#[verifier::external_body]
pub fn fr_from_u64(x: u64) -> (r: Fr)
    ensures
        r == fr_from_u64_s(x),
        x == 0 ==> fr_is_zero_s(r),
{
    Fr(ark_bls12_381::Fr::from(x))
}

/// Relies on `UniformRand` for the scalar field; nothing is promised of the
/// sampled scalar.
#[verifier::external_body]
pub fn fr_rand(rng: &mut SeededRng) -> (r: Fr)
{
    Fr(ark_bls12_381::Fr::rand(&mut rng.0))
}

/// Relies on `ToBytes` for scalars, which writes the canonical 32-byte
/// integer representative.
#[verifier::external_body]
pub fn fr_to_bytes(a: &Fr) -> (r: Vec<u8>)
    ensures
        r@ == fr_bytes_s(*a),
        r@.len() == 32,
        forall|b: Fr| (#[trigger] fr_bytes_s(b)).len() == r@.len(),
{
    let mut buf = Vec::new();
    a.0.write(&mut buf).unwrap();
    buf
}

/// Relies on `PrimeField::size_in_bits`: the BLS12-381 scalar-field modulus
/// has 255 bits.
#[verifier::external_body]
pub fn fr_size_in_bits() -> (r: usize)
    ensures
        r == 255,
{
    <ark_bls12_381::Fr as PrimeField>::size_in_bits()
}

/// Relies on polynomial addition in ark-poly (coefficient-wise, the result
/// in normal form); addition does not depend on the operand order.
#[verifier::external_body]
pub fn poly_add(a: &DensePoly, b: &DensePoly) -> (r: DensePoly)
    ensures
        r == poly_add_s(*a, *b),
        r == poly_add_s(*b, *a),
{
    DensePoly(&a.0 + &b.0)
}

/// Relies on polynomial subtraction in ark-poly (coefficient-wise, the
/// result in normal form): for operands in normal form, as all values of
/// `DensePoly` are, the difference added to `b` gives back `a`.
#[verifier::external_body]
pub fn poly_sub(a: &DensePoly, b: &DensePoly) -> (r: DensePoly)
    ensures
        r == poly_sub_s(*a, *b),
        poly_add_s(r, *b) == *a,
        poly_add_s(*b, r) == *a,
{
    DensePoly(&a.0 - &b.0)
}

/// Relies on scalar multiplication of polynomials in ark-poly: scaling the
/// zero polynomial returns it, and scaling by the zero scalar gives the
/// zero polynomial.
#[verifier::external_body]
pub fn poly_scale(k: &Fr, p: &DensePoly) -> (r: DensePoly)
    ensures
        r == poly_scale_s(*k, *p),
        poly_is_zero_s(*p) ==> r == *p,
        fr_is_zero_s(*k) ==> poly_is_zero_s(r),
{
    DensePoly(&p.0 * k.0)
}

/// Relies on `Zero::zero` for polynomials: the zero polynomial, the
/// additive identity.
#[verifier::external_body]
pub fn poly_zero() -> (r: DensePoly)
    ensures
        poly_is_zero_s(r),
        poly_degree_s(r) == 0,
        forall|q: DensePoly| #[trigger] poly_add_s(q, r) == q,
        forall|q: DensePoly| #[trigger] poly_add_s(r, q) == q,
{
    DensePoly(ark_poly::univariate::DensePolynomial::zero())
}

/// Relies on `Zero::is_zero` for polynomials, which tests all coefficients.
#[verifier::external_body]
pub fn poly_is_zero(p: &DensePoly) -> (r: bool)
    ensures
        r == poly_is_zero_s(*p),
{
    p.0.is_zero()
}

/// Relies on the derived equality of polynomials, which compares the
/// coefficient vectors (unique in normal form).
#[verifier::external_body]
pub fn poly_eq(a: &DensePoly, b: &DensePoly) -> (r: bool)
    ensures
        r == (*a == *b),
{
    a.0 == b.0
}

/// Relies on `Polynomial::degree`, which reports 0 for the zero polynomial
/// and the index of the leading coefficient otherwise.
#[verifier::external_body]
pub fn poly_degree(p: &DensePoly) -> (r: usize)
    ensures
        r == poly_degree_s(*p),
{
    p.0.degree()
}

/// Relies on `Polynomial::evaluate`.
#[verifier::external_body]
pub fn poly_eval(p: &DensePoly, z: &Fr) -> (r: Fr)
    ensures
        r == poly_eval_s(*p, *z),
{
    Fr(p.0.evaluate(&z.0))
}

/// Relies on `UVPolynomial::rand`, which samples `d + 1` random coefficients
/// and normalizes; the degree therefore stays at most `d`.  Nothing more is
/// promised of the sampled polynomial.
#[verifier::external_body]
pub fn poly_rand(d: usize, rng: &mut SeededRng) -> (r: DensePoly)
    ensures
        poly_degree_s(r) <= d,
{
    DensePoly(ark_poly::univariate::DensePolynomial::rand(d, &mut rng.0))
}

/// Relies on `UVPolynomial::from_coefficients_vec`, which stores the
/// coefficients (lowest degree first) and normalizes.
#[verifier::external_body]
pub fn poly_from_coeffs(c: Vec<Fr>) -> (r: DensePoly)
    ensures
        r == poly_from_coeffs_s(c@),
        c@.len() == 0 ==> poly_is_zero_s(r),
        c@.len() >= 1 ==> poly_degree_s(r) < c@.len(),
{
    let coeffs = c.into_iter().map(|x| x.0).collect();
    DensePoly(ark_poly::univariate::DensePolynomial::from_coefficients_vec(coeffs))
}

/// Relies on `CanonicalSerialize::serialize` for affine points, which
/// writes one 48-byte coordinate with embedded flags.
#[verifier::external_body]
pub fn g1_serialize(a: &G1Affine) -> (r: Vec<u8>)
    ensures
        r@ == g1_cser_s(*a),
        r@.len() == 48,
{
    let mut buf = Vec::new();
    CanonicalSerialize::serialize(&a.0, &mut buf).unwrap();
    buf
}

/// Relies on `CanonicalSerialize::serialize_uncompressed` for affine
/// points, which writes the two 48-byte coordinates with embedded flags.
#[verifier::external_body]
pub fn g1_serialize_uncompressed(a: &G1Affine) -> (r: Vec<u8>)
    ensures
        r@ == g1_user_s(*a),
        r@.len() == 96,
{
    let mut buf = Vec::new();
    CanonicalSerialize::serialize_uncompressed(&a.0, &mut buf).unwrap();
    buf
}

/// Relies on `CanonicalSerialize::serialize` for polynomials, which writes
/// the coefficient count as eight little-endian bytes and then each
/// coefficient.
#[verifier::external_body]
pub fn poly_serialize(p: &DensePoly) -> (r: Vec<u8>)
    ensures
        r@ == poly_cser_s(*p),
{
    let mut buf = Vec::new();
    CanonicalSerialize::serialize(&p.0, &mut buf).unwrap();
    buf
}

/// Relies on `CanonicalSerialize::serialized_size` for polynomials, which
/// reports the length of what `serialize` writes.
#[verifier::external_body]
pub fn poly_serialized_size(p: &DensePoly) -> (r: usize)
    ensures
        r == poly_cser_s(*p).len(),
{
    CanonicalSerialize::serialized_size(&p.0)
}

/// Relies on `CanonicalSerialize::serialize_uncompressed` for polynomials.
#[verifier::external_body]
pub fn poly_serialize_uncompressed(p: &DensePoly) -> (r: Vec<u8>)
    ensures
        r@ == poly_user_s(*p),
{
    let mut buf = Vec::new();
    CanonicalSerialize::serialize_uncompressed(&p.0, &mut buf).unwrap();
    buf
}

/// Relies on `CanonicalSerialize::uncompressed_size` for polynomials, which
/// reports the length of what `serialize_uncompressed` writes.
#[verifier::external_body]
pub fn poly_uncompressed_size(p: &DensePoly) -> (r: usize)
    ensures
        r == poly_user_s(*p).len(),
{
    CanonicalSerialize::uncompressed_size(&p.0)
}

/// Relies on `CanonicalSerialize::serialize_unchecked` for polynomials: the
/// derived implementation bottoms out, through the trait's defaults, in the
/// same field-element writes as `serialize_uncompressed`, so it emits the
/// same bytes.
#[verifier::external_body]
pub fn poly_serialize_unchecked(p: &DensePoly) -> (r: Vec<u8>)
    ensures
        r@ == poly_user_s(*p),
{
    let mut buf = Vec::new();
    CanonicalSerialize::serialize_unchecked(&p.0, &mut buf).unwrap();
    buf
}

/// What the polynomial reader returns on a well-formed prefix: for every
/// polynomial whose serialization is a prefix of `bytes`, the read gives
/// that polynomial and the bytes after the prefix.
pub open spec fn poly_read_post(bytes: Seq<u8>, r: Option<(DensePoly, Vec<u8>)>) -> bool {
    forall|p: DensePoly, rest: Seq<u8>|
        bytes == #[trigger] (poly_cser_s(p) + rest) ==> (r matches Some(x) && x.0 == p && x.1@
            == rest)
}

/// What an uncompressed polynomial reader returns on a well-formed prefix.
pub open spec fn poly_read_uncompressed_post(
    bytes: Seq<u8>,
    r: Option<(DensePoly, Vec<u8>)>,
) -> bool {
    forall|p: DensePoly, rest: Seq<u8>|
        bytes == #[trigger] (poly_user_s(p) + rest) ==> (r matches Some(x) && x.0 == p && x.1@
            == rest)
}

/// What the compressed point reader returns on a well-formed prefix
/// holding a valid element.
pub open spec fn g1_read_post(bytes: Seq<u8>, r: Option<(G1Affine, Vec<u8>)>) -> bool {
    forall|g: G1Affine, rest: Seq<u8>|
        g1_valid_s(g) && bytes == #[trigger] (g1_cser_s(g) + rest) ==> (r matches Some(x) && x.0
            == g && x.1@ == rest)
}

/// What a checked uncompressed point reader returns on a well-formed
/// prefix holding a valid element.
pub open spec fn g1_read_uncompressed_post(
    bytes: Seq<u8>,
    r: Option<(G1Affine, Vec<u8>)>,
) -> bool {
    forall|g: G1Affine, rest: Seq<u8>|
        g1_valid_s(g) && bytes == #[trigger] (g1_user_s(g) + rest) ==> (r matches Some(x) && x.0
            == g && x.1@ == rest)
}

/// What the uncompressed point reader returns on a well-formed prefix.
pub open spec fn g1_read_unchecked_post(bytes: Seq<u8>, r: Option<(G1Affine, Vec<u8>)>) -> bool {
    forall|g: G1Affine, rest: Seq<u8>|
        bytes == #[trigger] (g1_user_s(g) + rest) ==> (r matches Some(x) && x.0 == g && x.1@
            == rest)
}

/// Relies on `CanonicalDeserialize::deserialize` for polynomials, the
/// inverse of `serialize`: on a serialization of `p` followed by anything,
/// it returns `p` and the remaining bytes; on other input, whatever it
/// returns is surfaced, an error as `None`.  The read coefficients are
/// passed through `from_coefficients_vec`, so the returned polynomial is in
/// normal form like every other `DensePoly`; a serialization of `p` holds
/// `p`'s own (normal-form) coefficients, so this is the identity there.
#[verifier::external_body]
pub fn poly_read(bytes: &[u8]) -> (r: Option<(DensePoly, Vec<u8>)>)
    ensures
        poly_read_post(bytes@, r),
{
    let mut reader = bytes;
    match <ark_poly::univariate::DensePolynomial<ark_bls12_381::Fr> as CanonicalDeserialize>::deserialize(
        &mut reader,
    ) {
        Ok(p) => Some((
            DensePoly(ark_poly::univariate::DensePolynomial::from_coefficients_vec(p.coeffs)),
            reader.to_vec(),
        )),
        Err(_) => None,
    }
}

/// Relies on `CanonicalDeserialize::deserialize_uncompressed` for
/// polynomials, the inverse of `serialize_uncompressed`; as in `poly_read`,
/// the result is brought to normal form, the identity on the coefficients
/// of a serialized polynomial.
#[verifier::external_body]
pub fn poly_read_uncompressed(bytes: &[u8]) -> (r: Option<(DensePoly, Vec<u8>)>)
    ensures
        poly_read_uncompressed_post(bytes@, r),
{
    let mut reader = bytes;
    match <ark_poly::univariate::DensePolynomial<ark_bls12_381::Fr> as CanonicalDeserialize>::deserialize_uncompressed(
        &mut reader,
    ) {
        Ok(p) => Some((
            DensePoly(ark_poly::univariate::DensePolynomial::from_coefficients_vec(p.coeffs)),
            reader.to_vec(),
        )),
        Err(_) => None,
    }
}

/// Relies on `CanonicalDeserialize::deserialize_unchecked` for polynomials,
/// which reads, through the trait's defaults, the same format as
/// `deserialize_uncompressed` (scalars are range-checked either way); as in
/// `poly_read`, the result is brought to normal form.
#[verifier::external_body]
pub fn poly_read_unchecked(bytes: &[u8]) -> (r: Option<(DensePoly, Vec<u8>)>)
    ensures
        poly_read_uncompressed_post(bytes@, r),
{
    let mut reader = bytes;
    match <ark_poly::univariate::DensePolynomial<ark_bls12_381::Fr> as CanonicalDeserialize>::deserialize_unchecked(
        &mut reader,
    ) {
        Ok(p) => Some((
            DensePoly(ark_poly::univariate::DensePolynomial::from_coefficients_vec(p.coeffs)),
            reader.to_vec(),
        )),
        Err(_) => None,
    }
}

/// Relies on `CanonicalDeserialize::deserialize` for affine points, the
/// checked inverse of `serialize`: on a serialization of a valid `g`
/// followed by anything, it returns `g` and the remaining bytes; whatever
/// it returns was curve- and subgroup-checked, so it is valid; on other
/// input an error is surfaced as `None`.
#[verifier::external_body]
pub fn g1_read(bytes: &[u8]) -> (r: Option<(G1Affine, Vec<u8>)>)
    ensures
        g1_read_post(bytes@, r),
        r matches Some(x) ==> g1_valid_s(x.0),
{
    let mut reader = bytes;
    match <ark_bls12_381::G1Affine as CanonicalDeserialize>::deserialize(&mut reader) {
        Ok(g) => Some((G1Affine(g), reader.to_vec())),
        Err(_) => None,
    }
}

/// Relies on `CanonicalDeserialize::deserialize_uncompressed` for affine
/// points, the subgroup-checked inverse of `serialize_uncompressed`: on an
/// uncompressed serialization of a valid `g` followed by anything, it
/// returns `g` and the remaining bytes; on other input, whatever it
/// returns is surfaced, an error as `None`.
#[verifier::external_body]
pub fn g1_read_uncompressed(bytes: &[u8]) -> (r: Option<(G1Affine, Vec<u8>)>)
    ensures
        g1_read_uncompressed_post(bytes@, r),
{
    let mut reader = bytes;
    match <ark_bls12_381::G1Affine as CanonicalDeserialize>::deserialize_uncompressed(&mut reader) {
        Ok(g) => Some((G1Affine(g), reader.to_vec())),
        Err(_) => None,
    }
}

/// Relies on `CanonicalDeserialize::deserialize_unchecked` for affine
/// points, the unvalidated inverse of `serialize_uncompressed`: on an
/// uncompressed serialization of `g` followed by anything, it returns `g`
/// and the remaining bytes; on other input, whatever it returns is
/// surfaced, an error as `None`.
#[verifier::external_body]
pub fn g1_read_unchecked(bytes: &[u8]) -> (r: Option<(G1Affine, Vec<u8>)>)
    ensures
        g1_read_unchecked_post(bytes@, r),
{
    let mut reader = bytes;
    match <ark_bls12_381::G1Affine as CanonicalDeserialize>::deserialize_unchecked(&mut reader) {
        Ok(g) => Some((G1Affine(g), reader.to_vec())),
        Err(_) => None,
    }
}

/// Relies on `SeedableRng::seed_from_u64` of the rand crate.
#[verifier::external_body]
pub fn rng_from_seed(seed: u64) -> (r: SeededRng)
{
    SeededRng(rand::rngs::StdRng::seed_from_u64(seed))
}

} // verus!
