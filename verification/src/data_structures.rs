//! Common data structures of the commitment scheme: labels, labeled
//! polynomials and commitments, linear combinations of labeled terms, and
//! the minimal interfaces that every concrete key, commitment, randomness
//! and proof type of the scheme implements.

use crate::algebra::{
    fr_mul, fr_mul_s, fr_neg, fr_neg_s, poly_add, poly_add_s, poly_degree, poly_degree_s,
    poly_eval, poly_eval_s, poly_is_zero, poly_is_zero_s, poly_zero, DensePoly, Fr, SeededRng,
};
use crate::share::{poly_sum, share_poly};
use vstd::prelude::*;

verus! {

/// Labels a `LabeledPolynomial` or a `LabeledCommitment`.
pub type PolynomialLabel = String;

/// The bytes handed to a deserializer do not hold a value of the expected
/// shape.
#[derive(Clone, Copy, Debug, PartialEq, Eq)]
pub struct DeserializeError;

/// Defines the minimal interface for public params for any polynomial
/// commitment scheme.
pub trait PCUniversalParams: Sized {
    /// When the parameters are well formed.
    spec fn wf(&self) -> bool;

    /// The maximum degree, as a function of the parameters.
    spec fn spec_max_degree(&self) -> usize;

    /// Outputs the maximum degree supported by the committer key.
    fn max_degree(&self) -> (r: usize)
        requires
            self.wf(),
        ensures
            r == self.spec_max_degree(),
    ;
}

/// Defines the minimal interface of committer keys for any polynomial
/// commitment scheme.
pub trait PCCommitterKey: Sized {
    /// When the key is well formed.
    spec fn wf(&self) -> bool;

    /// The maximum degree of the universal parameters the key came from.
    spec fn spec_max_degree(&self) -> usize;

    /// The maximum degree the key itself supports.
    spec fn spec_supported_degree(&self) -> usize;

    /// Outputs the maximum degree supported by the universal parameters
    /// `Self` was derived from.
    fn max_degree(&self) -> (r: usize)
        ensures
            r == self.spec_max_degree(),
    ;

    /// Outputs the maximum degree supported by the committer key.
    fn supported_degree(&self) -> (r: usize)
        requires
            self.wf(),
        ensures
            r == self.spec_supported_degree(),
            r <= self.spec_max_degree(),
    ;
}

/// Defines the minimal interface of verifier keys for any polynomial
/// commitment scheme.
pub trait PCVerifierKey: Sized {
    /// The maximum degree of the universal parameters the key came from.
    spec fn spec_max_degree(&self) -> usize;

    /// The maximum degree the key itself supports.
    spec fn spec_supported_degree(&self) -> usize;

    /// Outputs the maximum degree supported by the universal parameters
    /// `Self` was derived from.
    fn max_degree(&self) -> (r: usize)
        ensures
            r == self.spec_max_degree(),
    ;

    /// Outputs the maximum degree supported by the verifier key.
    fn supported_degree(&self) -> (r: usize)
        ensures
            r == self.spec_supported_degree(),
    ;
}

/// Defines the minimal interface of prepared verifier keys for any
/// polynomial commitment scheme.
pub trait PCPreparedVerifierKey<Unprepared: PCVerifierKey>: Sized {
    /// What preparation guarantees about its result.
    spec fn prepare_post(vk: &Unprepared, r: Self) -> bool;

    /// prepare
    fn prepare(vk: &Unprepared) -> (r: Self)
        ensures
            Self::prepare_post(vk, r),
    ;
}

/// Defines the minimal interface of commitments for any polynomial
/// commitment scheme.
pub trait PCCommitment: Sized {
    /// What the empty commitment looks like.
    spec fn empty_post(r: Self) -> bool;

    /// Whether this commitment carries an enforced degree bound.
    spec fn spec_has_degree_bound(&self) -> bool;

    /// What the reported byte size is.
    spec fn size_post(&self, r: usize) -> bool;

    /// Outputs a non-hiding commitment to the zero polynomial.
    fn empty() -> (r: Self)
        ensures
            Self::empty_post(r),
    ;

    /// Does this commitment have a degree bound?
    fn has_degree_bound(&self) -> (r: bool)
        ensures
            r == self.spec_has_degree_bound(),
    ;

    /// Size in bytes
    fn size_in_bytes(&self) -> (r: usize)
        ensures
            self.size_post(r),
    ;
}

/// Defines the minimal interface of prepared commitments for any polynomial
/// commitment scheme.
pub trait PCPreparedCommitment<Unprepared: PCCommitment>: Sized {
    /// What preparation guarantees about its result.
    spec fn prepare_post(comm: &Unprepared, r: Self) -> bool;

    /// prepare
    fn prepare(comm: &Unprepared) -> (r: Self)
        ensures
            Self::prepare_post(comm, r),
    ;
}

/// Defines the minimal interface of commitment randomness for any
/// polynomial commitment scheme.
pub trait PCRandomness: Sized {
    /// What empty randomness looks like.
    spec fn empty_post(r: Self) -> bool;

    /// When sampling is allowed.
    spec fn rand_req(num_queries: usize) -> bool;

    /// What sampling guarantees about its result.
    spec fn rand_post(num_queries: usize, has_degree_bound: bool, r: Self) -> bool;

    /// Outputs empty randomness that does not hide the commitment.
    fn empty() -> (r: Self)
        ensures
            Self::empty_post(r),
    ;

    /// Samples randomness for commitments;
    /// `num_queries` specifies the number of queries that the commitment
    /// will be opened at, `has_degree_bound` indicates that the
    /// corresponding commitment has an enforced strict degree bound, and
    /// `num_vars` specifies the number of variables for multivariate
    /// commitment.
    fn rand(
        num_queries: usize,
        has_degree_bound: bool,
        num_vars: Option<usize>,
        rng: &mut SeededRng,
    ) -> (r: Self)
        requires
            Self::rand_req(num_queries),
        ensures
            Self::rand_post(num_queries, has_degree_bound, r),
    ;
}

/// Defines the minimal interface of evaluation proofs for any polynomial
/// commitment scheme.
pub trait PCProof: Sized {
    /// What the reported byte size is.
    spec fn size_post(&self, r: usize) -> bool;

    /// Size in bytes
    fn size_in_bytes(&self) -> (r: usize)
        ensures
            self.size_post(r),
    ;
}

/// A polynomial along with information about its degree bound (if any), and
/// the maximum number of queries that will be made to it. This latter number
/// determines the amount of protection that will be provided to a commitment
/// for this polynomial.
#[derive(Clone)]
pub struct LabeledPolynomial {
    label: PolynomialLabel,
    polynomial: DensePoly,
    degree_bound: Option<usize>,
    hiding_bound: Option<usize>,
}

impl LabeledPolynomial {
    /// The label of the polynomial.
    pub closed spec fn spec_label(&self) -> Seq<char> {
        self.label@
    }

    /// The wrapped polynomial.
    pub closed spec fn spec_polynomial(&self) -> DensePoly {
        self.polynomial
    }

    /// The degree bound, if one is enforced.
    pub closed spec fn spec_degree_bound(&self) -> Option<usize> {
        self.degree_bound
    }

    /// The hiding bound, if the polynomial is to be hidden.
    pub closed spec fn spec_hiding_bound(&self) -> Option<usize> {
        self.hiding_bound
    }

    /// Construct a new labeled polynomial.
    pub fn new(
        label: PolynomialLabel,
        polynomial: DensePoly,
        degree_bound: Option<usize>,
        hiding_bound: Option<usize>,
    ) -> (r: Self)
        ensures
            r.spec_label() == label@,
            r.spec_polynomial() == polynomial,
            r.spec_degree_bound() == degree_bound,
            r.spec_hiding_bound() == hiding_bound,
    {
        Self { label, polynomial, degree_bound, hiding_bound }
    }

    /// Return the label for `self`.
    pub fn label(&self) -> (r: &String)
        ensures
            r@ == self.spec_label(),
    {
        &self.label
    }

    /// Retrieve the polynomial from `self`.
    pub fn polynomial(&self) -> (r: &DensePoly)
        ensures
            *r == self.spec_polynomial(),
    {
        &self.polynomial
    }

    /// Evaluate the polynomial in `self`.
    pub fn evaluate(&self, point: &Fr) -> (r: Fr)
        ensures
            r == poly_eval_s(self.spec_polynomial(), *point),
    {
        poly_eval(&self.polynomial, point)
    }

    /// Retrieve the degree of the polynomial in `self`.
    pub fn degree(&self) -> (r: usize)
        ensures
            r == poly_degree_s(self.spec_polynomial()),
    {
        poly_degree(&self.polynomial)
    }

    /// Retrieve the degree bound in `self`.
    pub fn degree_bound(&self) -> (r: Option<usize>)
        ensures
            r == self.spec_degree_bound(),
    {
        self.degree_bound
    }

    /// Retrieve whether the polynomial in `self` should be hidden.
    pub fn is_hiding(&self) -> (r: bool)
        ensures
            r == self.spec_hiding_bound() is Some,
    {
        self.hiding_bound.is_some()
    }

    /// Retrieve the hiding bound for the polynomial in `self`.
    pub fn hiding_bound(&self) -> (r: Option<usize>)
        ensures
            r == self.spec_hiding_bound(),
    {
        self.hiding_bound
    }

    /// Sum two labeled polynomials; the label and the bounds of the second
    /// operand are kept, as when folding a batch into an accumulator.
    pub fn add(self, other: Self) -> (r: Self)
        ensures
            r.spec_label() == other.spec_label(),
            r.spec_polynomial() == poly_add_s(self.spec_polynomial(), other.spec_polynomial()),
            r.spec_polynomial() == poly_add_s(other.spec_polynomial(), self.spec_polynomial()),
            r.spec_degree_bound() == other.spec_degree_bound(),
            r.spec_hiding_bound() == other.spec_hiding_bound(),
    {
        let polynomial = poly_add(&self.polynomial, &other.polynomial);
        Self {
            label: other.label,
            polynomial,
            degree_bound: other.degree_bound,
            hiding_bound: other.hiding_bound,
        }
    }

    /// The labeled zero polynomial, with an empty label and no bounds.
    pub fn zero() -> (r: Self)
        ensures
            r.spec_label() == Seq::<char>::empty(),
            poly_is_zero_s(r.spec_polynomial()),
            r.spec_degree_bound() is None,
            r.spec_hiding_bound() is None,
    {
        Self {
            label: String::new(),
            polynomial: poly_zero(),
            degree_bound: None,
            hiding_bound: None,
        }
    }

    /// Whether the wrapped polynomial is the zero polynomial.
    pub fn is_zero(&self) -> (r: bool)
        ensures
            r == poly_is_zero_s(self.spec_polynomial()),
    {
        poly_is_zero(&self.polynomial)
    }

    /// Split the wrapped polynomial into `num` additive shares, each under
    /// the same label and bounds, so the shares sum back to the original.
    pub fn share(&self, num: usize, rng: &mut SeededRng) -> (r: Vec<Self>)
        requires
            num >= 1,
        ensures
            r@.len() == num,
            poly_sum(r@.map_values(|x: LabeledPolynomial| x.spec_polynomial()))
                == self.spec_polynomial(),
            forall|j: int|
                0 <= j < num ==> (#[trigger] r@[j]).spec_label() == self.spec_label()
                    && r@[j].spec_degree_bound() == self.spec_degree_bound()
                    && r@[j].spec_hiding_bound() == self.spec_hiding_bound(),
    {
        let shares = share_poly(&self.polynomial, num, rng);
        let ghost ss = shares@;
        let n = shares.len();
        let mut shares = shares;
        let mut out: Vec<LabeledPolynomial> = Vec::new();
        let mut i: usize = 0;
        while i < n
            invariant
                n == ss.len(),
                shares@ == ss.subrange(i as int, n as int),
                i <= n,
                out@.len() == i,
                forall|j: int|
                    0 <= j < i ==> (#[trigger] out@[j]).spec_polynomial() == ss[j]
                        && out@[j].spec_label() == self.spec_label()
                        && out@[j].spec_degree_bound() == self.spec_degree_bound()
                        && out@[j].spec_hiding_bound() == self.spec_hiding_bound(),
            decreases n - i,
        {
            let p = shares.remove(0);
            out.push(
                Self {
                    label: self.label.clone(),
                    polynomial: p,
                    degree_bound: self.degree_bound,
                    hiding_bound: self.hiding_bound,
                },
            );
            proof {
                assert(shares@ =~= ss.subrange(i + 1 as int, n as int));
            }
            i = i + 1;
        }
        proof {
            assert(out@.map_values(|x: LabeledPolynomial| x.spec_polynomial()) =~= ss);
        }
        out
    }
}

/// A commitment along with information about its degree bound (if any).
#[derive(Clone)]
pub struct LabeledCommitment<C: PCCommitment> {
    label: PolynomialLabel,
    commitment: C,
    degree_bound: Option<usize>,
}

impl<C: PCCommitment> LabeledCommitment<C> {
    /// The label of the commitment.
    pub closed spec fn spec_label(&self) -> Seq<char> {
        self.label@
    }

    /// The wrapped commitment.
    pub closed spec fn spec_commitment(&self) -> C {
        self.commitment
    }

    /// The degree bound, if one is enforced.
    pub closed spec fn spec_degree_bound(&self) -> Option<usize> {
        self.degree_bound
    }

    /// Instantiate a new labeled commitment.
    pub fn new(label: PolynomialLabel, commitment: C, degree_bound: Option<usize>) -> (r: Self)
        ensures
            r.spec_label() == label@,
            r.spec_commitment() == commitment,
            r.spec_degree_bound() == degree_bound,
    {
        Self { label, commitment, degree_bound }
    }

    /// Return the label for `self`.
    pub fn label(&self) -> (r: &String)
        ensures
            r@ == self.spec_label(),
    {
        &self.label
    }

    /// Retrieve the commitment from `self`.
    pub fn commitment(&self) -> (r: &C)
        ensures
            *r == self.spec_commitment(),
    {
        &self.commitment
    }

    /// Retrieve the degree bound in `self`.
    pub fn degree_bound(&self) -> (r: Option<usize>)
        ensures
            r == self.spec_degree_bound(),
    {
        self.degree_bound
    }
}

/// A term in a linear combination.
#[derive(Debug, PartialEq, Eq, Hash, PartialOrd, Ord)]
pub enum LCTerm {
    /// The constant term representing `one`.
    One,
    /// Label for a polynomial.
    PolyLabel(String),
}

impl Clone for LCTerm {
    /// An exact copy of the term.
    fn clone(&self) -> (r: Self)
        ensures
            r == *self,
    {
        match self {
            LCTerm::One => LCTerm::One,
            LCTerm::PolyLabel(l) => LCTerm::PolyLabel(l.clone()),
        }
    }
}

impl LCTerm {
    /// Returns `true` if `self == LCTerm::One`.
    pub fn is_one(&self) -> (r: bool)
        ensures
            r == (*self is One),
    {
        if let LCTerm::One = self {
            true
        } else {
            false
        }
    }

    /// The wrapped polynomial label, or an error for the constant term.
    pub fn try_into(self) -> (r: Result<PolynomialLabel, ()>)
        ensures
            match self {
                LCTerm::One => r is Err,
                LCTerm::PolyLabel(l) => r == Ok::<PolynomialLabel, ()>(l),
            },
    {
        match self {
            LCTerm::One => Err(()),
            LCTerm::PolyLabel(l) => Ok(l),
        }
    }

    /// Whether `self` is a `PolyLabel` holding exactly `other`; the constant
    /// term equals no label.
    pub fn eq(&self, other: &String) -> (r: bool)
        ensures
            r == match *self {
                LCTerm::One => false,
                LCTerm::PolyLabel(l) => l@ == other@,
            },
    {
        match self {
            LCTerm::One => false,
            LCTerm::PolyLabel(l) => l.eq(other),
        }
    }
}

impl From<PolynomialLabel> for LCTerm {
    /// A label becomes the term referring to it.
    fn from(other: PolynomialLabel) -> (r: Self) {
        LCTerm::PolyLabel(other)
    }
}

impl vstd::std_specs::convert::FromSpecImpl<PolynomialLabel> for LCTerm {
    open spec fn obeys_from_spec() -> bool {
        true
    }

    open spec fn from_spec(other: PolynomialLabel) -> Self {
        LCTerm::PolyLabel(other)
    }
}

impl From<&str> for LCTerm {
    /// A borrowed label becomes the term referring to an owned copy of it.
    fn from(other: &str) -> (r: Self) {
        LCTerm::PolyLabel(other.to_string())
    }
}

impl vstd::std_specs::convert::FromSpecImpl<&str> for LCTerm {
    // An owned `String` cannot be built in specification code, so this
    // conversion carries no contract.
    open spec fn obeys_from_spec() -> bool {
        false
    }

    open spec fn from_spec(other: &str) -> Self {
        LCTerm::PolyLabel(choose|l: String| l@ == other@)
    }
}

/// A labeled linear combination of polynomials.
#[derive(Clone)]
pub struct LinearCombination {
    /// The label.
    pub label: String,
    /// The linear combination of `(coeff, poly_label)` pairs.
    pub terms: Vec<(Fr, LCTerm)>,
}

impl LinearCombination {
    /// Construct an empty labeled linear combination.
    pub fn empty(label: String) -> (r: Self)
        ensures
            r.label@ == label@,
            r.terms@ == Seq::<(Fr, LCTerm)>::empty(),
    {
        Self { label, terms: Vec::new() }
    }

    /// Construct a new labeled linear combination with the terms specified
    /// in `terms`.
    pub fn new(label: String, terms: Vec<(Fr, LCTerm)>) -> (r: Self)
        ensures
            r.label@ == label@,
            r.terms@ == terms@,
    {
        Self { label, terms }
    }

    /// Returns the label of the linear combination.
    pub fn label(&self) -> (r: &String)
        ensures
            r@ == self.label@,
    {
        &self.label
    }

    /// Returns `true` if the linear combination has no terms.
    pub fn is_empty(&self) -> (r: bool)
        ensures
            r == (self.terms@.len() == 0),
    {
        self.terms.is_empty()
    }

    /// Add a term to the linear combination.
    pub fn push(&mut self, term: (Fr, LCTerm))
        ensures
            final(self).label@ == old(self).label@,
            final(self).terms@ == old(self).terms@.push(term),
    {
        self.terms.push(term);
    }

    /// Append every term of `other`, each coefficient multiplied by `coeff`.
    pub fn add_assign_scaled(&mut self, coeff: Fr, other: &LinearCombination)
        ensures
            final(self).label@ == old(self).label@,
            final(self).terms@ == old(self).terms@ + other.terms@.map_values(
                |t: (Fr, LCTerm)| (fr_mul_s(coeff, t.0), t.1),
            ),
    {
        let n = other.terms.len();
        let mut i: usize = 0;
        while i < n
            invariant
                n == other.terms@.len(),
                i <= n,
                self.label@ == old(self).label@,
                self.terms@ == old(self).terms@ + other.terms@.subrange(0, i as int).map_values(
                    |t: (Fr, LCTerm)| (fr_mul_s(coeff, t.0), t.1),
                ),
            decreases n - i,
        {
            let c = fr_mul(&coeff, &other.terms[i].0);
            let t = other.terms[i].1.clone();
            self.terms.push((c, t));
            proof {
                assert(other.terms@.subrange(0, i + 1 as int).map_values(
                    |t: (Fr, LCTerm)| (fr_mul_s(coeff, t.0), t.1),
                ) =~= other.terms@.subrange(0, i as int).map_values(
                    |t: (Fr, LCTerm)| (fr_mul_s(coeff, t.0), t.1),
                ).push((fr_mul_s(coeff, other.terms@[i as int].0), other.terms@[i as int].1)));
                assert(self.terms@ =~= old(self).terms@ + other.terms@.subrange(
                    0,
                    i + 1 as int,
                ).map_values(|t: (Fr, LCTerm)| (fr_mul_s(coeff, t.0), t.1)));
            }
            i = i + 1;
        }
        proof {
            assert(other.terms@.subrange(0, n as int) =~= other.terms@);
        }
    }

    /// Append every term of `other`, each coefficient multiplied by the
    /// negation of `coeff`.
    pub fn sub_assign_scaled(&mut self, coeff: Fr, other: &LinearCombination)
        ensures
            final(self).label@ == old(self).label@,
            final(self).terms@ == old(self).terms@ + other.terms@.map_values(
                |t: (Fr, LCTerm)| (fr_mul_s(fr_neg_s(coeff), t.0), t.1),
            ),
    {
        let neg = fr_neg(&coeff);
        self.add_assign_scaled(neg, other);
    }

    /// Append every term of `other` unchanged.
    pub fn add_assign(&mut self, other: &LinearCombination)
        ensures
            final(self).label@ == old(self).label@,
            final(self).terms@ == old(self).terms@ + other.terms@,
    {
        let n = other.terms.len();
        let mut i: usize = 0;
        while i < n
            invariant
                n == other.terms@.len(),
                i <= n,
                self.label@ == old(self).label@,
                self.terms@ == old(self).terms@ + other.terms@.subrange(0, i as int),
            decreases n - i,
        {
            let c = other.terms[i].0;
            let t = other.terms[i].1.clone();
            self.terms.push((c, t));
            proof {
                assert(self.terms@ =~= old(self).terms@ + other.terms@.subrange(0, i + 1 as int));
            }
            i = i + 1;
        }
        proof {
            assert(other.terms@.subrange(0, n as int) =~= other.terms@);
        }
    }

    /// Append every term of `other`, each coefficient negated.
    pub fn sub_assign(&mut self, other: &LinearCombination)
        ensures
            final(self).label@ == old(self).label@,
            final(self).terms@ == old(self).terms@ + other.terms@.map_values(
                |t: (Fr, LCTerm)| (fr_neg_s(t.0), t.1),
            ),
    {
        let n = other.terms.len();
        let mut i: usize = 0;
        while i < n
            invariant
                n == other.terms@.len(),
                i <= n,
                self.label@ == old(self).label@,
                self.terms@ == old(self).terms@ + other.terms@.subrange(0, i as int).map_values(
                    |t: (Fr, LCTerm)| (fr_neg_s(t.0), t.1),
                ),
            decreases n - i,
        {
            let c = fr_neg(&other.terms[i].0);
            let t = other.terms[i].1.clone();
            self.terms.push((c, t));
            proof {
                assert(other.terms@.subrange(0, i + 1 as int).map_values(
                    |t: (Fr, LCTerm)| (fr_neg_s(t.0), t.1),
                ) =~= other.terms@.subrange(0, i as int).map_values(
                    |t: (Fr, LCTerm)| (fr_neg_s(t.0), t.1),
                ).push((fr_neg_s(other.terms@[i as int].0), other.terms@[i as int].1)));
                assert(self.terms@ =~= old(self).terms@ + other.terms@.subrange(
                    0,
                    i + 1 as int,
                ).map_values(|t: (Fr, LCTerm)| (fr_neg_s(t.0), t.1)));
            }
            i = i + 1;
        }
        proof {
            assert(other.terms@.subrange(0, n as int) =~= other.terms@);
        }
    }

    /// Append a constant term.
    pub fn add_assign_constant(&mut self, coeff: Fr)
        ensures
            final(self).label@ == old(self).label@,
            final(self).terms@ == old(self).terms@.push((coeff, LCTerm::One)),
    {
        self.terms.push((coeff, LCTerm::One));
    }

    /// Append the negation of a constant term.
    pub fn sub_assign_constant(&mut self, coeff: Fr)
        ensures
            final(self).label@ == old(self).label@,
            final(self).terms@ == old(self).terms@.push((fr_neg_s(coeff), LCTerm::One)),
    {
        let neg = fr_neg(&coeff);
        self.terms.push((neg, LCTerm::One));
    }

    /// Multiply every coefficient by `coeff`.
    pub fn mul_assign(&mut self, coeff: Fr)
        ensures
            final(self).label@ == old(self).label@,
            final(self).terms@ == old(self).terms@.map_values(
                |t: (Fr, LCTerm)| (fr_mul_s(t.0, coeff), t.1),
            ),
    {
        let n = self.terms.len();
        let mut i: usize = 0;
        while i < n
            invariant
                n == self.terms@.len(),
                i <= n,
                self.label@ == old(self).label@,
                self.terms@.len() == n,
                forall|j: int|
                    i <= j < n ==> self.terms@[j] == old(self).terms@[j],
                forall|j: int|
                    0 <= j < i ==> self.terms@[j] == (
                        fr_mul_s(old(self).terms@[j].0, coeff),
                        old(self).terms@[j].1,
                    ),
            decreases n - i,
        {
            let c = fr_mul(&self.terms[i].0, &coeff);
            self.terms[i].0 = c;
            i = i + 1;
        }
        proof {
            assert(self.terms@ =~= old(self).terms@.map_values(
                |t: (Fr, LCTerm)| (fr_mul_s(t.0, coeff), t.1),
            ));
        }
    }
}

} // verus!
