//! End-to-end tests of the data structures over the real BLS12-381 curve.

use poly_commit::algebra::{
    fr_eq, fr_from_u64, fr_sub, fr_to_bytes, fr_zero, g1_double, g1_eq, g1_generator, g1_mul,
    g1_rand, g1_to_bytes, g1_zero, g2_generator, g2_prepare, g2_prepared_to_bytes, g2_rand,
    g2_to_bytes, poly_add, poly_degree, poly_eq, poly_from_coeffs, rng_from_seed, Fr, G1Affine,
};
use poly_commit::kzg10;
use poly_commit::{
    LCTerm, LabeledPolynomial, LinearCombination, PCCommitment, PCProof, PCRandomness,
    PCUniversalParams,
};
use std::collections::BTreeMap;

fn fr(x: u64) -> Fr {
    fr_from_u64(x)
}

fn sample_g1(seed: u64) -> G1Affine {
    let mut rng = rng_from_seed(seed);
    g1_rand(&mut rng)
}

#[test]
fn lcterm_is_one_and_eq() {
    let one = LCTerm::One;
    assert!(one.is_one());
    assert!(!one.eq(&String::from("a")));
    let t = LCTerm::PolyLabel(String::from("a"));
    assert!(!t.is_one());
    assert!(t.eq(&String::from("a")));
    assert!(!t.eq(&String::from("b")));
    assert_eq!(one.try_into(), Err(()));
    assert_eq!(t.try_into(), Ok(String::from("a")));
    let from_label: LCTerm = LCTerm::from(String::from("w"));
    assert_eq!(from_label, LCTerm::PolyLabel(String::from("w")));
    let from_str: LCTerm = LCTerm::from("v");
    assert_eq!(from_str, LCTerm::PolyLabel(String::from("v")));
}

#[test]
fn linear_combination_push_and_label() {
    let mut lc = LinearCombination::empty(String::from("lc"));
    assert_eq!(lc.label().as_str(), "lc");
    assert!(lc.is_empty());
    lc.push((fr(3), LCTerm::PolyLabel(String::from("p"))));
    assert!(!lc.is_empty());
    assert_eq!(lc.terms.len(), 1);
    assert!(fr_eq(&lc.terms[0].0, &fr(3)));

    let lc2 = LinearCombination::new(
        String::from("lc2"),
        vec![(fr(1), LCTerm::One), (fr(2), LCTerm::PolyLabel(String::from("q")))],
    );
    assert_eq!(lc2.terms.len(), 2);
    assert!(lc2.terms[0].1.is_one());
}

#[test]
fn linear_combination_arithmetic() {
    let mut lc = LinearCombination::new(
        String::from("a"),
        vec![(fr(3), LCTerm::PolyLabel(String::from("p")))],
    );
    lc.mul_assign(fr(2));
    assert!(fr_eq(&lc.terms[0].0, &fr(6)));

    let other = LinearCombination::new(
        String::from("b"),
        vec![(fr(5), LCTerm::PolyLabel(String::from("q")))],
    );
    lc.add_assign_scaled(fr(4), &other);
    assert_eq!(lc.terms.len(), 2);
    assert!(fr_eq(&lc.terms[1].0, &fr(20)));

    lc.add_assign(&other);
    assert_eq!(lc.terms.len(), 3);
    assert!(fr_eq(&lc.terms[2].0, &fr(5)));

    lc.sub_assign(&other);
    assert_eq!(lc.terms.len(), 4);
    let minus_five = fr_sub(&fr(0), &fr(5));
    assert!(fr_eq(&lc.terms[3].0, &minus_five));

    lc.add_assign_constant(fr(7));
    assert!(lc.terms[4].1.is_one());
    assert!(fr_eq(&lc.terms[4].0, &fr(7)));

    lc.sub_assign_constant(fr(7));
    let minus_seven = fr_sub(&fr(0), &fr(7));
    assert!(fr_eq(&lc.terms[5].0, &minus_seven));

    lc.sub_assign_scaled(fr(2), &other);
    let minus_ten = fr_sub(&fr(0), &fr(10));
    assert!(fr_eq(&lc.terms[6].0, &minus_ten));
}

#[test]
fn labeled_polynomial_basics() {
    let p = poly_from_coeffs(vec![fr(3), fr(5), fr(7)]);
    let lp = LabeledPolynomial::new(String::from("p"), p, Some(4), Some(1));
    assert_eq!(lp.label().as_str(), "p");
    assert_eq!(lp.degree(), 2);
    assert_eq!(lp.degree_bound(), Some(4));
    assert_eq!(lp.hiding_bound(), Some(1));
    assert!(lp.is_hiding());
    // p(2) = 3 + 10 + 28 = 41
    assert!(fr_eq(&lp.evaluate(&fr(2)), &fr(41)));
    assert!(!fr_eq(&lp.evaluate(&fr(2)), &fr(40)));
    assert!(!lp.is_zero());

    let z = LabeledPolynomial::zero();
    assert!(z.is_zero());
    assert!(!z.is_hiding());
}

#[test]
fn labeled_polynomial_add() {
    let p = LabeledPolynomial::new(
        String::from("p"),
        poly_from_coeffs(vec![fr(3), fr(5)]),
        None,
        None,
    );
    let q = LabeledPolynomial::new(
        String::from("q"),
        poly_from_coeffs(vec![fr(1), fr(1)]),
        None,
        None,
    );
    let sum = p.add(q);
    assert_eq!(sum.label().as_str(), "q");
    // (3 + 5 X) + (1 + X) at 2 is 16.
    assert!(fr_eq(&sum.evaluate(&fr(2)), &fr(16)));
}

#[test]
fn labeled_polynomial_share_round_trip() {
    let mut rng = rng_from_seed(7);
    let lp = LabeledPolynomial::new(
        String::from("p"),
        poly_from_coeffs(vec![fr(3), fr(5), fr(7)]),
        Some(3),
        None,
    );
    let shares = lp.share(4, &mut rng);
    assert_eq!(shares.len(), 4);
    for s in &shares {
        assert_eq!(s.label().as_str(), "p");
        assert_eq!(s.degree_bound(), Some(3));
    }
    let mut sum = shares[0].polynomial().clone();
    for s in &shares[1..] {
        sum = poly_add(&sum, s.polynomial());
    }
    assert!(poly_eq(&sum, lp.polynomial()));
    assert!(!poly_eq(shares[0].polynomial(), shares[1].polynomial()));
}

#[test]
fn commitment_add_and_scaled_add() {
    let g = g1_generator();
    let a = kzg10::Commitment(g1_mul(&fr(5), &g));
    let b = kzg10::Commitment(g1_mul(&fr(9), &g));
    let sum = a.add(b);
    assert!(g1_eq(&sum.0, &g1_mul(&fr(14), &g)));

    let mut c = a;
    c.add_assign(&b);
    assert!(g1_eq(&c.0, &sum.0));

    // a + 3 * b == (5 + 27) * g
    let mut d = a;
    d.add_assign_scaled(fr(3), &b);
    assert!(g1_eq(&d.0, &g1_mul(&fr(32), &g)));
}

#[test]
fn commitment_zero_and_empty() {
    let z = kzg10::Commitment::zero();
    assert!(z.is_zero());
    let e = <kzg10::Commitment as PCCommitment>::empty();
    assert!(e.is_zero());
    assert!(!e.has_degree_bound());
    let g = kzg10::Commitment(g1_generator());
    assert!(!g.is_zero());
    // adding the identity changes nothing
    assert!(g1_eq(&g.add(z).0, &g1_generator()));
}

#[test]
fn commitment_share_round_trip() {
    let mut rng = rng_from_seed(11);
    let c = kzg10::Commitment(g1_mul(&fr(123), &g1_generator()));
    for num in [2usize, 5] {
        let shares = c.share(num, &mut rng);
        assert_eq!(shares.len(), num);
        let sum = kzg10::Commitment::reconstruct(&shares);
        assert!(g1_eq(&sum.0, &c.0));
        assert!(!g1_eq(&shares[0].0, &shares[1].0));
        assert!(!g1_eq(&shares[0].0, &c.0));
    }
}

#[test]
fn proof_add_homomorphism() {
    let g = g1_generator();
    let p1 = kzg10::Proof { w: g1_mul(&fr(4), &g), random_v: Some(fr(3)) };
    let p2 = kzg10::Proof { w: g1_mul(&fr(6), &g), random_v: Some(fr(9)) };
    let sum = p1.add(p2);
    assert!(g1_eq(&sum.w, &g1_mul(&fr(10), &g)));
    assert!(fr_eq(&sum.random_v.unwrap(), &fr(12)));

    let p3 = kzg10::Proof { w: g, random_v: None };
    let p4 = kzg10::Proof { w: g, random_v: Some(fr(2)) };
    let sum2 = p3.add(p4);
    assert!(g1_eq(&sum2.w, &g1_double(&g)));
    assert!(fr_eq(&sum2.random_v.unwrap(), &fr(2)));
}

#[test]
fn proof_zero_and_is_zero() {
    let z = kzg10::Proof::zero();
    assert!(z.is_zero());
    assert!(z.random_v.is_none());
    let almost = kzg10::Proof { w: g1_zero(), random_v: Some(fr_zero()) };
    assert!(almost.is_zero());
    let not = kzg10::Proof { w: g1_zero(), random_v: Some(fr(1)) };
    assert!(!not.is_zero());
}

#[test]
fn proof_share_round_trip_hiding() {
    let mut rng = rng_from_seed(13);
    let p = kzg10::Proof { w: g1_mul(&fr(77), &g1_generator()), random_v: Some(fr(55)) };
    let shares = p.share(3, &mut rng);
    assert_eq!(shares.len(), 3);
    assert!(shares.iter().all(|s| s.random_v.is_some()));
    let sum = kzg10::Proof::reconstruct(&shares);
    assert!(g1_eq(&sum.w, &p.w));
    assert!(fr_eq(&sum.random_v.unwrap(), &fr(55)));
}

#[test]
fn proof_share_round_trip_non_hiding() {
    let mut rng = rng_from_seed(14);
    let p = kzg10::Proof { w: g1_mul(&fr(42), &g1_generator()), random_v: None };
    let shares = p.share(2, &mut rng);
    assert_eq!(shares.len(), 2);
    assert!(shares.iter().all(|s| s.random_v.is_none()));
    let sum = shares[0].add(shares[1]);
    assert!(g1_eq(&sum.w, &p.w));
}

#[test]
fn randomness_rand_and_hiding() {
    let mut rng = rng_from_seed(15);
    let r = <kzg10::Randomness as PCRandomness>::rand(2, false, None, &mut rng);
    assert!(poly_degree(&r.blinding_polynomial) <= 3);
    assert!(r.is_hiding());
    let e = <kzg10::Randomness as PCRandomness>::empty();
    assert!(!e.is_hiding());
    assert!(e.is_zero());
    assert_eq!(kzg10::Randomness::calculate_hiding_polynomial_degree(4), 5);
}

#[test]
fn randomness_add_and_share() {
    let mut rng = rng_from_seed(16);
    let a = kzg10::Randomness { blinding_polynomial: poly_from_coeffs(vec![fr(1), fr(2)]) };
    let b = kzg10::Randomness { blinding_polynomial: poly_from_coeffs(vec![fr(3), fr(4)]) };
    let sum = a.clone().add(&b);
    let expected = poly_from_coeffs(vec![fr(4), fr(6)]);
    assert!(poly_eq(&sum.blinding_polynomial, &expected));

    let scaled = a.clone().add_scaled(fr(2), &b);
    let expected_scaled = poly_from_coeffs(vec![fr(7), fr(10)]);
    assert!(poly_eq(&scaled.blinding_polynomial, &expected_scaled));

    let shares = a.share(3, &mut rng);
    assert_eq!(shares.len(), 3);
    let total = kzg10::Randomness::reconstruct(&shares);
    assert!(poly_eq(&total.blinding_polynomial, &poly_from_coeffs(vec![fr(1), fr(2)])));
}

#[test]
fn kzg10_byte_serialization() {
    let g = g1_generator();
    let gb = g1_to_bytes(&g);
    assert_eq!(gb.len(), 97);
    assert_ne!(gb, g1_to_bytes(&g1_double(&g)));

    let c = kzg10::Commitment(g);
    let mut out = Vec::new();
    c.write(&mut out);
    assert_eq!(out, gb);
    assert_eq!(c.size_in_bytes(), 48);

    let p = kzg10::Proof { w: g, random_v: None };
    let mut pb = Vec::new();
    p.write(&mut pb);
    let mut expected = gb.clone();
    expected.extend_from_slice(&fr_to_bytes(&fr_zero()));
    assert_eq!(pb, expected);
    assert_eq!(p.size_in_bytes(), 48);

    let hp = kzg10::Proof { w: g, random_v: Some(fr(6)) };
    let mut hb = Vec::new();
    hp.write(&mut hb);
    let mut expected_h = gb.clone();
    expected_h.extend_from_slice(&fr_to_bytes(&fr(6)));
    assert_eq!(hb, expected_h);
    assert_eq!(hp.size_in_bytes(), 80);
}

#[test]
fn kzg10_verifier_key_write() {
    let mut rng = rng_from_seed(17);
    let h = g2_generator();
    let beta_h = g2_rand(&mut rng);
    let vk = kzg10::VerifierKey {
        g: g1_generator(),
        gamma_g: sample_g1(18),
        h,
        beta_h,
        prepared_h: g2_prepare(&h),
        prepared_beta_h: g2_prepare(&beta_h),
    };
    let mut out = Vec::new();
    vk.write(&mut out);
    let mut expected = Vec::new();
    expected.extend_from_slice(&g1_to_bytes(&vk.g));
    expected.extend_from_slice(&g1_to_bytes(&vk.gamma_g));
    expected.extend_from_slice(&g2_to_bytes(&vk.h));
    expected.extend_from_slice(&g2_to_bytes(&vk.beta_h));
    expected.extend_from_slice(&g2_prepared_to_bytes(&vk.prepared_h));
    expected.extend_from_slice(&g2_prepared_to_bytes(&vk.prepared_beta_h));
    assert_eq!(out, expected);
}

#[test]
fn prepared_tables_are_doublings() {
    let mut rng = rng_from_seed(19);
    let h = g2_generator();
    let vk = kzg10::VerifierKey {
        g: g1_generator(),
        gamma_g: sample_g1(20),
        h,
        beta_h: g2_rand(&mut rng),
        prepared_h: g2_prepare(&h),
        prepared_beta_h: g2_prepare(&h),
    };
    let pvk = kzg10::PreparedVerifierKey::prepare(&vk);
    assert_eq!(pvk.prepared_g.len(), 255);
    assert!(g1_eq(&pvk.prepared_g[0], &vk.g));
    assert!(g1_eq(&pvk.prepared_g[1], &g1_double(&vk.g)));
    assert!(g1_eq(&pvk.prepared_g[8], &g1_mul(&fr(256), &vk.g)));

    let c = kzg10::Commitment(g1_mul(&fr(3), &g1_generator()));
    let pc = kzg10::PreparedCommitment::prepare(&c);
    assert_eq!(pc.0.len(), 255);
    assert!(g1_eq(&pc.0[0], &c.0));
    assert!(g1_eq(&pc.0[4], &g1_mul(&fr(48), &g1_generator())));
}

#[test]
fn universal_params_max_degree() {
    let mut rng = rng_from_seed(21);
    let h = g2_generator();
    let pp = kzg10::UniversalParams {
        powers_of_g: vec![g1_generator(), sample_g1(22), sample_g1(23)],
        powers_of_gamma_g: BTreeMap::new(),
        h,
        beta_h: g2_rand(&mut rng),
        prepared_neg_powers_of_h: BTreeMap::new(),
        prepared_h: g2_prepare(&h),
        prepared_beta_h: g2_prepare(&h),
    };
    assert_eq!(pp.max_degree(), 2);
}
