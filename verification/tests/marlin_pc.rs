//! Tests of the degree-bound variant: key windows, shift-power lookup,
//! paired commitments and randomness, and their serialization.

use poly_commit::algebra::{
    fr_from_u64, fr_to_bytes, g1_add, g1_eq, g1_generator, g1_mul, g1_rand, g1_serialize,
    g1_serialize_uncompressed, g1_to_bytes, g1_zero, g2_generator, g2_prepare, poly_eq,
    poly_from_coeffs, poly_serialize, rng_from_seed, Fr, G1Affine,
};
use poly_commit::kzg10;
use poly_commit::marlin_pc::{
    usize_to_le_bytes, Commitment, CommitterKey, PreparedCommitment, PreparedVerifierKey,
    Randomness, VerifierKey,
};
use poly_commit::{
    LabeledCommitment, PCCommitment, PCCommitterKey, PCPreparedCommitment,
    PCPreparedVerifierKey, PCRandomness, PCVerifierKey,
};

fn fr(x: u64) -> Fr {
    fr_from_u64(x)
}

fn gen_mul(x: u64) -> G1Affine {
    g1_mul(&fr(x), &g1_generator())
}

fn sample_kzg_vk(seed: u64) -> kzg10::VerifierKey {
    let mut rng = rng_from_seed(seed);
    let h = g2_generator();
    kzg10::VerifierKey {
        g: g1_generator(),
        gamma_g: g1_rand(&mut rng),
        h,
        beta_h: h,
        prepared_h: g2_prepare(&h),
        prepared_beta_h: g2_prepare(&h),
    }
}

#[test]
fn usize_le_bytes_layout() {
    assert_eq!(usize_to_le_bytes(1), vec![1, 0, 0, 0, 0, 0, 0, 0]);
    assert_eq!(usize_to_le_bytes(0x0102), vec![2, 1, 0, 0, 0, 0, 0, 0]);
    assert_eq!((1usize).to_le_bytes().to_vec(), usize_to_le_bytes(1));
}

#[test]
fn committer_key_powers_and_windows() {
    let sp: Vec<G1Affine> = (0..6).map(|i| gen_mul(10 + i)).collect();
    let ck = CommitterKey {
        powers: vec![gen_mul(1), gen_mul(2)],
        shifted_powers: Some(sp.clone()),
        powers_of_gamma_g: vec![gen_mul(3)],
        enforced_degree_bounds: Some(vec![1, 3]),
        max_degree: 10,
    };
    assert_eq!(ck.max_degree(), 10);
    assert_eq!(ck.supported_degree(), 1);

    let powers = ck.powers();
    assert_eq!(powers.size(), 2);
    assert!(g1_eq(&powers.powers_of_g[0], &ck.powers[0]));
    assert!(g1_eq(&powers.powers_of_gamma_g[0], &ck.powers_of_gamma_g[0]));

    // bound 1: the window starts at 3 - 1 = 2
    let w1 = ck.shifted_powers(Some(1)).unwrap();
    assert_eq!(w1.powers_of_g.len(), 4);
    assert!(g1_eq(&w1.powers_of_g[0], &sp[2]));
    assert!(g1_eq(&w1.powers_of_g[3], &sp[5]));

    // bound 3 is the largest: the window is the whole list
    let w3 = ck.shifted_powers(Some(3)).unwrap();
    assert_eq!(w3.powers_of_g.len(), 6);
    assert!(g1_eq(&w3.powers_of_g[0], &sp[0]));

    // no bound: the whole list as well
    let wn = ck.shifted_powers(None).unwrap();
    assert_eq!(wn.powers_of_g.len(), 6);

    let bare = CommitterKey {
        powers: vec![gen_mul(1)],
        shifted_powers: None,
        powers_of_gamma_g: vec![],
        enforced_degree_bounds: None,
        max_degree: 5,
    };
    assert!(bare.shifted_powers(None).is_none());
}

#[test]
fn verifier_key_shift_power_lookup() {
    let vk = VerifierKey {
        vk: sample_kzg_vk(31),
        degree_bounds_and_shift_powers: Some(vec![
            (2, gen_mul(20)),
            (5, gen_mul(21)),
            (9, gen_mul(22)),
        ]),
        max_degree: 16,
        supported_degree: 10,
    };
    assert_eq!(vk.max_degree(), 16);
    assert_eq!(vk.supported_degree(), 10);
    assert!(g1_eq(&vk.get_shift_power(2).unwrap(), &gen_mul(20)));
    assert!(g1_eq(&vk.get_shift_power(5).unwrap(), &gen_mul(21)));
    assert!(g1_eq(&vk.get_shift_power(9).unwrap(), &gen_mul(22)));
    assert!(vk.get_shift_power(4).is_none());
    assert!(vk.get_shift_power(10).is_none());

    let plain = VerifierKey {
        vk: sample_kzg_vk(32),
        degree_bounds_and_shift_powers: None,
        max_degree: 16,
        supported_degree: 10,
    };
    assert!(plain.get_shift_power(2).is_none());
}

#[test]
fn verifier_key_write_layout() {
    let vk = VerifierKey {
        vk: sample_kzg_vk(33),
        degree_bounds_and_shift_powers: Some(vec![(2, gen_mul(20)), (5, gen_mul(21))]),
        max_degree: 16,
        supported_degree: 10,
    };
    let mut out = Vec::new();
    vk.write(&mut out);

    let mut expected = Vec::new();
    vk.vk.write(&mut expected);
    expected.extend_from_slice(&usize_to_le_bytes(2));
    expected.extend_from_slice(&usize_to_le_bytes(2));
    expected.extend_from_slice(&g1_to_bytes(&gen_mul(20)));
    expected.extend_from_slice(&usize_to_le_bytes(5));
    expected.extend_from_slice(&g1_to_bytes(&gen_mul(21)));
    expected.extend_from_slice(&usize_to_le_bytes(10));
    expected.extend_from_slice(&usize_to_le_bytes(16));
    assert_eq!(out, expected);
}

#[test]
fn prepared_verifier_key_tables() {
    let vk = VerifierKey {
        vk: sample_kzg_vk(34),
        degree_bounds_and_shift_powers: Some(vec![(3, gen_mul(7))]),
        max_degree: 16,
        supported_degree: 10,
    };
    let pvk = PreparedVerifierKey::prepare(&vk);
    assert_eq!(pvk.max_degree, 16);
    assert_eq!(pvk.supported_degree, 10);
    let tables = pvk.prepared_degree_bounds_and_shift_powers.unwrap();
    assert_eq!(tables.len(), 1);
    assert_eq!(tables[0].0, 3);
    assert_eq!(tables[0].1.len(), 255);
    assert!(g1_eq(&tables[0].1[0], &gen_mul(7)));
    assert!(g1_eq(&tables[0].1[2], &gen_mul(28)));
    assert_eq!(pvk.prepared_vk.prepared_g.len(), 255);
}

#[test]
fn marlin_commitment_basics() {
    let c = Commitment { comm: kzg10::Commitment(gen_mul(4)), shifted_comm: None };
    assert!(!c.has_degree_bound());
    assert_eq!(c.size_in_bytes(), 48);
    let cb = Commitment {
        comm: kzg10::Commitment(gen_mul(4)),
        shifted_comm: Some(kzg10::Commitment(gen_mul(5))),
    };
    assert!(cb.has_degree_bound());
    assert_eq!(cb.size_in_bytes(), 96);

    let e = <Commitment as PCCommitment>::empty();
    assert!(e.is_zero());
    assert!(e.has_degree_bound());
    let z = Commitment::zero();
    assert!(z.is_zero());
    assert!(!z.has_degree_bound());
}

#[test]
fn marlin_commitment_add() {
    let a = Commitment {
        comm: kzg10::Commitment(gen_mul(4)),
        shifted_comm: Some(kzg10::Commitment(gen_mul(6))),
    };
    let b = Commitment {
        comm: kzg10::Commitment(gen_mul(10)),
        shifted_comm: Some(kzg10::Commitment(gen_mul(1))),
    };
    let sum = a.add(b);
    assert!(g1_eq(&sum.comm.0, &gen_mul(14)));
    assert!(g1_eq(&sum.shifted_comm.unwrap().0, &gen_mul(7)));

    let plain = Commitment { comm: kzg10::Commitment(gen_mul(2)), shifted_comm: None };
    let sum2 = plain.add(b);
    assert!(g1_eq(&sum2.comm.0, &gen_mul(12)));
    assert!(g1_eq(&sum2.shifted_comm.unwrap().0, &gen_mul(1)));
}

#[test]
fn marlin_commitment_write_layout() {
    let with = Commitment {
        comm: kzg10::Commitment(gen_mul(4)),
        shifted_comm: Some(kzg10::Commitment(gen_mul(5))),
    };
    let mut out = Vec::new();
    with.write(&mut out);
    let mut expected = g1_to_bytes(&gen_mul(4));
    expected.push(1u8);
    expected.extend_from_slice(&g1_to_bytes(&gen_mul(5)));
    assert_eq!(out, expected);

    let without = Commitment { comm: kzg10::Commitment(gen_mul(4)), shifted_comm: None };
    let mut out2 = Vec::new();
    without.write(&mut out2);
    let mut expected2 = g1_to_bytes(&gen_mul(4));
    expected2.push(0u8);
    expected2.extend_from_slice(&g1_to_bytes(&g1_zero()));
    assert_eq!(out2, expected2);
}

#[test]
fn marlin_commitment_share_round_trip() {
    let mut rng = rng_from_seed(41);
    let c = Commitment {
        comm: kzg10::Commitment(gen_mul(30)),
        shifted_comm: Some(kzg10::Commitment(gen_mul(40))),
    };
    let shares = c.share(3, &mut rng);
    assert_eq!(shares.len(), 3);
    assert!(shares.iter().all(|s| s.shifted_comm.is_some()));
    let sum = Commitment::reconstruct(&shares);
    assert!(g1_eq(&sum.comm.0, &gen_mul(30)));
    assert!(g1_eq(&sum.shifted_comm.unwrap().0, &gen_mul(40)));

    let plain = Commitment { comm: kzg10::Commitment(gen_mul(8)), shifted_comm: None };
    let pshares = plain.share(2, &mut rng);
    assert!(pshares.iter().all(|s| s.shifted_comm.is_none()));
    let psum = Commitment::reconstruct(&pshares);
    assert!(psum.shifted_comm.is_none());
    assert!(g1_eq(&psum.comm.0, &gen_mul(8)));
}

#[test]
fn prepared_commitment_table() {
    let c = Commitment {
        comm: kzg10::Commitment(gen_mul(3)),
        shifted_comm: Some(kzg10::Commitment(gen_mul(9))),
    };
    let pc = PreparedCommitment::prepare(&c);
    assert_eq!(pc.prepared_comm.0.len(), 255);
    assert!(g1_eq(&pc.prepared_comm.0[0], &gen_mul(3)));
    assert!(g1_eq(&pc.prepared_comm.0[1], &gen_mul(6)));
    assert!(g1_eq(&pc.shifted_comm.unwrap().0, &gen_mul(9)));
}

#[test]
fn marlin_randomness_combinations() {
    let ra = Randomness {
        rand: kzg10::Randomness { blinding_polynomial: poly_from_coeffs(vec![fr(1)]) },
        shifted_rand: Some(kzg10::Randomness {
            blinding_polynomial: poly_from_coeffs(vec![fr(2)]),
        }),
    };
    let rb = Randomness {
        rand: kzg10::Randomness { blinding_polynomial: poly_from_coeffs(vec![fr(10)]) },
        shifted_rand: None,
    };

    // both parts present in self, absent shifted counts as zero
    let s1 = ra.clone().add(&rb);
    assert!(poly_eq(&s1.rand.blinding_polynomial, &poly_from_coeffs(vec![fr(11)])));
    assert!(poly_eq(
        &s1.shifted_rand.unwrap().blinding_polynomial,
        &poly_from_coeffs(vec![fr(2)]),
    ));

    // absent in self, present in other
    let s2 = rb.clone().add(&ra);
    assert!(poly_eq(
        &s2.shifted_rand.unwrap().blinding_polynomial,
        &poly_from_coeffs(vec![fr(2)]),
    ));

    // scaled: rb + 3 * ra
    let s3 = rb.clone().add_scaled(fr(3), &ra);
    assert!(poly_eq(&s3.rand.blinding_polynomial, &poly_from_coeffs(vec![fr(13)])));
    assert!(poly_eq(
        &s3.shifted_rand.unwrap().blinding_polynomial,
        &poly_from_coeffs(vec![fr(6)]),
    ));

    let z = Randomness::zero();
    assert!(z.is_zero());
    assert!(!ra.is_zero());
}

#[test]
fn marlin_randomness_rand_and_share() {
    let mut rng = rng_from_seed(51);
    let bounded = <Randomness as PCRandomness>::rand(2, true, None, &mut rng);
    assert!(bounded.shifted_rand.is_some());
    let unbounded = <Randomness as PCRandomness>::rand(2, false, None, &mut rng);
    assert!(unbounded.shifted_rand.is_none());

    let shares = bounded.share(3, &mut rng);
    assert_eq!(shares.len(), 3);
    assert!(shares.iter().all(|s| s.shifted_rand.is_some()));
    let sum = Randomness::reconstruct(&shares);
    assert!(poly_eq(&sum.rand.blinding_polynomial, &bounded.rand.blinding_polynomial));
    assert!(poly_eq(
        &sum.shifted_rand.unwrap().blinding_polynomial,
        &bounded.shifted_rand.unwrap().blinding_polynomial,
    ));
}

#[test]
fn marlin_randomness_serialization() {
    let r = Randomness {
        rand: kzg10::Randomness { blinding_polynomial: poly_from_coeffs(vec![fr(1), fr(2)]) },
        shifted_rand: Some(kzg10::Randomness {
            blinding_polynomial: poly_from_coeffs(vec![fr(3)]),
        }),
    };
    let mut out = Vec::new();
    r.serialize(&mut out);
    let mut expected = poly_serialize(&poly_from_coeffs(vec![fr(1), fr(2)]));
    expected.push(1u8);
    expected.extend_from_slice(&poly_serialize(&poly_from_coeffs(vec![fr(3)])));
    assert_eq!(out, expected);
    assert_eq!(r.serialized_size(), out.len());

    let mut unc = Vec::new();
    r.serialize_uncompressed(&mut unc);
    assert_eq!(r.uncompressed_size(), unc.len());
}

#[test]
fn committer_key_serialization() {
    let ck = CommitterKey {
        powers: vec![gen_mul(1), gen_mul(2)],
        shifted_powers: Some(vec![gen_mul(3)]),
        powers_of_gamma_g: vec![gen_mul(4)],
        enforced_degree_bounds: Some(vec![0]),
        max_degree: 7,
    };
    let mut out = Vec::new();
    ck.serialize(&mut out);

    let mut expected = Vec::new();
    expected.extend_from_slice(&usize_to_le_bytes(2));
    expected.extend_from_slice(&g1_serialize_uncompressed(&gen_mul(1)));
    expected.extend_from_slice(&g1_serialize_uncompressed(&gen_mul(2)));
    expected.push(1u8);
    expected.extend_from_slice(&usize_to_le_bytes(1));
    expected.extend_from_slice(&g1_serialize(&gen_mul(3)));
    expected.extend_from_slice(&usize_to_le_bytes(1));
    expected.extend_from_slice(&g1_serialize_uncompressed(&gen_mul(4)));
    expected.push(1u8);
    expected.extend_from_slice(&usize_to_le_bytes(1));
    expected.extend_from_slice(&usize_to_le_bytes(0));
    expected.extend_from_slice(&usize_to_le_bytes(7));
    assert_eq!(out, expected);
    assert_eq!(ck.serialized_size(), out.len());

    let mut unc = Vec::new();
    ck.serialize_uncompressed(&mut unc);
    assert_eq!(ck.uncompressed_size(), unc.len());
    // the only difference is the shifted list's element form
    assert_ne!(out, unc);
}

#[test]
fn labeled_commitment_operations() {
    let mut rng = rng_from_seed(61);
    let c = Commitment {
        comm: kzg10::Commitment(gen_mul(12)),
        shifted_comm: Some(kzg10::Commitment(gen_mul(13))),
    };
    let lc = LabeledCommitment::new(String::from("c"), c, Some(3));
    assert_eq!(lc.label().as_str(), "c");
    assert_eq!(lc.degree_bound(), Some(3));
    assert!(g1_eq(&lc.commitment().comm.0, &gen_mul(12)));

    let shares = lc.share(2, &mut rng);
    assert_eq!(shares.len(), 2);
    for s in &shares {
        assert_eq!(s.label().as_str(), "c");
        assert_eq!(s.degree_bound(), Some(3));
    }
    let sum = g1_add(&shares[0].commitment().comm.0, &shares[1].commitment().comm.0);
    assert!(g1_eq(&sum, &gen_mul(12)));

    let mut out = Vec::new();
    lc.write(&mut out);
    let mut expected = Vec::new();
    lc.commitment().write(&mut expected);
    assert_eq!(out, expected);

    let other = LabeledCommitment::new(
        String::from("d"),
        Commitment {
            comm: kzg10::Commitment(gen_mul(1)),
            shifted_comm: Some(kzg10::Commitment(gen_mul(2))),
        },
        Some(4),
    );
    let combined = lc.add(other);
    assert_eq!(combined.label().as_str(), "d");
    assert_eq!(combined.degree_bound(), Some(4));
    assert!(g1_eq(&combined.commitment().comm.0, &gen_mul(13)));

    let z = LabeledCommitment::<Commitment>::zero();
    assert_eq!(z.label().as_str(), "");
    assert!(z.commitment().is_zero());
}

#[test]
fn kzg10_randomness_deserialize_round_trip() {
    let r = kzg10::Randomness { blinding_polynomial: poly_from_coeffs(vec![fr(1), fr(2), fr(3)]) };
    let mut bytes = Vec::new();
    r.serialize(&mut bytes);
    bytes.push(0xAB);
    let (back, rest) = kzg10::Randomness::deserialize(&bytes).unwrap();
    assert!(poly_eq(&back.blinding_polynomial, &r.blinding_polynomial));
    assert_eq!(rest, vec![0xAB]);

    let truncated = vec![5u8, 0, 0];
    assert!(kzg10::Randomness::deserialize(&truncated).is_err());
}

#[test]
fn marlin_randomness_deserialize_round_trip() {
    let with = Randomness {
        rand: kzg10::Randomness { blinding_polynomial: poly_from_coeffs(vec![fr(1), fr(2)]) },
        shifted_rand: Some(kzg10::Randomness {
            blinding_polynomial: poly_from_coeffs(vec![fr(9)]),
        }),
    };
    let mut bytes = Vec::new();
    with.serialize(&mut bytes);
    let (back, rest) = Randomness::deserialize(&bytes).unwrap();
    assert!(poly_eq(&back.rand.blinding_polynomial, &with.rand.blinding_polynomial));
    assert!(poly_eq(
        &back.shifted_rand.unwrap().blinding_polynomial,
        &with.shifted_rand.as_ref().unwrap().blinding_polynomial,
    ));
    assert!(rest.is_empty());

    let without = Randomness {
        rand: kzg10::Randomness { blinding_polynomial: poly_from_coeffs(vec![fr(4)]) },
        shifted_rand: None,
    };
    let mut bytes2 = Vec::new();
    without.serialize(&mut bytes2);
    let (back2, rest2) = Randomness::deserialize(&bytes2).unwrap();
    assert!(back2.shifted_rand.is_none());
    assert!(poly_eq(&back2.rand.blinding_polynomial, &without.rand.blinding_polynomial));
    assert!(rest2.is_empty());

    // a flag byte that is neither 0 nor 1 is rejected
    let bad_tag = bytes2.len() - 1;
    let mut bad = bytes2.clone();
    bad[bad_tag] = 7;
    assert!(Randomness::deserialize(&bad).is_err());
}

#[test]
fn committer_key_deserialize_round_trip() {
    let ck = CommitterKey {
        powers: vec![gen_mul(1), gen_mul(2)],
        shifted_powers: Some(vec![gen_mul(3), gen_mul(4), gen_mul(5)]),
        powers_of_gamma_g: vec![gen_mul(6)],
        enforced_degree_bounds: Some(vec![0, 2]),
        max_degree: 9,
    };
    let mut bytes = Vec::new();
    ck.serialize(&mut bytes);
    bytes.push(0x77);
    let (back, rest) = CommitterKey::deserialize(&bytes).unwrap();
    assert_eq!(back.powers.len(), 2);
    assert!(g1_eq(&back.powers[0], &ck.powers[0]));
    assert!(g1_eq(&back.powers[1], &ck.powers[1]));
    let shifted = back.shifted_powers.unwrap();
    assert_eq!(shifted.len(), 3);
    assert!(g1_eq(&shifted[2], &gen_mul(5)));
    assert_eq!(back.powers_of_gamma_g.len(), 1);
    assert!(g1_eq(&back.powers_of_gamma_g[0], &gen_mul(6)));
    assert_eq!(back.enforced_degree_bounds, Some(vec![0, 2]));
    assert_eq!(back.max_degree, 9);
    assert_eq!(rest, vec![0x77]);

    let plain = CommitterKey {
        powers: vec![gen_mul(8)],
        shifted_powers: None,
        powers_of_gamma_g: vec![],
        enforced_degree_bounds: None,
        max_degree: 4,
    };
    let mut bytes2 = Vec::new();
    plain.serialize(&mut bytes2);
    let (back2, rest2) = CommitterKey::deserialize(&bytes2).unwrap();
    assert!(back2.shifted_powers.is_none());
    assert!(back2.enforced_degree_bounds.is_none());
    assert_eq!(back2.max_degree, 4);
    assert!(rest2.is_empty());

    assert!(CommitterKey::deserialize(&vec![1u8, 2, 3]).is_err());
}

#[test]
fn serialization_lengths_and_layout() {
    let g = g1_generator();
    assert_eq!(g1_serialize(&g).len(), 48);
    assert_eq!(g1_serialize_uncompressed(&g).len(), 96);
    assert_ne!(g1_serialize(&g), g1_serialize(&gen_mul(2)));

    // a one-coefficient polynomial: an eight-byte count, then the scalar
    let p = poly_from_coeffs(vec![fr(5)]);
    let mut expected = usize_to_le_bytes(1);
    expected.extend_from_slice(&fr_to_bytes(&fr(5)));
    assert_eq!(poly_serialize(&p), expected);
}

#[test]
fn labeled_commitment_is_zero() {
    let z = LabeledCommitment::<Commitment>::zero();
    assert!(z.is_zero());
    let nz = LabeledCommitment::new(
        String::from("c"),
        Commitment { comm: kzg10::Commitment(gen_mul(2)), shifted_comm: None },
        None,
    );
    assert!(!nz.is_zero());

    let kz = LabeledCommitment::<kzg10::Commitment>::zero();
    assert!(kz.is_zero());
    let knz = LabeledCommitment::new(String::from("k"), kzg10::Commitment(gen_mul(3)), None);
    assert!(!knz.is_zero());
}

#[test]
fn randomness_mode_round_trips() {
    let r = kzg10::Randomness { blinding_polynomial: poly_from_coeffs(vec![fr(2), fr(9)]) };
    let mut unc = Vec::new();
    r.serialize_uncompressed(&mut unc);
    let (back, rest) = kzg10::Randomness::deserialize_uncompressed(&unc).unwrap();
    assert!(poly_eq(&back.blinding_polynomial, &r.blinding_polynomial));
    assert!(rest.is_empty());

    let mut unch = Vec::new();
    r.serialize_unchecked(&mut unch);
    assert_eq!(unc, unch);
    let (back2, _) = kzg10::Randomness::deserialize_unchecked(&unch).unwrap();
    assert!(poly_eq(&back2.blinding_polynomial, &r.blinding_polynomial));

    let m = Randomness {
        rand: kzg10::Randomness { blinding_polynomial: poly_from_coeffs(vec![fr(4)]) },
        shifted_rand: Some(kzg10::Randomness {
            blinding_polynomial: poly_from_coeffs(vec![fr(6), fr(7)]),
        }),
    };
    let mut munc = Vec::new();
    m.serialize_uncompressed(&mut munc);
    let (mback, mrest) = Randomness::deserialize_uncompressed(&munc).unwrap();
    assert!(poly_eq(&mback.rand.blinding_polynomial, &m.rand.blinding_polynomial));
    assert!(poly_eq(
        &mback.shifted_rand.unwrap().blinding_polynomial,
        &m.shifted_rand.as_ref().unwrap().blinding_polynomial,
    ));
    assert!(mrest.is_empty());

    let mut munch = Vec::new();
    m.serialize_unchecked(&mut munch);
    assert_eq!(munc, munch);
    let (mback2, _) = Randomness::deserialize_unchecked(&munch).unwrap();
    assert!(mback2.shifted_rand.is_some());
}

#[test]
fn committer_key_mode_round_trips() {
    let ck = CommitterKey {
        powers: vec![gen_mul(1), gen_mul(2)],
        shifted_powers: Some(vec![gen_mul(3)]),
        powers_of_gamma_g: vec![gen_mul(4)],
        enforced_degree_bounds: Some(vec![0]),
        max_degree: 7,
    };
    let mut unc = Vec::new();
    ck.serialize_uncompressed(&mut unc);

    let (b1, r1) = CommitterKey::deserialize_uncompressed(&unc).unwrap();
    assert!(g1_eq(&b1.powers[1], &gen_mul(2)));
    assert!(g1_eq(&b1.shifted_powers.unwrap()[0], &gen_mul(3)));
    assert_eq!(b1.max_degree, 7);
    assert!(r1.is_empty());

    let (b2, r2) = CommitterKey::deserialize_unchecked(&unc).unwrap();
    assert!(g1_eq(&b2.powers[0], &gen_mul(1)));
    assert!(g1_eq(&b2.powers_of_gamma_g[0], &gen_mul(4)));
    assert_eq!(b2.enforced_degree_bounds, Some(vec![0]));
    assert!(r2.is_empty());

    // the compressed layout is not accepted by the uncompressed readers
    let mut comp = Vec::new();
    ck.serialize(&mut comp);
    assert_ne!(comp, unc);
}
