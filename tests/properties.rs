use curve25519_dalek::constants::RISTRETTO_BASEPOINT_COMPRESSED;
use curve25519_dalek::scalar::Scalar as DalekScalar;
use zkp_arith::transcript::challenge_of;
use zkp_arith::{
    decompose_number, pow_scalar, Addition, AdditionProofWithPublicParams, Comparison,
    ComparisonProofWithPublicParams, Division, DivisionWithPublicParams, Equality,
    EqualityWithPublicParams, Multiplication, MultiplicationWithPublicParams, Point, Scalar,
    Substraction, SubstractionWithPublicParams,
};

fn lib(s: DalekScalar) -> Scalar {
    Scalar { bytes: s.to_bytes() }
}

fn add_verdict(a: &Addition, b: &Addition, c: &Addition) -> bool {
    let proof = Addition::prove(a, b, c);
    Addition::verify(AdditionProofWithPublicParams {
        proof,
        a_point: a.comm.point,
        b_point: b.comm.point,
        c_point: c.comm.point,
    })
}

fn sub_verdict(a: &Substraction, b: &Substraction, c: &Substraction) -> bool {
    let proof = Substraction::prove(a, b, c);
    Substraction::verify(SubstractionWithPublicParams {
        proof,
        a_point: a.comm.point,
        b_point: b.comm.point,
        c_point: c.comm.point,
    })
}

fn mul_verdict(a: u64, b: u64, c: u64) -> bool {
    let a = Multiplication::commit(a);
    let b_comm = Multiplication::commit(b);
    let c = Multiplication::commit(c);
    let witness = Multiplication::witness(a.secret.secret, c.secret.secret, b);
    let proof = Multiplication::prove(&a, &b_comm, &c, &witness);
    Multiplication::verify(MultiplicationWithPublicParams {
        proof,
        a_point: a.comm.point,
        b_point: b_comm.comm.point,
        c_point: c.comm.point,
    })
}

fn div_verdict(a: u64, b: u64, c: u64) -> bool {
    let a = Division::commit(a);
    let b_comm = Division::commit(b);
    let c = Division::commit(c);
    let witness = Division::witness(a.secret.secret, c.secret.secret, b);
    let proof = Division::prove(&a, &b_comm, &c, &witness);
    Division::verify(DivisionWithPublicParams {
        proof,
        a_point: a.comm.point,
        b_point: b_comm.comm.point,
        c_point: c.comm.point,
    })
}

fn eq_verdict(a: u64, b: u64) -> bool {
    let a = Equality::commit(a);
    let b = Equality::commit(b);
    let c = Equality::commit_c_witness(a.secret.secret, b.secret.secret);
    let proof = Equality::prove(&a, &b, &c);
    Equality::verify(EqualityWithPublicParams {
        proof,
        a_point: a.comm.point,
        b_point: b.comm.point,
        c_point: c.comm.point,
    })
}

fn cmp_verdict(x: i32) -> bool {
    let c = Comparison::commit(x);
    let proof = Comparison::prove(&c);
    Comparison::verify(ComparisonProofWithPublicParams { proof, x: c.comm.point })
}

#[test]
fn addition_scenario_with_wrong_claim() {
    let a = Addition::commit(10);
    let b = Addition::commit(58);
    let c = Addition::commit_c_witness(68, a.secret.secret, b.secret.secret);
    assert!(add_verdict(&a, &b, &c));
    let wrong = Addition::commit_c_witness(100, a.secret.secret, b.secret.secret);
    assert!(!add_verdict(&a, &b, &wrong));
}

#[test]
fn subtraction_scenario_with_sum_claimed() {
    let (x, y) = (19u64.pow(9), 3u64.pow(5));
    let a = Substraction::commit(x);
    let b = Substraction::commit(y);
    let c = Substraction::commit_c_witness(x - y, a.secret.secret, b.secret.secret);
    assert!(sub_verdict(&a, &b, &c));
    let wrong = Substraction::commit_c_witness(x + y, a.secret.secret, b.secret.secret);
    assert!(!sub_verdict(&a, &b, &wrong));
}

#[test]
fn multiplication_scenario() {
    assert!(mul_verdict(150, 58, 8700));
    assert!(!mul_verdict(150, 58, 8701));
    assert!(mul_verdict(0, 58, 0));
}

#[test]
fn division_scenario() {
    assert!(div_verdict(2u64.pow(15), 2u64.pow(15), 1));
    assert!(!div_verdict(150, 77, 150 / 77));
}

#[test]
fn equality_scenario() {
    assert!(eq_verdict(77777, 77777));
    assert!(!eq_verdict(154584, 5488));
    assert!(eq_verdict(0, 0));
}

#[test]
fn comparison_scenario() {
    assert_eq!(
        decompose_number(209348),
        vec![0, 0, 1, 0, 0, 0, 1, 1, 1, 0, 0, 0, 1, 1, 0, 0, 1, 1]
    );
    assert!(cmp_verdict(209348));
    assert!(!cmp_verdict(-20933));
}

#[test]
fn comparison_extreme_values() {
    assert!(cmp_verdict(i32::MAX));
    assert!(!cmp_verdict(i32::MIN));
}

#[test]
fn decomposition_edges() {
    assert_eq!(decompose_number(0), vec![0]);
    assert_eq!(decompose_number(1), vec![1]);
    assert_eq!(decompose_number(-5), vec![1, 0, 1]);
    assert_eq!(decompose_number(2), vec![0, 1]);
    assert_eq!(decompose_number(i32::MAX), vec![1u8; 31]);
    let mut min = vec![0u8; 31];
    min.push(1);
    assert_eq!(decompose_number(i32::MIN), min);
}

#[test]
fn powers_of_scalars() {
    let three = lib(DalekScalar::from(3u64));
    assert_eq!(pow_scalar(three, 4).bytes, DalekScalar::from(81u64).to_bytes());
    assert_eq!(pow_scalar(three, 0).bytes, DalekScalar::one().to_bytes());
    let big = lib(DalekScalar::from(u64::MAX));
    let expected = DalekScalar::from(u64::MAX) * DalekScalar::from(u64::MAX);
    assert_eq!(pow_scalar(big, 2).bytes, expected.to_bytes());
}

#[test]
fn generators_are_the_fixed_ones() {
    assert_eq!(Point::generator_g().to_bytes(), RISTRETTO_BASEPOINT_COMPRESSED.to_bytes());
    assert_eq!(
        Point::generator_h().to_bytes(),
        wedpr_l_crypto_zkp_utils::BASEPOINT_G2.compress().to_bytes()
    );
    assert_ne!(Point::generator_g().to_bytes(), Point::generator_h().to_bytes());
}

#[test]
fn point_decoding() {
    assert!(Point::from_bytes([0xffu8; 32]).is_none());
    let g = Point::generator_g();
    let back = Point::from_bytes(g.to_bytes()).unwrap();
    assert!(back.same_as(&g));
}

#[test]
fn point_arithmetic_matches_the_group() {
    let g = Point::generator_g();
    let h = Point::generator_h();
    let two = lib(DalekScalar::from(2u64));
    let three = lib(DalekScalar::from(3u64));
    let five = lib(DalekScalar::from(5u64));
    assert_eq!(g.plus(&g).to_bytes(), g.scaled(&two).to_bytes());
    assert_eq!(g.scaled(&five).minus(&g.scaled(&three)).to_bytes(), g.scaled(&two).to_bytes());
    assert_eq!(
        Point::combine(&two, &g, &three, &h).to_bytes(),
        g.scaled(&two).plus(&h.scaled(&three)).to_bytes()
    );
    assert_eq!(Point::pedersen(&two, &three).to_bytes(), Point::combine(&two, &g, &three, &h).to_bytes());
    assert!(!g.same_as(&h));
}

#[test]
fn homomorphic_commitments() {
    let a = Addition::commit(1000);
    let b = Addition::commit(24);
    let c = Addition::commit_c_witness(1024, a.secret.secret, b.secret.secret);
    assert_eq!(a.comm.point.plus(&b.comm.point).to_bytes(), c.comm.point.to_bytes());
    let expected = DalekScalar::from_bytes_mod_order(a.secret.secret.bytes)
        + DalekScalar::from_bytes_mod_order(b.secret.secret.bytes);
    assert_eq!(c.secret.secret.bytes, expected.to_bytes());

    let a = Substraction::commit(1000);
    let b = Substraction::commit(24);
    let c = Substraction::commit_c_witness(976, a.secret.secret, b.secret.secret);
    assert_eq!(a.comm.point.minus(&b.comm.point).to_bytes(), c.comm.point.to_bytes());
}

#[test]
fn witnesses_are_exact() {
    let a = lib(DalekScalar::from(7u64));
    let c = lib(DalekScalar::from(100u64));
    let m = Multiplication::witness(a, c, 3);
    assert_eq!(m.s.bytes, DalekScalar::from(79u64).to_bytes());
    let d = Division::witness(c, a, 3);
    assert_eq!(d.s.bytes, DalekScalar::from(79u64).to_bytes());
    let t = Equality::commit_c_witness(c, a);
    assert_eq!(t.secret.secret.bytes, DalekScalar::from(93u64).to_bytes());
    assert_eq!(t.secret.value, 0);
}

#[test]
fn negative_values_commit_to_their_residue() {
    let c = Comparison::commit(-1);
    assert_eq!(c.secret.value, vec![1]);
    let r0 = c.secret.ri_vec[0];
    let expected = Point::pedersen(&lib(-DalekScalar::one()), &r0);
    assert_eq!(c.comm.point.to_bytes(), expected.to_bytes());
    assert_eq!(c.secret.bi_vec[0].to_bytes(), c.comm.point.to_bytes());
}

#[test]
fn tampered_first_bit_commitment_is_rejected() {
    let c = Comparison::commit(209348);
    let mut proof = Comparison::prove(&c);
    proof.bi_point_vec[0] = proof.bi_point_vec[0].plus(&Point::generator_h());
    let res = Comparison::verify(ComparisonProofWithPublicParams { proof, x: c.comm.point });
    assert!(!res);
}

#[test]
fn comparison_proof_for_another_commitment_is_rejected() {
    let c = Comparison::commit(12);
    let other = Comparison::commit(12);
    let proof = Comparison::prove(&c);
    let res = Comparison::verify(ComparisonProofWithPublicParams {
        proof,
        x: other.comm.point,
    });
    assert!(!res);
}

#[test]
fn malformed_comparison_proofs_are_rejected() {
    let c = Comparison::commit(6);
    let mut proof = Comparison::prove(&c);
    proof.b_circumflex_vec.pop();
    assert!(!Comparison::verify(ComparisonProofWithPublicParams {
        proof: proof.clone(),
        x: c.comm.point
    }));
    proof.bi_point_vec.clear();
    proof.b_circumflex_vec.clear();
    assert!(!Comparison::verify(ComparisonProofWithPublicParams { proof, x: c.comm.point }));
}

#[test]
fn tampered_addition_response_is_rejected() {
    let a = Addition::commit(3);
    let b = Addition::commit(4);
    let c = Addition::commit_c_witness(7, a.secret.secret, b.secret.secret);
    let mut proof = Addition::prove(&a, &b, &c);
    proof.u = lib(DalekScalar::from_bytes_mod_order(proof.u.bytes) + DalekScalar::one());
    assert!(!Addition::verify(AdditionProofWithPublicParams {
        proof,
        a_point: a.comm.point,
        b_point: b.comm.point,
        c_point: c.comm.point,
    }));
}

#[test]
fn challenge_is_deterministic() {
    let points = vec![Point::generator_h(), Addition::commit(5).comm.point];
    let e1 = challenge_of(&points);
    let e2 = challenge_of(&points.clone());
    assert_eq!(e1.bytes, e2.bytes);
    let mut transcript = Vec::new();
    transcript.extend_from_slice(&Point::generator_g().to_bytes());
    transcript.extend_from_slice(&Point::generator_h().to_bytes());
    for p in points.iter() {
        transcript.extend_from_slice(&p.to_bytes());
    }
    let expected = wedpr_l_crypto_zkp_utils::hash_to_scalar(&transcript);
    assert_eq!(e1.bytes, expected.to_bytes());
}

#[test]
fn fresh_randomness_each_commit() {
    let a = Addition::commit(5);
    let b = Addition::commit(5);
    assert_ne!(a.secret.secret.bytes, b.secret.secret.bytes);
    assert_ne!(a.comm.point.to_bytes(), b.comm.point.to_bytes());
}
