use curve25519_dalek::scalar::Scalar as DalekScalar;
use rand::Rng;
use wedpr_l_crypto_zkp_utils::get_random_scalar;
use zkp_arith::{
    decompose_number, pow_scalar, Addition, AdditionProofWithPublicParams, Division,
    DivisionWithPublicParams, Equality, EqualityWithPublicParams, Multiplication,
    MultiplicationWithPublicParams, Point, Scalar, Substraction, SubstractionWithPublicParams,
};

fn lib(s: DalekScalar) -> Scalar {
    Scalar { bytes: s.to_bytes() }
}

fn dalek(s: Scalar) -> DalekScalar {
    DalekScalar::from_bytes_mod_order(s.bytes)
}

fn pedersen(v: DalekScalar, r: DalekScalar) -> Point {
    Point::pedersen(&lib(v), &lib(r))
}

#[test]
fn add_it_works() {
    let a = 15;
    let b = 18;
    let c = a + b;
    let a_comm_secret = Addition::commit(a);
    let b_comm_secret = Addition::commit(b);
    let c_comm_secret =
        Addition::commit_c_witness(c, a_comm_secret.secret.secret, b_comm_secret.secret.secret);
    let proof = Addition::prove(&a_comm_secret, &b_comm_secret, &c_comm_secret);
    let result = Addition::verify(AdditionProofWithPublicParams {
        proof,
        a_point: a_comm_secret.comm.point,
        b_point: b_comm_secret.comm.point,
        c_point: c_comm_secret.comm.point,
    });
    assert_eq!(
        a_comm_secret.comm.point.plus(&b_comm_secret.comm.point).to_bytes(),
        c_comm_secret.comm.point.to_bytes()
    );
    assert_eq!(true, result);
}

#[test]
fn random_add_protocol_test() {
    for _ in 0..50 {
        let a = rand::thread_rng().gen_range(0u64..=1000000);
        let b = rand::thread_rng().gen_range(0u64..=1000000);
        let c = a + b;
        let a_comm_secret = Addition::commit(a);
        let b_comm_secret = Addition::commit(b);
        let c_comm_secret = Addition::commit_c_witness(
            c,
            a_comm_secret.secret.secret,
            b_comm_secret.secret.secret,
        );
        let proof = Addition::prove(&a_comm_secret, &b_comm_secret, &c_comm_secret);
        let result = Addition::verify(AdditionProofWithPublicParams {
            proof,
            a_point: a_comm_secret.comm.point,
            b_point: b_comm_secret.comm.point,
            c_point: c_comm_secret.comm.point,
        });
        assert_eq!(
            a_comm_secret.comm.point.plus(&b_comm_secret.comm.point).to_bytes(),
            c_comm_secret.comm.point.to_bytes()
        );
        assert_eq!(true, result);
    }
}

#[test]
fn add_test() {
    let a = 15u64;
    let b = 18;
    let c = a + b;
    let a_secret = get_random_scalar();
    let a_comm = pedersen(DalekScalar::from(a), a_secret);
    let b_secret = get_random_scalar();
    let b_comm = pedersen(DalekScalar::from(b), b_secret);
    let c_secret = a_secret + b_secret;
    let c_comm = pedersen(DalekScalar::from(c), c_secret);
    assert_eq!(a_comm.plus(&b_comm).to_bytes(), c_comm.to_bytes());

    let e = get_random_scalar();
    let x = get_random_scalar();
    let y = get_random_scalar();
    let d_point = pedersen(x, y);
    let u = x + DalekScalar::from(c) * e;
    let v = y + c_secret * e;
    let left = d_point.plus(&c_comm.scaled(&lib(e)));
    let right = pedersen(u, v);
    assert_eq!(left.to_bytes(), right.to_bytes());
}

#[test]
fn sub_it_works() {
    let a = 30;
    let b = 18;
    let c = a - b;
    let a_comm_secret = Substraction::commit(a);
    let b_comm_secret = Substraction::commit(b);
    let c_comm_secret = Substraction::commit_c_witness(
        c,
        a_comm_secret.secret.secret,
        b_comm_secret.secret.secret,
    );
    let proof = Substraction::prove(&a_comm_secret, &b_comm_secret, &c_comm_secret);
    let result = Substraction::verify(SubstractionWithPublicParams {
        proof,
        a_point: a_comm_secret.comm.point,
        b_point: b_comm_secret.comm.point,
        c_point: c_comm_secret.comm.point,
    });
    assert_eq!(
        a_comm_secret.comm.point.minus(&b_comm_secret.comm.point).to_bytes(),
        c_comm_secret.comm.point.to_bytes()
    );
    assert_eq!(true, result);
}

#[test]
fn sub_random_eq_protocol_test() {
    for _ in 0..50 {
        let a = rand::thread_rng().gen_range(0u64..=1000000);
        let b = rand::thread_rng().gen_range(0u64..=a);
        let c = a - b;
        let a_comm_secret = Substraction::commit(a);
        let b_comm_secret = Substraction::commit(b);
        let c_comm_secret = Substraction::commit_c_witness(
            c,
            a_comm_secret.secret.secret,
            b_comm_secret.secret.secret,
        );
        let proof = Substraction::prove(&a_comm_secret, &b_comm_secret, &c_comm_secret);
        let result = Substraction::verify(SubstractionWithPublicParams {
            proof,
            a_point: a_comm_secret.comm.point,
            b_point: b_comm_secret.comm.point,
            c_point: c_comm_secret.comm.point,
        });
        assert_eq!(
            a_comm_secret.comm.point.minus(&b_comm_secret.comm.point).to_bytes(),
            c_comm_secret.comm.point.to_bytes()
        );
        assert_eq!(true, result);
    }
}

#[test]
fn sub_test() {
    let a = 19u64;
    let b = 18;
    let c = a - b;
    let a_secret = get_random_scalar();
    let a_comm = pedersen(DalekScalar::from(a), a_secret);
    let b_secret = get_random_scalar();
    let b_comm = pedersen(DalekScalar::from(b), b_secret);
    let c_secret = a_secret - b_secret;
    let c_comm = pedersen(DalekScalar::from(c), c_secret);
    assert_eq!(a_comm.minus(&b_comm).to_bytes(), c_comm.to_bytes());

    let e = get_random_scalar();
    let x = get_random_scalar();
    let y = get_random_scalar();
    let d_point = pedersen(x, y);
    let u = x + DalekScalar::from(c) * e;
    let v = y + c_secret * e;
    let left = d_point.plus(&c_comm.scaled(&lib(e)));
    let right = pedersen(u, v);
    assert_eq!(left.to_bytes(), right.to_bytes());
}

#[test]
fn mul_it_works() {
    let a = 30;
    let b = 18;
    let c = a * b;
    let a_comm_secret = Multiplication::commit(a);
    let b_comm_secret = Multiplication::commit(b);
    let c_comm_secret = Multiplication::commit(c);
    let witness =
        Multiplication::witness(a_comm_secret.secret.secret, c_comm_secret.secret.secret, b);
    let proof = Multiplication::prove(&a_comm_secret, &b_comm_secret, &c_comm_secret, &witness);
    let result = Multiplication::verify(MultiplicationWithPublicParams {
        proof,
        a_point: a_comm_secret.comm.point,
        b_point: b_comm_secret.comm.point,
        c_point: c_comm_secret.comm.point,
    });
    assert_eq!(true, result);
}

#[test]
fn div_it_works() {
    let a = 10;
    let b = 5;
    let c = 2;
    let a_comm_secret = Division::commit(a);
    let b_comm_secret = Division::commit(b);
    let c_comm_secret = Division::commit(c);
    let witness = Division::witness(a_comm_secret.secret.secret, c_comm_secret.secret.secret, b);
    let proof = Division::prove(&a_comm_secret, &b_comm_secret, &c_comm_secret, &witness);
    let result = Division::verify(DivisionWithPublicParams {
        proof,
        a_point: a_comm_secret.comm.point,
        b_point: b_comm_secret.comm.point,
        c_point: c_comm_secret.comm.point,
    });
    assert_eq!(true, result);
}

#[test]
fn eq_it_works() {
    let a = 30;
    let b = 30;
    let a_comm_secret = Equality::commit(a);
    let b_comm_secret = Equality::commit(b);
    let c_comm_secret =
        Equality::commit_c_witness(a_comm_secret.secret.secret, b_comm_secret.secret.secret);
    let proof = Equality::prove(&a_comm_secret, &b_comm_secret, &c_comm_secret);
    let result = Equality::verify(EqualityWithPublicParams {
        proof,
        a_point: a_comm_secret.comm.point,
        b_point: b_comm_secret.comm.point,
        c_point: c_comm_secret.comm.point,
    });
    assert_eq!(true, result);
}

#[test]
fn eq_random_eq_protocol_test() {
    for _ in 0..50 {
        let a = rand::thread_rng().gen_range(0u64..=1000000);
        let b = rand::thread_rng().gen_range(0u64..=1000000);
        let a_comm_secret = Equality::commit(a);
        let b_comm_secret = Equality::commit(b);
        let c_comm_secret =
            Equality::commit_c_witness(a_comm_secret.secret.secret, b_comm_secret.secret.secret);
        let proof = Equality::prove(&a_comm_secret, &b_comm_secret, &c_comm_secret);
        let result = Equality::verify(EqualityWithPublicParams {
            proof,
            a_point: a_comm_secret.comm.point,
            b_point: b_comm_secret.comm.point,
            c_point: c_comm_secret.comm.point,
        });
        let result_expect = if a == b { true } else { false };
        assert_eq!(result, result_expect);
    }
}

#[test]
fn simple_comparison_protocol_test() {
    let a = 209348i32;
    let decomposed = decompose_number(a);
    assert_eq!(
        vec![0, 0, 1, 0, 0, 0, 1, 1, 1, 0, 0, 0, 1, 1, 0, 0, 1, 1],
        decomposed
    );
    let len = decomposed.len();

    // prove
    let mut b_vec = Vec::new();
    let mut r_vec = Vec::new();
    for each_bit in decomposed.iter() {
        let secret = get_random_scalar();
        b_vec.push(pedersen(DalekScalar::from(*each_bit), secret));
        r_vec.push(secret);
    }
    let x = if a < 0 {
        -DalekScalar::from(-a as u64)
    } else {
        DalekScalar::from(a as u64)
    };
    let s = get_random_scalar();
    let x_commitment_point = pedersen(x, s);
    if len > 1 {
        let mut b_sigma = b_vec[1].scaled(&lib(DalekScalar::from(2u64)));
        for i in 2..=len - 1 {
            b_sigma = b_sigma.plus(&b_vec[i].scaled(&lib(DalekScalar::from(2u64.pow(i as u32)))));
        }
        b_vec[0] = x_commitment_point.minus(&b_sigma);
        let mut r_sigma = DalekScalar::from(2u64) * r_vec[1];
        for i in 2..=len - 1 {
            r_sigma += DalekScalar::from(2u64.pow(i as u32)) * r_vec[i];
        }
        r_vec[0] = s - r_sigma;
    } else {
        b_vec[0] = x_commitment_point;
        r_vec[0] = s;
    }

    let b_i_prime_1 = get_random_scalar();
    let mut b_i_prime_vec = vec![b_i_prime_1];
    let mut b_sigma_prime = b_i_prime_1;
    let mut bi_b_sigma_prime = b_i_prime_1 * DalekScalar::from(decomposed[0]);
    for i in 1..=len - 1 {
        let b_i_prime_i = get_random_scalar();
        b_i_prime_vec.push(b_i_prime_i);
        b_sigma_prime += b_i_prime_i;
        bi_b_sigma_prime += b_i_prime_i * DalekScalar::from(decomposed[i]);
    }
    let r_prime = get_random_scalar();
    let d1 = pedersen(b_sigma_prime, r_prime);
    let u_prime = get_random_scalar();
    let d2 = pedersen(bi_b_sigma_prime, u_prime);

    let e = get_random_scalar();
    let power = |i: usize| dalek(pow_scalar(lib(e), i));
    let mut uj = u_prime;
    let mut rj = r_prime;
    let mut bj = Vec::new();
    for i in 0..=len - 1 {
        let bj_i = DalekScalar::from(decomposed[i]) * power(i) + b_i_prime_vec[i];
        bj.push(bj_i);
        uj += (power(i) - bj_i) * r_vec[i];
        rj += r_vec[i] * power(i);
    }

    // verify 1
    let mut left_1 = d1;
    for i in 0..=len - 1 {
        left_1 = left_1.plus(&b_vec[i].scaled(&lib(power(i))));
    }
    let mut bj_res = DalekScalar::zero();
    for i in 0..=len - 1 {
        bj_res += bj[i];
    }
    let right_1 = pedersen(bj_res, rj);
    assert_eq!(left_1.to_bytes(), right_1.to_bytes());

    // verify 2
    let mut left_2 = d2;
    for i in 0..=len - 1 {
        left_2 = left_2.plus(&b_vec[i].scaled(&lib(power(i) - bj[i])));
    }
    let right_2 = pedersen(DalekScalar::zero(), uj);
    assert_eq!(left_2.to_bytes(), right_2.to_bytes());
}
