use rand::Rng;
use zkp_arith::{
    decompose_number, Addition, AdditionProofWithPublicParams, Comparison,
    ComparisonProofWithPublicParams, Division, DivisionWithPublicParams, Equality,
    EqualityWithPublicParams, Multiplication, MultiplicationWithPublicParams, Substraction,
    SubstractionWithPublicParams,
};

fn check_comparison(value: i32, expected: bool) {
    let comparison = Comparison::commit(value);
    let proof = Comparison::prove(&comparison);
    let res = Comparison::verify(ComparisonProofWithPublicParams {
        proof,
        x: comparison.comm.point,
    });
    assert_eq!(res, expected);
}

fn check_addition(a: u64, b: u64, c: u64, expected: bool) {
    let a_comm_secret = Addition::commit(a);
    let b_comm_secret = Addition::commit(b);
    let c_comm_secret =
        Addition::commit_c_witness(c, a_comm_secret.secret.secret, b_comm_secret.secret.secret);
    let proof = Addition::prove(&a_comm_secret, &b_comm_secret, &c_comm_secret);
    let result = Addition::verify(AdditionProofWithPublicParams {
        proof,
        a_point: a_comm_secret.comm.point,
        b_point: b_comm_secret.comm.point,
        c_point: c_comm_secret.comm.point,
    });
    assert_eq!(expected, result);
}

fn check_subtraction(a: u64, b: u64, c: u64, expected: bool) {
    let a_comm_secret = Substraction::commit(a);
    let b_comm_secret = Substraction::commit(b);
    let c_comm_secret = Substraction::commit_c_witness(
        c,
        a_comm_secret.secret.secret,
        b_comm_secret.secret.secret,
    );
    let proof = Substraction::prove(&a_comm_secret, &b_comm_secret, &c_comm_secret);
    let result = Substraction::verify(SubstractionWithPublicParams {
        proof,
        a_point: a_comm_secret.comm.point,
        b_point: b_comm_secret.comm.point,
        c_point: c_comm_secret.comm.point,
    });
    assert_eq!(expected, result);
}

fn check_multiplication(a: u64, b: u64, c: u64) {
    let a_comm_secret = Multiplication::commit(a);
    let b_comm_secret = Multiplication::commit(b);
    let c_comm_secret = Multiplication::commit(c);
    let witness =
        Multiplication::witness(a_comm_secret.secret.secret, c_comm_secret.secret.secret, b);
    let proof = Multiplication::prove(&a_comm_secret, &b_comm_secret, &c_comm_secret, &witness);
    let result = Multiplication::verify(MultiplicationWithPublicParams {
        proof,
        a_point: a_comm_secret.comm.point,
        b_point: b_comm_secret.comm.point,
        c_point: c_comm_secret.comm.point,
    });
    assert_eq!(true, result);
}

fn check_division(a: u64, b: u64, c: u64, expected: bool) {
    let a_comm_secret = Division::commit(a);
    let b_comm_secret = Division::commit(b);
    let c_comm_secret = Division::commit(c);
    let witness = Division::witness(a_comm_secret.secret.secret, c_comm_secret.secret.secret, b);
    let proof = Division::prove(&a_comm_secret, &b_comm_secret, &c_comm_secret, &witness);
    let result = Division::verify(DivisionWithPublicParams {
        proof,
        a_point: a_comm_secret.comm.point,
        b_point: b_comm_secret.comm.point,
        c_point: c_comm_secret.comm.point,
    });
    assert_eq!(expected, result);
}

fn check_equality(a: u64, b: u64, expected: bool) {
    let a_comm_secret = Equality::commit(a);
    let b_comm_secret = Equality::commit(b);
    let c_comm_secret =
        Equality::commit_c_witness(a_comm_secret.secret.secret, b_comm_secret.secret.secret);
    let proof = Equality::prove(&a_comm_secret, &b_comm_secret, &c_comm_secret);
    let result = Equality::verify(EqualityWithPublicParams {
        proof,
        a_point: a_comm_secret.comm.point,
        b_point: b_comm_secret.comm.point,
        c_point: c_comm_secret.comm.point,
    });
    assert_eq!(expected, result);
}

#[test]
fn batch_comparison_protocol_test() {
    for i in 2i32..10i32 {
        check_comparison(i, true);
        check_comparison(-i, false);
    }
    for i in 100000i32..100010i32 {
        check_comparison(i, true);
        check_comparison(-i, false);
    }
    for i in 500000000i32..500000010i32 {
        check_comparison(i, true);
        check_comparison(-i, false);
    }
}

#[test]
fn small_number_comparison_protocol_test() {
    check_comparison(1, true);
    check_comparison(0, true);
    check_comparison(-1, false);
}

#[test]
fn comparison_protocol_test() {
    let a = -20933i32;
    let comparison = Comparison::commit(a);
    let proof = Comparison::prove(&comparison);
    let res = Comparison::verify(ComparisonProofWithPublicParams {
        proof,
        x: comparison.comm.point,
    });
    assert_eq!(res, false);
}

#[test]
fn addition_protocol_test() {
    let mut test_data = vec![
        (10, 58),
        (84, 118),
        (998, 558),
        (154584, 5488),
        (15u64.pow(4), 36u64.pow(5)),
    ];
    for _ in 0..50 {
        let random_a = rand::thread_rng().gen_range(0u64..=1000000);
        let random_b = rand::thread_rng().gen_range(0u64..=1000000);
        test_data.push((random_a, random_b))
    }
    for (x, y) in test_data.clone() {
        check_addition(x, y, x + y, true);
    }
    for (x, y) in test_data {
        check_addition(x, y, 100, false);
    }
}

#[test]
fn substraction_protocol_test() {
    let mut test_data = vec![
        (150, 58),
        (844, 118),
        (998, 558),
        (154584, 5488),
        (19u64.pow(9), 3u64.pow(5)),
    ];
    for _ in 0..50 {
        let random_a = rand::thread_rng().gen_range(0u64..=1000000);
        let random_b = rand::thread_rng().gen_range(0u64..=random_a);
        test_data.push((random_a, random_b))
    }
    for (x, y) in test_data.clone() {
        check_subtraction(x, y, x - y, true);
    }
    for (x, y) in test_data.clone() {
        check_subtraction(x, y, x + y, false);
    }
}

#[test]
fn multiplication_protocol_test() {
    let mut test_data = vec![
        (150, 58),
        (844, 118),
        (998, 558),
        (154584, 5488),
        (3u64.pow(6), 14u64.pow(4)),
    ];
    for _ in 0..50 {
        let random_a = rand::thread_rng().gen_range(0u64..=1000000);
        let random_b = rand::thread_rng().gen_range(0u64..=1000000);
        test_data.push((random_a, random_b))
    }
    for (x, y) in test_data {
        check_multiplication(x, y, x * y);
    }
}

#[test]
fn division_protocol_test() {
    let mut test_data = vec![(150, 50), (800, 200), (1000, 250), (2u64.pow(15), 2u64.pow(15))];
    for _ in 0..50 {
        let random_a = rand::thread_rng().gen_range(0u64..=1000000);
        let random_b = rand::thread_rng().gen_range(0u64..=1000);
        let random_c = random_a * random_b;
        test_data.push((random_c, random_a))
    }
    for (x, y) in test_data {
        check_division(x, y, x / y, true);
    }

    let test_data = vec![(150, 77), (222, 200), (53353, 250), (2u64.pow(15), 9u64.pow(14))];
    for (x, y) in test_data {
        check_division(x, y, x / y, false);
    }
}

#[test]
fn equality_protocol_test() {
    let test_data = vec![
        (15, 15),
        (88, 88),
        (77777, 77777),
        (154584, 154584),
        (2u64.pow(15), 2u64.pow(15)),
    ];
    for (x, y) in test_data {
        check_equality(x, y, true);
    }
    let test_data = vec![
        (150, 58),
        (844, 118),
        (998, 558),
        (154584, 5488),
        (2u64.pow(15), 3u64.pow(5)),
    ];
    for (x, y) in test_data {
        check_equality(x, y, false);
    }
}

#[test]
fn decompose_number_test() {
    let a = 209348i32;
    let decomposed = decompose_number(a);
    assert_eq!(
        vec![0, 0, 1, 0, 0, 0, 1, 1, 1, 0, 0, 0, 1, 1, 0, 0, 1, 1],
        decomposed
    );
}

#[test]
fn com_protocol_test() {
    let a = 209348i32;
    let x = Comparison::commit(a);
    let proof = Comparison::prove(&x);
    let res = Comparison::verify(ComparisonProofWithPublicParams {
        proof,
        x: x.comm.point,
    });
    assert_eq!(res, true);
}

#[test]
fn random_com_protocol_test() {
    for _ in 0..50 {
        let random = rand::thread_rng().gen_range(-1000000i32..=1000000);
        let a = random;
        let x = Comparison::commit(a);
        let proof = Comparison::prove(&x);
        let res = Comparison::verify(ComparisonProofWithPublicParams {
            proof,
            x: x.comm.point,
        });
        let result_expect = if random > 0 { true } else { false };
        assert_eq!(res, result_expect);
    }
}
