//! Comparison: a proof that a committed value `x` is non-negative, through
//! commitments to the bits of its binary decomposition.
use crate::group::{
    commitment_log, group_order, h_log, random_scalar, scalar_add, scalar_from_u64, scalar_mul,
    scalar_neg, scalar_sub, scalar_zero, Point, Scalar,
};
use crate::modular::{
    lemma_accumulate, lemma_cong_add, lemma_cong_mul, lemma_cong_reduce, lemma_cong_sub,
    lemma_shift_residue,
};
use crate::sums::{sum_to, tail_terms};
use crate::transcript::{challenge_for, challenge_of};
use vstd::arithmetic::div_mod::{
    lemma_add_mod_noop, lemma_mul_mod_noop_left, lemma_small_mod, lemma_sub_mod_noop_right,
};
use vstd::arithmetic::power::pow;
use vstd::prelude::*;

verus! {

/// A committed value `x` of the comparison protocol, with its bit
/// commitments and their openings.
#[derive(Clone, Debug)]
pub struct Comparison {
    pub comm: ComparisonCommitment,
    pub secret: ComparisonSecret,
}

/// The public commitment `P_x = x · G + s · H`.
#[derive(Clone, Copy, Debug)]
pub struct ComparisonCommitment {
    pub point: Point,
}

/// The prover's side: the bits `x_i` of `|x|`, little-endian, their
/// commitments `B_i` and the randomness `r_i` of each.
#[derive(Clone, Debug)]
pub struct ComparisonSecret {
    pub value: Vec<u8>,
    pub bi_vec: Vec<Point>,
    pub ri_vec: Vec<Scalar>,
}

/// The proof: the bit commitments `B_i`, the first moves `D₁`, `D₂`, and
/// the responses `û`, `b̂_i`, `r̂`.
#[derive(Clone, Debug)]
pub struct ComparisonProof {
    pub bi_point_vec: Vec<Point>,
    pub d1: Point,
    pub d2: Point,
    pub u_circumflex: Scalar,
    pub b_circumflex_vec: Vec<Scalar>,
    pub r_circumflex: Scalar,
}

/// A proof together with the commitment `P_x` it speaks of.
#[derive(Clone, Debug)]
pub struct ComparisonProofWithPublicParams {
    pub proof: ComparisonProof,
    pub x: Point,
}

/// The terms `w^i · bs[i]`.
pub open spec fn power_terms(bs: Seq<Point>, w: int) -> spec_fn(int) -> int {
    |i: int| pow(w, i as nat) * bs[i]@
}

/// The terms `w^i · rs[i]`.
pub open spec fn scalar_power_terms(rs: Seq<Scalar>, w: int) -> spec_fn(int) -> int {
    |i: int| pow(w, i as nat) * rs[i]@
}

/// The terms `s[i]`.
pub open spec fn scalar_terms(s: Seq<Scalar>) -> spec_fn(int) -> int {
    |i: int| s[i]@
}

/// The terms `(e^i - b̂_i) · bs[i]` of the bit check.
pub open spec fn bit_check_terms(bs: Seq<Point>, bh: Seq<Scalar>, e: int) -> spec_fn(int) -> int {
    |i: int| (pow(e, i as nat) - bh[i]@) * bs[i]@
}

/// The points hashed into the challenge, after `G` and `H`:
/// `P_x ‖ B_0 ‖ … ‖ B_{n-1} ‖ D₁ ‖ D₂`.
pub open spec fn comparison_statement(x: Point, bs: Seq<Point>, d1: Point, d2: Point) -> Seq<Point> {
    seq![x] + bs + seq![d1, d2]
}

/// What the verifier accepts: a non-empty list of bit commitments with one
/// response each, and, for the challenge `e`,
/// `D₁ + Σ e^i · B_i = (Σ b̂_i) · G + r̂ · H`,
/// `D₂ + Σ (e^i - b̂_i) · B_i = 0 · G + û · H` and
/// `Σ 2^i · B_i = P_x`.
pub open spec fn comparison_accepts(p: ComparisonProofWithPublicParams) -> bool {
    &&& p.proof.bi_point_vec@.len() >= 1
    &&& p.proof.b_circumflex_vec@.len() == p.proof.bi_point_vec@.len()
    &&& comparison_first_equation(p)
    &&& comparison_second_equation(p)
    &&& comparison_third_equation(p)
}

/// The challenge of a proof.
pub open spec fn comparison_challenge(p: ComparisonProofWithPublicParams) -> int {
    challenge_for(comparison_statement(p.x, p.proof.bi_point_vec@, p.proof.d1, p.proof.d2))
}

/// `D₁ + Σ e^i · B_i = (Σ b̂_i) · G + r̂ · H`.
pub open spec fn comparison_first_equation(p: ComparisonProofWithPublicParams) -> bool {
    let bs = p.proof.bi_point_vec@;
    let n = bs.len();
    (p.proof.d1@ + sum_to(n, power_terms(bs, comparison_challenge(p)))) % group_order()
        == commitment_log(sum_to(n, scalar_terms(p.proof.b_circumflex_vec@)), p.proof.r_circumflex@)
}

/// `D₂ + Σ (e^i - b̂_i) · B_i = 0 · G + û · H`.
pub open spec fn comparison_second_equation(p: ComparisonProofWithPublicParams) -> bool {
    let bs = p.proof.bi_point_vec@;
    let n = bs.len();
    (p.proof.d2@ + sum_to(n, bit_check_terms(bs, p.proof.b_circumflex_vec@, comparison_challenge(p))))
        % group_order() == commitment_log(0, p.proof.u_circumflex@)
}

/// `Σ 2^i · B_i = P_x`.
pub open spec fn comparison_third_equation(p: ComparisonProofWithPublicParams) -> bool {
    sum_to(p.proof.bi_point_vec@.len(), power_terms(p.proof.bi_point_vec@, 2)) % group_order()
        == p.x@
}

/// What `commit` returns for `value`: the bits of `|value|`; for `i ≥ 1`,
/// `B_i` opening to `(x_i, r_i)`; `P_x` opening to `(value, s)`; and
/// `B_0 = P_x - Σ_{i≥1} 2^i · B_i`, `r_0 = s - Σ_{i≥1} 2^i · r_i`.
pub open spec fn comparison_committed(value: i32, c: Comparison) -> bool {
    let bits = c.secret.value@;
    let bs = c.secret.bi_vec@;
    let rs = c.secret.ri_vec@;
    let n = bits.len();
    &&& bits == binary_digits(magnitude(value as int))
    &&& bs.len() == n
    &&& rs.len() == n
    &&& forall|i: int| 1 <= i < n ==> #[trigger] bs[i]@ == commitment_log(bits[i] as int, rs[i]@)
    &&& exists|s: int|
        c.comm.point@ == commitment_log(value as int, s) && rs[0]@ == (s - sum_to(
            n,
            tail_terms(scalar_power_terms(rs, 2)),
        )) % group_order()
    &&& bs[0]@ == (c.comm.point@ - sum_to(n, tail_terms(power_terms(bs, 2)))) % group_order()
}

/// The shape that `prove` needs: at least one bit, and one commitment and
/// one randomness per bit.
pub open spec fn comparison_shaped(c: Comparison) -> bool {
    &&& c.secret.value@.len() >= 1
    &&& c.secret.bi_vec@.len() == c.secret.value@.len()
    &&& c.secret.ri_vec@.len() == c.secret.value@.len()
}

/// The proof that the prover returns when it draws the blinds `bp`, `rp`
/// and `up`: `D₁ = (Σ b'_i) · G + r' · H`, `D₂ = (Σ b'_i x_i) · G + u' · H`,
/// `b̂_i = x_i e^i + b'_i`, `r̂ = r' + Σ r_i e^i` and
/// `û = u' + Σ (e^i - b̂_i) r_i`.
pub open spec fn comparison_response(
    c: Comparison,
    bp: Seq<int>,
    rp: int,
    up: int,
    p: ComparisonProof,
) -> bool {
    let bits = c.secret.value@;
    let rs = c.secret.ri_vec@;
    let n = bits.len();
    let bh = p.b_circumflex_vec@;
    let e = challenge_for(comparison_statement(c.comm.point, p.bi_point_vec@, p.d1, p.d2));
    &&& bp.len() == n
    &&& p.bi_point_vec@ == c.secret.bi_vec@
    &&& p.d1@ == commitment_log(sum_to(n, blind_terms(bp)), rp)
    &&& p.d2@ == commitment_log(sum_to(n, masked_blind_terms(bp, bits)), up)
    &&& bh.len() == n
    &&& forall|i: int|
        0 <= i < n ==> #[trigger] bh[i]@ == (bits[i] * pow(e, i as nat) + bp[i]) % group_order()
    &&& p.r_circumflex@ == (rp + sum_to(n, randomness_terms(rs, e))) % group_order()
    &&& p.u_circumflex@ == (up + sum_to(n, response_terms(bh, rs, e))) % group_order()
}

impl Comparison {
    /// Commits to `value` and to each bit of `|value|`, with `B_0` and `r_0`
    /// chosen so that `Σ 2^i · B_i = P_x`.
    pub fn commit(value: i32) -> (r: Self)
        ensures
            comparison_committed(value, r),
    {
        let decomposed = decompose_number(value);
        let len = decomposed.len();
        let ghost l = group_order();
        let mut b_vec: Vec<Point> = Vec::new();
        let mut r_vec: Vec<Scalar> = Vec::new();
        let mut i: usize = 0;
        while i < len
            invariant
                len == decomposed.len(),
                0 <= i <= len,
                b_vec.len() == i,
                r_vec.len() == i,
                forall|j: int|
                    0 <= j < i ==> #[trigger] b_vec@[j]@ == commitment_log(
                        decomposed@[j] as int,
                        r_vec@[j]@,
                    ),
            decreases len - i,
        {
            let secret = random_scalar();
            let point = Point::pedersen(&scalar_from_u64(decomposed[i] as u64), &secret);
            r_vec.push(secret);
            b_vec.push(point);
            i = i + 1;
        }
        let x = if value < 0 {
            scalar_neg(&scalar_from_u64((0i64 - value as i64) as u64))
        } else {
            scalar_from_u64(value as u64)
        };
        proof {
            if value >= 0 {
                lemma_small_mod(value as nat, l as nat);
            }
        }
        let s = random_scalar();
        let x_point = Point::pedersen(&x, &s);
        proof {
            let sh = s@ * crate::group::h_log();
            lemma_cong_add(x@, value as int, sh, sh, l);
            assert(x_point@ == commitment_log(value as int, s@));
        }
        let ghost bits = decomposed@;
        if len > 1 {
            let two = scalar_from_u64(2);
            let w1 = pow_scalar(two, 1);
            let mut b_sigma = b_vec[1].scaled(&w1);
            let mut r_sigma = scalar_mul(&w1, &r_vec[1]);
            proof {
                let bf = tail_terms(power_terms(b_vec@, 2));
                let rf = tail_terms(scalar_power_terms(r_vec@, 2));
                assert(pow(2, 1) == 2) by {
                    reveal(pow);
                    assert(pow(2, 0) == 1);
                }
                assert(sum_to(1, bf) == sum_to(0, bf) + bf(0));
                assert(sum_to(2, bf) == sum_to(1, bf) + bf(1));
                assert(sum_to(1, rf) == sum_to(0, rf) + rf(0));
                assert(sum_to(2, rf) == sum_to(1, rf) + rf(1));
                lemma_mul_mod_noop_left(2, b_vec@[1]@, l);
                lemma_mul_mod_noop_left(2, r_vec@[1]@, l);
            }
            let mut k: usize = 2;
            while k < len
                invariant
                    len == decomposed.len(),
                    len == b_vec.len(),
                    len == r_vec.len(),
                    2 <= k <= len,
                    two@ == 2,
                    l == group_order(),
                    b_sigma@ == sum_to(k as nat, tail_terms(power_terms(b_vec@, 2))) % l,
                    r_sigma@ == sum_to(k as nat, tail_terms(scalar_power_terms(r_vec@, 2))) % l,
                decreases len - k,
            {
                let w = pow_scalar(two, k);
                let next_b = b_sigma.plus(&b_vec[k].scaled(&w));
                let next_r = scalar_add(&r_sigma, &scalar_mul(&w, &r_vec[k]));
                proof {
                    let pk = pow(2, k as nat);
                    let bsum = sum_to(k as nat, tail_terms(power_terms(b_vec@, 2)));
                    let rsum = sum_to(k as nat, tail_terms(scalar_power_terms(r_vec@, 2)));
                    lemma_cong_reduce(bsum, l);
                    lemma_cong_reduce(rsum, l);
                    lemma_cong_reduce(pk, l);
                    lemma_accumulate(b_sigma@, bsum, w@, pk, b_vec@[k as int]@, l);
                    lemma_accumulate(r_sigma@, rsum, w@, pk, r_vec@[k as int]@, l);
                }
                b_sigma = next_b;
                r_sigma = next_r;
                k = k + 1;
            }
            let b0 = x_point.minus(&b_sigma);
            let r0 = scalar_sub(&s, &r_sigma);
            let ghost old_b = b_vec@;
            let ghost old_r = r_vec@;
            b_vec.set(0, b0);
            r_vec.set(0, r0);
            proof {
                let n = len as nat;
                lemma_tail_unchanged(old_b, b_vec@, n);
                lemma_tail_unchanged_scalars(old_r, r_vec@, n);
                lemma_sub_mod_noop_right(x_point@, sum_to(n, tail_terms(power_terms(old_b, 2))), l);
                lemma_sub_mod_noop_right(s@, sum_to(n, tail_terms(scalar_power_terms(old_r, 2))), l);
                assert(forall|j: int| 1 <= j < len ==> #[trigger] b_vec@[j] == old_b[j]);
            }
        } else {
            let ghost old_b = b_vec@;
            let ghost old_r = r_vec@;
            b_vec.set(0, x_point);
            r_vec.set(0, s);
            proof {
                let bf = tail_terms(power_terms(b_vec@, 2));
                let rf = tail_terms(scalar_power_terms(r_vec@, 2));
                assert(sum_to(1, bf) == sum_to(0, bf) + bf(0));
                assert(sum_to(1, rf) == sum_to(0, rf) + rf(0));
                lemma_cong_reduce(x_point@, l);
                lemma_cong_reduce(s@, l);
            }
        }
        let r = Comparison {
            comm: ComparisonCommitment { point: x_point },
            secret: ComparisonSecret { value: decomposed, bi_vec: b_vec, ri_vec: r_vec },
        };
        proof {
            lemma_binary_digits(magnitude(value as int));
            assert(r.secret.ri_vec@[0]@ == (s@ - sum_to(
                len as nat,
                tail_terms(scalar_power_terms(r.secret.ri_vec@, 2)),
            )) % l);
        }
        r
    }

    /// Proves that the committed bits are bits and that they make up `P_x`.
    #[verifier::rlimit(60)]
    pub fn prove(a: &Comparison) -> (r: ComparisonProof)
        requires
            comparison_shaped(*a),
        ensures
            exists|bp: Seq<int>, rp: int, up: int| comparison_response(*a, bp, rp, up, r),
    {
        let bits = &a.secret.value;
        let b_vec = &a.secret.bi_vec;
        let r_vec = &a.secret.ri_vec;
        let len = bits.len();
        let ghost l = group_order();
        let mut bp_vec: Vec<Scalar> = Vec::new();
        let mut b_sigma_prime = scalar_zero();
        let mut bi_b_sigma_prime = scalar_zero();
        let mut i: usize = 0;
        while i < len
            invariant
                len == bits.len(),
                0 <= i <= len,
                bp_vec.len() == i,
                l == group_order(),
                b_sigma_prime@ == sum_to(i as nat, scalar_terms(bp_vec@)) % l,
                bi_b_sigma_prime@ == sum_to(i as nat, masked_terms(bp_vec@, bits@)) % l,
            decreases len - i,
        {
            let b_i_prime = random_scalar();
            let ghost before = bp_vec@;
            bp_vec.push(b_i_prime);
            let next_sigma = scalar_add(&b_sigma_prime, &b_i_prime);
            let next_masked = scalar_add(
                &bi_b_sigma_prime,
                &scalar_mul(&b_i_prime, &scalar_from_u64(bits[i] as u64)),
            );
            proof {
                lemma_prefix_terms(before, bp_vec@, bits@, i as nat);
                let s1 = sum_to(i as nat, scalar_terms(bp_vec@));
                let s2 = sum_to(i as nat, masked_terms(bp_vec@, bits@));
                lemma_add_mod_noop(s1, b_i_prime@, l);
                lemma_cong_reduce(b_i_prime@, l);
                lemma_cong_reduce(s2, l);
                lemma_cong_reduce(bits@[i as int] as int, l);
                lemma_small_mod(bits@[i as int] as nat, l as nat);
                lemma_accumulate(bi_b_sigma_prime@, s2, b_i_prime@, b_i_prime@, bits@[i as int] as int, l);
            }
            b_sigma_prime = next_sigma;
            bi_b_sigma_prime = next_masked;
            i = i + 1;
        }
        let r_prime = random_scalar();
        let d1 = Point::pedersen(&b_sigma_prime, &r_prime);
        let u_prime = random_scalar();
        let d2 = Point::pedersen(&bi_b_sigma_prime, &u_prime);
        let mut points: Vec<Point> = Vec::new();
        points.push(a.comm.point);
        let mut i: usize = 0;
        while i < len
            invariant
                len == b_vec.len(),
                0 <= i <= len,
                points@ == seq![a.comm.point] + b_vec@.subrange(0, i as int),
            decreases len - i,
        {
            points.push(b_vec[i]);
            proof {
                assert(b_vec@.subrange(0, i + 1) == b_vec@.subrange(0, i as int).push(
                    b_vec@[i as int],
                ));
            }
            i = i + 1;
        }
        points.push(d1);
        points.push(d2);
        proof {
            assert(b_vec@.subrange(0, len as int) == b_vec@);
            assert(points@ =~= comparison_statement(a.comm.point, b_vec@, d1, d2));
        }
        let e = challenge_of(&points);
        let mut u_circumflex = u_prime;
        let mut r_circumflex = r_prime;
        let mut b_circumflex_vec: Vec<Scalar> = Vec::new();
        let mut i: usize = 0;
        proof {
            lemma_cong_reduce(u_prime@, l);
            lemma_cong_reduce(r_prime@, l);
        }
        while i < len
            invariant
                len == bits.len(),
                len == r_vec.len(),
                len == bp_vec.len(),
                0 <= i <= len,
                l == group_order(),
                b_circumflex_vec.len() == i,
                forall|j: int|
                    0 <= j < i ==> #[trigger] b_circumflex_vec@[j]@ == (bits@[j] * pow(
                        e@,
                        j as nat,
                    ) + bp_vec@[j]@) % l,
                r_circumflex@ == (r_prime@ + sum_to(i as nat, randomness_terms(r_vec@, e@))) % l,
                u_circumflex@ == (u_prime@ + sum_to(
                    i as nat,
                    blinded_terms(bits@, bp_vec@, r_vec@, e@),
                )) % l,
            decreases len - i,
        {
            let w = pow_scalar(e, i);
            let bit = scalar_from_u64(bits[i] as u64);
            let bj_each = scalar_add(&scalar_mul(&bit, &w), &bp_vec[i]);
            let factor = scalar_sub(&w, &bj_each);
            let next_u = scalar_add(&u_circumflex, &scalar_mul(&factor, &r_vec[i]));
            let next_r = scalar_add(&r_circumflex, &scalar_mul(&r_vec[i], &w));
            proof {
                let pw = pow(e@, i as nat);
                let xi = bits@[i as int] as int;
                let bpi = bp_vec@[i as int]@;
                let ri = r_vec@[i as int]@;
                lemma_cong_reduce(pw, l);
                lemma_cong_mul(xi, xi, w@, pw, l);
                lemma_add_mod_noop(bit@ * w@, bpi, l);
                lemma_cong_add(xi * w@, xi * pw, bpi, bpi, l);
                lemma_cong_reduce(xi * w@, l);
                let rs = sum_to(i as nat, randomness_terms(r_vec@, e@));
                lemma_cong_reduce(r_prime@ + rs, l);
                lemma_cong_reduce(ri, l);
                lemma_accumulate(r_circumflex@, r_prime@ + rs, w@, pw, ri, l);
                assert(w@ * ri == ri * w@) by (nonlinear_arith);
                assert(pw * ri == ri * pw) by (nonlinear_arith);
                let us = sum_to(i as nat, blinded_terms(bits@, bp_vec@, r_vec@, e@));
                lemma_cong_reduce(u_prime@ + us, l);
                lemma_cong_sub(w@, pw, bj_each@, bj_each@, l);
                lemma_cong_reduce(w@ - bj_each@, l);
                lemma_accumulate(u_circumflex@, u_prime@ + us, factor@, pw - bj_each@, ri, l);
            }
            b_circumflex_vec.push(bj_each);
            u_circumflex = next_u;
            r_circumflex = next_r;
            i = i + 1;
        }
        let r = ComparisonProof {
            bi_point_vec: copy_points(b_vec),
            d1,
            d2,
            u_circumflex,
            b_circumflex_vec,
            r_circumflex,
        };
        proof {
            lemma_response_of_loops(*a, bp_vec@, r_prime@, u_prime@, e@, r);
        }
        r
    }

    /// Accepts exactly when the proof is well shaped and all three
    /// verification equations hold.
    #[verifier::rlimit(60)]
    pub fn verify(params: ComparisonProofWithPublicParams) -> (r: bool)
        ensures
            r == comparison_accepts(params),
    {
        let bs = &params.proof.bi_point_vec;
        let bh = &params.proof.b_circumflex_vec;
        let n = bs.len();
        if n == 0 || bh.len() != n {
            return false;
        }
        let d1 = params.proof.d1;
        let d2 = params.proof.d2;
        let mut points: Vec<Point> = Vec::new();
        points.push(params.x);
        let mut i: usize = 0;
        while i < n
            invariant
                n == bs.len(),
                0 <= i <= n,
                points@ == seq![params.x] + bs@.subrange(0, i as int),
            decreases n - i,
        {
            points.push(bs[i]);
            proof {
                assert(bs@.subrange(0, i + 1) == bs@.subrange(0, i as int).push(bs@[i as int]));
            }
            i = i + 1;
        }
        points.push(d1);
        points.push(d2);
        proof {
            assert(bs@.subrange(0, n as int) == bs@);
            assert(points@ =~= comparison_statement(params.x, bs@, d1, d2));
        }
        let e = challenge_of(&points);
        let ghost l = group_order();
        let two = scalar_from_u64(2);
        let mut left1 = d1;
        let mut left2 = d2;
        let mut b_total = scalar_zero();
        let mut binary = bs[0];
        let mut i: usize = 0;
        proof {
            lemma_cong_reduce(d1@, l);
            lemma_cong_reduce(d2@, l);
        }
        while i < n
            invariant
                n == bs.len(),
                n == bh.len(),
                n >= 1,
                0 <= i <= n,
                two@ == 2,
                l == group_order(),
                left1@ == (d1@ + sum_to(i as nat, power_terms(bs@, e@))) % l,
                left2@ == (d2@ + sum_to(i as nat, bit_check_terms(bs@, bh@, e@))) % l,
                b_total@ == sum_to(i as nat, scalar_terms(bh@)) % l,
                i == 0 ==> binary == bs@[0],
                i > 0 ==> binary@ == sum_to(i as nat, power_terms(bs@, 2)) % l,
            decreases n - i,
        {
            let b = bs[i];
            let w = pow_scalar(e, i);
            let check = scalar_sub(&w, &bh[i]);
            let next1 = left1.plus(&b.scaled(&w));
            let next2 = left2.plus(&b.scaled(&check));
            let next_total = scalar_add(&b_total, &bh[i]);
            proof {
                let pw = pow(e@, i as nat);
                let bhi = bh@[i as int]@;
                lemma_cong_reduce(d1@ + sum_to(i as nat, power_terms(bs@, e@)), l);
                lemma_cong_reduce(pw, l);
                lemma_accumulate(
                    left1@,
                    d1@ + sum_to(i as nat, power_terms(bs@, e@)),
                    w@,
                    pw,
                    b@,
                    l,
                );
                lemma_cong_reduce(d2@ + sum_to(i as nat, bit_check_terms(bs@, bh@, e@)), l);
                lemma_cong_sub(w@, pw, bhi, bhi, l);
                lemma_cong_reduce(w@ - bhi, l);
                lemma_accumulate(
                    left2@,
                    d2@ + sum_to(i as nat, bit_check_terms(bs@, bh@, e@)),
                    check@,
                    pw - bhi,
                    b@,
                    l,
                );
                lemma_add_mod_noop(sum_to(i as nat, scalar_terms(bh@)), bhi, l);
                lemma_cong_reduce(bhi, l);
            }
            if i > 0 {
                let w2 = pow_scalar(two, i);
                let next_binary = binary.plus(&b.scaled(&w2));
                proof {
                    let p2 = pow(2, i as nat);
                    lemma_cong_reduce(sum_to(i as nat, power_terms(bs@, 2)), l);
                    lemma_cong_reduce(p2, l);
                    lemma_accumulate(
                        binary@,
                        sum_to(i as nat, power_terms(bs@, 2)),
                        w2@,
                        p2,
                        b@,
                        l,
                    );
                }
                binary = next_binary;
            } else {
                proof {
                    reveal(pow);
                    assert(pow(2, 0) == 1);
                    assert(sum_to(1, power_terms(bs@, 2)) == sum_to(0, power_terms(bs@, 2)) + 1
                        * bs@[0]@);
                    lemma_cong_reduce(binary@, l);
                }
            }
            left1 = next1;
            left2 = next2;
            b_total = next_total;
            i = i + 1;
        }
        let right1 = Point::pedersen(&b_total, &params.proof.r_circumflex);
        let zero = scalar_zero();
        let right2 = Point::pedersen(&zero, &params.proof.u_circumflex);
        proof {
            let total = sum_to(n as nat, scalar_terms(bh@));
            let rh = params.proof.r_circumflex@ * crate::group::h_log();
            lemma_cong_reduce(total, l);
            lemma_cong_add(b_total@, total, rh, rh, l);
        }
        left1.same_as(&right1) && left2.same_as(&right2) && binary.same_as(&params.x)
    }
}

/// The terms `bp[i] · x_i`.
pub open spec fn masked_terms(bp: Seq<Scalar>, bits: Seq<u8>) -> spec_fn(int) -> int {
    |i: int| bp[i]@ * bits[i]
}

/// The blinds `b'_i`.
pub open spec fn blind_terms(bp: Seq<int>) -> spec_fn(int) -> int {
    |i: int| bp[i]
}

/// The terms `b'_i · x_i`.
pub open spec fn masked_blind_terms(bp: Seq<int>, bits: Seq<u8>) -> spec_fn(int) -> int {
    |i: int| bp[i] * bits[i]
}

/// The terms `(e^i - b̂_i) · r_i` of the response `û`.
pub open spec fn response_terms(bh: Seq<Scalar>, rs: Seq<Scalar>, e: int) -> spec_fn(int) -> int {
    |i: int| (pow(e, i as nat) - bh[i]@) * rs[i]@
}

/// The terms `r_i · e^i`.
pub open spec fn randomness_terms(rs: Seq<Scalar>, e: int) -> spec_fn(int) -> int {
    |i: int| rs[i]@ * pow(e, i as nat)
}

/// The terms `(e^i - b̂_i) · r_i`, with `b̂_i = x_i e^i + b'_i` reduced.
pub open spec fn blinded_terms(bits: Seq<u8>, bp: Seq<Scalar>, rs: Seq<Scalar>, e: int) -> spec_fn(
    int,
) -> int {
    |i: int|
        (pow(e, i as nat) - (bits[i] * pow(e, i as nat) + bp[i]@) % group_order()) * rs[i]@
}

/// What the prover's loops computed is a response in the sense of
/// `comparison_response`, with the blinds' values.
proof fn lemma_response_of_loops(
    a: Comparison,
    bp_vec: Seq<Scalar>,
    rp: int,
    up: int,
    e: int,
    r: ComparisonProof,
)
    requires
        comparison_shaped(a),
        bp_vec.len() == a.secret.value@.len(),
        r.bi_point_vec@ == a.secret.bi_vec@,
        e == challenge_for(comparison_statement(a.comm.point, r.bi_point_vec@, r.d1, r.d2)),
        r.d1@ == commitment_log(
            sum_to(a.secret.value@.len(), scalar_terms(bp_vec)) % group_order(),
            rp,
        ),
        r.d2@ == commitment_log(
            sum_to(a.secret.value@.len(), masked_terms(bp_vec, a.secret.value@)) % group_order(),
            up,
        ),
        r.b_circumflex_vec@.len() == a.secret.value@.len(),
        forall|j: int|
            0 <= j < a.secret.value@.len() ==> #[trigger] r.b_circumflex_vec@[j]@ == (
            a.secret.value@[j] * pow(e, j as nat) + bp_vec[j]@) % group_order(),
        r.r_circumflex@ == (rp + sum_to(
            a.secret.value@.len(),
            randomness_terms(a.secret.ri_vec@, e),
        )) % group_order(),
        r.u_circumflex@ == (up + sum_to(
            a.secret.value@.len(),
            blinded_terms(a.secret.value@, bp_vec, a.secret.ri_vec@, e),
        )) % group_order(),
    ensures
        comparison_response(a, bp_vec.map_values(|s: Scalar| s@), rp, up, r),
{
    let l = group_order();
    let h = h_log();
    let bits = a.secret.value@;
    let n = bits.len();
    let bp = bp_vec.map_values(|s: Scalar| s@);
    let bh = r.b_circumflex_vec@;
    let rs = a.secret.ri_vec@;
    crate::sums::lemma_sum_ext(n, scalar_terms(bp_vec), blind_terms(bp));
    crate::sums::lemma_sum_ext(n, masked_terms(bp_vec, bits), masked_blind_terms(bp, bits));
    assert forall|j: int| 0 <= j < n implies #[trigger] blinded_terms(bits, bp_vec, rs, e)(j)
        == response_terms(bh, rs, e)(j) by {}
    crate::sums::lemma_sum_ext(n, blinded_terms(bits, bp_vec, rs, e), response_terms(bh, rs, e));
    let s1 = sum_to(n, blind_terms(bp));
    let s2 = sum_to(n, masked_blind_terms(bp, bits));
    lemma_cong_reduce(s1, l);
    lemma_cong_reduce(s2, l);
    lemma_cong_add(s1 % l, s1, rp * h, rp * h, l);
    lemma_cong_add(s2 % l, s2, up * h, up * h, l);
}

/// Appending to the blinds leaves the sums of the earlier terms as they are.
proof fn lemma_prefix_terms(before: Seq<Scalar>, after: Seq<Scalar>, bits: Seq<u8>, n: nat)
    requires
        before.len() == n,
        after.len() == n + 1,
        forall|j: int| 0 <= j < n ==> #[trigger] before[j] == after[j],
    ensures
        sum_to(n, scalar_terms(before)) == sum_to(n, scalar_terms(after)),
        sum_to(n, masked_terms(before, bits)) == sum_to(n, masked_terms(after, bits)),
{
    assert forall|j: int| 0 <= j < n implies #[trigger] scalar_terms(before)(j) == scalar_terms(
        after,
    )(j) by {
        assert(before[j] == after[j]);
    }
    assert forall|j: int| 0 <= j < n implies #[trigger] masked_terms(before, bits)(j)
        == masked_terms(after, bits)(j) by {
        assert(before[j] == after[j]);
    }
    crate::sums::lemma_sum_ext(n, scalar_terms(before), scalar_terms(after));
    crate::sums::lemma_sum_ext(n, masked_terms(before, bits), masked_terms(after, bits));
}

/// A copy of a list of points.
fn copy_points(v: &Vec<Point>) -> (r: Vec<Point>)
    ensures
        r@ == v@,
{
    let mut r: Vec<Point> = Vec::new();
    let mut i: usize = 0;
    while i < v.len()
        invariant
            0 <= i <= v.len(),
            r@ == v@.subrange(0, i as int),
        decreases v.len() - i,
    {
        r.push(v[i]);
        proof {
            assert(v@.subrange(0, i + 1) == v@.subrange(0, i as int).push(v@[i as int]));
        }
        i = i + 1;
    }
    proof {
        assert(v@.subrange(0, v.len() as int) == v@);
    }
    r
}

/// Changing the first point leaves the weighted sum of the others as it is.
proof fn lemma_tail_unchanged(a: Seq<Point>, b: Seq<Point>, n: nat)
    requires
        a.len() == n,
        b.len() == n,
        forall|j: int| 1 <= j < n ==> #[trigger] a[j] == b[j],
    ensures
        sum_to(n, tail_terms(power_terms(a, 2))) == sum_to(n, tail_terms(power_terms(b, 2))),
{
    let f = tail_terms(power_terms(a, 2));
    let g = tail_terms(power_terms(b, 2));
    assert forall|j: int| 0 <= j < n implies #[trigger] f(j) == g(j) by {
        if j != 0 {
            assert(a[j] == b[j]);
        }
    }
    crate::sums::lemma_sum_ext(n, f, g);
}

/// Changing the first scalar leaves the weighted sum of the others as it is.
proof fn lemma_tail_unchanged_scalars(a: Seq<Scalar>, b: Seq<Scalar>, n: nat)
    requires
        a.len() == n,
        b.len() == n,
        forall|j: int| 1 <= j < n ==> #[trigger] a[j] == b[j],
    ensures
        sum_to(n, tail_terms(scalar_power_terms(a, 2))) == sum_to(
            n,
            tail_terms(scalar_power_terms(b, 2)),
        ),
{
    let f = tail_terms(scalar_power_terms(a, 2));
    let g = tail_terms(scalar_power_terms(b, 2));
    assert forall|j: int| 0 <= j < n implies #[trigger] f(j) == g(j) by {
        if j != 0 {
            assert(a[j] == b[j]);
        }
    }
    crate::sums::lemma_sum_ext(n, f, g);
}

/// The little-endian binary digits of `n`, with no leading zero on the most
/// significant side; `0` has the single digit `0`.
pub open spec fn binary_digits(n: nat) -> Seq<u8>
    decreases n,
{
    if n < 2 {
        seq![n as u8]
    } else {
        seq![(n % 2) as u8] + binary_digits(n / 2)
    }
}

/// The absolute value of `x`.
pub open spec fn magnitude(x: int) -> nat {
    if x < 0 {
        (-x) as nat
    } else {
        x as nat
    }
}

/// The little-endian binary digits of `|input|`.
pub fn decompose_number(input: i32) -> (r: Vec<u8>)
    ensures
        r@ == binary_digits(magnitude(input as int)),
{
    let n: u32 = if input < 0 {
        (0i64 - input as i64) as u32
    } else {
        input as u32
    };
    let mut res: Vec<u8> = Vec::new();
    let mut m: u32 = n;
    while m >= 2
        invariant
            res@ + binary_digits(m as nat) == binary_digits(n as nat),
        decreases m,
    {
        let digit = (m % 2) as u8;
        proof {
            assert(binary_digits(m as nat) == seq![digit] + binary_digits((m / 2) as nat));
            assert(res@.push(digit) + binary_digits((m / 2) as nat) =~= res@ + (seq![digit]
                + binary_digits((m / 2) as nat)));
        }
        res.push(digit);
        m = m / 2;
    }
    proof {
        assert(res@.push(m as u8) =~= res@ + binary_digits(m as nat));
    }
    res.push(m as u8);
    res
}

/// `a` raised to the power `exp`, in `ℤ_ℓ`.
pub fn pow_scalar(a: Scalar, exp: usize) -> (r: Scalar)
    ensures
        r@ == pow(a@, exp as nat) % group_order(),
{
    let mut acc = scalar_from_u64(1);
    let mut i: usize = 0;
    proof {
        assert(pow(a@, 0) == 1) by {
            reveal(pow);
        }
    }
    while i < exp
        invariant
            0 <= i <= exp,
            acc@ == pow(a@, i as nat) % group_order(),
        decreases exp - i,
    {
        let next = scalar_mul(&acc, &a);
        proof {
            reveal(pow);
            let prev = pow(a@, i as nat);
            assert(pow(a@, (i + 1) as nat) == a@ * prev);
            assert(a@ * prev == prev * a@) by (nonlinear_arith);
            lemma_mul_mod_noop_left(prev, a@, group_order());
        }
        acc = next;
        i = i + 1;
    }
    acc
}

/// The terms `w^i · x_i` of a digit sequence.
pub open spec fn digit_terms(bits: Seq<u8>, w: int) -> spec_fn(int) -> int {
    |i: int| pow(w, i as nat) * bits[i]
}

/// The number that a little-endian binary digit sequence stands for.
pub open spec fn digits_value(bits: Seq<u8>) -> int {
    sum_to(bits.len(), digit_terms(bits, 2))
}

/// The digits of `n` recursively: the lowest digit plus twice the rest.
spec fn digits_value_rec(bits: Seq<u8>) -> int
    decreases bits.len(),
{
    if bits.len() == 0 {
        0
    } else {
        bits[0] + 2 * digits_value_rec(bits.drop_first())
    }
}

/// Peeling the lowest digit off a weighted digit sum.
proof fn lemma_digit_sum_shift(bits: Seq<u8>, k: nat)
    requires
        k + 1 <= bits.len(),
    ensures
        sum_to(k + 1, digit_terms(bits, 2)) == bits[0] + 2 * sum_to(
            k,
            digit_terms(bits.drop_first(), 2),
        ),
    decreases k,
{
    let f = digit_terms(bits, 2);
    let g = digit_terms(bits.drop_first(), 2);
    if k == 0 {
        assert(pow(2, 0) == 1) by {
            reveal(pow);
        }
        assert(sum_to(1, f) == sum_to(0, f) + f(0));
    } else {
        lemma_digit_sum_shift(bits, (k - 1) as nat);
        let pk = pow(2, (k - 1) as nat);
        assert(pow(2, k) == 2 * pk) by {
            reveal(pow);
        }
        assert(f(k as int) == pow(2, k) * bits[k as int]);
        assert(g((k - 1) as int) == pk * bits.drop_first()[(k - 1) as int]);
        assert(bits.drop_first()[(k - 1) as int] == bits[k as int]);
        let s = sum_to((k - 1) as nat, g);
        let b = bits[k as int] as int;
        assert(2 * pk * b == 2 * (pk * b)) by (nonlinear_arith);
        assert(2 * s + 2 * (pk * b) == 2 * (s + pk * b));
    }
}

/// The weighted digit sum agrees with the recursive reading.
proof fn lemma_digits_value_rec(bits: Seq<u8>)
    ensures
        digits_value(bits) == digits_value_rec(bits),
    decreases bits.len(),
{
    if bits.len() > 0 {
        lemma_digits_value_rec(bits.drop_first());
        lemma_digit_sum_shift(bits, (bits.len() - 1) as nat);
    }
}

/// The binary digits of `n` are bits, and they stand for `n`.
pub proof fn lemma_binary_digits(n: nat)
    ensures
        binary_digits(n).len() >= 1,
        forall|i: int| 0 <= i < binary_digits(n).len() ==> #[trigger] binary_digits(n)[i] <= 1,
        digits_value(binary_digits(n)) == n,
    decreases n,
{
    lemma_digits_value_rec(binary_digits(n));
    let d = binary_digits(n);
    if n < 2 {
        assert(d.drop_first().len() == 0);
        assert(digits_value_rec(d) == d[0] + 2 * digits_value_rec(d.drop_first()));
    } else {
        lemma_binary_digits(n / 2);
        let rest = binary_digits(n / 2);
        assert(d.drop_first() =~= rest);
        assert(d[0] == n % 2);
        assert(digits_value_rec(d) == d[0] + 2 * digits_value_rec(rest));
        assert forall|i: int| 0 <= i < d.len() implies #[trigger] d[i] <= 1 by {
            if i > 0 {
                assert(d[i] == rest[i - 1]);
            }
        }
        lemma_digits_value_rec(rest);
    }
}

/// The public parameters that a prover hands to the verifier.
pub open spec fn comparison_public(c: Comparison, p: ComparisonProof) -> ComparisonProofWithPublicParams {
    ComparisonProofWithPublicParams { proof: p, x: c.comm.point }
}

/// How far the committed value is from the number its bits stand for;
/// zero for `value ≥ 0`.
pub open spec fn bit_gap(value: i32, c: Comparison) -> int {
    value - digits_value(c.secret.value@)
}

/// What `commit` builds opens as expected: each `B_i` opens to
/// `(x_i, r_i)`, except that `B_0` carries the gap between the value and
/// its bits; and `Σ 2^i · B_i = P_x`.
pub proof fn lemma_bit_commitments(value: i32, c: Comparison)
    requires
        comparison_committed(value, c),
    ensures
        forall|i: int|
            0 <= i < c.secret.value@.len() ==> #[trigger] c.secret.bi_vec@[i]@ == (
            c.secret.value@[i] + c.secret.ri_vec@[i]@ * h_log() + (if i == 0 {
                bit_gap(value, c)
            } else {
                0
            })) % group_order(),
        sum_to(c.secret.value@.len(), power_terms(c.secret.bi_vec@, 2)) % group_order()
            == c.comm.point@,
{
    let l = group_order();
    let h = h_log();
    let bits = c.secret.value@;
    let bs = c.secret.bi_vec@;
    let rs = c.secret.ri_vec@;
    let n = bits.len();
    lemma_binary_digits(magnitude(value as int));
    let s = choose|s: int|
        c.comm.point@ == commitment_log(value as int, s) && rs[0]@ == (s - sum_to(
            n,
            tail_terms(scalar_power_terms(rs, 2)),
        )) % l;
    let tb = sum_to(n, tail_terms(power_terms(bs, 2)));
    let tr = sum_to(n, tail_terms(scalar_power_terms(rs, 2)));
    let tx = sum_to(n, tail_terms(digit_terms(bits, 2)));
    // The tail of the point sum is the tail of the bit sum plus h times the
    // tail of the randomness sum.
    let combined = |i: int| tail_terms(digit_terms(bits, 2))(i) + h * tail_terms(scalar_power_terms(rs, 2))(i);
    assert forall|i: int| 0 <= i < n implies #[trigger] tail_terms(power_terms(bs, 2))(i) % l
        == combined(i) % l by {
        if i != 0 {
            let p2 = pow(2, i as nat);
            let opening = bits[i] + rs[i]@ * h;
            assert(bs[i]@ == commitment_log(bits[i] as int, rs[i]@));
            assert(tail_terms(power_terms(bs, 2))(i) == p2 * bs[i]@);
            assert(combined(i) == p2 * bits[i] + h * (p2 * rs[i]@));
            lemma_cong_reduce(opening, l);
            lemma_cong_mul(p2, p2, bs[i]@, opening, l);
            let xi = bits[i] as int;
            let ri = rs[i]@;
            assert(p2 * opening == p2 * xi + h * (p2 * ri)) by (nonlinear_arith)
                requires
                    opening == xi + ri * h,
            ;
            assert((p2 * bs[i]@) % l == (p2 * opening) % l);
            assert(tail_terms(power_terms(bs, 2))(i) % l == combined(i) % l);
        } else {
            assert(combined(i) == 0 + h * 0);
            assert(h * 0 == 0);
        }
    }
    crate::sums::lemma_sum_cong(n, tail_terms(power_terms(bs, 2)), combined, l);
    crate::sums::lemma_sum_add(n, tail_terms(digit_terms(bits, 2)), |i: int| h * tail_terms(scalar_power_terms(rs, 2))(i));
    crate::sums::lemma_sum_scale(n, tail_terms(scalar_power_terms(rs, 2)), h);
    crate::sums::lemma_sum_ext(
        n,
        combined,
        |i: int| tail_terms(digit_terms(bits, 2))(i) + (|j: int| h * tail_terms(scalar_power_terms(rs, 2))(j))(i),
    );
    assert(tb % l == (tx + h * tr) % l);
    // The first bit commitment.
    crate::sums::lemma_sum_first(n, digit_terms(bits, 2));
    assert(pow(2, 0) == 1) by {
        reveal(pow);
    }
    let gap = bit_gap(value, c);
    assert(gap == value - bits[0] - tx);
    lemma_cong_reduce(value + s * h, l);
    lemma_cong_sub(c.comm.point@, value + s * h, tb, tx + h * tr, l);
    lemma_cong_reduce(c.comm.point@ - tb, l);
    lemma_cong_reduce(s - tr, l);
    lemma_cong_mul(rs[0]@, s - tr, h, h, l);
    lemma_cong_add(bits[0] + gap, bits[0] + gap, rs[0]@ * h, (s - tr) * h, l);
    assert((s - tr) * h == s * h - h * tr) by (nonlinear_arith);
    assert(value + s * h - (tx + h * tr) == bits[0] + gap + (s - tr) * h);
    assert(bs[0]@ == (bits[0] + rs[0]@ * h + gap) % l);
    // The whole point sum.
    crate::sums::lemma_sum_first(n, power_terms(bs, 2));
    lemma_cong_reduce(tb, l);
    lemma_cong_reduce(c.comm.point@ - tb, l);
    lemma_cong_add(bs[0]@, c.comm.point@ - tb, tb, tb, l);
    lemma_cong_reduce(c.comm.point@, l);
}

/// The terms that are `g` at the first index and zero elsewhere.
spec fn first_only(g: int) -> spec_fn(int) -> int {
    |i: int|
        if i == 0 {
            g
        } else {
            0
        }
}

proof fn lemma_sum_first_only(n: nat, g: int)
    requires
        n >= 1,
    ensures
        sum_to(n, first_only(g)) == g,
    decreases n,
{
    if n > 1 {
        lemma_sum_first_only((n - 1) as nat, g);
    } else {
        assert(sum_to(1, first_only(g)) == sum_to(0, first_only(g)) + first_only(g)(0));
    }
}

/// The first verification equation holds, on what `prove` returns for
/// what `commit` returned, exactly when the committed value is the number
/// that its bits stand for (modulo `ℓ`).
pub proof fn lemma_first_equation(
    value: i32,
    c: Comparison,
    bp: Seq<int>,
    rp: int,
    up: int,
    p: ComparisonProof,
)
    requires
        comparison_committed(value, c),
        comparison_response(c, bp, rp, up, p),
    ensures
        comparison_first_equation(comparison_public(c, p)) <==> bit_gap(value, c) % group_order()
            == 0,
{
    let l = group_order();
    let h = h_log();
    lemma_bit_commitments(value, c);
    lemma_binary_digits(magnitude(value as int));
    let pp = comparison_public(c, p);
    let e = comparison_challenge(pp);
    let bits = c.secret.value@;
    let bs = p.bi_point_vec@;
    let rs = c.secret.ri_vec@;
    let bh = p.b_circumflex_vec@;
    let n = bits.len();
    let gap = bit_gap(value, c);
    let fa = digit_terms(bits, e);
    let fr = randomness_terms(rs, e);
    let fb = |i: int| h * fr(i);
    let fc = first_only(gap);
    let fbc = |i: int| fb(i) + fc(i);
    let comb = |i: int| fa(i) + fbc(i);
    assert(pow(e, 0) == 1) by {
        reveal(pow);
    }
    assert forall|i: int| 0 <= i < n implies #[trigger] power_terms(bs, e)(i) % l == comb(i) % l by {
        let pw = pow(e, i as nat);
        let xi = bits[i] as int;
        let ri = rs[i]@;
        let d = if i == 0 {
            gap
        } else {
            0
        };
        let op = xi + ri * h + d;
        assert(bs[i]@ == op % l);
        lemma_cong_reduce(op, l);
        lemma_cong_mul(pw, pw, bs[i]@, op, l);
        assert(pw * op == pw * xi + h * (ri * pw) + pw * d) by (nonlinear_arith)
            requires
                op == xi + ri * h + d,
        ;
        if i == 0 {
            assert(pw * d == d);
        } else {
            assert(pw * d == 0);
        }
        assert(comb(i) == pw * xi + (h * (ri * pw) + fc(i)));
    }
    crate::sums::lemma_sum_cong(n, power_terms(bs, e), comb, l);
    crate::sums::lemma_sum_ext(n, comb, |i: int| fa(i) + fbc(i));
    crate::sums::lemma_sum_add(n, fa, fbc);
    crate::sums::lemma_sum_ext(n, fbc, |i: int| fb(i) + fc(i));
    crate::sums::lemma_sum_add(n, fb, fc);
    crate::sums::lemma_sum_ext(n, fb, |i: int| h * fr(i));
    crate::sums::lemma_sum_scale(n, fr, h);
    lemma_sum_first_only(n, gap);
    let x_sum = sum_to(n, fa);
    let r_sum = sum_to(n, fr);
    let bp_sum = sum_to(n, blind_terms(bp));
    let pt_sum = sum_to(n, power_terms(bs, e));
    assert(pt_sum % l == (x_sum + (h * r_sum + gap)) % l);
    // The left side.
    lemma_cong_reduce(bp_sum + rp * h, l);
    lemma_cong_add(p.d1@, bp_sum + rp * h, pt_sum, x_sum + (h * r_sum + gap), l);
    // The right side.
    let bh_sum = sum_to(n, scalar_terms(bh));
    let fx = |i: int| fa(i) + blind_terms(bp)(i);
    assert forall|i: int| 0 <= i < n implies #[trigger] scalar_terms(bh)(i) % l == fx(i) % l by {
        let pw = pow(e, i as nat);
        let xi = bits[i] as int;
        assert(bh[i]@ == (xi * pw + bp[i]) % l);
        lemma_cong_reduce(xi * pw + bp[i], l);
        assert(xi * pw == pw * xi) by (nonlinear_arith);
    }
    crate::sums::lemma_sum_cong(n, scalar_terms(bh), fx, l);
    crate::sums::lemma_sum_add(n, fa, blind_terms(bp));
    crate::sums::lemma_sum_ext(n, fx, |i: int| fa(i) + blind_terms(bp)(i));
    assert(bh_sum % l == (x_sum + bp_sum) % l);
    lemma_cong_reduce(rp + r_sum, l);
    lemma_cong_mul(p.r_circumflex@, rp + r_sum, h, h, l);
    lemma_cong_add(bh_sum, x_sum + bp_sum, p.r_circumflex@ * h, (rp + r_sum) * h, l);
    let base = bp_sum + rp * h + x_sum + h * r_sum;
    assert((rp + r_sum) * h == rp * h + h * r_sum) by (nonlinear_arith);
    assert(x_sum + bp_sum + (rp + r_sum) * h == base);
    assert(bp_sum + rp * h + (x_sum + (h * r_sum + gap)) == base + gap);
    lemma_shift_residue(base, gap, l);
}

/// The second verification equation holds, on what `prove` returns for
/// what `commit` returned, when the committed value is the number its bits
/// stand for and each bit is 0 or 1.
pub proof fn lemma_second_equation(
    value: i32,
    c: Comparison,
    bp: Seq<int>,
    rp: int,
    up: int,
    p: ComparisonProof,
)
    requires
        comparison_committed(value, c),
        comparison_response(c, bp, rp, up, p),
        bit_gap(value, c) == 0,
        forall|i: int| 0 <= i < c.secret.value@.len() ==> #[trigger] c.secret.value@[i] <= 1,
    ensures
        comparison_second_equation(comparison_public(c, p)),
{
    let l = group_order();
    let h = h_log();
    lemma_bit_commitments(value, c);
    let pp = comparison_public(c, p);
    let e = comparison_challenge(pp);
    let bits = c.secret.value@;
    let bs = p.bi_point_vec@;
    let rs = c.secret.ri_vec@;
    let bh = p.b_circumflex_vec@;
    let n = bits.len();
    let fm = masked_blind_terms(bp, bits);
    let fu = response_terms(bh, rs, e);
    let fneg = |i: int| -1 * fm(i);
    let fh = |i: int| h * fu(i);
    let comb = |i: int| fneg(i) + fh(i);
    assert forall|i: int| 0 <= i < n implies #[trigger] bit_check_terms(bs, bh, e)(i) % l == comb(
        i,
    ) % l by {
        let pw = pow(e, i as nat);
        let xi = bits[i] as int;
        let ri = rs[i]@;
        let q = pw - bh[i]@;
        let q2 = pw - (xi * pw + bp[i]);
        let op = xi + ri * h;
        assert(bs[i]@ == (op + 0) % l);
        lemma_cong_reduce(op, l);
        lemma_cong_mul(q, q, bs[i]@, op, l);
        assert(q * op == q * xi + h * (q * ri)) by (nonlinear_arith)
            requires
                op == xi + ri * h,
        ;
        lemma_cong_reduce(xi * pw + bp[i], l);
        lemma_cong_sub(pw, pw, bh[i]@, xi * pw + bp[i], l);
        lemma_cong_mul(q, q2, xi, xi, l);
        if xi == 0 {
            assert(q2 * xi == 0);
        } else {
            assert(xi == 1);
            assert(q2 * xi == -bp[i]);
        }
        assert(q2 * xi == -1 * (bp[i] * xi));
        lemma_cong_add(q * xi, q2 * xi, h * (q * ri), h * (q * ri), l);
        assert(comb(i) == -1 * (bp[i] * xi) + h * (q * ri));
    }
    crate::sums::lemma_sum_cong(n, bit_check_terms(bs, bh, e), comb, l);
    crate::sums::lemma_sum_ext(n, comb, |i: int| fneg(i) + fh(i));
    crate::sums::lemma_sum_add(n, fneg, fh);
    crate::sums::lemma_sum_ext(n, fneg, |i: int| -1 * fm(i));
    crate::sums::lemma_sum_scale(n, fm, -1);
    crate::sums::lemma_sum_ext(n, fh, |i: int| h * fu(i));
    crate::sums::lemma_sum_scale(n, fu, h);
    let m_sum = sum_to(n, fm);
    let u_sum = sum_to(n, fu);
    let check_sum = sum_to(n, bit_check_terms(bs, bh, e));
    assert(check_sum % l == (-1 * m_sum + h * u_sum) % l);
    lemma_cong_reduce(m_sum + up * h, l);
    lemma_cong_add(p.d2@, m_sum + up * h, check_sum, -1 * m_sum + h * u_sum, l);
    lemma_cong_reduce(up + u_sum, l);
    lemma_cong_mul(p.u_circumflex@, up + u_sum, h, h, l);
    lemma_cong_add(0, 0, p.u_circumflex@ * h, (up + u_sum) * h, l);
    assert((up + u_sum) * h == up * h + h * u_sum) by (nonlinear_arith);
    assert(m_sum + up * h + (-1 * m_sum + h * u_sum) == 0 + (up + u_sum) * h);
}

/// Completeness: for `value ≥ 0`, every proof that `prove` returns on what
/// `commit(value)` returned is accepted.
pub proof fn lemma_comparison_complete(
    value: i32,
    c: Comparison,
    bp: Seq<int>,
    rp: int,
    up: int,
    p: ComparisonProof,
)
    requires
        value >= 0,
        comparison_committed(value, c),
        comparison_response(c, bp, rp, up, p),
    ensures
        comparison_accepts(comparison_public(c, p)),
{
    lemma_binary_digits(magnitude(value as int));
    assert(bit_gap(value, c) == 0);
    lemma_first_equation(value, c, bp, rp, up, p);
    lemma_second_equation(value, c, bp, rp, up, p);
    lemma_bit_commitments(value, c);
}

/// Soundness for negative values: for `value < 0`, no proof that `prove`
/// returns on what `commit(value)` returned is accepted; the first
/// equation misses by `2 · value`.
pub proof fn lemma_comparison_rejects_negative(
    value: i32,
    c: Comparison,
    bp: Seq<int>,
    rp: int,
    up: int,
    p: ComparisonProof,
)
    requires
        value < 0,
        comparison_committed(value, c),
        comparison_response(c, bp, rp, up, p),
    ensures
        !comparison_accepts(comparison_public(c, p)),
{
    lemma_binary_digits(magnitude(value as int));
    assert(bit_gap(value, c) == 2 * value);
    crate::modular::lemma_nonzero_residue(2 * value, group_order());
    lemma_first_equation(value, c, bp, rp, up, p);
}

} // verus!
