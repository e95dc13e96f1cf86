//! Multiplication: a proof that committed values satisfy `a · b = c`.
//!
//! With the witness `s = r_c - v_b · r_a`, `P_c = v_b · P_a + s · H`; the
//! proof shows one `v_b` that opens `P_b` and, over the bases `P_a`, `H`,
//! opens `P_c`.
use crate::group::{
    commitment_log, group_order, h_log, lemma_opening_response, random_scalar, scalar_add,
    scalar_from_u64, scalar_mul, scalar_sub, Point, Scalar,
};
use crate::modular::{lemma_cong_add, lemma_cong_mul, lemma_cong_reduce, lemma_shift_residue};
use crate::transcript::{challenge_for, challenge_of};
use vstd::arithmetic::div_mod::lemma_add_mod_noop_right;
use vstd::prelude::*;

verus! {

/// A committed value of the multiplication protocol, with its opening.
#[derive(Clone, Copy, Debug)]
pub struct Multiplication {
    pub comm: MultiplicationCommitment,
    pub secret: MultiplicationSecret,
}

/// The public part of a commitment.
#[derive(Clone, Copy, Debug)]
pub struct MultiplicationCommitment {
    pub point: Point,
}

/// The opening of a commitment: its value and its randomness.
#[derive(Clone, Copy, Debug)]
pub struct MultiplicationSecret {
    pub value: u64,
    pub secret: Scalar,
}

/// The proof: the first moves `D₁`, `D₂` and the responses `b̂`, `ŝ`, `β̂`.
#[derive(Clone, Copy, Debug)]
pub struct MultiplicationProof {
    pub d1: Point,
    pub d2: Point,
    pub b_circumflex: Scalar,
    pub s_circumflex: Scalar,
    pub beta_circumflex: Scalar,
}

/// The prover's auxiliary scalar `s = r_c - v_b · r_a`.
#[derive(Clone, Copy, Debug)]
pub struct MultiplicationWitness {
    pub s: Scalar,
}

/// A proof together with the three commitments it speaks of.
#[derive(Clone, Copy, Debug)]
pub struct MultiplicationWithPublicParams {
    pub proof: MultiplicationProof,
    pub a_point: Point,
    pub b_point: Point,
    pub c_point: Point,
}

/// The points hashed into the challenge, after `G` and `H`.
pub open spec fn multiplication_statement(a: Point, b: Point, c: Point, d1: Point, d2: Point) -> Seq<Point> {
    seq![a, b, c, d1, d2]
}

/// What the verifier accepts, for `e = H*(G ‖ H ‖ P_a ‖ P_b ‖ P_c ‖ D₁ ‖ D₂)`:
/// `D₁ + e · P_c = b̂ · P_a + ŝ · H` and `D₂ + e · P_b = b̂ · G + β̂ · H`.
pub open spec fn multiplication_accepts(p: MultiplicationWithPublicParams) -> bool {
    let e = challenge_for(
        multiplication_statement(p.a_point, p.b_point, p.c_point, p.proof.d1, p.proof.d2),
    );
    &&& (p.proof.d2@ + e * p.b_point@) % group_order() == commitment_log(
        p.proof.b_circumflex@,
        p.proof.beta_circumflex@,
    )
    &&& (p.proof.d1@ + e * p.c_point@) % group_order() == (p.proof.b_circumflex@ * p.a_point@
        + p.proof.s_circumflex@ * h_log()) % group_order()
}

/// The proof that the prover returns when it draws the nonces `b0`, `s0`,
/// `beta0`: `D₁ = b0 · P_a + s0 · H`, `D₂ = b0 · G + beta0 · H`,
/// `b̂ = b0 + e · v_b`, `ŝ = s0 + e · s`, `β̂ = beta0 + e · r_b`.
pub open spec fn multiplication_response(
    a: Multiplication,
    b: Multiplication,
    c: Multiplication,
    w: MultiplicationWitness,
    b0: int,
    s0: int,
    beta0: int,
    p: MultiplicationProof,
) -> bool {
    let e = challenge_for(
        multiplication_statement(a.comm.point, b.comm.point, c.comm.point, p.d1, p.d2),
    );
    &&& p.d1@ == (b0 * a.comm.point@ + s0 * h_log()) % group_order()
    &&& p.d2@ == commitment_log(b0, beta0)
    &&& p.b_circumflex@ == (b0 + e * b.secret.value) % group_order()
    &&& p.s_circumflex@ == (s0 + e * w.s@) % group_order()
    &&& p.beta_circumflex@ == (beta0 + e * b.secret.secret@) % group_order()
}

/// The public parameters that a prover hands to the verifier.
pub open spec fn multiplication_public(
    a: Multiplication,
    b: Multiplication,
    c: Multiplication,
    p: MultiplicationProof,
) -> MultiplicationWithPublicParams {
    MultiplicationWithPublicParams {
        proof: p,
        a_point: a.comm.point,
        b_point: b.comm.point,
        c_point: c.comm.point,
    }
}

impl Multiplication {
    /// The commitment opens to the secret: `P = v · G + r · H`.
    pub open spec fn opens(self) -> bool {
        self.comm.point@ == commitment_log(self.secret.value as int, self.secret.secret@)
    }

    /// Commits to `value` with fresh randomness.
    pub fn commit(value: u64) -> (r: Self)
        ensures
            r.secret.value == value,
            r.opens(),
    {
        let secret = random_scalar();
        let point = Point::pedersen(&scalar_from_u64(value), &secret);
        Multiplication {
            comm: MultiplicationCommitment { point },
            secret: MultiplicationSecret { value, secret },
        }
    }

    /// The auxiliary scalar `s = c_secret - a_secret · val_b`.
    pub fn witness(a_secret: Scalar, c_secret: Scalar, val_b: u64) -> (r: MultiplicationWitness)
        ensures
            r.s@ == (c_secret@ - a_secret@ * val_b) % group_order(),
    {
        let s = scalar_sub(&c_secret, &scalar_mul(&a_secret, &scalar_from_u64(val_b)));
        proof {
            vstd::arithmetic::div_mod::lemma_sub_mod_noop_right(
                c_secret@,
                a_secret@ * val_b,
                group_order(),
            );
        }
        MultiplicationWitness { s }
    }

    /// Proves that `c`'s value is the product of `a`'s and `b`'s.
    pub fn prove(
        a: &Multiplication,
        b: &Multiplication,
        c: &Multiplication,
        witness: &MultiplicationWitness,
    ) -> (r: MultiplicationProof)
        ensures
            exists|b0: int, s0: int, beta0: int|
                multiplication_response(*a, *b, *c, *witness, b0, s0, beta0, r),
    {
        let b_2 = random_scalar();
        let s_2 = random_scalar();
        let beta_2 = random_scalar();
        let h = Point::generator_h();
        let d1 = Point::combine(&b_2, &a.comm.point, &s_2, &h);
        let d2 = Point::pedersen(&b_2, &beta_2);
        let mut points: Vec<Point> = Vec::new();
        points.push(a.comm.point);
        points.push(b.comm.point);
        points.push(c.comm.point);
        points.push(d1);
        points.push(d2);
        let e = challenge_of(&points);
        let b_circumflex = scalar_add(&b_2, &scalar_mul(&e, &scalar_from_u64(b.secret.value)));
        let s_circumflex = scalar_add(&s_2, &scalar_mul(&e, &witness.s));
        let beta_circumflex = scalar_add(&beta_2, &scalar_mul(&e, &b.secret.secret));
        let r = MultiplicationProof { d1, d2, b_circumflex, s_circumflex, beta_circumflex };
        proof {
            let l = group_order();
            assert(points@ =~= multiplication_statement(
                a.comm.point,
                b.comm.point,
                c.comm.point,
                d1,
                d2,
            ));
            lemma_add_mod_noop_right(b_2@, e@ * b.secret.value, l);
            lemma_add_mod_noop_right(s_2@, e@ * witness.s@, l);
            lemma_add_mod_noop_right(beta_2@, e@ * b.secret.secret@, l);
            assert(multiplication_response(*a, *b, *c, *witness, b_2@, s_2@, beta_2@, r));
        }
        r
    }

    /// Accepts exactly when both verification equations hold.
    pub fn verify(params: MultiplicationWithPublicParams) -> (r: bool)
        ensures
            r == multiplication_accepts(params),
    {
        let p = params.proof;
        let mut points: Vec<Point> = Vec::new();
        points.push(params.a_point);
        points.push(params.b_point);
        points.push(params.c_point);
        points.push(p.d1);
        points.push(p.d2);
        let e = challenge_of(&points);
        let h = Point::generator_h();
        let left = p.d1.plus(&params.c_point.scaled(&e));
        let right = Point::combine(&p.b_circumflex, &params.a_point, &p.s_circumflex, &h);
        let left2 = p.d2.plus(&params.b_point.scaled(&e));
        let right2 = Point::pedersen(&p.b_circumflex, &p.beta_circumflex);
        proof {
            let l = group_order();
            assert(points@ =~= multiplication_statement(
                params.a_point,
                params.b_point,
                params.c_point,
                p.d1,
                p.d2,
            ));
            lemma_add_mod_noop_right(p.d1@, e@ * params.c_point@, l);
            lemma_add_mod_noop_right(p.d2@, e@ * params.b_point@, l);
        }
        left2.same_as(&right2) && left.same_as(&right)
    }
}

/// Exact acceptance: for a proof that `prove` returns on openings of `a`,
/// `b`, `c` and the witness `s = r_c - v_b · r_a`, the verifier accepts
/// exactly when `e · (v_c - v_a · v_b) ≡ 0 (mod ℓ)` for the proof's
/// challenge `e`. So it accepts whenever `v_c = v_a · v_b`.
pub proof fn lemma_multiplication_accepts_iff(
    a: Multiplication,
    b: Multiplication,
    c: Multiplication,
    w: MultiplicationWitness,
    b0: int,
    s0: int,
    beta0: int,
    p: MultiplicationProof,
)
    requires
        a.opens(),
        b.opens(),
        c.opens(),
        w.s@ == (c.secret.secret@ - a.secret.secret@ * b.secret.value) % group_order(),
        multiplication_response(a, b, c, w, b0, s0, beta0, p),
    ensures
        multiplication_accepts(multiplication_public(a, b, c, p)) <==> (challenge_for(
            multiplication_statement(a.comm.point, b.comm.point, c.comm.point, p.d1, p.d2),
        ) * (c.secret.value - a.secret.value * b.secret.value)) % group_order() == 0,
{
    let l = group_order();
    let h = h_log();
    let e = challenge_for(
        multiplication_statement(a.comm.point, b.comm.point, c.comm.point, p.d1, p.d2),
    );
    let (va, vb, vc) = (a.secret.value as int, b.secret.value as int, c.secret.value as int);
    let (ra, rb, rc) = (a.secret.secret@, b.secret.secret@, c.secret.secret@);
    let pa = a.comm.point@;
    lemma_opening_response(p.d2@, b.comm.point@, e, p.b_circumflex@, p.beta_circumflex@, b0, beta0, vb, rb);
    // The left side of the first equation.
    lemma_cong_reduce(b0 * pa + s0 * h, l);
    lemma_cong_reduce(vc + rc * h, l);
    lemma_cong_mul(e, e, c.comm.point@, vc + rc * h, l);
    lemma_cong_add(p.d1@, b0 * pa + s0 * h, e * c.comm.point@, e * (vc + rc * h), l);
    // The right side of the first equation.
    let bh = p.b_circumflex@;
    let sh = p.s_circumflex@;
    lemma_cong_reduce(b0 + e * vb, l);
    lemma_cong_mul(bh, b0 + e * vb, pa, pa, l);
    lemma_cong_reduce(va + ra * h, l);
    lemma_cong_mul(e * vb, e * vb, pa, va + ra * h, l);
    lemma_cong_add(b0 * pa, b0 * pa, e * vb * pa, e * vb * (va + ra * h), l);
    assert((b0 + e * vb) * pa == b0 * pa + e * vb * pa) by (nonlinear_arith);
    let s = rc - ra * vb;
    lemma_cong_reduce(s0 + e * w.s@, l);
    lemma_cong_reduce(s, l);
    lemma_cong_mul(e, e, w.s@, s, l);
    lemma_cong_add(s0, s0, e * w.s@, e * s, l);
    lemma_cong_mul(sh, s0 + e * s, h, h, l);
    lemma_cong_add(bh * pa, b0 * pa + e * vb * (va + ra * h), sh * h, (s0 + e * s) * h, l);
    let base = b0 * pa + s0 * h + e * va * vb + e * rc * h;
    let gap = e * (vc - va * vb);
    assert(e * vb * (va + ra * h) == e * va * vb + e * vb * (ra * h)) by (nonlinear_arith);
    assert((s0 + e * s) * h == s0 * h + (e * s) * h) by (nonlinear_arith);
    assert((e * s) * h == e * rc * h - e * (ra * vb) * h) by (nonlinear_arith)
        requires
            s == rc - ra * vb,
    ;
    assert(e * vb * (ra * h) == e * (ra * vb) * h) by (nonlinear_arith);
    assert(b0 * pa + e * vb * (va + ra * h) + (s0 + e * s) * h == base);
    assert(e * (vc + rc * h) == e * vc + e * rc * h) by (nonlinear_arith);
    assert(gap == e * vc - e * va * vb) by (nonlinear_arith)
        requires
            gap == e * (vc - va * vb),
    ;
    assert(b0 * pa + s0 * h + e * (vc + rc * h) == base + gap);
    lemma_shift_residue(base, gap, l);
}

/// Completeness: when `v_c = v_a · v_b`, every proof that `prove` returns
/// on openings of `a`, `b`, `c` and the witness `s = r_c - v_b · r_a` is
/// accepted.
pub proof fn lemma_multiplication_complete(
    a: Multiplication,
    b: Multiplication,
    c: Multiplication,
    w: MultiplicationWitness,
    b0: int,
    s0: int,
    beta0: int,
    p: MultiplicationProof,
)
    requires
        a.opens(),
        b.opens(),
        c.opens(),
        c.secret.value == a.secret.value * b.secret.value,
        w.s@ == (c.secret.secret@ - a.secret.secret@ * b.secret.value) % group_order(),
        multiplication_response(a, b, c, w, b0, s0, beta0, p),
    ensures
        multiplication_accepts(multiplication_public(a, b, c, p)),
{
    lemma_multiplication_accepts_iff(a, b, c, w, b0, s0, beta0, p);
    let e = challenge_for(
        multiplication_statement(a.comm.point, b.comm.point, c.comm.point, p.d1, p.d2),
    );
    assert(e * (c.secret.value - a.secret.value * b.secret.value) == 0);
}

} // verus!
