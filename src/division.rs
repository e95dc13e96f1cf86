//! Division: a proof that committed values satisfy `a / b = c`, that is
//! `b · c = a`.
//!
//! With the witness `s = r_a - v_b · r_c`, `P_a = v_b · P_c + s · H`; the
//! proof shows one `v_b` that opens `P_b` and, over the bases `P_c`, `H`,
//! opens `P_a`. The relation is proved in `ℤ_ℓ`: the proof does not by
//! itself show that the integer division is exact.
use crate::group::{
    commitment_log, group_order, h_log, lemma_opening_response, random_scalar, scalar_add,
    scalar_from_u64, scalar_mul, scalar_sub, Point, Scalar,
};
use crate::modular::{lemma_cong_add, lemma_cong_mul, lemma_cong_reduce, lemma_shift_residue};
use crate::transcript::{challenge_for, challenge_of};
use vstd::arithmetic::div_mod::lemma_add_mod_noop_right;
use vstd::prelude::*;

verus! {

/// A committed value of the multiplication protocol, with its opening.
#[derive(Clone, Copy, Debug)]
pub struct Division {
    pub comm: DivisionCommitment,
    pub secret: DivisionSecret,
}

/// The public part of a commitment.
#[derive(Clone, Copy, Debug)]
pub struct DivisionCommitment {
    pub point: Point,
}

/// The opening of a commitment: its value and its randomness.
#[derive(Clone, Copy, Debug)]
pub struct DivisionSecret {
    pub value: u64,
    pub secret: Scalar,
}

/// The proof: the first moves `D₁`, `D₂` and the responses `b̂`, `ŝ`, `β̂`.
#[derive(Clone, Copy, Debug)]
pub struct DivisionProof {
    pub d1: Point,
    pub d2: Point,
    pub b_circumflex: Scalar,
    pub s_circumflex: Scalar,
    pub beta_circumflex: Scalar,
}

/// The prover's auxiliary scalar `s = r_a - v_b · r_c`.
#[derive(Clone, Copy, Debug)]
pub struct DivisionWitness {
    pub s: Scalar,
}

/// A proof together with the three commitments it speaks of.
#[derive(Clone, Copy, Debug)]
pub struct DivisionWithPublicParams {
    pub proof: DivisionProof,
    pub a_point: Point,
    pub b_point: Point,
    pub c_point: Point,
}

/// The points hashed into the challenge, after `G` and `H`.
pub open spec fn division_statement(a: Point, b: Point, c: Point, d1: Point, d2: Point) -> Seq<Point> {
    seq![a, b, c, d1, d2]
}

/// What the verifier accepts, for `e = H*(G ‖ H ‖ P_a ‖ P_b ‖ P_c ‖ D₁ ‖ D₂)`:
/// `D₁ + e · P_a = b̂ · P_c + ŝ · H` and `D₂ + e · P_b = b̂ · G + β̂ · H`.
pub open spec fn division_accepts(p: DivisionWithPublicParams) -> bool {
    let e = challenge_for(
        division_statement(p.a_point, p.b_point, p.c_point, p.proof.d1, p.proof.d2),
    );
    &&& (p.proof.d2@ + e * p.b_point@) % group_order() == commitment_log(
        p.proof.b_circumflex@,
        p.proof.beta_circumflex@,
    )
    &&& (p.proof.d1@ + e * p.a_point@) % group_order() == (p.proof.b_circumflex@ * p.c_point@
        + p.proof.s_circumflex@ * h_log()) % group_order()
}

/// The proof that the prover returns when it draws the nonces `b0`, `s0`,
/// `beta0`: `D₁ = b0 · P_c + s0 · H`, `D₂ = b0 · G + beta0 · H`,
/// `b̂ = b0 + e · v_b`, `ŝ = s0 + e · s`, `β̂ = beta0 + e · r_b`.
pub open spec fn division_response(
    a: Division,
    b: Division,
    c: Division,
    w: DivisionWitness,
    b0: int,
    s0: int,
    beta0: int,
    p: DivisionProof,
) -> bool {
    let e = challenge_for(
        division_statement(a.comm.point, b.comm.point, c.comm.point, p.d1, p.d2),
    );
    &&& p.d1@ == (b0 * c.comm.point@ + s0 * h_log()) % group_order()
    &&& p.d2@ == commitment_log(b0, beta0)
    &&& p.b_circumflex@ == (b0 + e * b.secret.value) % group_order()
    &&& p.s_circumflex@ == (s0 + e * w.s@) % group_order()
    &&& p.beta_circumflex@ == (beta0 + e * b.secret.secret@) % group_order()
}

/// The public parameters that a prover hands to the verifier.
pub open spec fn division_public(
    a: Division,
    b: Division,
    c: Division,
    p: DivisionProof,
) -> DivisionWithPublicParams {
    DivisionWithPublicParams {
        proof: p,
        a_point: a.comm.point,
        b_point: b.comm.point,
        c_point: c.comm.point,
    }
}

impl Division {
    /// The commitment opens to the secret: `P = v · G + r · H`.
    pub open spec fn opens(self) -> bool {
        self.comm.point@ == commitment_log(self.secret.value as int, self.secret.secret@)
    }

    /// Commits to `value` with fresh randomness.
    pub fn commit(value: u64) -> (r: Self)
        ensures
            r.secret.value == value,
            r.opens(),
    {
        let secret = random_scalar();
        let point = Point::pedersen(&scalar_from_u64(value), &secret);
        Division {
            comm: DivisionCommitment { point },
            secret: DivisionSecret { value, secret },
        }
    }

    /// The auxiliary scalar `s = a_secret - c_secret · val_b`.
    pub fn witness(a_secret: Scalar, c_secret: Scalar, val_b: u64) -> (r: DivisionWitness)
        ensures
            r.s@ == (a_secret@ - c_secret@ * val_b) % group_order(),
    {
        let s = scalar_sub(&a_secret, &scalar_mul(&c_secret, &scalar_from_u64(val_b)));
        proof {
            vstd::arithmetic::div_mod::lemma_sub_mod_noop_right(
                a_secret@,
                c_secret@ * val_b,
                group_order(),
            );
        }
        DivisionWitness { s }
    }

    /// Proves that `b`'s value times `c`'s is `a`'s.
    pub fn prove(
        a: &Division,
        b: &Division,
        c: &Division,
        witness: &DivisionWitness,
    ) -> (r: DivisionProof)
        ensures
            exists|b0: int, s0: int, beta0: int|
                division_response(*a, *b, *c, *witness, b0, s0, beta0, r),
    {
        let b_2 = random_scalar();
        let s_2 = random_scalar();
        let beta_2 = random_scalar();
        let h = Point::generator_h();
        let d1 = Point::combine(&b_2, &c.comm.point, &s_2, &h);
        let d2 = Point::pedersen(&b_2, &beta_2);
        let mut points: Vec<Point> = Vec::new();
        points.push(a.comm.point);
        points.push(b.comm.point);
        points.push(c.comm.point);
        points.push(d1);
        points.push(d2);
        let e = challenge_of(&points);
        let b_circumflex = scalar_add(&b_2, &scalar_mul(&e, &scalar_from_u64(b.secret.value)));
        let s_circumflex = scalar_add(&s_2, &scalar_mul(&e, &witness.s));
        let beta_circumflex = scalar_add(&beta_2, &scalar_mul(&e, &b.secret.secret));
        let r = DivisionProof { d1, d2, b_circumflex, s_circumflex, beta_circumflex };
        proof {
            let l = group_order();
            assert(points@ =~= division_statement(
                a.comm.point,
                b.comm.point,
                c.comm.point,
                d1,
                d2,
            ));
            lemma_add_mod_noop_right(b_2@, e@ * b.secret.value, l);
            lemma_add_mod_noop_right(s_2@, e@ * witness.s@, l);
            lemma_add_mod_noop_right(beta_2@, e@ * b.secret.secret@, l);
            assert(division_response(*a, *b, *c, *witness, b_2@, s_2@, beta_2@, r));
        }
        r
    }

    /// Accepts exactly when both verification equations hold.
    pub fn verify(params: DivisionWithPublicParams) -> (r: bool)
        ensures
            r == division_accepts(params),
    {
        let p = params.proof;
        let mut points: Vec<Point> = Vec::new();
        points.push(params.a_point);
        points.push(params.b_point);
        points.push(params.c_point);
        points.push(p.d1);
        points.push(p.d2);
        let e = challenge_of(&points);
        let h = Point::generator_h();
        let left = p.d1.plus(&params.a_point.scaled(&e));
        let right = Point::combine(&p.b_circumflex, &params.c_point, &p.s_circumflex, &h);
        let left2 = p.d2.plus(&params.b_point.scaled(&e));
        let right2 = Point::pedersen(&p.b_circumflex, &p.beta_circumflex);
        proof {
            let l = group_order();
            assert(points@ =~= division_statement(
                params.a_point,
                params.b_point,
                params.c_point,
                p.d1,
                p.d2,
            ));
            lemma_add_mod_noop_right(p.d1@, e@ * params.a_point@, l);
            lemma_add_mod_noop_right(p.d2@, e@ * params.b_point@, l);
        }
        left2.same_as(&right2) && left.same_as(&right)
    }
}

/// Exact acceptance: for a proof that `prove` returns on openings of `a`,
/// `b`, `c` and the witness `s = r_a - v_b · r_c`, the verifier accepts
/// exactly when `e · (v_a - v_b · v_c) ≡ 0 (mod ℓ)` for the proof's
/// challenge `e`. So it accepts whenever `v_a = v_b · v_c`.
pub proof fn lemma_division_accepts_iff(
    a: Division,
    b: Division,
    c: Division,
    w: DivisionWitness,
    b0: int,
    s0: int,
    beta0: int,
    p: DivisionProof,
)
    requires
        a.opens(),
        b.opens(),
        c.opens(),
        w.s@ == (a.secret.secret@ - c.secret.secret@ * b.secret.value) % group_order(),
        division_response(a, b, c, w, b0, s0, beta0, p),
    ensures
        division_accepts(division_public(a, b, c, p)) <==> (challenge_for(
            division_statement(a.comm.point, b.comm.point, c.comm.point, p.d1, p.d2),
        ) * (a.secret.value - b.secret.value * c.secret.value)) % group_order() == 0,
{
    let l = group_order();
    let h = h_log();
    let e = challenge_for(division_statement(a.comm.point, b.comm.point, c.comm.point, p.d1, p.d2));
    let (va, vb, vc) = (a.secret.value as int, b.secret.value as int, c.secret.value as int);
    let (ra, rb, rc) = (a.secret.secret@, b.secret.secret@, c.secret.secret@);
    let pc = c.comm.point@;
    lemma_opening_response(p.d2@, b.comm.point@, e, p.b_circumflex@, p.beta_circumflex@, b0, beta0, vb, rb);
    // The left side of the first equation.
    lemma_cong_reduce(b0 * pc + s0 * h, l);
    lemma_cong_reduce(va + ra * h, l);
    lemma_cong_mul(e, e, a.comm.point@, va + ra * h, l);
    lemma_cong_add(p.d1@, b0 * pc + s0 * h, e * a.comm.point@, e * (va + ra * h), l);
    // The right side of the first equation.
    let bh = p.b_circumflex@;
    let sh = p.s_circumflex@;
    lemma_cong_reduce(b0 + e * vb, l);
    lemma_cong_mul(bh, b0 + e * vb, pc, pc, l);
    lemma_cong_reduce(vc + rc * h, l);
    lemma_cong_mul(e * vb, e * vb, pc, vc + rc * h, l);
    lemma_cong_add(b0 * pc, b0 * pc, e * vb * pc, e * vb * (vc + rc * h), l);
    assert((b0 + e * vb) * pc == b0 * pc + e * vb * pc) by (nonlinear_arith);
    let s = ra - rc * vb;
    lemma_cong_reduce(s0 + e * w.s@, l);
    lemma_cong_reduce(s, l);
    lemma_cong_mul(e, e, w.s@, s, l);
    lemma_cong_add(s0, s0, e * w.s@, e * s, l);
    lemma_cong_mul(sh, s0 + e * s, h, h, l);
    lemma_cong_add(bh * pc, b0 * pc + e * vb * (vc + rc * h), sh * h, (s0 + e * s) * h, l);
    let base = b0 * pc + s0 * h + e * vb * vc + e * ra * h;
    let gap = e * (va - vb * vc);
    assert(e * vb * (vc + rc * h) == e * vb * vc + e * vb * (rc * h)) by (nonlinear_arith);
    assert((s0 + e * s) * h == s0 * h + (e * s) * h) by (nonlinear_arith);
    assert((e * s) * h == e * ra * h - e * (rc * vb) * h) by (nonlinear_arith)
        requires
            s == ra - rc * vb,
    ;
    assert(e * vb * (rc * h) == e * (rc * vb) * h) by (nonlinear_arith);
    assert(b0 * pc + e * vb * (vc + rc * h) + (s0 + e * s) * h == base);
    assert(e * (va + ra * h) == e * va + e * ra * h) by (nonlinear_arith);
    assert(gap == e * va - e * vb * vc) by (nonlinear_arith)
        requires
            gap == e * (va - vb * vc),
    ;
    assert(b0 * pc + s0 * h + e * (va + ra * h) == base + gap);
    lemma_shift_residue(base, gap, l);
}

/// Completeness: when `v_a = v_b · v_c`, every proof that `prove` returns
/// on openings of `a`, `b`, `c` and the witness `s = r_a - v_b · r_c` is
/// accepted.
pub proof fn lemma_division_complete(
    a: Division,
    b: Division,
    c: Division,
    w: DivisionWitness,
    b0: int,
    s0: int,
    beta0: int,
    p: DivisionProof,
)
    requires
        a.opens(),
        b.opens(),
        c.opens(),
        a.secret.value == b.secret.value * c.secret.value,
        w.s@ == (a.secret.secret@ - c.secret.secret@ * b.secret.value) % group_order(),
        division_response(a, b, c, w, b0, s0, beta0, p),
    ensures
        division_accepts(division_public(a, b, c, p)),
{
    lemma_division_accepts_iff(a, b, c, w, b0, s0, beta0, p);
    let e = challenge_for(division_statement(a.comm.point, b.comm.point, c.comm.point, p.d1, p.d2));
    assert(e * (a.secret.value - b.secret.value * c.secret.value) == 0);
}

} // verus!
