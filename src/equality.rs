//! Equality: a proof that two committed values are equal.
//!
//! `P_a - P_b = (v_a - v_b) · G + (r_a - r_b) · H`; the proof is a Schnorr
//! proof that `P_a - P_b` is a multiple of `H` alone, with the exponent
//! `t = r_a - r_b`.
use crate::group::{
    commitment_log, group_order, h_log, random_scalar, scalar_add, scalar_from_u64, scalar_mul,
    scalar_sub, Point, Scalar,
};
use crate::modular::{
    lemma_cong_add, lemma_cong_mul, lemma_cong_reduce, lemma_cong_sub, lemma_shift_residue,
};
use crate::transcript::{challenge_for, challenge_of};
use vstd::arithmetic::div_mod::lemma_add_mod_noop_right;
use vstd::prelude::*;

verus! {

/// A committed value of the equality protocol, with its opening.
#[derive(Clone, Copy, Debug)]
pub struct Equality {
    pub comm: EqualityCommitment,
    pub secret: EqualitySecret,
}

/// The public part of a commitment.
#[derive(Clone, Copy, Debug)]
pub struct EqualityCommitment {
    pub point: Point,
}

/// The opening of a commitment: its value and its randomness.
#[derive(Clone, Copy, Debug)]
pub struct EqualitySecret {
    pub value: u64,
    pub secret: Scalar,
}

/// The proof: the first move `D` and the response `u`.
#[derive(Clone, Copy, Debug)]
pub struct EqualityProof {
    pub d: Point,
    pub u: Scalar,
}

/// A proof together with the commitments it speaks of. The verifier does
/// not read `c_point`: it rebuilds `P_a - P_b` itself.
#[derive(Clone, Copy, Debug)]
pub struct EqualityWithPublicParams {
    pub proof: EqualityProof,
    pub a_point: Point,
    pub b_point: Point,
    pub c_point: Point,
}

/// The points hashed into the challenge, after `G` and `H`.
pub open spec fn equality_statement(a: Point, b: Point, d: Point) -> Seq<Point> {
    seq![a, b, d]
}

/// What the verifier accepts, for `e = H*(G ‖ H ‖ P_a ‖ P_b ‖ D)`:
/// `D + e · (P_a - P_b) = u · H`.
pub open spec fn equality_accepts(p: EqualityWithPublicParams) -> bool {
    let e = challenge_for(equality_statement(p.a_point, p.b_point, p.proof.d));
    (p.proof.d@ + e * (p.a_point@ - p.b_point@)) % group_order() == (p.proof.u@ * h_log())
        % group_order()
}

/// The proof that the prover returns when it draws the nonce `x`:
/// `D = x · H` and `u = x + e · t`.
pub open spec fn equality_response(
    a: Equality,
    b: Equality,
    c: Equality,
    x: int,
    p: EqualityProof,
) -> bool {
    let e = challenge_for(equality_statement(a.comm.point, b.comm.point, p.d));
    &&& p.d@ == (x * h_log()) % group_order()
    &&& p.u@ == (x + e * c.secret.secret@) % group_order()
}

/// The public parameters that a prover hands to the verifier.
pub open spec fn equality_public(a: Equality, b: Equality, c: Equality, p: EqualityProof) -> EqualityWithPublicParams {
    EqualityWithPublicParams {
        proof: p,
        a_point: a.comm.point,
        b_point: b.comm.point,
        c_point: c.comm.point,
    }
}

impl Equality {
    /// The commitment opens to the secret: `P = v · G + r · H`.
    pub open spec fn opens(self) -> bool {
        self.comm.point@ == commitment_log(self.secret.value as int, self.secret.secret@)
    }

    /// Commits to `value` with fresh randomness.
    pub fn commit(value: u64) -> (r: Self)
        ensures
            r.secret.value == value,
            r.opens(),
    {
        let secret = random_scalar();
        let point = Point::pedersen(&scalar_from_u64(value), &secret);
        Equality { comm: EqualityCommitment { point }, secret: EqualitySecret { value, secret } }
    }

    /// The auxiliary commitment `T = t · H` with `t = a_sec - b_sec`.
    pub fn commit_c_witness(a_sec: Scalar, b_sec: Scalar) -> (r: Self)
        ensures
            r.secret.value == 0,
            r.secret.secret@ == (a_sec@ - b_sec@) % group_order(),
            r.opens(),
    {
        let t = scalar_sub(&a_sec, &b_sec);
        let h = Point::generator_h();
        let point = h.scaled(&t);
        proof {
            assert(t@ * h_log() == 0 + t@ * h_log());
        }
        Equality { comm: EqualityCommitment { point }, secret: EqualitySecret { value: 0, secret: t } }
    }

    /// Proves knowledge of `t` with `P_a - P_b = t · H`.
    pub fn prove(a: &Equality, b: &Equality, c: &Equality) -> (r: EqualityProof)
        ensures
            exists|x: int| equality_response(*a, *b, *c, x, r),
    {
        let x = random_scalar();
        let h = Point::generator_h();
        let d = h.scaled(&x);
        let mut points: Vec<Point> = Vec::new();
        points.push(a.comm.point);
        points.push(b.comm.point);
        points.push(d);
        let e = challenge_of(&points);
        let u = scalar_add(&x, &scalar_mul(&e, &c.secret.secret));
        let r = EqualityProof { d, u };
        proof {
            assert(points@ =~= equality_statement(a.comm.point, b.comm.point, d));
            lemma_add_mod_noop_right(x@, e@ * c.secret.secret@, group_order());
            assert(x@ * h_log() == h_log() * x@) by (nonlinear_arith);
            assert(equality_response(*a, *b, *c, x@, r));
        }
        r
    }

    /// Accepts exactly when the verification equation holds.
    pub fn verify(params: EqualityWithPublicParams) -> (r: bool)
        ensures
            r == equality_accepts(params),
    {
        let d = params.proof.d;
        let mut points: Vec<Point> = Vec::new();
        points.push(params.a_point);
        points.push(params.b_point);
        points.push(d);
        let e = challenge_of(&points);
        let diff = params.a_point.minus(&params.b_point);
        let left = d.plus(&diff.scaled(&e));
        let h = Point::generator_h();
        let right = h.scaled(&params.proof.u);
        proof {
            let l = group_order();
            let g = params.a_point@ - params.b_point@;
            assert(points@ =~= equality_statement(params.a_point, params.b_point, d));
            lemma_cong_reduce(g, l);
            lemma_cong_mul(e@, e@, diff@, g, l);
            lemma_cong_reduce(e@ * g, l);
            lemma_cong_add(d@, d@, (e@ * diff@) % l, e@ * g, l);
            assert(params.proof.u@ * h_log() == h_log() * params.proof.u@) by (nonlinear_arith);
        }
        left.same_as(&right)
    }
}

/// Exact acceptance: for a proof that `prove` returns on openings of `a`
/// and `b` and `t = r_a - r_b`, the verifier accepts exactly when
/// `e · (v_a - v_b) ≡ 0 (mod ℓ)` for the proof's challenge `e`. So it
/// accepts whenever `v_a = v_b`.
pub proof fn lemma_equality_accepts_iff(a: Equality, b: Equality, c: Equality, x: int, p: EqualityProof)
    requires
        a.opens(),
        b.opens(),
        c.secret.secret@ == (a.secret.secret@ - b.secret.secret@) % group_order(),
        equality_response(a, b, c, x, p),
    ensures
        equality_accepts(equality_public(a, b, c, p)) <==> (challenge_for(
            equality_statement(a.comm.point, b.comm.point, p.d),
        ) * (a.secret.value - b.secret.value)) % group_order() == 0,
{
    let l = group_order();
    let h = h_log();
    let e = challenge_for(equality_statement(a.comm.point, b.comm.point, p.d));
    let (va, vb) = (a.secret.value as int, b.secret.value as int);
    let (ra, rb) = (a.secret.secret@, b.secret.secret@);
    let t = ra - rb;
    // The left side.
    lemma_cong_reduce(x * h, l);
    lemma_cong_reduce(va + ra * h, l);
    lemma_cong_reduce(vb + rb * h, l);
    lemma_cong_sub(a.comm.point@, va + ra * h, b.comm.point@, vb + rb * h, l);
    let g = (va + ra * h) - (vb + rb * h);
    lemma_cong_mul(e, e, a.comm.point@ - b.comm.point@, g, l);
    lemma_cong_add(p.d@, x * h, e * (a.comm.point@ - b.comm.point@), e * g, l);
    // The right side.
    lemma_cong_reduce(x + e * c.secret.secret@, l);
    lemma_cong_reduce(t, l);
    lemma_cong_mul(e, e, c.secret.secret@, t, l);
    lemma_cong_add(x, x, e * c.secret.secret@, e * t, l);
    lemma_cong_mul(p.u@, x + e * t, h, h, l);
    let base = x * h + e * t * h;
    let gap = e * (va - vb);
    assert((x + e * t) * h == base) by (nonlinear_arith)
        requires
            base == x * h + e * t * h,
    ;
    assert(e * g == e * (va - vb) + e * t * h) by (nonlinear_arith)
        requires
            g == (va + ra * h) - (vb + rb * h),
            t == ra - rb,
    ;
    assert(x * h + e * g == base + gap);
    lemma_shift_residue(base, gap, l);
}

/// Completeness: when `v_a = v_b`, every proof that `prove` returns on
/// openings of `a` and `b` and `t = r_a - r_b` is accepted.
pub proof fn lemma_equality_complete(a: Equality, b: Equality, c: Equality, x: int, p: EqualityProof)
    requires
        a.opens(),
        b.opens(),
        a.secret.value == b.secret.value,
        c.secret.secret@ == (a.secret.secret@ - b.secret.secret@) % group_order(),
        equality_response(a, b, c, x, p),
    ensures
        equality_accepts(equality_public(a, b, c, p)),
{
    lemma_equality_accepts_iff(a, b, c, x, p);
    let e = challenge_for(equality_statement(a.comm.point, b.comm.point, p.d));
    assert(e * (a.secret.value - b.secret.value) == 0);
}

} // verus!
