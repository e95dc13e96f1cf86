//! Addition: a proof that committed values satisfy `a + b = c`.
//!
//! The commitment to `c` takes the randomness `r_a + r_b`, so that
//! `P_c = P_a + P_b` holds as points; the proof itself shows knowledge of an
//! opening of `P_c`.
use crate::group::{
    commitment_log, lemma_opening_response, group_order, h_log, random_scalar, scalar_add, scalar_from_u64, scalar_mul,
    Point, Scalar,
};
use crate::modular::{lemma_cong_add, lemma_cong_mul, lemma_cong_reduce, lemma_nonzero_residue};
use crate::transcript::{challenge_for, challenge_of};
use vstd::arithmetic::div_mod::lemma_add_mod_noop_right;
use vstd::prelude::*;

verus! {

/// A committed value of the addition protocol, with its opening.
#[derive(Clone, Copy, Debug)]
pub struct Addition {
    pub comm: AdditionCommitment,
    pub secret: AdditionSecret,
}

/// The public part of a commitment.
#[derive(Clone, Copy, Debug)]
pub struct AdditionCommitment {
    pub point: Point,
}

/// The opening of a commitment: its value and its randomness.
#[derive(Clone, Copy, Debug)]
pub struct AdditionSecret {
    pub value: u64,
    pub secret: Scalar,
}

/// The proof: the first move `d` and the responses `u`, `v`.
#[derive(Clone, Copy, Debug)]
pub struct AdditionProof {
    pub d: Point,
    pub u: Scalar,
    pub v: Scalar,
}

/// A proof together with the three commitments it speaks of.
#[derive(Clone, Copy, Debug)]
pub struct AdditionProofWithPublicParams {
    pub proof: AdditionProof,
    pub a_point: Point,
    pub b_point: Point,
    pub c_point: Point,
}

/// The points hashed into the challenge, after `G` and `H`.
pub open spec fn addition_statement(a: Point, b: Point, c: Point, d: Point) -> Seq<Point> {
    seq![a, b, c, d]
}

/// What the verifier accepts: `P_c = P_a + P_b`, and
/// `D + e · P_c = u · G + v · H` for `e = H*(G ‖ H ‖ P_a ‖ P_b ‖ P_c ‖ D)`.
pub open spec fn addition_accepts(p: AdditionProofWithPublicParams) -> bool {
    let e = challenge_for(addition_statement(p.a_point, p.b_point, p.c_point, p.proof.d));
    &&& p.c_point@ == (p.a_point@ + p.b_point@) % group_order()
    &&& (p.proof.d@ + e * p.c_point@) % group_order() == commitment_log(p.proof.u@, p.proof.v@)
}

/// The proof that the prover returns when it draws the nonces `x`, `y`:
/// `D = x · G + y · H`, `u = x + v_c · e`, `v = y + r_c · e`.
pub open spec fn addition_response(
    a: Addition,
    b: Addition,
    c: Addition,
    x: int,
    y: int,
    p: AdditionProof,
) -> bool {
    let e = challenge_for(addition_statement(a.comm.point, b.comm.point, c.comm.point, p.d));
    &&& p.d@ == commitment_log(x, y)
    &&& p.u@ == (x + c.secret.value * e) % group_order()
    &&& p.v@ == (y + c.secret.secret@ * e) % group_order()
}

/// The public parameters that a prover hands to the verifier.
pub open spec fn addition_public(a: Addition, b: Addition, c: Addition, p: AdditionProof) -> AdditionProofWithPublicParams {
    AdditionProofWithPublicParams { proof: p, a_point: a.comm.point, b_point: b.comm.point, c_point: c.comm.point }
}

impl Addition {
    /// The commitment opens to the secret: `P = v · G + r · H`.
    pub open spec fn opens(self) -> bool {
        self.comm.point@ == commitment_log(self.secret.value as int, self.secret.secret@)
    }

    /// Commits to `value` with fresh randomness.
    pub fn commit(value: u64) -> (r: Self)
        ensures
            r.secret.value == value,
            r.opens(),
    {
        let secret = random_scalar();
        let point = Point::pedersen(&scalar_from_u64(value), &secret);
        Addition { comm: AdditionCommitment { point }, secret: AdditionSecret { value, secret } }
    }

    /// Commits to `value` with the randomness `a_sec + b_sec`.
    pub fn commit_c_witness(value: u64, a_sec: Scalar, b_sec: Scalar) -> (r: Self)
        ensures
            r.secret.value == value,
            r.secret.secret@ == (a_sec@ + b_sec@) % group_order(),
            r.opens(),
    {
        let secret = scalar_add(&a_sec, &b_sec);
        let point = Point::pedersen(&scalar_from_u64(value), &secret);
        Addition { comm: AdditionCommitment { point }, secret: AdditionSecret { value, secret } }
    }

    /// Proves knowledge of the opening of `c`'s commitment.
    pub fn prove(a: &Addition, b: &Addition, c: &Addition) -> (r: AdditionProof)
        ensures
            exists|x: int, y: int| addition_response(*a, *b, *c, x, y, r),
    {
        let x = random_scalar();
        let y = random_scalar();
        let d = Point::pedersen(&x, &y);
        let mut points: Vec<Point> = Vec::new();
        points.push(a.comm.point);
        points.push(b.comm.point);
        points.push(c.comm.point);
        points.push(d);
        let e = challenge_of(&points);
        let u = scalar_add(&x, &scalar_mul(&scalar_from_u64(c.secret.value), &e));
        let v = scalar_add(&y, &scalar_mul(&c.secret.secret, &e));
        let r = AdditionProof { d, u, v };
        proof {
            assert(points@ =~= addition_statement(a.comm.point, b.comm.point, c.comm.point, d));
            lemma_add_mod_noop_right(x@, c.secret.value * e@, group_order());
            lemma_add_mod_noop_right(y@, c.secret.secret@ * e@, group_order());
            assert(addition_response(*a, *b, *c, x@, y@, r));
        }
        r
    }

    /// Accepts exactly when both verification equations hold.
    pub fn verify(proof: AdditionProofWithPublicParams) -> (r: bool)
        ensures
            r == addition_accepts(proof),
    {
        let d = proof.proof.d;
        let mut points: Vec<Point> = Vec::new();
        points.push(proof.a_point);
        points.push(proof.b_point);
        points.push(proof.c_point);
        points.push(d);
        let e = challenge_of(&points);
        let c_cal = proof.a_point.plus(&proof.b_point);
        let left = d.plus(&proof.c_point.scaled(&e));
        let right = Point::pedersen(&proof.proof.u, &proof.proof.v);
        proof {
            assert(points@ =~= addition_statement(proof.a_point, proof.b_point, proof.c_point, d));
            lemma_add_mod_noop_right(d@, e@ * proof.c_point@, group_order());
        }
        c_cal.same_as(&proof.c_point) && left.same_as(&right)
    }
}

/// Homomorphism: a commitment made by `commit_c_witness` to `v_a + v_b`
/// with the randomness `r_a + r_b` is the point `P_a + P_b`.
pub proof fn lemma_addition_homomorphic(a: Addition, b: Addition, c: Addition)
    requires
        a.opens(),
        b.opens(),
        c.opens(),
        c.secret.value == a.secret.value + b.secret.value,
        c.secret.secret@ == (a.secret.secret@ + b.secret.secret@) % group_order(),
    ensures
        c.comm.point@ == (a.comm.point@ + b.comm.point@) % group_order(),
{
    let l = group_order();
    let (va, vb) = (a.secret.value as int, b.secret.value as int);
    let (ra, rb, h) = (a.secret.secret@, b.secret.secret@, h_log());
    lemma_cong_reduce(va + ra * h, l);
    lemma_cong_reduce(vb + rb * h, l);
    lemma_cong_add(a.comm.point@, va + ra * h, b.comm.point@, vb + rb * h, l);
    lemma_cong_reduce(ra + rb, l);
    lemma_cong_mul(c.secret.secret@, ra + rb, h, h, l);
    lemma_cong_add(va + vb, va + vb, c.secret.secret@ * h, (ra + rb) * h, l);
    assert((ra + rb) * h == ra * h + rb * h) by (nonlinear_arith);
    assert(va + vb + (ra + rb) * h == (va + ra * h) + (vb + rb * h));
}

/// Completeness: when `c` commits to `v_a + v_b` with the randomness
/// `r_a + r_b`, every proof that `prove` can return is accepted.
pub proof fn lemma_addition_complete(a: Addition, b: Addition, c: Addition, x: int, y: int, p: AdditionProof)
    requires
        a.opens(),
        b.opens(),
        c.opens(),
        c.secret.value == a.secret.value + b.secret.value,
        c.secret.secret@ == (a.secret.secret@ + b.secret.secret@) % group_order(),
        addition_response(a, b, c, x, y, p),
    ensures
        addition_accepts(addition_public(a, b, c, p)),
{
    lemma_addition_homomorphic(a, b, c);
    let e = challenge_for(addition_statement(a.comm.point, b.comm.point, c.comm.point, p.d));
    lemma_opening_response(
        p.d@,
        c.comm.point@,
        e,
        p.u@,
        p.v@,
        x,
        y,
        c.secret.value as int,
        c.secret.secret@,
    );
}

/// Soundness on a wrong sum: when `c` commits to a value other than
/// `v_a + v_b` with the randomness `r_a + r_b`, no proof is accepted.
pub proof fn lemma_addition_rejects_wrong_sum(a: Addition, b: Addition, c: Addition, p: AdditionProof)
    requires
        a.opens(),
        b.opens(),
        c.opens(),
        c.secret.value != a.secret.value + b.secret.value,
        c.secret.secret@ == (a.secret.secret@ + b.secret.secret@) % group_order(),
    ensures
        !addition_accepts(addition_public(a, b, c, p)),
{
    let l = group_order();
    let (va, vb, vc) = (a.secret.value as int, b.secret.value as int, c.secret.value as int);
    let (ra, rb, h) = (a.secret.secret@, b.secret.secret@, h_log());
    lemma_cong_reduce(va + ra * h, l);
    lemma_cong_reduce(vb + rb * h, l);
    lemma_cong_add(a.comm.point@, va + ra * h, b.comm.point@, vb + rb * h, l);
    lemma_cong_reduce(ra + rb, l);
    lemma_cong_mul(c.secret.secret@, ra + rb, h, h, l);
    lemma_cong_add(vc, vc, c.secret.secret@ * h, (ra + rb) * h, l);
    assert((ra + rb) * h == ra * h + rb * h) by (nonlinear_arith);
    lemma_cong_reduce(c.comm.point@, l);
    if c.comm.point@ == (a.comm.point@ + b.comm.point@) % l {
        // Then vc + R ≡ va + vb + R for R = (r_a + r_b) · h, so vc ≡ va + vb.
        let big_r = (ra + rb) * h;
        lemma_cong_add(vc + big_r, va + vb + big_r, -big_r, -big_r, l);
        assert(vc + big_r + -big_r == vc);
        assert(va + vb + big_r + -big_r == va + vb);
        lemma_cong_add(vc, va + vb, -(va + vb), -(va + vb), l);
        lemma_nonzero_residue(vc - (va + vb), l);
        assert((va + vb + -(va + vb)) % l == 0);
    }
}

} // verus!
