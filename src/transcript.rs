//! The Fiat–Shamir transcript: the generators' encodings followed by the
//! encodings of a statement's points, hashed to a challenge scalar.
use crate::group::{
    append_point, basepoint_encoding, challenge, hash_to_scalar, second_generator_encoding, Point,
    Scalar,
};
use vstd::prelude::*;

verus! {

/// The encodings of `points`, concatenated in order.
pub open spec fn encodings(points: Seq<Point>) -> Seq<u8>
    decreases points.len(),
{
    if points.len() == 0 {
        Seq::empty()
    } else {
        encodings(points.drop_last()) + points.last().encoding()
    }
}

/// The bytes hashed for a statement whose points, in order, are `points`:
/// `G ‖ H ‖ points[0] ‖ points[1] ‖ …`.
pub open spec fn transcript(points: Seq<Point>) -> Seq<u8> {
    basepoint_encoding() + second_generator_encoding() + encodings(points)
}

/// The challenge scalar of the statement whose points are `points`.
pub open spec fn challenge_for(points: Seq<Point>) -> int {
    challenge(transcript(points))
}

/// Computes the challenge `H*(G ‖ H ‖ points…)`.
pub fn challenge_of(points: &Vec<Point>) -> (r: Scalar)
    ensures
        r@ == challenge_for(points@),
{
    let mut bytes: Vec<u8> = Vec::new();
    let g = Point::generator_g();
    let h = Point::generator_h();
    append_point(&mut bytes, &g);
    append_point(&mut bytes, &h);
    let mut i: usize = 0;
    while i < points.len()
        invariant
            0 <= i <= points.len(),
            bytes@ == basepoint_encoding() + second_generator_encoding() + encodings(
                points@.subrange(0, i as int),
            ),
        decreases points.len() - i,
    {
        append_point(&mut bytes, &points[i]);
        proof {
            assert(points@.subrange(0, i + 1).drop_last() == points@.subrange(0, i as int));
        }
        i = i + 1;
    }
    proof {
        assert(points@.subrange(0, points.len() as int) == points@);
    }
    hash_to_scalar(&bytes)
}

/// Determinism of the challenge: statements whose points have the same
/// encodings, in the same order, get the same challenge.
pub proof fn lemma_challenge_deterministic(a: Seq<Point>, b: Seq<Point>)
    requires
        a.len() == b.len(),
        forall|i: int| 0 <= i < a.len() ==> #[trigger] a[i].encoding() == b[i].encoding(),
    ensures
        challenge_for(a) == challenge_for(b),
{
    lemma_encodings_agree(a, b);
}

/// Points with the same encodings have the same concatenated encodings.
proof fn lemma_encodings_agree(a: Seq<Point>, b: Seq<Point>)
    requires
        a.len() == b.len(),
        forall|i: int| 0 <= i < a.len() ==> #[trigger] a[i].encoding() == b[i].encoding(),
    ensures
        encodings(a) == encodings(b),
    decreases a.len(),
{
    if a.len() > 0 {
        lemma_encodings_agree(a.drop_last(), b.drop_last());
        assert(a.last().encoding() == b[b.len() - 1].encoding());
    }
}

} // verus!
