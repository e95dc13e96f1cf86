//! Finite sums `f(0) + … + f(n - 1)` and the facts about them that the
//! comparison protocol's equations need.
use crate::modular::lemma_cong_add;
use vstd::prelude::*;

verus! {

/// `f(0) + f(1) + … + f(n - 1)`.
pub open spec fn sum_to(n: nat, f: spec_fn(int) -> int) -> int
    decreases n,
{
    if n == 0 {
        0
    } else {
        sum_to((n - 1) as nat, f) + f(n - 1)
    }
}

/// Sums of termwise congruent terms are congruent.
pub proof fn lemma_sum_cong(n: nat, f: spec_fn(int) -> int, g: spec_fn(int) -> int, m: int)
    requires
        m > 0,
        forall|i: int| 0 <= i < n ==> #[trigger] f(i) % m == g(i) % m,
    ensures
        sum_to(n, f) % m == sum_to(n, g) % m,
    decreases n,
{
    if n > 0 {
        lemma_sum_cong((n - 1) as nat, f, g, m);
        lemma_cong_add(sum_to((n - 1) as nat, f), sum_to((n - 1) as nat, g), f(n - 1), g(n - 1), m);
    }
}

/// Sums of termwise equal terms are equal.
pub proof fn lemma_sum_ext(n: nat, f: spec_fn(int) -> int, g: spec_fn(int) -> int)
    requires
        forall|i: int| 0 <= i < n ==> #[trigger] f(i) == g(i),
    ensures
        sum_to(n, f) == sum_to(n, g),
    decreases n,
{
    if n > 0 {
        lemma_sum_ext((n - 1) as nat, f, g);
    }
}

/// The sum of termwise sums is the sum of the two sums.
pub proof fn lemma_sum_add(n: nat, f: spec_fn(int) -> int, g: spec_fn(int) -> int)
    ensures
        sum_to(n, |i: int| f(i) + g(i)) == sum_to(n, f) + sum_to(n, g),
    decreases n,
{
    if n > 0 {
        lemma_sum_add((n - 1) as nat, f, g);
    }
}

/// A common factor comes out of a sum.
pub proof fn lemma_sum_scale(n: nat, f: spec_fn(int) -> int, c: int)
    ensures
        sum_to(n, |i: int| c * f(i)) == c * sum_to(n, f),
    decreases n,
{
    if n > 0 {
        lemma_sum_scale((n - 1) as nat, f, c);
        let s = sum_to((n - 1) as nat, f);
        let t = f(n - 1);
        assert(c * s + c * t == c * (s + t)) by (nonlinear_arith);
    }
}

/// The terms after the first, with the first replaced by zero.
pub open spec fn tail_terms(f: spec_fn(int) -> int) -> spec_fn(int) -> int {
    |i: int|
        if i == 0 {
            0
        } else {
            f(i)
        }
}

/// A non-empty sum is its first term plus the sum of the others.
pub proof fn lemma_sum_first(n: nat, f: spec_fn(int) -> int)
    requires
        n >= 1,
    ensures
        sum_to(n, f) == f(0) + sum_to(n, tail_terms(f)),
    decreases n,
{
    let t = tail_terms(f);
    if n > 1 {
        lemma_sum_first((n - 1) as nat, f);
        assert(t(n - 1) == f(n - 1));
    } else {
        assert(sum_to(1, t) == sum_to(0, t) + t(0));
        assert(t(0) == 0);
        assert(sum_to(1, f) == sum_to(0, f) + f(0));
    }
}

} // verus!
