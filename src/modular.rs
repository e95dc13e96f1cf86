//! Congruence modulo a positive modulus, the algebra behind every
//! verification equation.
use vstd::arithmetic::div_mod::{
    lemma_add_mod_noop, lemma_fundamental_div_mod, lemma_mod_twice, lemma_small_mod, lemma_mul_mod_noop, lemma_sub_mod_noop,
};
use vstd::prelude::*;

verus! {

/// Sums of congruent terms are congruent.
pub proof fn lemma_cong_add(a: int, b: int, c: int, d: int, m: int)
    requires
        m > 0,
        a % m == b % m,
        c % m == d % m,
    ensures
        (a + c) % m == (b + d) % m,
{
    lemma_add_mod_noop(a, c, m);
    lemma_add_mod_noop(b, d, m);
}

/// Differences of congruent terms are congruent.
pub proof fn lemma_cong_sub(a: int, b: int, c: int, d: int, m: int)
    requires
        m > 0,
        a % m == b % m,
        c % m == d % m,
    ensures
        (a - c) % m == (b - d) % m,
{
    lemma_sub_mod_noop(a, c, m);
    lemma_sub_mod_noop(b, d, m);
}

/// Products of congruent factors are congruent.
pub proof fn lemma_cong_mul(a: int, b: int, c: int, d: int, m: int)
    requires
        m > 0,
        a % m == b % m,
        c % m == d % m,
    ensures
        (a * c) % m == (b * d) % m,
{
    lemma_mul_mod_noop(a, c, m);
    lemma_mul_mod_noop(b, d, m);
}

/// A residue is congruent to the number it was taken of.
pub proof fn lemma_cong_reduce(a: int, m: int)
    requires
        m > 0,
    ensures
        (a % m) % m == a % m,
{
    lemma_mod_twice(a, m);
}

/// A nonzero number smaller in magnitude than the modulus is not a multiple of it.
pub proof fn lemma_nonzero_residue(k: int, m: int)
    requires
        m > 0,
        k != 0,
        -m < k < m,
    ensures
        k % m != 0,
{
    lemma_fundamental_div_mod(k, m);
    let q = k / m;
    if k % m == 0 {
        assert(k == m * q);
        assert(false) by (nonlinear_arith)
            requires
                k == m * q,
                k != 0,
                -m < k < m,
                m > 0,
        ;
    }
}

/// Adding the residue of `w · b` to a running residue of `target` gives the
/// residue of `target + w' · b`, when `w ≡ w'`.
pub proof fn lemma_accumulate(acc: int, target: int, w: int, w_exact: int, b: int, m: int)
    requires
        m > 0,
        acc % m == target % m,
        w % m == w_exact % m,
    ensures
        (acc + (w * b) % m) % m == (target + w_exact * b) % m,
{
    lemma_cong_mul(w, w_exact, b, b, m);
    lemma_mod_twice(w * b, m);
    lemma_cong_add(acc, target, (w * b) % m, w_exact * b, m);
}

/// Adding `d` keeps the residue exactly when `d` is a multiple of the modulus.
pub proof fn lemma_shift_residue(a: int, d: int, m: int)
    requires
        m > 0,
    ensures
        ((a + d) % m == a % m) <==> (d % m == 0),
{
    lemma_add_mod_noop(a, d, m);
    lemma_mod_twice(a, m);
    lemma_fundamental_div_mod(a, m);
    let r = a % m;
    if (a + d) % m == a % m {
        // ((a % m) + (d % m)) % m == a % m with both residues in [0, m)
        assert(0 <= r < m);
        assert(0 <= d % m < m) by {
            lemma_fundamental_div_mod(d, m);
        }
        lemma_fundamental_div_mod(r + d % m, m);
        if d % m != 0 {
            let x = r + d % m;
            if x < m {
                lemma_small_mod(x as nat, m as nat);
            } else {
                vstd::arithmetic::div_mod::lemma_mod_sub_multiples_vanish(x, m);
                lemma_small_mod((x - m) as nat, m as nat);
            }
        }
    } else {
        if d % m == 0 {
            assert(r + 0 == r);
            lemma_small_mod(r as nat, m as nat);
        }
    }
}

} // verus!
