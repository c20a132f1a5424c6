//! Shared facts about floor division that the accounting proofs lean on.

use vstd::prelude::*;
use vstd::arithmetic::div_mod::{
    lemma_fundamental_div_mod, lemma_fundamental_div_mod_converse_div,
    lemma_div_is_ordered, lemma_div_multiples_vanish_fancy,
};
use vstd::arithmetic::mul::{
    lemma_mul_inequality, lemma_mul_is_commutative, lemma_mul_is_distributive_add_other_way,
};

verus! {

/// `a * b / c <= a` whenever `b <= c`: a time slice can never distribute
/// more than what remains.
pub proof fn lemma_muldiv_le(a: int, b: int, c: int)
    requires
        0 <= a,
        0 <= b <= c,
        0 < c,
    ensures
        a * b / c <= a,
{
    lemma_mul_inequality(b, c, a);
    lemma_mul_is_commutative(b, a);
    lemma_mul_is_commutative(c, a);
    lemma_div_is_ordered(a * b, a * c, c);
    lemma_div_multiples_vanish_fancy(a, 0, c);
    lemma_mul_is_commutative(a, c);
}

/// `a * c / c == a`: an exact multiple divides without residue.
pub proof fn lemma_muldiv_exact(a: int, c: int)
    requires
        0 <= a,
        0 < c,
    ensures
        a * c / c == a,
        (a * c + c - 1) / c == a,
{
    lemma_div_multiples_vanish_fancy(a, 0, c);
    lemma_div_multiples_vanish_fancy(a, c - 1, c);
    lemma_mul_is_commutative(a, c);
}

/// Floor division distributes over a sum with a loss of at most the two
/// residues: `a / d + b / d <= (a + b) / d`.
pub proof fn lemma_div_sum_le(a: int, b: int, d: int)
    requires
        0 <= a,
        0 <= b,
        0 < d,
    ensures
        a / d + b / d <= (a + b) / d,
{
    lemma_fundamental_div_mod(a, d);
    lemma_fundamental_div_mod(b, d);
    let q = a / d + b / d;
    let r = a % d + b % d;
    assert(a + b == q * d + r) by {
        lemma_mul_is_distributive_add_other_way(d, a / d, b / d);
        lemma_mul_is_commutative(d, a / d);
        lemma_mul_is_commutative(d, b / d);
    }
    if r < d {
        lemma_fundamental_div_mod_converse_div(a + b, d, q, r);
    } else {
        assert(a + b == (q + 1) * d + (r - d)) by {
            lemma_mul_is_distributive_add_other_way(d, q, 1);
        }
        lemma_fundamental_div_mod_converse_div(a + b, d, q + 1, r - d);
    }
}

/// `x / d >= i` exactly when `x >= i * d`: how a floor quotient compares
/// to an integer bound.
pub proof fn lemma_div_ge_iff(x: int, i: int, d: int)
    requires
        0 < d,
        0 <= x,
        0 <= i,
    ensures
        x / d >= i <==> x >= i * d,
{
    if x >= i * d {
        lemma_div_is_ordered(i * d, x, d);
        vstd::arithmetic::div_mod::lemma_div_by_multiple(i, d);
    }
    if x / d >= i {
        lemma_fundamental_div_mod(x, d);
        lemma_mul_inequality(i, x / d, d);
        lemma_mul_is_commutative(d, x / d);
    }
}

/// Floor division is monotone in the numerator.
pub proof fn lemma_div_le_numerator(a: int, b: int, d: int)
    requires
        0 <= a <= b,
        0 < d,
    ensures
        a / d <= b / d,
{
    lemma_div_is_ordered(a, b, d);
}

} // verus!
