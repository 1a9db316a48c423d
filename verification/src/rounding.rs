//! Exact integer rounding: quotients rounded to the nearest integer, ties
//! going to the even neighbour.

use vstd::prelude::*;
use vstd::arithmetic::div_mod::{lemma_fundamental_div_mod, lemma_fundamental_div_mod_converse};

verus! {

/// `n / d` rounded to the nearest integer, a tie going to the even neighbour.
/// Meaningful for `d > 0`.
pub open spec fn round_half_even(n: nat, d: nat) -> nat {
    let q = n / d;
    let r = n % d;
    if 2 * r < d {
        q
    } else if 2 * r > d {
        q + 1
    } else if q % 2 == 0 {
        q
    } else {
        q + 1
    }
}

/// An exact multiple rounds to its quotient.
pub proof fn lemma_round_exact(q: nat, d: nat)
    requires
        d > 0,
    ensures
        round_half_even(q * d, d) == q,
{
    lemma_fundamental_div_mod_converse((q * d) as int, d as int, q as int, 0);
}

/// Rounding never leaves the interval between the floor and the floor plus
/// one, and is monotone in the bound: a numerator of at most `m * d` rounds
/// to at most `m`.
pub proof fn lemma_round_bounded(n: nat, d: nat, m: nat)
    requires
        d > 0,
        n <= m * d,
    ensures
        round_half_even(n, d) <= m,
{
    let q = n / d;
    let r = n % d;
    lemma_fundamental_div_mod(n as int, d as int);
    assert(n == d * q + r);
    assert(0 <= r < d) by (nonlinear_arith)
        requires
            r == n % d,
            d > 0,
    ;
    if q >= m {
        assert(d * q >= d * m) by (nonlinear_arith)
            requires
                q >= m,
                d > 0,
        ;
        assert(m * d == d * m) by (nonlinear_arith);
        assert(r == 0);
        assert(q <= m) by (nonlinear_arith)
            requires
                d * q <= d * m,
                d > 0,
        ;
    }
}

/// Divides `n` by `d` and rounds to the nearest integer, ties to even.
pub fn div_round_half_even(n: u128, d: u128) -> (q: u128)
    requires
        d > 0,
    ensures
        q == round_half_even(n as nat, d as nat),
{
    let q: u128 = n / d;
    let r: u128 = n % d;
    proof {
        lemma_fundamental_div_mod(n as int, d as int);
        assert(n == d * q + r);
        if r > 0 {
            // with a remainder the divisor is at least 2, so q + 1 fits
            assert(d >= 2);
            assert(d * q >= 2 * q) by (nonlinear_arith)
                requires
                    d >= 2,
                    q >= 0,
            ;
        }
    }
    let rest: u128 = d - r;
    if r < rest {
        q
    } else if r > rest {
        q + 1
    } else if q % 2 == 0 {
        q
    } else {
        q + 1
    }
}

} // verus!
