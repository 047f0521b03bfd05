//! Exact integer arithmetic the scorer relies on: ceiling division of a
//! signed numerator by a positive denominator, and the bounds that keep
//! the executable computations inside their machine types.

use vstd::arithmetic::div_mod::{lemma_fundamental_div_mod, lemma_fundamental_div_mod_converse};
use vstd::math::abs;
use vstd::prelude::*;

verus! {

/// Ceiling of the rational `a / b`, for `b > 0` (`/` is Euclidean, so
/// `(-a) / b` rounds down and its negation rounds `a / b` up).
pub open spec fn ceil_div(a: int, b: int) -> int {
    -((-a) / b)
}

/// `|x * y| <= m * m` whenever both factors stay within `m`.
pub proof fn lemma_mul_bound(x: int, y: int, m: int)
    by (nonlinear_arith)
    requires
        -m <= x <= m,
        -m <= y <= m,
        0 <= m,
    ensures
        -(m * m) <= x * y <= m * m,
{
}

/// For a non-negative numerator, the ceiling quotient is the floor
/// quotient, bumped by one when the division is inexact.
pub proof fn lemma_ceil_div_pos(a: int, b: int)
    requires
        a >= 0,
        b > 0,
    ensures
        a % b == 0 ==> ceil_div(a, b) == a / b,
        a % b != 0 ==> ceil_div(a, b) == a / b + 1,
{
    lemma_fundamental_div_mod(a, b);
    let q = a / b;
    let r = a % b;
    if r == 0 {
        assert(-a == (-q) * b + 0) by (nonlinear_arith)
            requires
                a == b * q + r && r == 0,
        ;
        lemma_fundamental_div_mod_converse(-a, b, -q, 0);
    } else {
        assert(-a == (-q - 1) * b + (b - r)) by (nonlinear_arith)
            requires
                a == b * q + r,
        ;
        lemma_fundamental_div_mod_converse(-a, b, -q - 1, b - r);
    }
}

/// Ceiling division by a positive denominator never grows the magnitude.
pub proof fn lemma_ceil_div_abs_bound(a: int, b: int)
    requires
        b > 0,
    ensures
        abs(ceil_div(a, b)) <= abs(a),
{
    lemma_fundamental_div_mod(-a, b);
    let q = (-a) / b;
    let r = (-a) % b;
    if a >= 0 {
        assert(-a <= q <= 0) by (nonlinear_arith)
            requires
                -a == b * q + r && 0 <= r < b && b > 0 && -a <= 0,
        ;
    } else {
        assert(0 <= q <= -a) by (nonlinear_arith)
            requires
                -a == b * q + r && 0 <= r < b && b > 0 && -a > 0,
        ;
    }
}

} // verus!
