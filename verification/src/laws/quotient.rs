//! Quotients in double precision, scaled and narrowed to single precision.

use vstd::arithmetic::mul::*;
use vstd::arithmetic::power2::*;
use vstd::prelude::*;

use crate::number::closeness::{
    close, lemma_close_multiples, lemma_close_parts, lemma_close_to_close,
    lemma_close_to_closer, lemma_closer, lemma_rounding_is_close,
};
use crate::number::laws::lemma_small_integer;
use crate::number::rounding::{lemma_round_at_least, lemma_round_at_most};
use crate::number::value::{round, Real, Width};

verus! {

/// The quotient of two magnitudes times a small number, computed in double precision and
/// narrowed.
pub open spec fn scaled_quotient(x: nat, y: nat, c: nat) -> Real {
    (Real::Finite { negative: false, steps: x }).over(
        Width::Double,
        Real::Finite { negative: false, steps: y },
    ).times(Width::Double, Real::integer(Width::Double, c)).narrowed()
}

/// The steps of a scaled quotient that is not out of range.
pub proof fn lemma_scaled_quotient_steps(x: nat, y: nat, c: nat)
    requires
        y > 0,
        c <= 128,
        x <= pow2(100) * y,
    ensures
        ({
            let one = Width::Double.one();
            let q = round(53, x * one, y);
            let p = round(53, q * (c * one), one);
            let r = round(24, p, pow2(925));
            &&& scaled_quotient(x, y, c) == (Real::Finite { negative: false, steps: r })
            &&& q <= pow2(1174)
        }),
{
    let one = Width::Double.one();
    let q = round(53, x * one, y);
    let p = round(53, q * (c * one), one);
    lemma2_to64();
    lemma_small_integer(Width::Double, c);
    lemma_pow2_pos(53);
    lemma_pow2_pos(24);
    lemma_pow2_pos(925);
    lemma_pow2_adds(100, 1074);
    lemma_pow2_adds(1174, 7);
    lemma_pow2_adds(256, 925);
    lemma_pow2_strictly_increases(1174, 2098);
    lemma_pow2_strictly_increases(1181, 2098);
    lemma_pow2_strictly_increases(256, 277);
    assert(x * one <= (1 * pow2(1174)) * y) by (nonlinear_arith)
        requires
            x <= pow2(100) * y,
            pow2(1174) == pow2(100) * one,
            one >= 0,
    ;
    lemma_round_at_most(53, x * one, y, 1, 1174);
    assert(q * (c * one) <= (1 * pow2(1181)) * one) by (nonlinear_arith)
        requires
            q <= pow2(1174),
            c <= 128,
            pow2(1181) == pow2(1174) * 128,
    ;
    lemma_round_at_most(53, q * (c * one), one, 1, 1181);
    assert(p <= (1 * pow2(256)) * pow2(925)) by (nonlinear_arith)
        requires
            p <= pow2(1181),
            pow2(1181) == pow2(256) * pow2(925),
    ;
    lemma_round_at_most(24, p, pow2(925), 1, 256);
}

/// A scaled quotient is the exact one up to rounding.
pub proof fn lemma_scaled_quotient(x: nat, y: nat, c: nat)
    requires
        y > 0,
        0 < c <= 128,
        x <= pow2(100) * y,
        pow2(950) * y <= x * Width::Double.one(),
    ensures
        scaled_quotient(x, y, c) matches Real::Finite { negative, steps } && !negative && close(
            (steps * pow2(925)) * y,
            (c * x) * Width::Double.one(),
            22,
        ),
{
    let one = Width::Double.one();
    let e = pow2(925);
    let q = round(53, x * one, y);
    let p = round(53, q * (c * one), one);
    let r = round(24, p, e);
    lemma_scaled_quotient_steps(x, y, c);
    lemma_pow2_pos(1074);
    lemma_pow2_pos(925);
    lemma_pow2_pos(950);
    lemma_pow2_strictly_increases(52, 950);
    lemma_pow2_adds(23, 925);
    lemma_pow2_strictly_increases(948, 950);
    lemma_pow2_pos(53);
    assert(pow2(52) * y <= x * one) by (nonlinear_arith)
        requires
            pow2(950) * y <= x * one,
            pow2(52) <= pow2(950),
    ;
    lemma_rounding_is_close(53, x * one, y);
    lemma_mul_basics(pow2(950) as int);
    lemma_round_at_least(53, x * one, y, 1, 950);
    assert(pow2(52) * one <= q * (c * one) && pow2(950) * one <= q * (c * one)) by (nonlinear_arith)
        requires
            pow2(950) <= q,
            pow2(52) <= pow2(950),
            c >= 1,
            one >= 0,
    ;
    lemma_rounding_is_close(53, q * (c * one), one);
    lemma_round_at_least(53, q * (c * one), one, 1, 950);
    lemma_rounding_is_close(24, p, e);
    // The product is close to `c` times the quotient.
    assert(p * one == one * p && q * (c * one) == one * (c * q)) by (nonlinear_arith);
    lemma_close_parts(p, c * q, one, 52);
    // All three roundings, multiplied by the divisor.
    let a0 = (r * e) * y;
    let a1 = p * y;
    let a2 = (c * q) * y;
    let a3 = (c * x) * one;
    lemma_close_multiples(r * e, p, y, 23);
    lemma_close_multiples(p, c * q, y, 52);
    lemma_close_multiples(q * y, x * one, c, 52);
    assert(a0 == y * (r * e) && a1 == y * p && a2 == y * (c * q)) by (nonlinear_arith)
        requires
            a0 == (r * e) * y,
            a1 == p * y,
            a2 == (c * q) * y,
    ;
    assert(a2 == c * (q * y) && a3 == c * (x * one)) by (nonlinear_arith)
        requires
            a2 == (c * q) * y,
            a3 == (c * x) * one,
    ;
    lemma_close_to_close(a1, a2, a3, 52);
    lemma_closer(a1, a3, 50, 24);
    lemma_close_to_closer(a0, a1, a3, 23);
}

/// Operands that are close to exact ones give a result that is close to the exact one.
pub proof fn lemma_exact_quotient(x: nat, y: nat, c: nat, x0: nat, y0: nat, k: nat)
    requires
        y > 0,
        0 < c <= 128,
        x <= pow2(100) * y,
        pow2(950) * y <= x * Width::Double.one(),
        2 <= k <= 23,
        close(x, x0, k),
        close(y, y0, 52),
    ensures
        scaled_quotient(x, y, c) matches Real::Finite { negative, steps } && !negative && close(
            (steps * pow2(925)) * y0,
            (c * x0) * Width::Double.one(),
            if k >= 22 {
                20
            } else {
                (k - 2) as nat
            },
        ),
{
    let one = Width::Double.one();
    lemma_scaled_quotient(x, y, c);
    let r = scaled_quotient(x, y, c)->steps;
    let f = r * pow2(925);
    let a0 = f * y0;
    let a1 = f * y;
    let a2 = (c * x) * one;
    let a3 = (c * x0) * one;
    lemma_close_multiples(y, y0, f, 52);
    lemma_close_multiples(x, x0, c * one, k);
    assert((c * one) * x == a2 && (c * one) * x0 == a3) by (nonlinear_arith)
        requires
            a2 == (c * x) * one,
            a3 == (c * x0) * one,
    ;
    // From the exact numerator back to the exact divisor.
    lemma_closer(a1, a0, 52, 23);
    lemma_close_to_closer(a2, a1, a0, 22);
    if k >= 22 {
        lemma_closer(a3, a2, k, 22);
        lemma_close_to_close_at(a3, a2, a0, 22, 21);
    } else {
        lemma_closer(a2, a0, 21, k);
        lemma_close_to_close(a3, a2, a0, k);
    }
}

/// Closeness on the better side first.
proof fn lemma_close_to_close_at(x: nat, y: nat, z: nat, k: nat, j: nat)
    requires
        k == j + 1,
        j >= 1,
        close(x, y, k),
        close(y, z, j),
    ensures
        close(x, z, (j - 1) as nat),
{
    lemma_close_to_closer(z, y, x, j);
}

} // verus!
