//! Laws of the arithmetic.

use vstd::arithmetic::power2::*;
use vstd::prelude::*;

use super::float::{lemma_round_shifted_integer, lemma_weights};
use super::rounding::{
    lemma_round_at_least, lemma_round_at_most, lemma_round_is_nearest, lemma_round_shape,
};
use super::value::{distance, round, Real, Width};

verus! {

/// No number with `p` significant bits is nearer to `n / d` than the one it is rounded to.
pub proof fn lemma_rounding_is_to_nearest(p: nat, n: nat, d: nat, m: nat, k: nat)
    requires
        p > 0,
        d > 0,
        m <= pow2(p),
    ensures
        distance(n, round(p, n, d) * d) <= distance(n, (m * pow2(k)) * d),
{
    lemma_round_is_nearest(p, n, d, m, k);
}

/// Rounding a magnitude that the format holds changes nothing.
pub proof fn lemma_rounding_is_idempotent(width: Width, n: nat, d: nat)
    requires
        d > 0,
    ensures
        round(width.precision(), round(width.precision(), n, d), 1) == round(
            width.precision(),
            n,
            d,
        ),
{
    let p = width.precision();
    let s = round(p, n, d);
    let (m, k) = lemma_round_shape(p, n, d);
    lemma_rounding_of_representable(p, s, 1, m, k);
}

/// A ratio that equals a representable number is not changed by rounding.
pub proof fn lemma_rounding_of_representable(p: nat, n: nat, d: nat, m: nat, k: nat)
    requires
        p > 0,
        d > 0,
        m <= pow2(p),
        n == (m * pow2(k)) * d,
    ensures
        round(p, n, d) == m * pow2(k),
{
    lemma_round_at_most(p, n, d, m, k);
    lemma_round_at_least(p, n, d, m, k);
}

/// Integers of at most the precision of the format are represented exactly.
pub proof fn lemma_integer_is_exact(width: Width, n: nat)
    requires
        n < pow2(width.precision()),
    ensures
        Real::integer(width, n) == (Real::Finite { negative: false, steps: n * width.one() }),
        n * width.one() < pow2(width.range()),
{
    let p = width.precision();
    lemma_round_shifted_integer(p, n, width.scale());
    lemma_pow2_adds(p, width.scale());
    lemma_pow2_pos(width.scale());
    assert(n * width.one() < pow2(p + width.scale())) by (nonlinear_arith)
        requires
            n < pow2(p),
            width.one() > 0,
            pow2(p + width.scale()) == pow2(p) * width.one(),
    ;
    lemma_pow2_strictly_increases(p + width.scale(), width.range());
}

/// Small integers are represented exactly in both formats.
pub proof fn lemma_small_integer(width: Width, n: nat)
    requires
        n <= 0x10_0000,
    ensures
        Real::integer(width, n) == (Real::Finite { negative: false, steps: n * width.one() }),
        n < pow2(width.precision()),
        n * width.one() < pow2(width.range()),
        width.one() > 0,
{
    lemma_weights(width);
    lemma_pow2_pos(width.scale());
    lemma_integer_is_exact(width, n);
}

/// A quotient of magnitudes, the first of which is at most `n` times the second, is at most
/// `n`.
pub proof fn lemma_quotient_at_most(width: Width, s1: nat, s2: nat, n: nat)
    requires
        s2 > 0,
        n <= 0x10_0000,
        s1 <= n * s2,
    ensures
        round(width.precision(), s1 * width.one(), s2) <= n * width.one(),
{
    lemma_small_integer(width, n);
    assert(s1 * width.one() <= (n * width.one()) * s2) by (nonlinear_arith)
        requires
            s1 <= n * s2,
    ;
    lemma_round_at_most(width.precision(), s1 * width.one(), s2, n, width.scale());
}

/// A product of a magnitude of at most one and a small integer is at most that integer.
pub proof fn lemma_product_at_most(width: Width, s: nat, n: nat)
    requires
        s <= width.one(),
        n <= 0x10_0000,
    ensures
        round(width.precision(), s * (n * width.one()), width.one()) <= n * width.one(),
{
    lemma_small_integer(width, n);
    assert(s * (n * width.one()) <= (n * width.one()) * width.one()) by (nonlinear_arith)
        requires
            s <= width.one(),
    ;
    lemma_round_at_most(
        width.precision(),
        s * (n * width.one()),
        width.one(),
        n,
        width.scale(),
    );
}

} // verus!
