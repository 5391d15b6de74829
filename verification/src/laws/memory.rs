//! Memory usage against exact shares.

use vstd::arithmetic::mul::*;
use vstd::arithmetic::power2::*;
use vstd::prelude::*;

use crate::monitor::memory_share;
use crate::number::closeness::{
    close, lemma_close_parts, lemma_closer, lemma_rounding_is_close, lemma_rounding_is_monotonic,
};
use crate::number::laws::{lemma_rounding_of_representable, lemma_small_integer};
use crate::number::rounding::{
    lemma_excess, lemma_excess_bounds, lemma_half_even_ratio, lemma_round_at_least,
    lemma_round_at_most, lemma_round_ratio, lemma_round_zero,
};
use crate::number::value::{excess, half_even, round, Real, Width};

use super::quotient::{lemma_exact_quotient, lemma_scaled_quotient_steps, scaled_quotient};

verus! {

/// A count of bytes in double precision.
proof fn lemma_count(n: nat) -> (steps: nat)
    requires
        n < pow2(64),
    ensures
        steps == round(53, n * Width::Double.one(), 1),
        Real::integer(Width::Double, n) == (Real::Finite { negative: false, steps }),
        steps <= pow2(64) * Width::Double.one(),
        n > 0 ==> Width::Double.one() <= steps,
        n == 0 ==> steps == 0,
        close(steps, n * Width::Double.one(), 52),
{
    let one = Width::Double.one();
    let steps = round(53, n * one, 1);
    lemma_pow2_pos(53);
    lemma_pow2_pos(1074);
    lemma_pow2_adds(64, 1074);
    lemma_pow2_strictly_increases(1138, 2098);
    lemma_mul_basics(pow2(1138) as int);
    lemma_mul_basics(one as int);
    lemma_mul_basics(steps as int);
    assert(n * one <= pow2(1138)) by (nonlinear_arith)
        requires
            n < pow2(64),
            pow2(1138) == pow2(64) * one,
    ;
    lemma_round_at_most(53, n * one, 1, 1, 1138);
    if n > 0 {
        assert(one <= n * one) by (nonlinear_arith)
            requires
                n >= 1,
        ;
        lemma_round_at_least(53, n * one, 1, 1, 1074);
    } else {
        lemma_round_zero(53, 1);
    }
    lemma_rounding_is_close(53, n * one, 1);
    steps
}

/// The share is a scaled quotient of the two counts.
proof fn lemma_share_is_quotient(total: nat, used: nat) -> (r: (nat, nat))
    requires
        0 < total < pow2(64),
        used < pow2(64),
    ensures
        r.0 == round(53, used * Width::Double.one(), 1),
        r.1 == round(53, total * Width::Double.one(), 1),
        memory_share(total, used) == scaled_quotient(r.0, r.1, 100),
        r.1 > 0,
        r.0 <= pow2(100) * r.1,
{
    let one = Width::Double.one();
    let x = lemma_count(used);
    let y = lemma_count(total);
    lemma_pow2_pos(1074);
    lemma_pow2_strictly_increases(64, 100);
    assert(x <= pow2(100) * y) by (nonlinear_arith)
        requires
            x <= pow2(64) * one,
            one <= y,
            pow2(64) <= pow2(100),
    ;
    (x, y)
}

/// The memory usage times the total is a hundred times the used memory, up to rounding.
pub proof fn lemma_memory_usage_is_the_share(total: nat, used: nat)
    requires
        0 < total < pow2(64),
        0 < used < pow2(64),
    ensures
        memory_share(total, used) matches Real::Finite { negative, steps } && !negative && close(
            steps * total,
            (100 * used) * Width::Single.one(),
            20,
        ),
{
    let one = Width::Double.one();
    let e = pow2(925);
    let small = Width::Single.one();
    let (x, y) = lemma_share_is_quotient(total, used);
    let x1 = lemma_count(used);
    let y1 = lemma_count(total);
    lemma_pow2_adds(950, 64);
    lemma_pow2_strictly_increases(1014, 1074);
    lemma_pow2_adds(149, 925);
    lemma_pow2_pos(1074);
    lemma_pow2_pos(925);
    assert(pow2(950) * y <= x * one) by (nonlinear_arith)
        requires
            y <= pow2(64) * one,
            pow2(1014) == pow2(950) * pow2(64),
            pow2(1014) <= one,
            one <= x,
            one >= 0,
    ;
    lemma_closer(x, used * one, 52, 23);
    lemma_exact_quotient(x, y, 100, used * one, total * one, 23);
    let r = memory_share(total, used)->steps;
    let f = one * e;
    lemma_mul_strictly_positive(one as int, e as int);
    assert((r * e) * (total * one) == f * (r * total)) by (nonlinear_arith)
        requires
            f == one * e,
    ;
    assert((100 * (used * one)) * one == f * ((100 * used) * small)) by (nonlinear_arith)
        requires
            f == one * e,
            one == small * e,
    ;
    lemma_close_parts(r * total, (100 * used) * small, f, 20);
}

/// The memory usage of a part of the memory is between 0 and 100 percent, and 100 percent where
/// all of it is used.
pub proof fn lemma_memory_usage_is_a_percentage(total: nat, used: nat)
    requires
        0 < total < pow2(64),
        used <= total,
    ensures
        Real::zero().le(memory_share(total, used)),
        memory_share(total, used).le(Real::integer(Width::Single, 100)),
        memory_share(total, total) == Real::integer(Width::Single, 100),
        memory_share(total, 0) == Real::zero(),
{
    let one = Width::Double.one();
    let (x, y) = lemma_share_is_quotient(total, total);
    let zero = lemma_count(0);
    lemma_share_is_quotient(total, 0);
    lemma_scaled_quotient_steps(x, y, 100);
    lemma_scaled_quotient_steps(zero, y, 100);
    lemma_small_integer(Width::Single, 100);
    lemma_small_integer(Width::Double, 100);
    lemma_pow2_adds(149, 925);
    lemma_pow2_pos(925);
    lemma_pow2_pos(1074);
    lemma2_to64();
    // All of the memory is exactly a hundred percent.
    lemma_mul_basics(one as int);
    assert(x * one == (1 * one) * y) by (nonlinear_arith)
        requires
            x == y,
    ;
    lemma_rounding_of_representable(53, x * one, y, 1, 1074);
    assert(one * (100 * one) == (100 * one) * one) by (nonlinear_arith);
    lemma_rounding_of_representable(53, one * (100 * one), one, 100, 1074);
    assert(100 * one == (100 * pow2(149)) * pow2(925)) by (nonlinear_arith)
        requires
            one == pow2(149) * pow2(925),
    ;
    lemma_rounding_of_representable(24, 100 * one, pow2(925), 100, 149);
    // None of it is exactly none.
    lemma_round_zero(53, y);
    lemma_round_zero(53, one);
    lemma_round_zero(24, pow2(925));
    lemma_mul_basics((100 * one) as int);
    lemma_memory_usage_grows(total, used, total);
    lemma_memory_usage_grows(total, 0, used);
}

/// Without memory none is used.
pub proof fn lemma_no_memory_no_usage(used: nat)
    ensures
        memory_share(0, used) == Real::zero(),
{
    lemma_mul_basics(Width::Double.one() as int);
    lemma_round_zero(53, 1);
    lemma_pow2_pos(2098);
}

/// The memory usage grows with the used memory.
pub proof fn lemma_memory_usage_grows(total: nat, less: nat, more: nat)
    requires
        0 < total < pow2(64),
        less <= more < pow2(64),
    ensures
        memory_share(total, less).le(memory_share(total, more)),
{
    let one = Width::Double.one();
    let (x1, y) = lemma_share_is_quotient(total, less);
    let (x2, y2) = lemma_share_is_quotient(total, more);
    lemma_pow2_pos(1074);
    lemma_pow2_pos(925);
    assert((less * one) * 1 <= (more * one) * 1) by (nonlinear_arith)
        requires
            less <= more,
    ;
    lemma_rounding_is_monotonic(53, less * one, 1, more * one, 1);
    lemma_scaled_quotient_steps(x1, y, 100);
    lemma_scaled_quotient_steps(x2, y, 100);
    let q1 = round(53, x1 * one, y);
    let q2 = round(53, x2 * one, y);
    assert((x1 * one) * y <= (x2 * one) * y) by (nonlinear_arith)
        requires
            x1 <= x2,
    ;
    lemma_rounding_is_monotonic(53, x1 * one, y, x2 * one, y);
    let p1 = round(53, q1 * (100 * one), one);
    let p2 = round(53, q2 * (100 * one), one);
    assert((q1 * (100 * one)) * one <= (q2 * (100 * one)) * one) by (nonlinear_arith)
        requires
            q1 <= q2,
    ;
    lemma_rounding_is_monotonic(53, q1 * (100 * one), one, q2 * (100 * one), one);
    assert(p1 * pow2(925) <= p2 * pow2(925)) by (nonlinear_arith)
        requires
            p1 <= p2,
    ;
    lemma_rounding_is_monotonic(24, p1, pow2(925), p2, pow2(925));
}

/// Rounding commutes with doubling where all bits are in use.
proof fn lemma_round_of_shifted(p: nat, n: nat, j: nat)
    requires
        p > 0,
        pow2(p) <= n,
    ensures
        round(p, n * pow2(j), 1) == round(p, n, 1) * pow2(j),
{
    let k = excess(p, n, 1);
    let c = pow2(j);
    lemma_excess_bounds(p, n, 1);
    lemma_pow2_pos(j);
    lemma_pow2_pos(k);
    lemma_pow2_adds(k, j);
    lemma_pow2_pos(k + j);
    lemma_mul_basics(pow2(p + k) as int);
    lemma_mul_basics(pow2(p) as int);
    lemma_pow2_adds(p + k, j);
    lemma_pow2_adds((p + k - 1) as nat, j);
    assert(n * c < pow2(p + k) * c && (k > 0 ==> pow2((p + k - 1) as nat) * c <= n * c))
        by (nonlinear_arith)
        requires
            n < pow2(p + k),
            k > 0 ==> pow2((p + k - 1) as nat) <= n,
            c > 0,
    ;
    lemma_mul_basics(pow2(p + (k + j)) as int);
    lemma_mul_basics(pow2((p + (k + j) - 1) as nat) as int);
    lemma_excess(p, n * c, 1, k + j);
    lemma_mul_basics(pow2(k) as int);
    lemma_mul_basics(pow2(k + j) as int);
    assert(n * pow2(k + j) == (n * c) * pow2(k)) by (nonlinear_arith)
        requires
            pow2(k + j) == pow2(k) * c,
    ;
    lemma_half_even_ratio(n, pow2(k), n * c, pow2(k + j));
    let h = half_even(n, pow2(k));
    assert(h * pow2(k + j) == (h * pow2(k)) * c) by (nonlinear_arith)
        requires
            pow2(k + j) == pow2(k) * c,
    ;
}

/// Counting in other units of a power of two, such as kilobytes, changes nothing.
pub proof fn lemma_memory_usage_does_not_depend_on_the_unit(total: nat, used: nat, j: nat)
    requires
        0 < total,
        total * pow2(j) < pow2(64),
        used * pow2(j) < pow2(64),
    ensures
        memory_share(total * pow2(j), used * pow2(j)) == memory_share(total, used),
{
    let one = Width::Double.one();
    let c = pow2(j);
    lemma_pow2_pos(j);
    lemma_pow2_strictly_increases(53, 1074);
    assert(0 < total <= total * c && used <= used * c) by (nonlinear_arith)
        requires
            c >= 1,
            total > 0,
            used >= 0,
    ;
    let (x, y) = lemma_share_is_quotient(total, used);
    let (x2, y2) = lemma_share_is_quotient(total * c, used * c);
    lemma_shifted_count(total, j);
    if used > 0 {
        lemma_shifted_count(used, j);
    } else {
        let a = lemma_count(0);
        lemma_mul_basics(c as int);
    }
    assert(x2 == x * c && y2 == y * c);
    assert((x * one) * (y * c) == ((x * c) * one) * y) by (nonlinear_arith);
    lemma_mul_strictly_positive(y as int, c as int);
    lemma_round_ratio(53, x * one, y, (x * c) * one, y * c);
}

proof fn lemma_shifted_count(n: nat, j: nat)
    requires
        n > 0,
    ensures
        round(53, (n * pow2(j)) * Width::Double.one(), 1) == round(53, n * Width::Double.one(), 1)
            * pow2(j),
{
    let one = Width::Double.one();
    lemma_pow2_strictly_increases(53, 1074);
    assert((n * pow2(j)) * one == (n * one) * pow2(j) && one <= n * one) by (nonlinear_arith)
        requires
            n >= 1,
    ;
    lemma_round_of_shifted(53, n * one, j);
}

} // verus!
