//! How far rounding leads away from exact values.

use vstd::arithmetic::div_mod::*;
use vstd::arithmetic::mul::*;
use vstd::arithmetic::power2::*;
use vstd::prelude::*;

use super::rounding::{
    lemma_excess_bounds, lemma_round_at_least, lemma_round_at_most, lemma_round_is_nearest,
    lemma_round_ratio, lemma_round_shape,
};
use super::value::{distance, excess, half_even, round};

verus! {

/// Neither value exceeds the other by more than one part in two to the `k`.
pub open spec fn close(x: nat, y: nat, k: nat) -> bool {
    &&& pow2(k) * x <= (pow2(k) + 1) * y
    &&& pow2(k) * y <= (pow2(k) + 1) * x
}

proof fn lemma_half_even_error(n: nat, d: nat)
    requires
        d > 0,
    ensures
        2 * distance(half_even(n, d) * d, n) <= d,
        d == 1 ==> half_even(n, d) == n,
{
    let q = n as int / d as int;
    let r = n as int % d as int;
    lemma_fundamental_div_mod(n as int, d as int);
    lemma_mod_bound(n as int, d as int);
    lemma_mul_is_commutative(d as int, q);
    assert((q + 1) * d == q * d + d) by (nonlinear_arith);
    assert(d == 1 ==> r == 0 && q * d == q) by (nonlinear_arith)
        requires
            0 <= r < d,
    ;
}

/// Rounding to `p` significant bits is off by at most one part in two to the `p`, and by half a
/// step where there are fewer bits. Integers of fewer bits are not changed.
pub proof fn lemma_rounding_error(p: nat, n: nat, d: nat)
    requires
        p > 0,
        d > 0,
    ensures
        pow2(p) * distance(round(p, n, d) * d, n) <= d * round(p, n, d) || (n < d * pow2(p) && 2
            * distance(round(p, n, d) * d, n) <= d),
        d == 1 ==> pow2(p) * distance(round(p, n, 1), n) <= round(p, n, 1),
        pow2((p - 1) as nat) * d <= n ==> pow2(p) * distance(round(p, n, d) * d, n) <= d * round(
            p,
            n,
            d,
        ),
{
    let k = excess(p, n, d);
    let u = pow2(k);
    let unit = d * u;
    let q = half_even(n, unit);
    let r = round(p, n, d);
    let half = pow2((p - 1) as nat);
    let e = distance(r * d, n);
    lemma_excess_bounds(p, n, d);
    lemma_pow2_pos(k);
    lemma_pow2_pos(p);
    lemma_pow2_unfold(p);
    lemma_mul_strictly_positive(d as int, u as int);
    lemma_half_even_error(n, unit);
    assert(r * d == q * unit) by (nonlinear_arith)
        requires
            r == q * u,
            unit == d * u,
    ;
    if k > 0 {
        lemma_pow2_adds((p - 1) as nat, k);
        assert((half * u) * d <= n) by (nonlinear_arith)
            requires
                d * (half * u) <= n,
        ;
        lemma_round_at_least(p, n, d, half, k);
        assert((2 * half) * e <= d * r) by (nonlinear_arith)
            requires
                2 * e <= d * u,
                half * u <= r,
        ;
        lemma_mul_basics(e);
        if d == 1 {
            lemma_mul_basics(r as int);
        }
    } else {
        lemma2_to64();
        lemma_mul_basics(d as int);
        lemma_mul_basics(q as int);
        lemma_mul_basics(r as int);
        if d == 1 {
            assert(e == 0);
            lemma_mul_basics(pow2(p) as int);
        }
        if half * d <= n {
            lemma_mul_basics(half as int);
            lemma_round_at_least(p, n, d, half, 0);
            assert((2 * half) * e <= d * r) by (nonlinear_arith)
                requires
                    2 * e <= d,
                    half <= r,
            ;
        }
    }
}

/// A rounded ratio is close to the ratio, unless there are too few bits.
pub proof fn lemma_rounding_is_close(p: nat, n: nat, d: nat)
    requires
        p > 0,
        d > 0,
        d == 1 || pow2((p - 1) as nat) * d <= n,
    ensures
        close(round(p, n, d) * d, n, (p - 1) as nat),
{
    let x = round(p, n, d) * d;
    let e = distance(x, n);
    let b = pow2((p - 1) as nat);
    lemma_rounding_error(p, n, d);
    lemma_pow2_unfold(p);
    lemma_pow2_pos((p - 1) as nat);
    lemma_mul_basics(round(p, n, d) as int);
    lemma_mul_is_commutative(d as int, round(p, n, d) as int);
    assert((2 * b) * e <= x);
    assert(b * x <= (b + 1) * n && b * n <= (b + 1) * x) by (nonlinear_arith)
        requires
            (2 * b) * e <= x,
            x <= n + e,
            n <= x + e,
            b >= 1,
            e >= 0,
    ;
}

/// Closeness carries over from two values to a third, with two bits less.
pub proof fn lemma_close_to_close(x: nat, y: nat, z: nat, k: nat)
    requires
        k >= 2,
        close(x, y, k),
        close(y, z, k),
    ensures
        close(x, z, (k - 2) as nat),
{
    let b = pow2((k - 2) as nat);
    lemma_pow2_unfold(k);
    lemma_pow2_unfold((k - 1) as nat);
    lemma_pow2_pos((k - 2) as nat);
    lemma_close_step(b, x, y, z);
    lemma_close_step(b, z, y, x);
}

proof fn lemma_close_step(b: nat, x: nat, y: nat, z: nat)
    requires
        b >= 1,
        (4 * b) * x <= (4 * b + 1) * y,
        (4 * b) * y <= (4 * b + 1) * z,
    ensures
        b * x <= (b + 1) * z,
{
    let c = 4 * b;
    assert(c * (c * x) <= (c + 1) * ((c + 1) * z)) by (nonlinear_arith)
        requires
            c * x <= (c + 1) * y,
            c * y <= (c + 1) * z,
            c >= 0,
    ;
    assert((c + 1) * ((c + 1) * z) <= (c * c + 4 * c) * z) by (nonlinear_arith)
        requires
            c >= 4,
            z >= 0,
    ;
    assert(b * x <= (b + 1) * z) by (nonlinear_arith)
        requires
            c * (c * x) <= (c * c + 4 * c) * z,
            c == 4 * b,
            b >= 1,
    ;
}

/// Closeness carries over through what is even closer, with one bit less.
pub proof fn lemma_close_to_closer(x: nat, y: nat, z: nat, k: nat)
    requires
        k >= 1,
        close(x, y, k),
        close(y, z, k + 1),
    ensures
        close(x, z, (k - 1) as nat),
{
    let b = pow2((k - 1) as nat);
    lemma_pow2_unfold(k + 1);
    lemma_pow2_unfold(k);
    lemma_pow2_pos((k - 1) as nat);
    lemma_closer_step(b, x, y, z);
    lemma_closer_back_step(b, z, y, x);
}

proof fn lemma_closer_step(b: nat, x: nat, y: nat, z: nat)
    requires
        b >= 1,
        (2 * b) * x <= (2 * b + 1) * y,
        (4 * b) * y <= (4 * b + 1) * z,
    ensures
        b * x <= (b + 1) * z,
{
    let c = 2 * b;
    assert((2 * c) * (c * x) <= (c + 1) * ((2 * c + 1) * z)) by (nonlinear_arith)
        requires
            c * x <= (c + 1) * y,
            (2 * c) * y <= (2 * c + 1) * z,
            c >= 0,
    ;
    assert((c + 1) * ((2 * c + 1) * z) <= (2 * c * c + 4 * c) * z) by (nonlinear_arith)
        requires
            c >= 2,
            z >= 0,
    ;
    assert(b * x <= (b + 1) * z) by (nonlinear_arith)
        requires
            (2 * c) * (c * x) <= (2 * c * c + 4 * c) * z,
            c == 2 * b,
            b >= 1,
    ;
}

proof fn lemma_closer_back_step(b: nat, z: nat, y: nat, x: nat)
    requires
        b >= 1,
        (4 * b) * z <= (4 * b + 1) * y,
        (2 * b) * y <= (2 * b + 1) * x,
    ensures
        b * z <= (b + 1) * x,
{
    let c = 2 * b;
    assert((2 * c) * (c * z) <= (2 * c + 1) * ((c + 1) * x)) by (nonlinear_arith)
        requires
            (2 * c) * z <= (2 * c + 1) * y,
            c * y <= (c + 1) * x,
            c >= 0,
    ;
    assert((2 * c + 1) * ((c + 1) * x) <= (2 * c * c + 4 * c) * x) by (nonlinear_arith)
        requires
            c >= 2,
            x >= 0,
    ;
    assert(b * z <= (b + 1) * x) by (nonlinear_arith)
        requires
            (2 * c) * (c * z) <= (2 * c * c + 4 * c) * x,
            c == 2 * b,
            b >= 1,
    ;
}

/// Closer is also close.
pub proof fn lemma_closer(x: nat, y: nat, k: nat, j: nat)
    requires
        j <= k,
        close(x, y, k),
    ensures
        close(x, y, j),
{
    let a = pow2(j);
    let c = pow2((k - j) as nat);
    lemma_pow2_adds((k - j) as nat, j);
    lemma_pow2_pos((k - j) as nat);
    assert(a * x <= (a + 1) * y && a * y <= (a + 1) * x) by (nonlinear_arith)
        requires
            (c * a) * x <= (c * a + 1) * y,
            (c * a) * y <= (c * a + 1) * x,
            c >= 1,
    ;
}

/// Multiples by the same factor are as close.
pub proof fn lemma_close_multiples(x: nat, y: nat, c: nat, k: nat)
    requires
        close(x, y, k),
    ensures
        close(c * x, c * y, k),
{
    let b = pow2(k);
    assert(b * (c * x) <= (b + 1) * (c * y) && b * (c * y) <= (b + 1) * (c * x))
        by (nonlinear_arith)
        requires
            b * x <= (b + 1) * y,
            b * y <= (b + 1) * x,
    ;
}

/// What is close after multiplication by the same factor was so before.
pub proof fn lemma_close_parts(x: nat, y: nat, c: nat, k: nat)
    requires
        c > 0,
        close(c * x, c * y, k),
    ensures
        close(x, y, k),
{
    let b = pow2(k);
    assert(b * x <= (b + 1) * y && b * y <= (b + 1) * x) by (nonlinear_arith)
        requires
            b * (c * x) <= (b + 1) * (c * y),
            b * (c * y) <= (b + 1) * (c * x),
            c > 0,
    ;
}

/// What is close to a positive value is positive.
pub proof fn lemma_close_to_positive(x: nat, y: nat, k: nat)
    requires
        close(x, y, k),
        y > 0,
    ensures
        x > 0,
{
    lemma_pow2_pos(k);
    if x == 0 {
        lemma_mul_basics((pow2(k) + 1) as int);
        lemma_mul_strictly_positive(pow2(k) as int, y as int);
    }
}

/// Rounding keeps the order of ratios.
pub proof fn lemma_rounding_is_monotonic(p: nat, n1: nat, d1: nat, n2: nat, d2: nat)
    requires
        p > 0,
        d1 > 0,
        d2 > 0,
        n1 * d2 <= n2 * d1,
    ensures
        round(p, n1, d1) <= round(p, n2, d2),
{
    let (m, k) = lemma_round_shape(p, n2, d2);
    let r1 = round(p, n1, d1);
    let r2 = round(p, n2, d2);
    let (m1, k1) = lemma_round_shape(p, n1, d1);
    if r1 > r2 {
        // Between the two lies neither ratio: each is on the side of its own rounding.
        if n1 <= r2 * d1 {
            lemma_round_at_most(p, n1, d1, m, k);
        } else if r1 * d2 <= n2 {
            lemma_round_at_least(p, n2, d2, m1, k1);
        } else {
            lemma_round_is_nearest(p, n1, d1, m, k);
            lemma_round_is_nearest(p, n2, d2, m1, k1);
            lemma_between(n1, d1, n2, d2, r1, r2);
            lemma_round_ratio(p, n1, d1, n2, d2);
        }
    }
}

/// One ratio is rounded up and another that is not smaller is rounded down only where both are
/// the middle of the two results.
proof fn lemma_between(n1: nat, d1: nat, n2: nat, d2: nat, r1: nat, r2: nat)
    requires
        d1 > 0,
        d2 > 0,
        n1 * d2 <= n2 * d1,
        r2 < r1,
        r2 * d1 < n1,
        n2 < r1 * d2,
        distance(n1, r1 * d1) <= distance(n1, r2 * d1),
        distance(n2, r2 * d2) <= distance(n2, r1 * d2),
    ensures
        n1 * d2 == n2 * d1,
{
    assert(n1 <= r1 * d1) by (nonlinear_arith)
        requires
            n1 * d2 <= n2 * d1,
            n2 < r1 * d2,
            d1 > 0,
            d2 > 0,
    ;
    assert(r2 * d2 <= n2) by (nonlinear_arith)
        requires
            n1 * d2 <= n2 * d1,
            r2 * d1 < n1,
            d1 > 0,
            d2 > 0,
    ;
    let low1 = r1 * d1 + r2 * d1;
    let high2 = r1 * d2 + r2 * d2;
    assert(low1 <= 2 * n1 && 2 * n2 <= high2);
    assert(low1 * d2 == high2 * d1) by (nonlinear_arith)
        requires
            low1 == r1 * d1 + r2 * d1,
            high2 == r1 * d2 + r2 * d2,
    ;
    assert(low1 * d2 <= 2 * (n1 * d2) && 2 * (n2 * d1) <= high2 * d1) by (nonlinear_arith)
        requires
            low1 <= 2 * n1,
            2 * n2 <= high2,
    ;
}

} // verus!
