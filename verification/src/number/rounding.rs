//! Rounding a ratio of integers to a given number of significant bits.

use vstd::arithmetic::div_mod::*;
use vstd::arithmetic::mul::*;
use vstd::arithmetic::power2::*;
use vstd::prelude::*;

use super::value::{distance, excess, half_even, round};

verus! {

/// Scaling numerator and denominator alike does not change the rounded quotient.
proof fn lemma_half_even_scaled(n: nat, d: nat, c: nat)
    requires
        d > 0,
        c > 0,
    ensures
        c * d > 0,
        half_even(c * n, c * d) == half_even(n, d),
{
    let q = n as int / d as int;
    let r = n as int % d as int;
    lemma_fundamental_div_mod(n as int, d as int);
    lemma_mod_bound(n as int, d as int);
    assert(c * n == q * (c * d) + c * r && 0 <= c * r < c * d) by (nonlinear_arith)
        requires
            n == d * q + r,
            0 <= r < d,
            c > 0,
            d > 0,
    ;
    lemma_fundamental_div_mod_converse((c * n) as int, (c * d) as int, q, c * r);
    assert((2 * (c * r) < c * d) == (2 * r < d)) by (nonlinear_arith)
        requires
            c > 0,
    ;
    assert((2 * (c * r) == c * d) == (2 * r == d)) by (nonlinear_arith)
        requires
            c > 0,
    ;
}

/// Equal ratios round to the same integer.
pub proof fn lemma_half_even_ratio(n1: nat, d1: nat, n2: nat, d2: nat)
    requires
        d1 > 0,
        d2 > 0,
        n1 * d2 == n2 * d1,
    ensures
        half_even(n1, d1) == half_even(n2, d2),
{
    lemma_half_even_scaled(n1, d1, d2);
    lemma_half_even_scaled(n2, d2, d1);
    lemma_mul_is_commutative(n1 as int, d2 as int);
    lemma_mul_is_commutative(n2 as int, d1 as int);
    lemma_mul_is_commutative(d1 as int, d2 as int);
}

/// `excess` is pinned down by the two inequalities around it.
pub proof fn lemma_excess(p: nat, n: nat, d: nat, k: nat)
    requires
        d > 0,
        n < d * pow2(p + k),
        k > 0 ==> d * pow2((p + k - 1) as nat) <= n,
    ensures
        excess(p, n, d) == k,
    decreases k,
{
    lemma_pow2_pos(p);
    if k == 0 {
    } else {
        lemma_pow2_unfold(p + k);
        let half = pow2((p + k - 1) as nat);
        if k > 1 {
            lemma_pow2_strictly_increases(p, (p + k - 1) as nat);
            lemma_pow2_unfold((p + k - 1) as nat);
        }
        assert(d * pow2(p) <= d * half) by (nonlinear_arith)
            requires
                pow2(p) <= half,
        ;
        assert((2 * d) * half == d * (2 * half)) by (nonlinear_arith);
        assert(k > 1 ==> (2 * d) * pow2((p + k - 2) as nat) == d * (2 * pow2((p + k - 2) as nat)))
            by (nonlinear_arith);
        lemma_excess(p, n, 2 * d, (k - 1) as nat);
    }
}

/// The two inequalities around `excess`.
pub proof fn lemma_excess_bounds(p: nat, n: nat, d: nat)
    requires
        d > 0,
    ensures
        n < d * pow2(p + excess(p, n, d)),
        excess(p, n, d) > 0 ==> d * pow2((p + excess(p, n, d) - 1) as nat) <= n,
    decreases excess(p, n, d),
{
    let k = excess(p, n, d);
    if n < d * pow2(p) {
    } else {
        lemma_excess_bounds(p, n, 2 * d);
        let k1 = excess(p, n, 2 * d);
        assert(k == k1 + 1);
        lemma_pow2_unfold(p + k);
        assert((2 * d) * pow2(p + k1) == d * (2 * pow2(p + k1))) by (nonlinear_arith);
        if k1 > 0 {
            lemma_pow2_unfold(p + k1);
            let low = pow2((p + k1 - 1) as nat);
            assert((2 * d) * low == d * (2 * low)) by (nonlinear_arith);
        }
    }
}

/// Equal ratios round to the same number.
pub proof fn lemma_round_ratio(p: nat, n1: nat, d1: nat, n2: nat, d2: nat)
    requires
        d1 > 0,
        d2 > 0,
        n1 * d2 == n2 * d1,
    ensures
        round(p, n1, d1) == round(p, n2, d2),
{
    let k = excess(p, n1, d1);
    lemma_excess_bounds(p, n1, d1);
    let high = pow2(p + k);
    assert(n2 < d2 * high) by (nonlinear_arith)
        requires
            n1 < d1 * high,
            n1 * d2 == n2 * d1,
            d1 > 0,
            d2 > 0,
    ;
    if k > 0 {
        let low = pow2((p + k - 1) as nat);
        assert(d2 * low <= n2) by (nonlinear_arith)
            requires
                d1 * low <= n1,
                n1 * d2 == n2 * d1,
                d1 > 0,
                d2 > 0,
        ;
    }
    lemma_excess(p, n2, d2, k);
    lemma_pow2_pos(k);
    let unit = pow2(k);
    assert(d1 * unit > 0 && d2 * unit > 0 && n1 * (d2 * unit) == n2 * (d1 * unit))
        by (nonlinear_arith)
        requires
            n1 * d2 == n2 * d1,
            d1 > 0,
            d2 > 0,
            unit > 0,
    ;
    lemma_half_even_ratio(n1, d1 * unit, n2, d2 * unit);
}

/// A number that is less than a quarter of the last place away from a representable one
/// rounds to it.
pub proof fn lemma_round_near(p: nat, m: nat, k: nat, n: nat, above: nat, below: nat)
    requires
        p > 0,
        m < pow2(p),
        k > 0 ==> pow2((p - 1) as nat) <= m,
        n == m * pow2(k) + above - below,
        above == 0 || below == 0,
        4 * above < pow2(k),
        4 * below < pow2(k),
    ensures
        round(p, n, 1) == m * pow2(k),
{
    let unit = pow2(k);
    lemma_pow2_pos(k);
    lemma2_to64();
    lemma_pow2_adds(p, k);
    assert(m * unit + unit <= pow2(p) * unit) by (nonlinear_arith)
        requires
            m + 1 <= pow2(p),
    ;
    if k > 0 {
        lemma_pow2_unfold(k);
        lemma_pow2_adds((p - 1) as nat, k);
        assert(pow2((p - 1) as nat) * unit <= m * unit) by (nonlinear_arith)
            requires
                pow2((p - 1) as nat) <= m,
        ;
    }
    if below == 0 {
        lemma_excess(p, n, 1, k);
        lemma_fundamental_div_mod_converse(n as int, unit as int, m as int, above as int);
    } else if m > pow2((p - 1) as nat) {
        assert(pow2((p - 1) as nat) * unit + unit <= m * unit) by (nonlinear_arith)
            requires
                pow2((p - 1) as nat) + 1 <= m,
        ;
        lemma_excess(p, n, 1, k);
        assert((m - 1) * unit == m * unit - unit) by (nonlinear_arith);
        lemma_fundamental_div_mod_converse(n as int, unit as int, m - 1, unit - below);
    } else {
        let k1 = (k - 1) as nat;
        let half = pow2(k1);
        lemma_pow2_unfold(p);
        assert(m * unit == pow2(p) * half) by (nonlinear_arith)
            requires
                2 * m == pow2(p),
                unit == 2 * half,
        ;
        lemma_pow2_adds(p, k1);
        if k1 > 0 {
            lemma_pow2_unfold((p + k1) as nat);
            lemma_pow2_pos((p + k1 - 1) as nat);
            lemma_pow2_adds((p - 1) as nat, k1);
            lemma_pow2_pos((p - 1) as nat);
            assert(half <= pow2((p - 1) as nat) * half) by (nonlinear_arith)
                requires
                    pow2((p - 1) as nat) >= 1,
            ;
        }
        lemma_excess(p, n, 1, k1);
        assert((pow2(p) - 1) * half == pow2(p) * half - half) by (nonlinear_arith);
        lemma_fundamental_div_mod_converse(n as int, half as int, pow2(p) - 1, half - below);
    }
}

/// A rounded ratio has at most `p` significant bits.
pub proof fn lemma_round_shape(p: nat, n: nat, d: nat) -> (r: (nat, nat))
    requires
        d > 0,
    ensures
        r.0 <= pow2(p),
        round(p, n, d) == r.0 * pow2(r.1),
{
    let k = excess(p, n, d);
    lemma_excess_bounds(p, n, d);
    lemma_pow2_pos(k);
    lemma_pow2_adds(p, k);
    let unit = d * pow2(k);
    lemma_mul_strictly_positive(d as int, pow2(k) as int);
    assert(n < pow2(p) * unit) by (nonlinear_arith)
        requires
            n < d * pow2(p + k),
            pow2(p + k) == pow2(p) * pow2(k),
            unit == d * pow2(k),
    ;
    lemma_half_even_bounds(n, unit, 0, pow2(p));
    (half_even(n, unit), k)
}

/// A place that is not below the last place of the rounded ratio is a multiple of it; a place
/// below it is out of the ratio's reach.
proof fn lemma_representable(p: nat, n: nat, d: nat, m: nat, k: nat) -> (w: nat)
    requires
        p > 0,
        d > 0,
        m <= pow2(p),
    ensures
        excess(p, n, d) <= k ==> m * pow2(k) == w * pow2(excess(p, n, d)),
        k < excess(p, n, d) ==> {
            &&& w == pow2((p - 1) as nat)
            &&& m * pow2(k) <= w * pow2(excess(p, n, d))
            &&& w * (d * pow2(excess(p, n, d))) <= n
        },
        d * pow2(excess(p, n, d)) > 0,
        (w * pow2(excess(p, n, d))) * d == w * (d * pow2(excess(p, n, d))),
{
    let k0 = excess(p, n, d);
    let u = pow2(k0);
    lemma_excess_bounds(p, n, d);
    lemma_pow2_pos(k0);
    lemma_mul_strictly_positive(d as int, u as int);
    if k0 <= k {
        let z = (k - k0) as nat;
        lemma_pow2_adds(z, k0);
        let w = m * pow2(z);
        assert(m * pow2(k) == w * u) by (nonlinear_arith)
            requires
                pow2(k) == pow2(z) * u,
                w == m * pow2(z),
        ;
        assert((w * u) * d == w * (d * u)) by (nonlinear_arith);
        w
    } else {
        let w = pow2((p - 1) as nat);
        let k1 = (k0 - 1) as nat;
        lemma_pow2_adds(p, k1);
        lemma_pow2_adds((p - 1) as nat, k0);
        if k < k1 {
            lemma_pow2_strictly_increases(k, k1);
        }
        assert(m * pow2(k) <= pow2(p) * pow2(k1)) by (nonlinear_arith)
            requires
                m <= pow2(p),
                pow2(k) <= pow2(k1),
        ;
        assert(p + k1 == (p - 1) as nat + k0);
        assert((w * u) * d == w * (d * u)) by (nonlinear_arith);
        assert(d * (w * u) == w * (d * u)) by (nonlinear_arith);
        w
    }
}

/// A ratio that is not above a representable number is not rounded above it.
pub proof fn lemma_round_at_most(p: nat, n: nat, d: nat, m: nat, k: nat)
    requires
        p > 0,
        d > 0,
        m <= pow2(p),
        n <= (m * pow2(k)) * d,
    ensures
        round(p, n, d) <= m * pow2(k),
{
    let k0 = excess(p, n, d);
    let u = pow2(k0);
    let w = lemma_representable(p, n, d, m, k);
    if k < k0 {
        assert((m * pow2(k)) * d <= (w * u) * d) by (nonlinear_arith)
            requires
                m * pow2(k) <= w * u,
        ;
        assert(m * pow2(k) == w * u) by (nonlinear_arith)
            requires
                (m * pow2(k)) * d == (w * u) * d,
                d > 0,
        ;
    }
    let unit = d * u;
    let q = n as int / unit as int;
    let r = n as int % unit as int;
    lemma_fundamental_div_mod(n as int, unit as int);
    lemma_mod_bound(n as int, unit as int);
    assert(q < w || (q == w && r == 0)) by (nonlinear_arith)
        requires
            n == unit * q + r,
            0 <= r < unit,
            n <= w * unit,
            unit > 0,
    ;
    assert(half_even(n, unit) <= w);
    assert(half_even(n, unit) * u <= w * u) by (nonlinear_arith)
        requires
            half_even(n, unit) <= w,
    ;
}

/// A ratio that is not below a representable number is not rounded below it.
pub proof fn lemma_round_at_least(p: nat, n: nat, d: nat, m: nat, k: nat)
    requires
        p > 0,
        d > 0,
        m <= pow2(p),
        (m * pow2(k)) * d <= n,
    ensures
        m * pow2(k) <= round(p, n, d),
{
    let u = pow2(excess(p, n, d));
    let w = lemma_representable(p, n, d, m, k);
    let unit = d * u;
    let q = n as int / unit as int;
    let r = n as int % unit as int;
    lemma_fundamental_div_mod(n as int, unit as int);
    lemma_mod_bound(n as int, unit as int);
    assert(q >= w) by (nonlinear_arith)
        requires
            n == unit * q + r,
            r < unit,
            w * unit <= n,
            unit > 0,
    ;
    assert(w * u <= half_even(n, unit) * u) by (nonlinear_arith)
        requires
            w <= half_even(n, unit),
    ;
}

/// No representable number is nearer to a ratio than the one it is rounded to.
pub proof fn lemma_round_is_nearest(p: nat, n: nat, d: nat, m: nat, k: nat)
    requires
        p > 0,
        d > 0,
        m <= pow2(p),
    ensures
        distance(n, round(p, n, d) * d) <= distance(n, (m * pow2(k)) * d),
{
    let k0 = excess(p, n, d);
    let u = pow2(k0);
    let unit = d * u;
    let w = lemma_representable(p, n, d, m, k);
    let h = half_even(n, unit);
    let q = n as int / unit as int;
    let r = n as int % unit as int;
    lemma_fundamental_div_mod(n as int, unit as int);
    lemma_mod_bound(n as int, unit as int);
    assert((h * u) * d == h * unit) by (nonlinear_arith)
        requires
            unit == d * u,
    ;
    assert((q + 1) * unit == unit * q + unit) by (nonlinear_arith);
    assert(q * unit == unit * q) by (nonlinear_arith);
    let v = m * pow2(k);
    assert(v <= w * u ==> v * d <= w * unit) by (nonlinear_arith)
        requires
            (w * u) * d == w * unit,
    ;
    assert(w <= q ==> w * unit <= q * unit) by (nonlinear_arith);
    assert(w >= q + 1 ==> w * unit >= (q + 1) * unit) by (nonlinear_arith);
    if k < k0 {
        assert(q >= w) by (nonlinear_arith)
            requires
                n == unit * q + r,
                r < unit,
                w * unit <= n,
                unit > 0,
        ;
    }
}

/// The numerator of `a / b` times two to the `s`.
pub open spec fn numerator(a: nat, s: int) -> nat {
    if s >= 0 {
        a * pow2(s as nat)
    } else {
        a
    }
}

/// The denominator of `a / b` times two to the `s`.
pub open spec fn denominator(b: nat, s: int) -> nat {
    if s >= 0 {
        b
    } else {
        b * pow2((-s) as nat)
    }
}

/// Two to the `e`.
pub fn two_to(e: u32) -> (r: u128)
    requires
        e < 128,
    ensures
        r == pow2(e as nat),
{
    let mut r: u128 = 1;
    let mut i: u32 = 0;
    proof {
        lemma2_to64();
    }
    while i < e
        invariant
            i <= e < 128,
            r == pow2(i as nat),
        decreases e - i,
    {
        proof {
            lemma_pow2_unfold((i + 1) as nat);
            lemma_fits_in_128_bits((i + 1) as nat);
        }
        r = r * 2;
        i += 1;
    }
    r
}

pub proof fn lemma_fits_in_128_bits(e: nat)
    requires
        e < 128,
    ensures
        pow2(e) <= 0x8000_0000_0000_0000_0000_0000_0000_0000u128,
{
    lemma2_to64_rest();
    lemma2_to64();
    lemma_pow2_adds(64, 63);
    assert(pow2(127) == 0x8000_0000_0000_0000_0000_0000_0000_0000u128);
    if e < 127 {
        lemma_pow2_strictly_increases(e, 127);
    }
}

/// The number of binary digits of `x`.
pub fn bit_length(x: u128) -> (l: u32)
    requires
        x < pow2(127),
    ensures
        l <= 127,
        x < pow2(l as nat),
        l > 0 ==> pow2((l - 1) as nat) <= x,
{
    let mut l: u32 = 0;
    let mut bound: u128 = 1;
    proof {
        lemma2_to64();
    }
    while bound <= x
        invariant
            l <= 127,
            x < pow2(127),
            bound == pow2(l as nat),
            l > 0 ==> pow2((l - 1) as nat) <= x,
        decreases 127 - l,
    {
        proof {
            if l == 127 {
                assert(false);
            }
            lemma_pow2_unfold((l + 1) as nat);
            lemma_fits_in_128_bits((l + 1) as nat);
        }
        bound = bound * 2;
        l += 1;
    }
    l
}

/// Where the leading bit of `a / b` is known, so is the excess of the scaled ratio.
proof fn lemma_excess_of_ratio(p: nat, a: nat, b: nat, s: int, j: nat, k: nat)
    requires
        p > 0,
        b > 0,
        j > 0,
        a < b * pow2(j),
        b * pow2((j - 1) as nat) <= a,
        k == if j + s > p {
            j + s - p
        } else {
            0
        },
    ensures
        excess(p, numerator(a, s), denominator(b, s)) == k,
        denominator(b, s) > 0,
{
    let n = numerator(a, s);
    let d = denominator(b, s);
    if s >= 0 {
        let z = s as nat;
        lemma_pow2_adds(j, z);
        lemma_pow2_pos(z);
        assert(a * pow2(z) < b * pow2(j + z)) by (nonlinear_arith)
            requires
                a < b * pow2(j),
                pow2(z) > 0,
                pow2(j + z) == pow2(j) * pow2(z),
        ;
        if j + z < p + k {
            lemma_pow2_strictly_increases(j + z, p + k);
        }
        assert(b * pow2(j + z) <= b * pow2(p + k)) by (nonlinear_arith)
            requires
                pow2(j + z) <= pow2(p + k),
        ;
        if k > 0 {
            let low = (j - 1) as nat;
            lemma_pow2_adds(low, z);
            assert((p + k - 1) as nat == low + z);
            assert(b * pow2(low + z) <= a * pow2(z)) by (nonlinear_arith)
                requires
                    b * pow2(low) <= a,
                    pow2(low + z) == pow2(low) * pow2(z),
            ;
        }
    } else {
        let z = (-s) as nat;
        lemma_pow2_pos(z);
        lemma_pow2_adds(z, p + k);
        assert(d > 0) by (nonlinear_arith)
            requires
                d == b * pow2(z),
                b > 0,
                pow2(z) > 0,
        ;
        if j < z + (p + k) {
            lemma_pow2_strictly_increases(j, z + (p + k));
        }
        assert(a < d * pow2(p + k)) by (nonlinear_arith)
            requires
                a < b * pow2(j),
                pow2(j) <= pow2(z + (p + k)),
                pow2(z + (p + k)) == pow2(z) * pow2(p + k),
                d == b * pow2(z),
        ;
        if k > 0 {
            let low = (p + k - 1) as nat;
            lemma_pow2_adds(z, low);
            assert(z + low == (j - 1) as nat);
            assert(d * pow2(low) <= a) by (nonlinear_arith)
                requires
                    b * pow2(z + low) <= a,
                    pow2(z + low) == pow2(z) * pow2(low),
                    d == b * pow2(z),
            ;
        }
    }
    lemma_excess(p, n, d, k);
}

/// A ratio below one half rounds to zero.
pub proof fn lemma_half_even_small(n: nat, d: nat)
    requires
        2 * n < d,
    ensures
        half_even(n, d) == 0,
{
    lemma_fundamental_div_mod_converse(n as int, d as int, 0, n as int);
}

/// Bounds on the quotient carry over to its rounding.
proof fn lemma_half_even_bounds(n: nat, d: nat, low: nat, high: nat)
    requires
        d > 0,
        low * d <= n,
        n < high * d,
    ensures
        low <= half_even(n, d) <= high,
{
    let q = n as int / d as int;
    let r = n as int % d as int;
    lemma_fundamental_div_mod(n as int, d as int);
    lemma_mod_bound(n as int, d as int);
    assert(q >= low) by (nonlinear_arith)
        requires
            n == d * q + r,
            r < d,
            low * d <= n,
            d > 0,
    ;
    assert(q < high) by (nonlinear_arith)
        requires
            n == d * q + r,
            0 <= r,
            n < high * d,
            d > 0,
    ;
}

/// Zero rounds to zero.
pub proof fn lemma_round_zero(p: nat, d: nat)
    requires
        d > 0,
    ensures
        round(p, 0, d) == 0,
{
    lemma_pow2_pos(p);
    lemma2_to64();
    assert(0 < d * pow2(p)) by (nonlinear_arith)
        requires
            d > 0,
            pow2(p) > 0,
    ;
    lemma_half_even_small(0, d * pow2(0));
    lemma_mul_basics(pow2(0) as int);
}

/// The lengths of two numbers tell their ratio up to a factor of two.
proof fn lemma_bit_lengths(a: nat, b: nat, la: nat, lb: nat)
    requires
        0 < b <= a < pow2(108),
        a < pow2(la),
        b < pow2(lb),
        la > 0 ==> pow2((la - 1) as nat) <= a,
        lb > 0 ==> pow2((lb - 1) as nat) <= b,
    ensures
        0 < lb <= la <= 108,
        b * pow2((la - lb) as nat) < pow2(la),
        a < b * pow2((la - lb + 1) as nat),
        la > lb ==> b * pow2((la - lb - 1) as nat) <= a,
{
    lemma2_to64();
    if la > 108 {
        if la > 109 {
            lemma_pow2_strictly_increases(108, (la - 1) as nat);
        }
    }
    if lb > la {
        if lb > la + 1 {
            lemma_pow2_strictly_increases(la, (lb - 1) as nat);
        }
    }
    let x = (la - lb) as nat;
    lemma_pow2_adds(lb, x);
    lemma_pow2_pos(x);
    assert(b * pow2(x) < pow2(la)) by (nonlinear_arith)
        requires
            b < pow2(lb),
            pow2(x) > 0,
            pow2(la) == pow2(lb) * pow2(x),
    ;
    lemma_pow2_adds((lb - 1) as nat, x + 1);
    assert(pow2(la) <= b * pow2(x + 1)) by (nonlinear_arith)
        requires
            pow2((lb - 1) as nat) <= b,
            pow2(la) == pow2((lb - 1) as nat) * pow2(x + 1),
    ;
    if x > 0 {
        let y = (x - 1) as nat;
        lemma_pow2_adds(lb, y);
        assert(b * pow2(y) <= pow2(lb + y)) by (nonlinear_arith)
            requires
                b < pow2(lb),
                pow2(lb + y) == pow2(lb) * pow2(y),
        ;
    }
}

/// Taking `k` powers of two out of the scale is dividing by them.
proof fn lemma_shifted_ratio(a: nat, b: nat, s: int, k: nat)
    requires
        b > 0,
    ensures
        denominator(b, s) * pow2(k) > 0,
        denominator(b, s - k) > 0,
        numerator(a, s) * denominator(b, s - k) == numerator(a, s - k) * (denominator(b, s) * pow2(
            k,
        )),
{
    let t = s - k;
    lemma_pow2_pos(k);
    if t >= 0 {
        let z = t as nat;
        lemma_pow2_adds(z, k);
        assert((a * pow2(z + k)) * b == (a * pow2(z)) * (b * pow2(k))) by (nonlinear_arith)
            requires
                pow2(z + k) == pow2(z) * pow2(k),
        ;
        assert(b * pow2(k) > 0) by (nonlinear_arith)
            requires
                b > 0,
                pow2(k) > 0,
        ;
    } else if s >= 0 {
        let z = (-t) as nat;
        let y = s as nat;
        lemma_pow2_pos(z);
        lemma_pow2_adds(y, z);
        assert(y + z == k);
        assert((a * pow2(y)) * (b * pow2(z)) == a * (b * pow2(k))) by (nonlinear_arith)
            requires
                pow2(k) == pow2(y) * pow2(z),
        ;
        assert(b * pow2(k) > 0 && b * pow2(z) > 0) by (nonlinear_arith)
            requires
                b > 0,
                pow2(k) > 0,
                pow2(z) > 0,
        ;
    } else {
        let z = (-t) as nat;
        let y = (-s) as nat;
        lemma_pow2_pos(z);
        lemma_pow2_pos(y);
        lemma_pow2_adds(y, k);
        assert(y + k == z);
        assert(a * (b * pow2(z)) == a * ((b * pow2(y)) * pow2(k))) by (nonlinear_arith)
            requires
                pow2(z) == pow2(y) * pow2(k),
        ;
        assert(b * pow2(z) > 0 && (b * pow2(y)) * pow2(k) > 0) by (nonlinear_arith)
            requires
                b > 0,
                pow2(k) > 0,
                pow2(z) > 0,
                pow2(y) > 0,
        ;
    }
}

/// Compares twice the remainder with the divisor.
pub fn half_even_division(n: u128, d: u128) -> (q: u128)
    requires
        0 < d < pow2(120),
        n < pow2(120),
    ensures
        q == half_even(n as nat, d as nat),
{
    proof {
        lemma_pow2_unfold(121);
        lemma_fits_in_128_bits(121);
    }
    let q: u128 = n / d;
    let r: u128 = n % d;
    assert(q <= n) by (nonlinear_arith)
        requires
            q == n / d,
            d > 0,
    ;
    if 2 * r < d || (2 * r == d && q % 2 == 0) {
        q
    } else {
        q + 1
    }
}

/// The scaled ratio is below two to the `p`, and its leading bit is known where it is in reach.
proof fn lemma_scaled_bounds(p: nat, a: nat, b: nat, t: int, j: nat)
    requires
        p > 0,
        b > 0,
        j > 0,
        a < b * pow2(j),
        b * pow2((j - 1) as nat) <= a,
        j + t <= p,
    ensures
        denominator(b, t) > 0,
        numerator(a, t) < pow2(p) * denominator(b, t),
        j + t == p ==> pow2((p - 1) as nat) * denominator(b, t) <= numerator(a, t),
        half_even(numerator(a, t), denominator(b, t)) <= pow2(p),
        j + t == p ==> pow2((p - 1) as nat) <= half_even(numerator(a, t), denominator(b, t)),
{
    let n = numerator(a, t);
    let d = denominator(b, t);
    if t >= 0 {
        let z = t as nat;
        lemma_pow2_pos(z);
        lemma_pow2_adds(j, z);
        if j + z < p {
            lemma_pow2_strictly_increases(j + z, p);
        }
        assert(n < pow2(p) * d) by (nonlinear_arith)
            requires
                n == a * pow2(z),
                d == b,
                a < b * pow2(j),
                pow2(z) > 0,
                pow2(j) * pow2(z) <= pow2(p),
        ;
        lemma_pow2_adds((j - 1) as nat, z);
        if j + t == p {
            assert(pow2((p - 1) as nat) * d <= n) by (nonlinear_arith)
                requires
                    n == a * pow2(z),
                    d == b,
                    b * pow2((j - 1) as nat) <= a,
                    pow2((p - 1) as nat) == pow2((j - 1) as nat) * pow2(z),
            ;
        }
    } else {
        let z = (-t) as nat;
        lemma_pow2_pos(z);
        lemma_pow2_adds(p, z);
        if j < p + z {
            lemma_pow2_strictly_increases(j, p + z);
        }
        assert(d > 0 && n < pow2(p) * d) by (nonlinear_arith)
            requires
                n == a,
                d == b * pow2(z),
                b > 0,
                pow2(z) > 0,
                a < b * pow2(j),
                pow2(j) <= pow2(p) * pow2(z),
        ;
        lemma_pow2_adds((p - 1) as nat, z);
        if j + t == p {
            assert(pow2((p - 1) as nat) * d <= n) by (nonlinear_arith)
                requires
                    n == a,
                    d == b * pow2(z),
                    b * pow2((j - 1) as nat) <= a,
                    pow2((j - 1) as nat) == pow2((p - 1) as nat) * pow2(z),
            ;
        }
    }
    if j + t == p {
        lemma_half_even_bounds(n, d, pow2((p - 1) as nat), pow2(p));
    } else {
        lemma_half_even_bounds(n, d, 0, pow2(p));
    }
}

/// `a / b` times two to the `t`, rounded to an integer, where `j` bounds the ratio.
fn round_shifted(p: u32, a: u128, b: u128, t: i32, j: u32) -> (m: u64)
    requires
        2 <= p <= 53,
        0 < b < pow2(64),
        a < pow2(108),
        0 < j <= 109,
        a < b * pow2(j as nat),
        b * pow2((j - 1) as nat) <= a,
        j + t <= p,
        -8200 <= t <= 4000,
    ensures
        m == half_even(numerator(a as nat, t as int), denominator(b as nat, t as int)),
        m <= pow2(p as nat),
        j + t == p ==> pow2((p - 1) as nat) <= m,
{
    let ghost n = numerator(a as nat, t as int);
    let ghost d = denominator(b as nat, t as int);
    proof {
        lemma2_to64();
        lemma2_to64_rest();
        lemma_pow2_pos(p as nat);
        if p < 53 {
            lemma_pow2_strictly_increases(p as nat, 53);
        }
        lemma_pow2_unfold(j as nat);
        lemma_pow2_strictly_increases(109, 120);
        lemma_pow2_strictly_increases(108, 109);
        lemma_fits_in_128_bits(120);
        lemma_pow2_unfold(109);
        lemma_scaled_bounds(p as nat, a as nat, b as nat, t as int, j as nat);
    }
    if t >= 0 {
        proof {
            lemma_pow2_adds(64, 53);
            lemma_pow2_strictly_increases(117, 120);
            assert(n < pow2(117)) by (nonlinear_arith)
                requires
                    n < pow2(p as nat) * d,
                    pow2(p as nat) <= pow2(53),
                    d < pow2(64),
                    pow2(117) == pow2(64) * pow2(53),
            ;
        }
        let scaled: u128 = a * two_to(t as u32);
        half_even_division(scaled, b) as u64
    } else if j as i32 + t < 0 {
        proof {
            let z = (-t) as nat;
            if j + 1 < z {
                lemma_pow2_strictly_increases((j + 1) as nat, z);
            }
            lemma_pow2_unfold((j + 1) as nat);
            assert(2 * a < b * pow2(z)) by (nonlinear_arith)
                requires
                    a < b * pow2(j as nat),
                    2 * pow2(j as nat) <= pow2(z),
                    b > 0,
            ;
            lemma_half_even_small(n, d);
        }
        0
    } else {
        proof {
            let z = (-t) as nat;
            if z < j {
                lemma_pow2_strictly_increases(z, j as nat);
            }
            assert(b * pow2(z) <= 2 * a) by (nonlinear_arith)
                requires
                    b * pow2((j - 1) as nat) <= a,
                    pow2(z) <= 2 * pow2((j - 1) as nat),
                    b > 0,
            ;
        }
        let divisor: u128 = b * two_to((-t) as u32);
        half_even_division(a, divisor) as u64
    }
}

/// `a / b` times two to the `s`, rounded to `p` significant bits but no finer than to an
/// integer: the significand and the number of bits that it is shifted by.
#[verifier::rlimit(40)]
pub fn round_ratio(p: u32, a: u128, b: u128, s: i32) -> (r: (u64, u32))
    requires
        2 <= p <= 53,
        0 < b < pow2(64),
        a == 0 || b <= a,
        a < pow2(108),
        -4000 <= s <= 4000,
    ensures
        r.0 * pow2(r.1 as nat) == round(
            p as nat,
            numerator(a as nat, s as int),
            denominator(b as nat, s as int),
        ),
        r.0 < pow2(p as nat),
        r.1 > 0 ==> pow2((p - 1) as nat) <= r.0,
        r.1 <= 4110,
{
    let ghost n = numerator(a as nat, s as int);
    let ghost d = denominator(b as nat, s as int);
    if a == 0 {
        proof {
            lemma_pow2_pos(p as nat);
            if s >= 0 {
                lemma_pow2_pos(s as nat);
            } else {
                lemma_pow2_pos((-s) as nat);
            }
            assert(d > 0) by (nonlinear_arith)
                requires
                    d == b || d == b * pow2((-s) as nat),
                    b > 0,
                    pow2((-s) as nat) > 0 || d == b,
            ;
            lemma_mul_basics(pow2(s as nat) as int);
            lemma_mul_basics(pow2(0) as int);
            lemma_round_zero(p as nat, d);
        }
        return (0, 0);
    }
    proof {
        lemma_pow2_strictly_increases(108, 127);
        lemma_pow2_strictly_increases(64, 127);
    }
    let la: u32 = bit_length(a);
    let lb: u32 = bit_length(b);
    proof {
        lemma_bit_lengths(a as nat, b as nat, la as nat, lb as nat);
        lemma_fits_in_128_bits(la as nat);
    }
    let aligned: u128 = b * two_to(la - lb);
    let j: u32 = if a < aligned {
        la - lb
    } else {
        la - lb + 1
    };
    proof {
        lemma2_to64();
        lemma_mul_basics(b as int);
    }
    let k: u32 = if j as i32 + s > p as i32 {
        (j as i32 + s - p as i32) as u32
    } else {
        0
    };
    let t: i32 = s - k as i32;
    proof {
        lemma_excess_of_ratio(p as nat, a as nat, b as nat, s as int, j as nat, k as nat);
    }
    let m: u64 = round_shifted(p, a, b, t, j);
    proof {
        lemma_shifted_ratio(a as nat, b as nat, s as int, k as nat);
        lemma_half_even_ratio(
            n,
            d * pow2(k as nat),
            numerator(a as nat, t as int),
            denominator(b as nat, t as int),
        );
    }
    proof {
        lemma2_to64_rest();
        if p < 53 {
            lemma_pow2_strictly_increases(p as nat, 53);
        }
    }
    let full: u64 = two_to(p) as u64;
    if m == full {
        proof {
            lemma_pow2_unfold(p as nat);
            lemma_pow2_unfold((k + 1) as nat);
            assert((2 * pow2((p - 1) as nat)) * pow2(k as nat) == pow2((p - 1) as nat) * (2 * pow2(
                k as nat,
            ))) by (nonlinear_arith);
        }
        (full / 2, k + 1)
    } else {
        (m, k)
    }
}

} // verus!
