//! Averages against exact sums.

use vstd::arithmetic::mul::*;
use vstd::arithmetic::power2::*;
use vstd::prelude::*;

use crate::log::{drain_rates, mean, mean_drain_rate, total, LogEntry};
use crate::monitor::average_usage;
use crate::number::closeness::{lemma_rounding_error, lemma_rounding_is_monotonic};
use crate::number::laws::{
    lemma_integer_is_exact, lemma_rounding_is_idempotent, lemma_rounding_of_representable,
};
use crate::number::rounding::{lemma_round_at_most, lemma_round_ratio, lemma_round_zero};
use crate::number::value::{distance, round, Real, Width};
use crate::number::Single;

verus! {

/// A number from zero to two to the 100.
pub open spec fn is_amount(x: Real) -> bool {
    x matches Real::Finite { negative, steps } && (negative ==> steps == 0) && steps <= pow2(249)
}

/// The magnitude of a finite number, in steps.
pub open spec fn magnitude(x: Real) -> nat {
    match x {
        Real::Finite { steps, .. } => steps,
        _ => 0,
    }
}

/// The exact sum of magnitudes, in steps.
pub open spec fn exact_sum(values: Seq<Real>) -> nat
    decreases values.len(),
{
    if values.len() == 0 {
        0
    } else {
        exact_sum(values.drop_last()) + magnitude(values.last())
    }
}

/// The exact sum of the drain rates of all entries, in steps.
pub open spec fn exact_rate_sum(data: Seq<LogEntry>) -> nat
    decreases data.len(),
{
    if data.len() == 0 {
        0
    } else {
        exact_rate_sum(data.drop_last()) + magnitude(data.last().drain_rate@)
    }
}

/// The exact sum of the usages of all cores, in steps.
pub open spec fn exact_usage_sum(cores: Seq<Single>) -> nat
    decreases cores.len(),
{
    if cores.len() == 0 {
        0
    } else {
        exact_usage_sum(cores.drop_last()) + magnitude(cores.last()@)
    }
}

/// `average` times `count` is `sum`, up to the rounding of each addition and of the division.
pub open spec fn is_average(average: Real, count: nat, sum: nat) -> bool {
    &&& average matches Real::Finite { negative, steps } && (negative ==> steps == 0)
    &&& pow2(24) * distance(count * magnitude(average), sum) <= count * (magnitude(average) + pow2(
        23,
    ) + 2 * (count * magnitude(average)) + count)
}

proof fn lemma_total(values: Seq<Real>)
    requires
        values.len() < pow2(24),
        forall|i: int| 0 <= i < values.len() ==> is_amount(#[trigger] values[i]),
    ensures
        total(values) matches Real::Finite { negative, steps } && (negative ==> steps == 0),
        magnitude(total(values)) <= values.len() * pow2(249),
        pow2(24) * distance(magnitude(total(values)), exact_sum(values)) <= values.len()
            * magnitude(total(values)),
        round(24, magnitude(total(values)), 1) == magnitude(total(values)),
    decreases values.len(),
{
    lemma_pow2_pos(24);
    lemma_pow2_pos(249);
    if values.len() == 0 {
        lemma_mul_basics(pow2(24) as int);
        lemma_mul_basics(pow2(249) as int);
        lemma_round_zero(24, 1);
    } else {
        let shorter = values.drop_last();
        assert forall|i: int| 0 <= i < shorter.len() implies is_amount(#[trigger] shorter[i]) by {
            assert(shorter[i] == values[i]);
        }
        lemma_total(shorter);
        assert(is_amount(values[values.len() - 1]));
        let n = values.len();
        let t = magnitude(total(shorter));
        let v = magnitude(values.last());
        let s = exact_sum(shorter);
        let r = round(24, t + v, 1);
        assert(t + v <= n * pow2(249)) by (nonlinear_arith)
            requires
                t <= (n - 1) * pow2(249),
                v <= pow2(249),
                n >= 1,
        ;
        lemma_mul_basics((n * pow2(249)) as int);
        lemma_round_at_most(24, t + v, 1, n, 249);
        lemma_rounding_error(24, t + v, 1);
        lemma_mul_basics(r as int);
        lemma_mul_basics((t + v) as int);
        lemma_mul_basics(t as int);
        lemma_rounding_is_monotonic(24, t, 1, t + v, 1);
        lemma_rounding_is_idempotent(Width::Single, t + v, 1);
        lemma_pow2_adds(24, 249);
        assert(n * pow2(249) < pow2(273)) by (nonlinear_arith)
            requires
                n < pow2(24),
                pow2(273) == pow2(24) * pow2(249),
                pow2(249) > 0,
        ;
        lemma_pow2_strictly_increases(273, Width::Single.range());
        lemma_round_zero(24, 1);
        assert(magnitude(total(values)) == r);
        let p = pow2(24);
        let e1 = distance(r, t + v);
        let e2 = distance(t, s);
        let e = distance(r, s + v);
        assert(e <= e1 + e2);
        assert(p * e <= n * r) by (nonlinear_arith)
            requires
                e <= e1 + e2,
                p * e1 <= r,
                p * e2 <= (n - 1) * t,
                t <= r,
                n >= 1,
        ;
    }
}

/// The mean of amounts is the exact mean up to rounding.
proof fn lemma_mean(values: Seq<Real>)
    requires
        0 < values.len() < pow2(24),
        forall|i: int| 0 <= i < values.len() ==> is_amount(#[trigger] values[i]),
    ensures
        is_average(mean(values), values.len(), exact_sum(values)),
{
    let n = values.len();
    let one = Width::Single.one();
    let t = magnitude(total(values));
    let s = exact_sum(values);
    let d = n * one;
    let a = round(24, t * one, d);
    lemma_total(values);
    lemma_integer_is_exact(Width::Single, n);
    lemma_pow2_pos(149);
    lemma_pow2_pos(24);
    lemma_pow2_unfold(24);
    lemma_mul_strictly_positive(n as int, one as int);
    lemma_rounding_error(24, t * one, d);
    assert(t * one <= (1 * pow2(249)) * d) by (nonlinear_arith)
        requires
            t <= n * pow2(249),
            d == n * one,
    ;
    lemma_round_at_most(24, t * one, d, 1, 249);
    lemma_pow2_strictly_increases(249, Width::Single.range());
    if t == 0 {
        lemma_mul_basics(one as int);
        lemma_round_zero(24, d);
    }
    assert(mean(values) matches Real::Finite { steps, .. } && steps == a);
    let e1 = distance(n * a, t);
    assert(distance(a * d, t * one) == e1 * one) by (nonlinear_arith)
        requires
            d == n * one,
            e1 == distance(n * a, t),
            one > 0,
    ;
    let p = pow2(24);
    let h = pow2(23);
    assert(p * e1 <= n * (a + h)) by (nonlinear_arith)
        requires
            p * (e1 * one) <= d * a || 2 * (e1 * one) <= d,
            d == n * one,
            one > 0,
            p == 2 * h,
            h >= 0,
            a >= 0,
            e1 >= 0,
    ;
    let na = n * a;
    assert(t <= 2 * na + n) by (nonlinear_arith)
        requires
            p * e1 <= n * (a + h),
            na == n * a,
            t <= na + e1,
            p == 2 * h,
            h >= 1,
            n >= 0,
            a >= 0,
    ;
    let e2 = distance(t, s);
    let e = distance(na, s);
    assert(p * e <= n * (a + h + 2 * na + n)) by (nonlinear_arith)
        requires
            e <= e1 + e2,
            p * e1 <= n * (a + h),
            p * e2 <= n * t,
            t <= 2 * na + n,
            n >= 0,
    ;
}

proof fn lemma_sums_agree(data: Seq<LogEntry>)
    ensures
        exact_sum(drain_rates(data)) == exact_rate_sum(data),
    decreases data.len(),
{
    if data.len() > 0 {
        lemma_sums_agree(data.drop_last());
        assert(drain_rates(data).drop_last() =~= drain_rates(data.drop_last()));
    }
}

/// The average drain rate times the number of all entries is the sum of their rates, up to
/// rounding.
pub proof fn lemma_average_times_count_is_the_sum(data: Seq<LogEntry>)
    requires
        0 < data.len() < pow2(24),
        forall|i: int| 0 <= i < data.len() ==> is_amount((#[trigger] data[i]).drain_rate@),
    ensures
        is_average(mean_drain_rate(data), data.len(), exact_rate_sum(data)),
{
    let rates = drain_rates(data);
    lemma_sums_agree(data);
    if data.len() == 1 {
        let a = magnitude(data[0].drain_rate@);
        assert(is_amount(data[0].drain_rate@));
        assert(data.drop_last() =~= Seq::empty());
        assert(exact_rate_sum(data.drop_last()) == 0);
        assert(exact_rate_sum(data) == a);
        lemma_mul_basics(a as int);
        lemma_mul_basics(pow2(24) as int);
    } else {
        assert forall|i: int| 0 <= i < rates.len() implies is_amount(#[trigger] rates[i]) by {
            assert(rates[i] == data[i].drain_rate@);
        }
        lemma_mean(rates);
    }
}

/// The average usage times the number of all cores is the sum of their usages, up to rounding.
pub proof fn lemma_usage_times_cores_is_the_sum(cores: Seq<Single>)
    requires
        0 < cores.len() < pow2(24),
        forall|i: int| 0 <= i < cores.len() ==> is_amount((#[trigger] cores[i])@),
    ensures
        is_average(average_usage(cores), cores.len(), exact_usage_sum(cores)),
{
    let usages = cores.map_values(|x: Single| x@);
    lemma_usage_sums_agree(cores);
    assert forall|i: int| 0 <= i < usages.len() implies is_amount(#[trigger] usages[i]) by {
        assert(usages[i] == cores[i]@);
    }
    lemma_mean(usages);
}

proof fn lemma_usage_sums_agree(cores: Seq<Single>)
    ensures
        exact_sum(cores.map_values(|x: Single| x@)) == exact_usage_sum(cores),
    decreases cores.len(),
{
    if cores.len() > 0 {
        lemma_usage_sums_agree(cores.drop_last());
        assert(cores.map_values(|x: Single| x@).drop_last() =~= cores.drop_last().map_values(
            |x: Single| x@,
        ));
    }
}

/// The sum of whole numbers.
pub open spec fn whole_sum(numbers: Seq<nat>) -> nat
    decreases numbers.len(),
{
    if numbers.len() == 0 {
        0
    } else {
        whole_sum(numbers.drop_last()) + numbers.last()
    }
}

/// The drain rates of the entries are these whole numbers.
pub open spec fn has_rates(data: Seq<LogEntry>, rates: Seq<nat>) -> bool {
    &&& data.len() == rates.len()
    &&& forall|i: int|
        0 <= i < data.len() ==> (#[trigger] data[i]).drain_rate@ == Real::integer(
            Width::Single,
            rates[i],
        )
}

proof fn lemma_whole_total(values: Seq<Real>, numbers: Seq<nat>)
    requires
        values.len() == numbers.len(),
        forall|i: int|
            0 <= i < values.len() ==> #[trigger] values[i] == Real::integer(
                Width::Single,
                numbers[i],
            ),
        whole_sum(numbers) < pow2(24),
    ensures
        values.len() > 0 ==> total(values) == Real::integer(Width::Single, whole_sum(numbers)),
    decreases values.len(),
{
    if values.len() > 0 {
        let one = Width::Single.one();
        let shorter = values.drop_last();
        let fewer = numbers.drop_last();
        let s = whole_sum(fewer);
        let v = numbers.last();
        assert forall|i: int| 0 <= i < shorter.len() implies #[trigger] shorter[i]
            == Real::integer(Width::Single, fewer[i]) by {
            assert(shorter[i] == values[i]);
        }
        lemma_whole_total(shorter, fewer);
        lemma_integer_is_exact(Width::Single, s);
        lemma_integer_is_exact(Width::Single, v);
        lemma_integer_is_exact(Width::Single, s + v);
        assert(values.last() == values[values.len() - 1]);
        assert((s + v) * one == s * one + v * one) by (nonlinear_arith);
        lemma_mul_basics(((s + v) * one) as int);
        lemma_rounding_of_representable(24, (s + v) * one, 1, s + v, 149);
        lemma_pow2_pos(149);
        lemma_mul_basics(one as int);
        if shorter.len() == 0 {
            assert(s == 0);
        }
        assert(s * one + v * one == 0 ==> s + v == 0) by (nonlinear_arith)
            requires
                one > 0,
                s >= 0,
                v >= 0,
        ;
    }
}

/// Where all rates are whole numbers, the average is the quotient of their sum and the number of
/// entries, rounded once.
pub proof fn lemma_average_of_whole_rates(data: Seq<LogEntry>, rates: Seq<nat>)
    requires
        0 < data.len() < pow2(24),
        has_rates(data, rates),
        whole_sum(rates) < pow2(24),
    ensures
        mean_drain_rate(data) == Real::ratio(Width::Single, whole_sum(rates), data.len()),
{
    let n = data.len();
    let one = Width::Single.one();
    let s = whole_sum(rates);
    let values = drain_rates(data);
    assert forall|i: int| 0 <= i < values.len() implies #[trigger] values[i] == Real::integer(
        Width::Single,
        rates[i],
    ) by {
        assert(values[i] == data[i].drain_rate@);
    }
    if n == 1 {
        assert(data[0].drain_rate@ == Real::integer(Width::Single, rates[0]));
        assert(whole_sum(rates.drop_last()) == 0);
    } else {
        lemma_whole_total(values, rates);
        lemma_integer_is_exact(Width::Single, s);
        lemma_integer_is_exact(Width::Single, n);
        lemma_pow2_pos(149);
        lemma_mul_strictly_positive(n as int, one as int);
        assert(((s * one) * one) * n == (s * one) * (n * one)) by (nonlinear_arith);
        lemma_round_ratio(24, (s * one) * one, n * one, s * one, n);
    }
}

proof fn lemma_whole_sum_of_update(numbers: Seq<nat>, i: int, v: nat)
    requires
        0 <= i < numbers.len(),
    ensures
        whole_sum(numbers.update(i, v)) == whole_sum(numbers) - numbers[i] + v,
    decreases numbers.len(),
{
    let updated = numbers.update(i, v);
    if i < numbers.len() - 1 {
        lemma_whole_sum_of_update(numbers.drop_last(), i, v);
        assert(updated.drop_last() =~= numbers.drop_last().update(i, v));
    } else {
        assert(updated.drop_last() =~= numbers.drop_last());
    }
}

/// Quotients of different small numbers by the same count stay different.
proof fn lemma_quotients_differ(s1: nat, s2: nat, n: nat)
    requires
        s1 < s2 <= pow2(22),
        0 < n < pow2(24),
    ensures
        Real::ratio(Width::Single, s1, n).lt(Real::ratio(Width::Single, s2, n)),
{
    let one = Width::Single.one();
    let p = pow2(24);
    let r1 = round(24, s1 * one, n);
    let r2 = round(24, s2 * one, n);
    lemma2_to64();
    lemma_pow2_strictly_increases(47, 149);
    lemma_pow2_adds(22, 149);
    lemma_pow2_strictly_increases(171, Width::Single.range());
    lemma2_to64_rest();
    assert(pow2(23) * n <= one) by (nonlinear_arith)
        requires
            n < 0x100_0000,
            pow2(23) == 0x80_0000,
            one >= 0x8000_0000_0000,
    ;
    assert(one <= s2 * one && s2 * one <= pow2(22) * one && (s1 > 0 ==> one <= s1 * one))
        by (nonlinear_arith)
        requires
            1 <= s2 <= pow2(22),
            one > 0,
    ;
    assert(s2 * one <= (1 * pow2(171)) * n) by (nonlinear_arith)
        requires
            s2 * one <= pow2(171),
            n >= 1,
    ;
    lemma_round_at_most(24, s2 * one, n, 1, 171);
    assert((s1 * one) * n <= (s2 * one) * n) by (nonlinear_arith)
        requires
            s1 < s2,
            one > 0,
    ;
    lemma_rounding_is_monotonic(24, s1 * one, n, s2 * one, n);
    lemma_rounding_error(24, s2 * one, n);
    let e2 = distance(r2 * n, s2 * one);
    assert(p * e2 <= n * r2);
    if s1 == 0 {
        lemma_mul_basics(one as int);
        lemma_round_zero(24, n);
        if r2 == 0 {
            lemma_mul_basics(n as int);
            assert(false) by (nonlinear_arith)
                requires
                    p * e2 <= 0,
                    p > 0,
                    e2 > 0,
            ;
        }
    } else {
        lemma_rounding_error(24, s1 * one, n);
        let e1 = distance(r1 * n, s1 * one);
        if r1 == r2 {
            let x = r1 * n;
            lemma_mul_is_commutative(r1 as int, n as int);
            assert(p * (s2 * one) <= (p + 1) * x && (p - 1) * x <= p * (s1 * one))
                by (nonlinear_arith)
                requires
                    p * e1 <= x,
                    p * e2 <= x,
                    s2 * one <= x + e2,
                    x <= s1 * one + e1,
                    p > 1,
            ;
            assert((p - 1) * (p * (s2 * one)) <= (p + 1) * (p * (s1 * one))) by (nonlinear_arith)
                requires
                    p * (s2 * one) <= (p + 1) * x,
                    (p - 1) * x <= p * (s1 * one),
                    p > 1,
            ;
            assert((p - 1) * s2 <= (p + 1) * s1) by (nonlinear_arith)
                requires
                    (p - 1) * (p * (s2 * one)) <= (p + 1) * (p * (s1 * one)),
                    p > 1,
                    one > 0,
            ;
            assert(false);
        }
    }
}

/// Raising the rate of any single entry raises the average.
pub proof fn lemma_raising_a_rate_raises_the_average(
    data: Seq<LogEntry>,
    raised: Seq<LogEntry>,
    rates: Seq<nat>,
    i: int,
    rate: nat,
)
    requires
        data.len() < pow2(24),
        0 <= i < data.len(),
        has_rates(data, rates),
        rates[i] < rate,
        has_rates(raised, rates.update(i, rate)),
        whole_sum(rates.update(i, rate)) <= pow2(22),
    ensures
        mean_drain_rate(data).lt(mean_drain_rate(raised)),
{
    lemma_whole_sum_of_update(rates, i, rate);
    lemma_pow2_strictly_increases(22, 24);
    lemma_average_of_whole_rates(data, rates);
    lemma_average_of_whole_rates(raised, rates.update(i, rate));
    lemma_quotients_differ(whole_sum(rates), whole_sum(rates.update(i, rate)), data.len());
}

proof fn lemma_totals_are_monotonic(low: Seq<Real>, high: Seq<Real>)
    requires
        low.len() == high.len() < pow2(24),
        forall|i: int|
            0 <= i < low.len() ==> is_amount(#[trigger] low[i]) && is_amount(high[i]) && magnitude(
                low[i],
            ) <= magnitude(high[i]),
    ensures
        magnitude(total(low)) <= magnitude(total(high)),
    decreases low.len(),
{
    if low.len() > 0 {
        let low1 = low.drop_last();
        let high1 = high.drop_last();
        assert forall|i: int| 0 <= i < low1.len() implies is_amount(#[trigger] low1[i])
            && is_amount(high1[i]) && magnitude(low1[i]) <= magnitude(high1[i]) by {
            assert(low1[i] == low[i]);
        }
        assert forall|i: int| 0 <= i < high.len() implies is_amount(#[trigger] high[i]) by {
            assert(is_amount(low[i]));
        }
        assert forall|i: int| 0 <= i < high1.len() implies is_amount(#[trigger] high1[i]) by {
            assert(is_amount(low1[i]));
        }
        lemma_totals_are_monotonic(low1, high1);
        lemma_total(low1);
        lemma_total(high1);
        lemma_total(low);
        lemma_total(high);
        assert(is_amount(low[low.len() - 1]));
        let a = magnitude(total(low1)) + magnitude(low.last());
        let b = magnitude(total(high1)) + magnitude(high.last());
        lemma_mul_basics(a as int);
        lemma_mul_basics(b as int);
        lemma_rounding_is_monotonic(24, a, 1, b, 1);
        lemma_round_zero(24, 1);
        assert(magnitude(total(low)) == round(24, a, 1));
        assert(magnitude(total(high)) == round(24, b, 1));
    }
}

/// Where no rate is lower, neither is the average.
pub proof fn lemma_average_is_monotonic(low: Seq<LogEntry>, high: Seq<LogEntry>)
    requires
        low.len() == high.len() < pow2(24),
        forall|i: int|
            0 <= i < low.len() ==> is_amount((#[trigger] low[i]).drain_rate@) && is_amount(
                high[i].drain_rate@,
            ) && low[i].drain_rate@.le(high[i].drain_rate@),
    ensures
        mean_drain_rate(low).le(mean_drain_rate(high)),
{
    let n = low.len();
    if n == 1 {
        assert(is_amount(low[0].drain_rate@));
    }
    if n > 1 {
        let one = Width::Single.one();
        let a = drain_rates(low);
        let b = drain_rates(high);
        assert forall|i: int| 0 <= i < n implies is_amount(#[trigger] a[i]) && is_amount(b[i])
            && magnitude(a[i]) <= magnitude(b[i]) by {
            assert(a[i] == low[i].drain_rate@ && b[i] == high[i].drain_rate@);
        }
        assert forall|i: int| 0 <= i < n implies is_amount(#[trigger] b[i]) by {
            assert(is_amount(a[i]));
        }
        lemma_totals_are_monotonic(a, b);
        lemma_total(a);
        lemma_total(b);
        lemma_mean(a);
        lemma_mean(b);
        lemma_integer_is_exact(Width::Single, n);
        lemma_pow2_pos(149);
        lemma_mul_strictly_positive(n as int, one as int);
        let s = magnitude(total(a));
        let t = magnitude(total(b));
        assert((s * one) * (n * one) <= (t * one) * (n * one)) by (nonlinear_arith)
            requires
                s <= t,
        ;
        lemma_rounding_is_monotonic(24, s * one, n * one, t * one, n * one);
    }
}

} // verus!
