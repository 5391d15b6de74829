//! Drain rates against exact quotients.

use vstd::arithmetic::mul::*;
use vstd::arithmetic::power2::*;
use vstd::prelude::*;

use crate::log::{is_drain, LogEntry};
use crate::monitor::{current_drain_rate, is_charge, reference};
use crate::number::closeness::{
    close, lemma_close_multiples, lemma_close_parts, lemma_close_to_positive,
    lemma_rounding_is_close,
};
use crate::number::laws::{lemma_rounding_of_representable, lemma_small_integer};
use crate::number::rounding::{
    lemma_excess, lemma_half_even_ratio, lemma_round_at_least, lemma_round_at_most,
};
use crate::number::value::{half_even, round, Real, Width};

use super::quotient::{lemma_exact_quotient, scaled_quotient};

verus! {

/// The time since the reference entry is more than half a second, and less than two to the 49
/// seconds.
pub open spec fn is_measurable(elapsed: Real, since: Real) -> bool {
    &&& elapsed is Finite
    &&& since is Finite
    &&& Real::ratio(Width::Double, 1, 2).lt(elapsed.minus(Width::Double, since))
    &&& elapsed.signed() - since.signed() <= pow2(1123)
}

/// Half a second.
proof fn lemma_half()
    ensures
        Real::ratio(Width::Double, 1, 2) == (Real::Finite { negative: false, steps: pow2(1073) }),
        2 * pow2(1073) == Width::Double.one(),
        pow2(1073) > 0,
{
    let one = Width::Double.one();
    lemma_pow2_unfold(1074);
    lemma_pow2_pos(1073);
    lemma_pow2_pos(53);
    lemma_mul_basics(one as int);
    lemma_mul_basics(pow2(1073) as int);
    lemma_rounding_of_representable(53, one, 2, 1, 1073);
    lemma_pow2_strictly_increases(1073, 2098);
}

/// A drop of the charge since the reference entry makes the rate: the rate times the time is
/// the drop times sixty, up to rounding, however small the drop is. In particular it is above
/// zero.
pub proof fn lemma_rate_times_time_is_the_drop(data: Seq<LogEntry>, elapsed: Real, percentage: Real)
    requires
        data.len() > 0,
        is_charge(percentage),
        is_charge(data[reference(data, elapsed)].percentage@),
        is_measurable(elapsed, data[reference(data, elapsed)].timestamp@),
        data[reference(data, elapsed)].percentage@.signed() - percentage.signed() >= pow2(76),
    ensures
        ({
            let entry = data[reference(data, elapsed)];
            let time = (elapsed.signed() - entry.timestamp@.signed()) as nat;
            let drop = (entry.percentage@.signed() - percentage.signed()) as nat;
            &&& current_drain_rate(data, elapsed, percentage) matches Real::Finite {
                negative,
                steps,
            } && !negative && close(steps * time, (60 * drop) * Width::Double.one(), 20)
            &&& Real::zero().lt(current_drain_rate(data, elapsed, percentage))
        }),
{
    let entry = data[reference(data, elapsed)];
    let one = Width::Double.one();
    let e = pow2(925);
    let small = Width::Single.one();
    let t0 = (elapsed.signed() - entry.timestamp@.signed()) as nat;
    let d0 = (entry.percentage@.signed() - percentage.signed()) as nat;
    let t = round(53, t0, 1);
    let d = round(24, d0, 1);
    let x = d * e;
    lemma_half();
    lemma_small_integer(Width::Single, 100);
    lemma_pow2_pos(24);
    lemma_pow2_pos(53);
    lemma_pow2_pos(76);
    lemma_pow2_pos(925);
    lemma_pow2_adds(149, 925);
    // The drop in single precision.
    lemma_mul_basics((100 * small) as int);
    lemma_round_at_most(24, d0, 1, 100, 149);
    lemma_mul_basics(pow2(76) as int);
    lemma_round_at_least(24, d0, 1, 1, 76);
    lemma_rounding_is_close(24, d0, 1);
    lemma_mul_basics(d as int);
    lemma_pow2_pos(Width::Single.range());
    assert(entry.percentage@.minus(Width::Single, percentage) == Real::Finite {
        negative: false,
        steps: d,
    });
    // The time in double precision.
    let diff = elapsed.signed() - entry.timestamp@.signed();
    assert(diff > 0);
    lemma_mul_basics(pow2(1123) as int);
    lemma_round_at_most(53, t0, 1, 1, 1123);
    lemma_pow2_strictly_increases(1123, 2098);
    lemma_rounding_is_close(53, t0, 1);
    lemma_mul_basics(t as int);
    assert(elapsed.minus(Width::Double, entry.timestamp@) == Real::Finite {
        negative: false,
        steps: t,
    });
    assert(t > pow2(1073));
    // Their quotient.
    lemma_pow2_strictly_increases(8, 100);
    lemma2_to64();
    assert(x <= pow2(100) * t) by (nonlinear_arith)
        requires
            x == d * e,
            d <= 100 * small,
            one == small * e,
            one < 2 * t,
            pow2(100) > 256,
    ;
    lemma_pow2_adds(76, 925);
    lemma_pow2_adds(1001, 1074);
    lemma_pow2_adds(950, 1123);
    lemma_pow2_strictly_increases(2073, 2075);
    assert(pow2(950) * t <= x * one) by (nonlinear_arith)
        requires
            x == d * e,
            pow2(76) <= d,
            pow2(1001) == pow2(76) * e,
            pow2(2075) == pow2(1001) * one,
            t <= pow2(1123),
            pow2(2073) == pow2(950) * pow2(1123),
            pow2(2073) < pow2(2075),
            one >= 0,
            e >= 0,
    ;
    lemma_close_multiples(d, d0, e, 23);
    lemma_mul_is_commutative(d as int, e as int);
    lemma_exact_quotient(x, t, 60, e * d0, t0, 23);
    let rate = current_drain_rate(data, elapsed, percentage);
    assert(rate == scaled_quotient(x, t, 60));
    let r = rate->steps;
    assert((r * e) * t0 == e * (r * t0) && (60 * (e * d0)) * one == e * ((60 * d0) * one))
        by (nonlinear_arith);
    lemma_close_parts(r * t0, (60 * d0) * one, e, 20);
    assert((60 * d0) * one > 0) by (nonlinear_arith)
        requires
            d0 > 0,
            one > 0,
    ;
    lemma_close_to_positive(r * t0, (60 * d0) * one, 20);
    if r == 0 {
        lemma_mul_basics(t0 as int);
    }
}

/// Where the charge has dropped since the reference entry, the rate depends on that entry and
/// on the reading alone, not on the rates before.
pub proof fn lemma_rate_depends_on_the_reference_entry_alone(
    data: Seq<LogEntry>,
    other: Seq<LogEntry>,
    elapsed: Real,
    percentage: Real,
)
    requires
        data.len() > 0,
        other.len() > 0,
        data[reference(data, elapsed)].timestamp@ == other[reference(other, elapsed)].timestamp@,
        data[reference(data, elapsed)].percentage@ == other[reference(other, elapsed)].percentage@,
        Real::zero().lt(
            data[reference(data, elapsed)].percentage@.minus(Width::Single, percentage),
        ),
    ensures
        current_drain_rate(data, elapsed, percentage) == current_drain_rate(
            other,
            elapsed,
            percentage,
        ),
{
}

/// There is no rate without entries, nor up to half a second after the reference entry.
pub proof fn lemma_nothing_is_measured_at_once(
    data: Seq<LogEntry>,
    elapsed: Real,
    percentage: Real,
)
    requires
        data.len() == 0 || elapsed.minus(
            Width::Double,
            data[reference(data, elapsed)].timestamp@,
        ).le(Real::Finite { negative: false, steps: pow2(1073) }),
    ensures
        current_drain_rate(data, elapsed, percentage) == Real::zero(),
        2 * pow2(1073) == Width::Double.one(),
{
    lemma_half();
}

/// A rate of single precision counts as drain where it is above one hundredth of a percent per
/// minute, and nowhere else.
pub proof fn lemma_drain_is_above_a_hundredth(m: nat, k: nat)
    requires
        m <= pow2(24),
    ensures
        is_drain(Real::Finite { negative: false, steps: m * pow2(k) }) <==> Width::Single.one()
            < 100 * (m * pow2(k)),
{
    let one = Width::Single.one();
    let r = round(24, one, 100);
    let x = m * pow2(k);
    lemma2_to64();
    lemma2_to64_rest();
    lemma_pow2_adds(7, 142);
    lemma_pow2_adds(6, 143);
    lemma_pow2_adds(30, 119);
    lemma_pow2_pos(119);
    lemma_pow2_pos(142);
    lemma_pow2_unfold(143);
    lemma_excess(24, one, 100, 119);
    assert(one * 100 == 0x4000_0000 * (100 * pow2(119))) by (nonlinear_arith)
        requires
            one == 0x4000_0000 * pow2(119),
    ;
    lemma_half_even_ratio(one, 100 * pow2(119), 0x4000_0000, 100);
    assert(half_even(0x4000_0000, 100) == 10737418);
    assert(r == 10737418 * pow2(119));
    lemma_mul_basics(one as int);
    lemma_pow2_adds(24, 119);
    lemma_pow2_strictly_increases(149, 277);
    assert(r < one);
    if 100 * x <= one {
        lemma_mul_is_commutative(x as int, 100);
        lemma_round_at_least(24, one, 100, m, k);
    }
}

} // verus!
