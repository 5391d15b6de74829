//! The record of a drain session: its entries, their average, and the closing summary.

use vstd::prelude::*;

use crate::number::laws::lemma_quotient_at_most;
use crate::number::value::{fixed, Real, Width};
use crate::number::{Double, Single};
use crate::text::{
    decimal, decimal_text, lemma_occurs_between, lemma_occurs_in_longer, occurs, occurs_at,
        pad_with_zeros, padded,
};

verus! {

/// A single record for logging
pub struct LogEntry {
    /// Seconds since the start of the session.
    pub timestamp: Double,
    pub percentage: Single,
    /// In % per minute.
    pub drain_rate: Single,
    /// 0-100%
    pub cpu_usage: Single,
    /// 0-100%
    pub memory_usage: Single,
    /// Celsius
    pub cpu_temp: Single,
    /// Celsius
    pub battery_temp: Single,
    /// HH:MM:SS format
    pub clock_time: String,
}

/// The sum of single-precision numbers, added from left to right. The sum of none is the
/// neutral element of addition, negative zero.
pub open spec fn total(values: Seq<Real>) -> Real
    decreases values.len(),
{
    if values.len() == 0 {
        Real::minus_zero()
    } else {
        total(values.drop_last()).plus(Width::Single, values.last())
    }
}

/// The sum divided by the count.
pub open spec fn mean(values: Seq<Real>) -> Real {
    total(values).over(Width::Single, Real::integer(Width::Single, values.len()))
}

/// The greatest of zero and the values that are numbers.
pub open spec fn peak(values: Seq<Real>) -> Real
    decreases values.len(),
{
    if values.len() == 0 {
        Real::zero()
    } else {
        peak(values.drop_last()).larger(values.last())
    }
}

pub open spec fn drain_rates(data: Seq<LogEntry>) -> Seq<Real> {
    data.map_values(|e: LogEntry| e.drain_rate@)
}

pub open spec fn cpu_usages(data: Seq<LogEntry>) -> Seq<Real> {
    data.map_values(|e: LogEntry| e.cpu_usage@)
}

pub open spec fn cpu_temps(data: Seq<LogEntry>) -> Seq<Real> {
    data.map_values(|e: LogEntry| e.cpu_temp@)
}

pub open spec fn battery_temps(data: Seq<LogEntry>) -> Seq<Real> {
    data.map_values(|e: LogEntry| e.battery_temp@)
}

/// The mean drain rate of a session; the only rate of a session with one entry, and 0
/// without entries.
pub open spec fn mean_drain_rate(data: Seq<LogEntry>) -> Real {
    if data.len() > 1 {
        mean(drain_rates(data))
    } else if data.len() == 1 {
        data[0].drain_rate@
    } else {
        Real::zero()
    }
}

/// Whole hours, minutes and seconds; what is negative or not a number counts as none.
pub open spec fn hms(secs: Real) -> Seq<char> {
    let whole = secs.clamped_int(Width::Double);
    decimal(whole / 3600) + "h "@ + padded(decimal(whole % 3600 / 60), '0', 2) + "m "@ + padded(
        decimal(whole % 60),
        '0',
        2,
    ) + "s"@
}

/// Rates up to one hundredth of a percent per minute count as no drain.
pub open spec fn is_drain(rate: Real) -> bool {
    Real::ratio(Width::Single, 1, 100).lt(rate)
}

/// The time in which `percentage` drains at `rate` percent per minute.
pub open spec fn time_remaining(percentage: Real, rate: Real) -> Seq<char> {
    if is_drain(rate) {
        hms(
            percentage.over(Width::Single, rate).widened().times(
                Width::Double,
                Real::integer(Width::Double, 60),
            ),
        )
    } else {
        "Calculating..."@
    }
}

/// A temperature with `places` decimal places; what is not above zero was not measured.
pub open spec fn temperature_or_none(temperature: Real, places: nat) -> Seq<char> {
    if Real::zero().lt(temperature) {
        fixed(Width::Single, temperature, places) + "°C"@
    } else {
        "N/A"@
    }
}

/// Adds single-precision numbers from left to right.
pub fn sum_of(values: &[Single]) -> (r: Single)
    ensures
        r@ == total(values@.map_values(|x: Single| x@)),
{
    let ghost all = values@.map_values(|x: Single| x@);
    let mut r = Single::minus_zero();
    let mut i: usize = 0;
    while i < values.len()
        invariant
            all == values@.map_values(|x: Single| x@),
            i <= values@.len(),
            r@ == total(all.take(i as int)),
        decreases values@.len() - i,
    {
        proof {
            assert(all.take(i + 1).drop_last() == all.take(i as int));
        }
        r = r.plus(values[i]);
        i += 1;
    }
    assert(all.take(i as int) == all);
    r
}

/// Format a number of seconds as `1h 02m 05s`.
pub fn format_hms(total_secs: Double) -> (text: String)
    ensures
        text@ == hms(total_secs@),
{
    let secs: u64 = total_secs.larger(Double::zero()).clamped_integer();
    proof {
        lemma_clamping_drops_negatives(total_secs@);
    }
    let h: u64 = secs / 3600;
    let m: u64 = (secs % 3600) / 60;
    let s: u64 = secs % 60;
    let mut text = decimal_text(h as u128);
    text.append("h ");
    text.append(pad_with_zeros(decimal_text(m as u128), 2).as_str());
    text.append("m ");
    text.append(pad_with_zeros(decimal_text(s as u128), 2).as_str());
    text.append("s");
    text
}

proof fn lemma_clamping_drops_negatives(x: Real)
    ensures
        x.larger(Real::zero()).clamped_int(Width::Double) == x.clamped_int(Width::Double),
{
    vstd::arithmetic::power2::lemma_pow2_pos(Width::Double.scale());
    vstd::arithmetic::div_mod::lemma_div_basics(Width::Double.one() as int);
}

/// Mean drain rate over the whole session (matches the live dashboard average).
pub fn average_drain_rate(data: &[LogEntry]) -> (r: Single)
    ensures
        r@ == mean_drain_rate(data@),
{
    if data.len() > 1 {
        let mut rates: Vec<Single> = Vec::new();
        let mut i: usize = 0;
        while i < data.len()
            invariant
                i <= data@.len(),
                rates@.len() == i,
                forall|j: int| 0 <= j < i ==> #[trigger] rates@[j] == data@[j].drain_rate,
            decreases data@.len() - i,
        {
            rates.push(data[i].drain_rate);
            i += 1;
        }
        assert(rates@.map_values(|x: Single| x@) == drain_rates(data@));
        sum_of(rates.as_slice()).over(Single::from_integer(data.len() as u64))
    } else if data.len() == 1 {
        data[0].drain_rate
    } else {
        Single::zero()
    }
}

/// Estimate the time to fully drain from the current percentage and average rate.
pub fn estimate_time_remaining(percentage: Single, avg_drain_rate: Single) -> (text: String)
    ensures
        text@ == time_remaining(percentage@, avg_drain_rate@),
{
    if Single::from_ratio(1, 100).lt(avg_drain_rate) {
        let minutes_remaining = percentage.over(avg_drain_rate);
        format_hms(minutes_remaining.widened().times(Double::from_integer(60)))
    } else {
        String::from_str("Calculating...")
    }
}

/// A temperature with `places` decimal places, or `N/A` where none was measured.
pub fn format_temperature_or_none(temperature: Single, places: u32) -> (text: String)
    requires
        places <= 9,
    ensures
        text@ == temperature_or_none(temperature@, places as nat),
{
    if Single::zero().lt(temperature) {
        let mut text = temperature.fixed(places);
        text.append("°C");
        text
    } else {
        String::from_str("N/A")
    }
}

/// A rolled-up summary of a drain session, printed when a run ends.
pub struct DrainSummary {
    pub samples: usize,
    pub duration_secs: Double,
    pub start_pct: Single,
    pub end_pct: Single,
    pub drained_pct: Single,
    pub avg_drain_rate: Single,
    pub peak_cpu_usage: Single,
    pub peak_cpu_temp: Single,
    pub peak_battery_temp: Single,
}

/// The values of a summary.
pub struct SummaryValues {
    pub samples: nat,
    pub duration_secs: Real,
    pub start_pct: Real,
    pub end_pct: Real,
    pub drained_pct: Real,
    pub avg_drain_rate: Real,
    pub peak_cpu_usage: Real,
    pub peak_cpu_temp: Real,
    pub peak_battery_temp: Real,
}

/// The summary of a session with at least one entry.
pub open spec fn summary_of(data: Seq<LogEntry>) -> SummaryValues {
    SummaryValues {
        samples: data.len(),
        duration_secs: data.last().timestamp@.minus(Width::Double, data[0].timestamp@),
        start_pct: data[0].percentage@,
        end_pct: data.last().percentage@,
        drained_pct: data[0].percentage@.minus(Width::Single, data.last().percentage@),
        avg_drain_rate: mean_drain_rate(data),
        peak_cpu_usage: peak(cpu_usages(data)),
        peak_cpu_temp: peak(cpu_temps(data)),
        peak_battery_temp: peak(battery_temps(data)),
    }
}

impl SummaryValues {
    /// The summary as it is printed.
    pub open spec fn rendered(self) -> Seq<char> {
        "==================== Session Summary ====================\n"@ + "Duration:        "@ + hms(
            self.duration_secs,
        ) + " ("@ + decimal(self.samples) + " samples)\n"@ + "Battery:         "@ + fixed(
            Width::Single,
            self.start_pct,
            1,
        ) + "% -> "@ + fixed(Width::Single, self.end_pct, 1) + "%  (drained "@ + fixed(
            Width::Single,
            self.drained_pct,
            1,
        ) + "%)\n"@ + "Avg drain rate:  "@ + fixed(Width::Single, self.avg_drain_rate, 2)
            + " %/min\n"@ + "Est. full drain: "@ + time_remaining(self.end_pct, self.avg_drain_rate)
            + "\n"@ + "Peak CPU usage:  "@ + fixed(Width::Single, self.peak_cpu_usage, 0) + "%\n"@
            + "Peak CPU temp:   "@ + fixed(Width::Single, self.peak_cpu_temp, 0) + "°C\n"@
            + "Peak batt temp:  "@ + temperature_or_none(self.peak_battery_temp, 0) + "\n"@
            + "========================================================="@
    }
}

impl View for DrainSummary {
    type V = SummaryValues;

    open spec fn view(&self) -> SummaryValues {
        SummaryValues {
            samples: self.samples as nat,
            duration_secs: self.duration_secs@,
            start_pct: self.start_pct@,
            end_pct: self.end_pct@,
            drained_pct: self.drained_pct@,
            avg_drain_rate: self.avg_drain_rate@,
            peak_cpu_usage: self.peak_cpu_usage@,
            peak_cpu_temp: self.peak_cpu_temp@,
            peak_battery_temp: self.peak_battery_temp@,
        }
    }
}

impl DrainSummary {
    pub fn render(&self) -> (text: String)
        ensures
            text@ == self@.rendered(),
    {
        let mut text = String::from_str(
            "==================== Session Summary ====================\n",
        );
        text.append("Duration:        ");
        text.append(format_hms(self.duration_secs).as_str());
        text.append(" (");
        text.append(decimal_text(self.samples as u128).as_str());
        text.append(" samples)\n");
        text.append("Battery:         ");
        text.append(self.start_pct.fixed(1).as_str());
        text.append("% -> ");
        text.append(self.end_pct.fixed(1).as_str());
        text.append("%  (drained ");
        text.append(self.drained_pct.fixed(1).as_str());
        text.append("%)\n");
        text.append("Avg drain rate:  ");
        text.append(self.avg_drain_rate.fixed(2).as_str());
        text.append(" %/min\n");
        text.append("Est. full drain: ");
        text.append(estimate_time_remaining(self.end_pct, self.avg_drain_rate).as_str());
        text.append("\n");
        text.append("Peak CPU usage:  ");
        text.append(self.peak_cpu_usage.fixed(0).as_str());
        text.append("%\n");
        text.append("Peak CPU temp:   ");
        text.append(self.peak_cpu_temp.fixed(0).as_str());
        text.append("°C\n");
        text.append("Peak batt temp:  ");
        text.append(format_temperature_or_none(self.peak_battery_temp, 0).as_str());
        text.append("\n");
        text.append("=========================================================");
        text
    }
}

/// Summarize a session's log entries. Returns `None` if nothing was recorded.
pub fn summarize(data: &[LogEntry]) -> (summary: Option<DrainSummary>)
    ensures
        summary is None <==> data@.len() == 0,
        summary matches Some(s) ==> s@ == summary_of(data@),
{
    if data.len() == 0 {
        return None;
    }
    let first = &data[0];
    let last = &data[data.len() - 1];
    let mut peak_cpu_usage = Single::zero();
    let mut peak_cpu_temp = Single::zero();
    let mut peak_battery_temp = Single::zero();
    let mut i: usize = 0;
    while i < data.len()
        invariant
            i <= data@.len(),
            peak_cpu_usage@ == peak(cpu_usages(data@).take(i as int)),
            peak_cpu_temp@ == peak(cpu_temps(data@).take(i as int)),
            peak_battery_temp@ == peak(battery_temps(data@).take(i as int)),
        decreases data@.len() - i,
    {
        proof {
            assert(cpu_usages(data@).take(i + 1).drop_last() == cpu_usages(data@).take(i as int));
            assert(cpu_temps(data@).take(i + 1).drop_last() == cpu_temps(data@).take(i as int));
            assert(battery_temps(data@).take(i + 1).drop_last() == battery_temps(data@).take(
                i as int,
            ));
        }
        peak_cpu_usage = peak_cpu_usage.larger(data[i].cpu_usage);
        peak_cpu_temp = peak_cpu_temp.larger(data[i].cpu_temp);
        peak_battery_temp = peak_battery_temp.larger(data[i].battery_temp);
        i += 1;
    }
    proof {
        assert(cpu_usages(data@).take(i as int) == cpu_usages(data@));
        assert(cpu_temps(data@).take(i as int) == cpu_temps(data@));
        assert(battery_temps(data@).take(i as int) == battery_temps(data@));
    }
    Some(
        DrainSummary {
            samples: data.len(),
            duration_secs: last.timestamp.minus(first.timestamp),
            start_pct: first.percentage,
            end_pct: last.percentage,
            drained_pct: first.percentage.minus(last.percentage),
            avg_drain_rate: average_drain_rate(data),
            peak_cpu_usage,
            peak_cpu_temp,
            peak_battery_temp,
        },
    )
}

/// The peak is not below zero, nor below any of the values that is a number.
pub proof fn lemma_peak_is_upper_bound(values: Seq<Real>, i: int)
    requires
        0 <= i < values.len(),
    ensures
        peak(values) != Real::Nan,
        Real::zero().le(peak(values)),
        values[i] != Real::Nan ==> values[i].le(peak(values)),
    decreases values.len(),
{
    let shorter = values.drop_last();
    if shorter.len() == 0 {
        assert(peak(shorter) == Real::zero());
    } else {
        let j = if i < shorter.len() {
            i
        } else {
            0
        };
        lemma_peak_is_upper_bound(shorter, j);
        if i < shorter.len() {
            assert(shorter[i] == values[i]);
        }
    }
}

/// The peak is zero or one of the values.
pub proof fn lemma_peak_is_attained(values: Seq<Real>)
    ensures
        peak(values) == Real::zero() || values.contains(peak(values)),
    decreases values.len(),
{
    if values.len() > 0 {
        let shorter = values.drop_last();
        lemma_peak_is_attained(shorter);
        if shorter.contains(peak(shorter)) {
            let i = choose|i: int| 0 <= i < shorter.len() && shorter[i] == peak(shorter);
            assert(values[i] == peak(shorter));
        }
        assert(values.last() == values[values.len() - 1]);
    }
}

/// Adding rates that are not negative gives nothing negative.
proof fn lemma_total_is_not_negative(values: Seq<Real>)
    requires
        forall|i: int| 0 <= i < values.len() ==> !(#[trigger] values[i]).lt(Real::zero()),
    ensures
        !total(values).lt(Real::zero()),
    decreases values.len(),
{
    if values.len() > 0 {
        let shorter = values.drop_last();
        assert forall|i: int| 0 <= i < shorter.len() implies !(#[trigger] shorter[i]).lt(
            Real::zero(),
        ) by {
            assert(shorter[i] == values[i]);
        }
        lemma_total_is_not_negative(shorter);
        assert(values.last() == values[values.len() - 1]);
    }
}

/// Where no rate is negative, the average is not either.
pub proof fn lemma_average_is_not_negative(data: Seq<LogEntry>)
    requires
        forall|i: int| 0 <= i < data.len() ==> !(#[trigger] data[i]).drain_rate@.lt(Real::zero()),
    ensures
        !mean_drain_rate(data).lt(Real::zero()),
{
    let rates = drain_rates(data);
    assert forall|i: int| 0 <= i < rates.len() implies !(#[trigger] rates[i]).lt(Real::zero()) by {
        assert(rates[i] == data[i].drain_rate@);
    }
    lemma_total_is_not_negative(rates);
    let count = Real::integer(Width::Single, rates.len());
    if let Real::Finite { steps, .. } = count {
        if steps > 0 {
            // What is not negative but has a minus sign is zero, and so is its quotient.
            lemma_quotient_at_most(Width::Single, 0, steps, 0);
        }
    }
}

/// Negative durations, and what is not a number, are shown as no time at all.
pub proof fn lemma_negative_durations_clamp_to_zero(secs: Real)
    requires
        secs == Real::Nan || secs.le(Real::zero()),
    ensures
        hms(secs) == "0h 00m 00s"@,
{
    vstd::arithmetic::power2::lemma_pow2_pos(Width::Double.scale());
    vstd::arithmetic::div_mod::lemma_div_basics(Width::Double.one() as int);
    reveal_strlit("h ");
    reveal_strlit("m ");
    reveal_strlit("s");
    reveal_strlit("0h 00m 00s");
    assert(decimal(0) == seq!['0']);
    assert(padded(decimal(0), '0', 2) =~= seq!['0', '0']);
    assert(hms(secs) =~= "0h 00m 00s"@);
}

/// Minutes and seconds are below sixty, and together with the hours they are the whole time.
pub proof fn lemma_hms_accounts_for_every_second(secs: Real)
    ensures
        ({
            let whole = secs.clamped_int(Width::Double);
            &&& whole % 3600 / 60 < 60
            &&& whole % 60 < 60
            &&& whole / 3600 * 3600 + whole % 3600 / 60 * 60 + whole % 60 == whole
        }),
{
}

/// The printed summary mentions the drained amount.
pub proof fn lemma_summary_mentions_drained_amount(s: SummaryValues)
    ensures
        occurs("drained "@ + fixed(Width::Single, s.drained_pct, 1) + "%"@, s.rendered()),
{
    let amount = fixed(Width::Single, s.drained_pct, 1);
    let part = "drained "@ + amount + "%"@;
    reveal_strlit("drained ");
    reveal_strlit("%  (drained ");
    reveal_strlit("%");
    reveal_strlit("%)\n");
    let before = "==================== Session Summary ====================\n"@
        + "Duration:        "@ + hms(s.duration_secs) + " ("@ + decimal(s.samples) + " samples)\n"@
        + "Battery:         "@ + fixed(Width::Single, s.start_pct, 1) + "% -> "@ + fixed(
        Width::Single,
        s.end_pct,
        1,
    );
    let t0 = before + "%  (drained "@ + amount + "%)\n"@;
    let at = before.len() + 4;
    assert(t0.subrange(at as int, (at + part.len()) as int) =~= part);
    assert(occurs_at(part, t0, at as int));
    let t1 = t0 + "Avg drain rate:  "@;
    lemma_occurs_in_longer(part, t0, "Avg drain rate:  "@);
    let t2 = t1 + fixed(Width::Single, s.avg_drain_rate, 2);
    lemma_occurs_in_longer(part, t1, fixed(Width::Single, s.avg_drain_rate, 2));
    let t3 = t2 + " %/min\n"@;
    lemma_occurs_in_longer(part, t2, " %/min\n"@);
    let t4 = t3 + "Est. full drain: "@;
    lemma_occurs_in_longer(part, t3, "Est. full drain: "@);
    let t5 = t4 + time_remaining(s.end_pct, s.avg_drain_rate);
    lemma_occurs_in_longer(part, t4, time_remaining(s.end_pct, s.avg_drain_rate));
    let t6 = t5 + "\n"@;
    lemma_occurs_in_longer(part, t5, "\n"@);
    let t7 = t6 + "Peak CPU usage:  "@;
    lemma_occurs_in_longer(part, t6, "Peak CPU usage:  "@);
    let t8 = t7 + fixed(Width::Single, s.peak_cpu_usage, 0);
    lemma_occurs_in_longer(part, t7, fixed(Width::Single, s.peak_cpu_usage, 0));
    let t9 = t8 + "%\n"@;
    lemma_occurs_in_longer(part, t8, "%\n"@);
    let t10 = t9 + "Peak CPU temp:   "@;
    lemma_occurs_in_longer(part, t9, "Peak CPU temp:   "@);
    let t11 = t10 + fixed(Width::Single, s.peak_cpu_temp, 0);
    lemma_occurs_in_longer(part, t10, fixed(Width::Single, s.peak_cpu_temp, 0));
    let t12 = t11 + "°C\n"@;
    lemma_occurs_in_longer(part, t11, "°C\n"@);
    let t13 = t12 + "Peak batt temp:  "@;
    lemma_occurs_in_longer(part, t12, "Peak batt temp:  "@);
    let t14 = t13 + temperature_or_none(s.peak_battery_temp, 0);
    lemma_occurs_in_longer(part, t13, temperature_or_none(s.peak_battery_temp, 0));
    let t15 = t14 + "\n"@;
    lemma_occurs_in_longer(part, t14, "\n"@);
    lemma_occurs_in_longer(
        part,
        t15,
        "========================================================="@,
    );
}

/// A summary counts all entries and compares the last one with the first. Each peak is zero or
/// the value of some entry, and no entry has a higher value.
pub proof fn lemma_summary_covers_the_session(data: Seq<LogEntry>, i: int)
    requires
        0 <= i < data.len(),
    ensures
        ({
            let s = summary_of(data);
            let first = data[0];
            let last = data[data.len() - 1];
            &&& s.samples == data.len()
            &&& s.start_pct == first.percentage@
            &&& s.end_pct == last.percentage@
            &&& s.drained_pct == first.percentage@.minus(Width::Single, last.percentage@)
            &&& s.duration_secs == last.timestamp@.minus(Width::Double, first.timestamp@)
            &&& s.avg_drain_rate == mean_drain_rate(data)
            &&& data[i].cpu_usage@ != Real::Nan ==> data[i].cpu_usage@.le(s.peak_cpu_usage)
            &&& data[i].cpu_temp@ != Real::Nan ==> data[i].cpu_temp@.le(s.peak_cpu_temp)
            &&& data[i].battery_temp@ != Real::Nan ==> data[i].battery_temp@.le(
                s.peak_battery_temp,
            )
            &&& s.peak_cpu_usage == Real::zero() || exists|j: int|
                0 <= j < data.len() && s.peak_cpu_usage == (#[trigger] data[j]).cpu_usage@
            &&& s.peak_cpu_temp == Real::zero() || exists|j: int|
                0 <= j < data.len() && s.peak_cpu_temp == (#[trigger] data[j]).cpu_temp@
            &&& s.peak_battery_temp == Real::zero() || exists|j: int|
                0 <= j < data.len() && s.peak_battery_temp == (#[trigger] data[j]).battery_temp@
            &&& Real::zero().le(s.peak_cpu_usage)
            &&& Real::zero().le(s.peak_cpu_temp)
            &&& Real::zero().le(s.peak_battery_temp)
        }),
{
    lemma_peak_of_session(data, cpu_usages(data), |e: LogEntry| e.cpu_usage@, i);
    lemma_peak_of_session(data, cpu_temps(data), |e: LogEntry| e.cpu_temp@, i);
    lemma_peak_of_session(data, battery_temps(data), |e: LogEntry| e.battery_temp@, i);
    assert(cpu_usages(data)[i] == data[i].cpu_usage@);
    assert(cpu_temps(data)[i] == data[i].cpu_temp@);
    assert(battery_temps(data)[i] == data[i].battery_temp@);
}

proof fn lemma_peak_of_session(
    data: Seq<LogEntry>,
    values: Seq<Real>,
    value: spec_fn(LogEntry) -> Real,
    i: int,
)
    requires
        0 <= i < data.len(),
        values == data.map_values(value),
    ensures
        Real::zero().le(peak(values)),
        values[i] != Real::Nan ==> values[i].le(peak(values)),
        peak(values) == Real::zero() || exists|j: int|
            0 <= j < data.len() && peak(values) == value(#[trigger] data[j]),
{
    lemma_peak_is_upper_bound(values, i);
    lemma_peak_is_attained(values);
    if values.contains(peak(values)) {
        let j = choose|j: int| 0 <= j < values.len() && values[j] == peak(values);
        assert(peak(values) == value(data[j]));
    }
}

/// A temperature that was measured is shown with its unit, one that is not above zero as missing.
pub proof fn lemma_temperatures(temperature: Real, places: nat)
    ensures
        temperature matches Real::Finite { negative, steps } && !negative && steps > 0
            ==> temperature_or_none(temperature, places) == fixed(
            Width::Single,
            temperature,
            places,
        ) + "°C"@,
        temperature == Real::Nan || temperature.le(Real::zero()) ==> temperature_or_none(
            temperature,
            places,
        ) == "N/A"@,
{
}

proof fn lemma_summary_shows_duration(s: SummaryValues)
    ensures
        occurs("Duration:        "@ + hms(s.duration_secs) + " ("@, s.rendered()),
{
    let part = "Duration:        "@ + hms(s.duration_secs) + " ("@;
    let before = "==================== Session Summary ====================\n"@;
    let t = before + "Duration:        "@ + hms(s.duration_secs) + " ("@;
    assert(t =~= before + part);
    lemma_occurs_between(before, part, Seq::empty());
    let t4 = t + decimal(s.samples);
    lemma_occurs_in_longer(part, t, decimal(s.samples));
    let t5 = t4 + " samples)\n"@;
    lemma_occurs_in_longer(part, t4, " samples)\n"@);
    let t6 = t5 + "Battery:         "@;
    lemma_occurs_in_longer(part, t5, "Battery:         "@);
    let t7 = t6 + fixed(Width::Single, s.start_pct, 1);
    lemma_occurs_in_longer(part, t6, fixed(Width::Single, s.start_pct, 1));
    let t8 = t7 + "% -> "@;
    lemma_occurs_in_longer(part, t7, "% -> "@);
    let t9 = t8 + fixed(Width::Single, s.end_pct, 1);
    lemma_occurs_in_longer(part, t8, fixed(Width::Single, s.end_pct, 1));
    let t10 = t9 + "%  (drained "@;
    lemma_occurs_in_longer(part, t9, "%  (drained "@);
    let t11 = t10 + fixed(Width::Single, s.drained_pct, 1);
    lemma_occurs_in_longer(part, t10, fixed(Width::Single, s.drained_pct, 1));
    let t12 = t11 + "%)\n"@;
    lemma_occurs_in_longer(part, t11, "%)\n"@);
    let t13 = t12 + "Avg drain rate:  "@;
    lemma_occurs_in_longer(part, t12, "Avg drain rate:  "@);
    let t14 = t13 + fixed(Width::Single, s.avg_drain_rate, 2);
    lemma_occurs_in_longer(part, t13, fixed(Width::Single, s.avg_drain_rate, 2));
    let t15 = t14 + " %/min\n"@;
    lemma_occurs_in_longer(part, t14, " %/min\n"@);
    let t16 = t15 + "Est. full drain: "@;
    lemma_occurs_in_longer(part, t15, "Est. full drain: "@);
    let t17 = t16 + time_remaining(s.end_pct, s.avg_drain_rate);
    lemma_occurs_in_longer(part, t16, time_remaining(s.end_pct, s.avg_drain_rate));
    let t18 = t17 + "\n"@;
    lemma_occurs_in_longer(part, t17, "\n"@);
    let t19 = t18 + "Peak CPU usage:  "@;
    lemma_occurs_in_longer(part, t18, "Peak CPU usage:  "@);
    let t20 = t19 + fixed(Width::Single, s.peak_cpu_usage, 0);
    lemma_occurs_in_longer(part, t19, fixed(Width::Single, s.peak_cpu_usage, 0));
    let t21 = t20 + "%\n"@;
    lemma_occurs_in_longer(part, t20, "%\n"@);
    let t22 = t21 + "Peak CPU temp:   "@;
    lemma_occurs_in_longer(part, t21, "Peak CPU temp:   "@);
    let t23 = t22 + fixed(Width::Single, s.peak_cpu_temp, 0);
    lemma_occurs_in_longer(part, t22, fixed(Width::Single, s.peak_cpu_temp, 0));
    let t24 = t23 + "°C\n"@;
    lemma_occurs_in_longer(part, t23, "°C\n"@);
    let t25 = t24 + "Peak batt temp:  "@;
    lemma_occurs_in_longer(part, t24, "Peak batt temp:  "@);
    let t26 = t25 + temperature_or_none(s.peak_battery_temp, 0);
    lemma_occurs_in_longer(part, t25, temperature_or_none(s.peak_battery_temp, 0));
    let t27 = t26 + "\n"@;
    lemma_occurs_in_longer(part, t26, "\n"@);
    let t28 = t27 + "========================================================="@;
    lemma_occurs_in_longer(part, t27, "========================================================="@);
    assert(s.rendered() == t28);
}

proof fn lemma_summary_shows_samples(s: SummaryValues)
    ensures
        occurs(" ("@ + decimal(s.samples) + " samples)\n"@, s.rendered()),
{
    let part = " ("@ + decimal(s.samples) + " samples)\n"@;
    let before = "==================== Session Summary ====================\n"@
        + "Duration:        "@ + hms(s.duration_secs);
    let t = before + " ("@ + decimal(s.samples) + " samples)\n"@;
    assert(t =~= before + part);
    lemma_occurs_between(before, part, Seq::empty());
    let t6 = t + "Battery:         "@;
    lemma_occurs_in_longer(part, t, "Battery:         "@);
    let t7 = t6 + fixed(Width::Single, s.start_pct, 1);
    lemma_occurs_in_longer(part, t6, fixed(Width::Single, s.start_pct, 1));
    let t8 = t7 + "% -> "@;
    lemma_occurs_in_longer(part, t7, "% -> "@);
    let t9 = t8 + fixed(Width::Single, s.end_pct, 1);
    lemma_occurs_in_longer(part, t8, fixed(Width::Single, s.end_pct, 1));
    let t10 = t9 + "%  (drained "@;
    lemma_occurs_in_longer(part, t9, "%  (drained "@);
    let t11 = t10 + fixed(Width::Single, s.drained_pct, 1);
    lemma_occurs_in_longer(part, t10, fixed(Width::Single, s.drained_pct, 1));
    let t12 = t11 + "%)\n"@;
    lemma_occurs_in_longer(part, t11, "%)\n"@);
    let t13 = t12 + "Avg drain rate:  "@;
    lemma_occurs_in_longer(part, t12, "Avg drain rate:  "@);
    let t14 = t13 + fixed(Width::Single, s.avg_drain_rate, 2);
    lemma_occurs_in_longer(part, t13, fixed(Width::Single, s.avg_drain_rate, 2));
    let t15 = t14 + " %/min\n"@;
    lemma_occurs_in_longer(part, t14, " %/min\n"@);
    let t16 = t15 + "Est. full drain: "@;
    lemma_occurs_in_longer(part, t15, "Est. full drain: "@);
    let t17 = t16 + time_remaining(s.end_pct, s.avg_drain_rate);
    lemma_occurs_in_longer(part, t16, time_remaining(s.end_pct, s.avg_drain_rate));
    let t18 = t17 + "\n"@;
    lemma_occurs_in_longer(part, t17, "\n"@);
    let t19 = t18 + "Peak CPU usage:  "@;
    lemma_occurs_in_longer(part, t18, "Peak CPU usage:  "@);
    let t20 = t19 + fixed(Width::Single, s.peak_cpu_usage, 0);
    lemma_occurs_in_longer(part, t19, fixed(Width::Single, s.peak_cpu_usage, 0));
    let t21 = t20 + "%\n"@;
    lemma_occurs_in_longer(part, t20, "%\n"@);
    let t22 = t21 + "Peak CPU temp:   "@;
    lemma_occurs_in_longer(part, t21, "Peak CPU temp:   "@);
    let t23 = t22 + fixed(Width::Single, s.peak_cpu_temp, 0);
    lemma_occurs_in_longer(part, t22, fixed(Width::Single, s.peak_cpu_temp, 0));
    let t24 = t23 + "°C\n"@;
    lemma_occurs_in_longer(part, t23, "°C\n"@);
    let t25 = t24 + "Peak batt temp:  "@;
    lemma_occurs_in_longer(part, t24, "Peak batt temp:  "@);
    let t26 = t25 + temperature_or_none(s.peak_battery_temp, 0);
    lemma_occurs_in_longer(part, t25, temperature_or_none(s.peak_battery_temp, 0));
    let t27 = t26 + "\n"@;
    lemma_occurs_in_longer(part, t26, "\n"@);
    let t28 = t27 + "========================================================="@;
    lemma_occurs_in_longer(part, t27, "========================================================="@);
    assert(s.rendered() == t28);
}

proof fn lemma_summary_shows_start(s: SummaryValues)
    ensures
        occurs("Battery:         "@ + fixed(Width::Single, s.start_pct, 1) + "% -> "@,
            s.rendered()),
{
    let part = "Battery:         "@ + fixed(Width::Single, s.start_pct, 1) + "% -> "@;
    let before = "==================== Session Summary ====================\n"@
        + "Duration:        "@ + hms(s.duration_secs) + " ("@ + decimal(s.samples) + " samples)\n"@;
    let t = before + "Battery:         "@ + fixed(Width::Single, s.start_pct, 1) + "% -> "@;
    assert(t =~= before + part);
    lemma_occurs_between(before, part, Seq::empty());
    let t9 = t + fixed(Width::Single, s.end_pct, 1);
    lemma_occurs_in_longer(part, t, fixed(Width::Single, s.end_pct, 1));
    let t10 = t9 + "%  (drained "@;
    lemma_occurs_in_longer(part, t9, "%  (drained "@);
    let t11 = t10 + fixed(Width::Single, s.drained_pct, 1);
    lemma_occurs_in_longer(part, t10, fixed(Width::Single, s.drained_pct, 1));
    let t12 = t11 + "%)\n"@;
    lemma_occurs_in_longer(part, t11, "%)\n"@);
    let t13 = t12 + "Avg drain rate:  "@;
    lemma_occurs_in_longer(part, t12, "Avg drain rate:  "@);
    let t14 = t13 + fixed(Width::Single, s.avg_drain_rate, 2);
    lemma_occurs_in_longer(part, t13, fixed(Width::Single, s.avg_drain_rate, 2));
    let t15 = t14 + " %/min\n"@;
    lemma_occurs_in_longer(part, t14, " %/min\n"@);
    let t16 = t15 + "Est. full drain: "@;
    lemma_occurs_in_longer(part, t15, "Est. full drain: "@);
    let t17 = t16 + time_remaining(s.end_pct, s.avg_drain_rate);
    lemma_occurs_in_longer(part, t16, time_remaining(s.end_pct, s.avg_drain_rate));
    let t18 = t17 + "\n"@;
    lemma_occurs_in_longer(part, t17, "\n"@);
    let t19 = t18 + "Peak CPU usage:  "@;
    lemma_occurs_in_longer(part, t18, "Peak CPU usage:  "@);
    let t20 = t19 + fixed(Width::Single, s.peak_cpu_usage, 0);
    lemma_occurs_in_longer(part, t19, fixed(Width::Single, s.peak_cpu_usage, 0));
    let t21 = t20 + "%\n"@;
    lemma_occurs_in_longer(part, t20, "%\n"@);
    let t22 = t21 + "Peak CPU temp:   "@;
    lemma_occurs_in_longer(part, t21, "Peak CPU temp:   "@);
    let t23 = t22 + fixed(Width::Single, s.peak_cpu_temp, 0);
    lemma_occurs_in_longer(part, t22, fixed(Width::Single, s.peak_cpu_temp, 0));
    let t24 = t23 + "°C\n"@;
    lemma_occurs_in_longer(part, t23, "°C\n"@);
    let t25 = t24 + "Peak batt temp:  "@;
    lemma_occurs_in_longer(part, t24, "Peak batt temp:  "@);
    let t26 = t25 + temperature_or_none(s.peak_battery_temp, 0);
    lemma_occurs_in_longer(part, t25, temperature_or_none(s.peak_battery_temp, 0));
    let t27 = t26 + "\n"@;
    lemma_occurs_in_longer(part, t26, "\n"@);
    let t28 = t27 + "========================================================="@;
    lemma_occurs_in_longer(part, t27, "========================================================="@);
    assert(s.rendered() == t28);
}

proof fn lemma_summary_shows_end(s: SummaryValues)
    ensures
        occurs("% -> "@ + fixed(Width::Single, s.end_pct, 1) + "%  (drained "@, s.rendered()),
{
    let part = "% -> "@ + fixed(Width::Single, s.end_pct, 1) + "%  (drained "@;
    let before = "==================== Session Summary ====================\n"@
        + "Duration:        "@ + hms(s.duration_secs) + " ("@ + decimal(s.samples)
        + " samples)\n"@ + "Battery:         "@ + fixed(Width::Single, s.start_pct, 1);
    let t = before + "% -> "@ + fixed(Width::Single, s.end_pct, 1) + "%  (drained "@;
    assert(t =~= before + part);
    lemma_occurs_between(before, part, Seq::empty());
    let t11 = t + fixed(Width::Single, s.drained_pct, 1);
    lemma_occurs_in_longer(part, t, fixed(Width::Single, s.drained_pct, 1));
    let t12 = t11 + "%)\n"@;
    lemma_occurs_in_longer(part, t11, "%)\n"@);
    let t13 = t12 + "Avg drain rate:  "@;
    lemma_occurs_in_longer(part, t12, "Avg drain rate:  "@);
    let t14 = t13 + fixed(Width::Single, s.avg_drain_rate, 2);
    lemma_occurs_in_longer(part, t13, fixed(Width::Single, s.avg_drain_rate, 2));
    let t15 = t14 + " %/min\n"@;
    lemma_occurs_in_longer(part, t14, " %/min\n"@);
    let t16 = t15 + "Est. full drain: "@;
    lemma_occurs_in_longer(part, t15, "Est. full drain: "@);
    let t17 = t16 + time_remaining(s.end_pct, s.avg_drain_rate);
    lemma_occurs_in_longer(part, t16, time_remaining(s.end_pct, s.avg_drain_rate));
    let t18 = t17 + "\n"@;
    lemma_occurs_in_longer(part, t17, "\n"@);
    let t19 = t18 + "Peak CPU usage:  "@;
    lemma_occurs_in_longer(part, t18, "Peak CPU usage:  "@);
    let t20 = t19 + fixed(Width::Single, s.peak_cpu_usage, 0);
    lemma_occurs_in_longer(part, t19, fixed(Width::Single, s.peak_cpu_usage, 0));
    let t21 = t20 + "%\n"@;
    lemma_occurs_in_longer(part, t20, "%\n"@);
    let t22 = t21 + "Peak CPU temp:   "@;
    lemma_occurs_in_longer(part, t21, "Peak CPU temp:   "@);
    let t23 = t22 + fixed(Width::Single, s.peak_cpu_temp, 0);
    lemma_occurs_in_longer(part, t22, fixed(Width::Single, s.peak_cpu_temp, 0));
    let t24 = t23 + "°C\n"@;
    lemma_occurs_in_longer(part, t23, "°C\n"@);
    let t25 = t24 + "Peak batt temp:  "@;
    lemma_occurs_in_longer(part, t24, "Peak batt temp:  "@);
    let t26 = t25 + temperature_or_none(s.peak_battery_temp, 0);
    lemma_occurs_in_longer(part, t25, temperature_or_none(s.peak_battery_temp, 0));
    let t27 = t26 + "\n"@;
    lemma_occurs_in_longer(part, t26, "\n"@);
    let t28 = t27 + "========================================================="@;
    lemma_occurs_in_longer(part, t27, "========================================================="@);
    assert(s.rendered() == t28);
}

proof fn lemma_summary_shows_drained(s: SummaryValues)
    ensures
        occurs("%  (drained "@ + fixed(Width::Single, s.drained_pct, 1) + "%)\n"@, s.rendered()),
{
    let part = "%  (drained "@ + fixed(Width::Single, s.drained_pct, 1) + "%)\n"@;
    let before = "==================== Session Summary ====================\n"@
        + "Duration:        "@ + hms(s.duration_secs) + " ("@ + decimal(s.samples)
        + " samples)\n"@ + "Battery:         "@ + fixed(Width::Single, s.start_pct, 1)
        + "% -> "@ + fixed(Width::Single, s.end_pct, 1);
    let t = before + "%  (drained "@ + fixed(Width::Single, s.drained_pct, 1) + "%)\n"@;
    assert(t =~= before + part);
    lemma_occurs_between(before, part, Seq::empty());
    let t13 = t + "Avg drain rate:  "@;
    lemma_occurs_in_longer(part, t, "Avg drain rate:  "@);
    let t14 = t13 + fixed(Width::Single, s.avg_drain_rate, 2);
    lemma_occurs_in_longer(part, t13, fixed(Width::Single, s.avg_drain_rate, 2));
    let t15 = t14 + " %/min\n"@;
    lemma_occurs_in_longer(part, t14, " %/min\n"@);
    let t16 = t15 + "Est. full drain: "@;
    lemma_occurs_in_longer(part, t15, "Est. full drain: "@);
    let t17 = t16 + time_remaining(s.end_pct, s.avg_drain_rate);
    lemma_occurs_in_longer(part, t16, time_remaining(s.end_pct, s.avg_drain_rate));
    let t18 = t17 + "\n"@;
    lemma_occurs_in_longer(part, t17, "\n"@);
    let t19 = t18 + "Peak CPU usage:  "@;
    lemma_occurs_in_longer(part, t18, "Peak CPU usage:  "@);
    let t20 = t19 + fixed(Width::Single, s.peak_cpu_usage, 0);
    lemma_occurs_in_longer(part, t19, fixed(Width::Single, s.peak_cpu_usage, 0));
    let t21 = t20 + "%\n"@;
    lemma_occurs_in_longer(part, t20, "%\n"@);
    let t22 = t21 + "Peak CPU temp:   "@;
    lemma_occurs_in_longer(part, t21, "Peak CPU temp:   "@);
    let t23 = t22 + fixed(Width::Single, s.peak_cpu_temp, 0);
    lemma_occurs_in_longer(part, t22, fixed(Width::Single, s.peak_cpu_temp, 0));
    let t24 = t23 + "°C\n"@;
    lemma_occurs_in_longer(part, t23, "°C\n"@);
    let t25 = t24 + "Peak batt temp:  "@;
    lemma_occurs_in_longer(part, t24, "Peak batt temp:  "@);
    let t26 = t25 + temperature_or_none(s.peak_battery_temp, 0);
    lemma_occurs_in_longer(part, t25, temperature_or_none(s.peak_battery_temp, 0));
    let t27 = t26 + "\n"@;
    lemma_occurs_in_longer(part, t26, "\n"@);
    let t28 = t27 + "========================================================="@;
    lemma_occurs_in_longer(part, t27, "========================================================="@);
    assert(s.rendered() == t28);
}

proof fn lemma_summary_shows_average(s: SummaryValues)
    ensures
        occurs("Avg drain rate:  "@ + fixed(Width::Single, s.avg_drain_rate, 2) + " %/min\n"@,
            s.rendered()),
{
    let part = "Avg drain rate:  "@ + fixed(Width::Single, s.avg_drain_rate, 2) + " %/min\n"@;
    let before = "==================== Session Summary ====================\n"@
        + "Duration:        "@ + hms(s.duration_secs) + " ("@ + decimal(s.samples)
        + " samples)\n"@ + "Battery:         "@ + fixed(Width::Single, s.start_pct, 1)
        + "% -> "@ + fixed(Width::Single, s.end_pct, 1) + "%  (drained "@
        + fixed(Width::Single, s.drained_pct, 1) + "%)\n"@;
    let t = before + "Avg drain rate:  "@ + fixed(Width::Single, s.avg_drain_rate, 2) + " %/min\n"@;
    assert(t =~= before + part);
    lemma_occurs_between(before, part, Seq::empty());
    let t16 = t + "Est. full drain: "@;
    lemma_occurs_in_longer(part, t, "Est. full drain: "@);
    let t17 = t16 + time_remaining(s.end_pct, s.avg_drain_rate);
    lemma_occurs_in_longer(part, t16, time_remaining(s.end_pct, s.avg_drain_rate));
    let t18 = t17 + "\n"@;
    lemma_occurs_in_longer(part, t17, "\n"@);
    let t19 = t18 + "Peak CPU usage:  "@;
    lemma_occurs_in_longer(part, t18, "Peak CPU usage:  "@);
    let t20 = t19 + fixed(Width::Single, s.peak_cpu_usage, 0);
    lemma_occurs_in_longer(part, t19, fixed(Width::Single, s.peak_cpu_usage, 0));
    let t21 = t20 + "%\n"@;
    lemma_occurs_in_longer(part, t20, "%\n"@);
    let t22 = t21 + "Peak CPU temp:   "@;
    lemma_occurs_in_longer(part, t21, "Peak CPU temp:   "@);
    let t23 = t22 + fixed(Width::Single, s.peak_cpu_temp, 0);
    lemma_occurs_in_longer(part, t22, fixed(Width::Single, s.peak_cpu_temp, 0));
    let t24 = t23 + "°C\n"@;
    lemma_occurs_in_longer(part, t23, "°C\n"@);
    let t25 = t24 + "Peak batt temp:  "@;
    lemma_occurs_in_longer(part, t24, "Peak batt temp:  "@);
    let t26 = t25 + temperature_or_none(s.peak_battery_temp, 0);
    lemma_occurs_in_longer(part, t25, temperature_or_none(s.peak_battery_temp, 0));
    let t27 = t26 + "\n"@;
    lemma_occurs_in_longer(part, t26, "\n"@);
    let t28 = t27 + "========================================================="@;
    lemma_occurs_in_longer(part, t27, "========================================================="@);
    assert(s.rendered() == t28);
}

proof fn lemma_summary_shows_estimate(s: SummaryValues)
    ensures
        occurs("Est. full drain: "@ + time_remaining(s.end_pct, s.avg_drain_rate) + "\n"@,
            s.rendered()),
{
    let part = "Est. full drain: "@ + time_remaining(s.end_pct, s.avg_drain_rate) + "\n"@;
    let before = "==================== Session Summary ====================\n"@
        + "Duration:        "@ + hms(s.duration_secs) + " ("@ + decimal(s.samples)
        + " samples)\n"@ + "Battery:         "@ + fixed(Width::Single, s.start_pct, 1)
        + "% -> "@ + fixed(Width::Single, s.end_pct, 1) + "%  (drained "@
        + fixed(Width::Single, s.drained_pct, 1) + "%)\n"@ + "Avg drain rate:  "@
        + fixed(Width::Single, s.avg_drain_rate, 2) + " %/min\n"@;
    let t = before + "Est. full drain: "@ + time_remaining(s.end_pct, s.avg_drain_rate) + "\n"@;
    assert(t =~= before + part);
    lemma_occurs_between(before, part, Seq::empty());
    let t19 = t + "Peak CPU usage:  "@;
    lemma_occurs_in_longer(part, t, "Peak CPU usage:  "@);
    let t20 = t19 + fixed(Width::Single, s.peak_cpu_usage, 0);
    lemma_occurs_in_longer(part, t19, fixed(Width::Single, s.peak_cpu_usage, 0));
    let t21 = t20 + "%\n"@;
    lemma_occurs_in_longer(part, t20, "%\n"@);
    let t22 = t21 + "Peak CPU temp:   "@;
    lemma_occurs_in_longer(part, t21, "Peak CPU temp:   "@);
    let t23 = t22 + fixed(Width::Single, s.peak_cpu_temp, 0);
    lemma_occurs_in_longer(part, t22, fixed(Width::Single, s.peak_cpu_temp, 0));
    let t24 = t23 + "°C\n"@;
    lemma_occurs_in_longer(part, t23, "°C\n"@);
    let t25 = t24 + "Peak batt temp:  "@;
    lemma_occurs_in_longer(part, t24, "Peak batt temp:  "@);
    let t26 = t25 + temperature_or_none(s.peak_battery_temp, 0);
    lemma_occurs_in_longer(part, t25, temperature_or_none(s.peak_battery_temp, 0));
    let t27 = t26 + "\n"@;
    lemma_occurs_in_longer(part, t26, "\n"@);
    let t28 = t27 + "========================================================="@;
    lemma_occurs_in_longer(part, t27, "========================================================="@);
    assert(s.rendered() == t28);
}

proof fn lemma_summary_shows_cpu_usage(s: SummaryValues)
    ensures
        occurs("Peak CPU usage:  "@ + fixed(Width::Single, s.peak_cpu_usage, 0) + "%\n"@,
            s.rendered()),
{
    let part = "Peak CPU usage:  "@ + fixed(Width::Single, s.peak_cpu_usage, 0) + "%\n"@;
    let before = "==================== Session Summary ====================\n"@
        + "Duration:        "@ + hms(s.duration_secs) + " ("@ + decimal(s.samples)
        + " samples)\n"@ + "Battery:         "@ + fixed(Width::Single, s.start_pct, 1)
        + "% -> "@ + fixed(Width::Single, s.end_pct, 1) + "%  (drained "@
        + fixed(Width::Single, s.drained_pct, 1) + "%)\n"@ + "Avg drain rate:  "@
        + fixed(Width::Single, s.avg_drain_rate, 2) + " %/min\n"@
        + "Est. full drain: "@ + time_remaining(s.end_pct, s.avg_drain_rate)
        + "\n"@;
    let t = before + "Peak CPU usage:  "@ + fixed(Width::Single, s.peak_cpu_usage, 0) + "%\n"@;
    assert(t =~= before + part);
    lemma_occurs_between(before, part, Seq::empty());
    let t22 = t + "Peak CPU temp:   "@;
    lemma_occurs_in_longer(part, t, "Peak CPU temp:   "@);
    let t23 = t22 + fixed(Width::Single, s.peak_cpu_temp, 0);
    lemma_occurs_in_longer(part, t22, fixed(Width::Single, s.peak_cpu_temp, 0));
    let t24 = t23 + "°C\n"@;
    lemma_occurs_in_longer(part, t23, "°C\n"@);
    let t25 = t24 + "Peak batt temp:  "@;
    lemma_occurs_in_longer(part, t24, "Peak batt temp:  "@);
    let t26 = t25 + temperature_or_none(s.peak_battery_temp, 0);
    lemma_occurs_in_longer(part, t25, temperature_or_none(s.peak_battery_temp, 0));
    let t27 = t26 + "\n"@;
    lemma_occurs_in_longer(part, t26, "\n"@);
    let t28 = t27 + "========================================================="@;
    lemma_occurs_in_longer(part, t27, "========================================================="@);
    assert(s.rendered() == t28);
}

proof fn lemma_summary_shows_cpu_temp(s: SummaryValues)
    ensures
        occurs("Peak CPU temp:   "@ + fixed(Width::Single, s.peak_cpu_temp, 0) + "°C\n"@,
            s.rendered()),
{
    let part = "Peak CPU temp:   "@ + fixed(Width::Single, s.peak_cpu_temp, 0) + "°C\n"@;
    let before = "==================== Session Summary ====================\n"@
        + "Duration:        "@ + hms(s.duration_secs) + " ("@ + decimal(s.samples)
        + " samples)\n"@ + "Battery:         "@ + fixed(Width::Single, s.start_pct, 1)
        + "% -> "@ + fixed(Width::Single, s.end_pct, 1) + "%  (drained "@
        + fixed(Width::Single, s.drained_pct, 1) + "%)\n"@ + "Avg drain rate:  "@
        + fixed(Width::Single, s.avg_drain_rate, 2) + " %/min\n"@
        + "Est. full drain: "@ + time_remaining(s.end_pct, s.avg_drain_rate)
        + "\n"@ + "Peak CPU usage:  "@ + fixed(Width::Single,
        s.peak_cpu_usage, 0) + "%\n"@;
    let t = before + "Peak CPU temp:   "@ + fixed(Width::Single, s.peak_cpu_temp, 0) + "°C\n"@;
    assert(t =~= before + part);
    lemma_occurs_between(before, part, Seq::empty());
    let t25 = t + "Peak batt temp:  "@;
    lemma_occurs_in_longer(part, t, "Peak batt temp:  "@);
    let t26 = t25 + temperature_or_none(s.peak_battery_temp, 0);
    lemma_occurs_in_longer(part, t25, temperature_or_none(s.peak_battery_temp, 0));
    let t27 = t26 + "\n"@;
    lemma_occurs_in_longer(part, t26, "\n"@);
    let t28 = t27 + "========================================================="@;
    lemma_occurs_in_longer(part, t27, "========================================================="@);
    assert(s.rendered() == t28);
}

proof fn lemma_summary_shows_battery_temp(s: SummaryValues)
    ensures
        occurs("Peak batt temp:  "@ + temperature_or_none(s.peak_battery_temp, 0) + "\n"@,
            s.rendered()),
{
    let part = "Peak batt temp:  "@ + temperature_or_none(s.peak_battery_temp, 0) + "\n"@;
    let before = "==================== Session Summary ====================\n"@
        + "Duration:        "@ + hms(s.duration_secs) + " ("@ + decimal(s.samples)
        + " samples)\n"@ + "Battery:         "@ + fixed(Width::Single, s.start_pct, 1)
        + "% -> "@ + fixed(Width::Single, s.end_pct, 1) + "%  (drained "@
        + fixed(Width::Single, s.drained_pct, 1) + "%)\n"@ + "Avg drain rate:  "@
        + fixed(Width::Single, s.avg_drain_rate, 2) + " %/min\n"@
        + "Est. full drain: "@ + time_remaining(s.end_pct, s.avg_drain_rate)
        + "\n"@ + "Peak CPU usage:  "@ + fixed(Width::Single,
        s.peak_cpu_usage, 0) + "%\n"@ + "Peak CPU temp:   "@
        + fixed(Width::Single, s.peak_cpu_temp, 0) + "°C\n"@;
    let t = before + "Peak batt temp:  "@ + temperature_or_none(s.peak_battery_temp, 0) + "\n"@;
    assert(t =~= before + part);
    lemma_occurs_between(before, part, Seq::empty());
    let t28 = t + "========================================================="@;
    lemma_occurs_in_longer(part, t, "========================================================="@);
    assert(s.rendered() == t28);
}

/// The printed summary shows each of its values under its name.
pub proof fn lemma_summary_shows_its_values(s: SummaryValues)
    ensures
        occurs("Duration:        "@ + hms(s.duration_secs) + " ("@, s.rendered()),
        occurs(" ("@ + decimal(s.samples) + " samples)\n"@, s.rendered()),
        occurs("Battery:         "@ + fixed(Width::Single, s.start_pct, 1) + "% -> "@,
            s.rendered()),
        occurs("% -> "@ + fixed(Width::Single, s.end_pct, 1) + "%  (drained "@, s.rendered()),
        occurs("%  (drained "@ + fixed(Width::Single, s.drained_pct, 1) + "%)\n"@, s.rendered()),
        occurs("Avg drain rate:  "@ + fixed(Width::Single, s.avg_drain_rate, 2) + " %/min\n"@,
            s.rendered()),
        occurs("Est. full drain: "@ + time_remaining(s.end_pct, s.avg_drain_rate) + "\n"@,
            s.rendered()),
        occurs("Peak CPU usage:  "@ + fixed(Width::Single, s.peak_cpu_usage, 0) + "%\n"@,
            s.rendered()),
        occurs("Peak CPU temp:   "@ + fixed(Width::Single, s.peak_cpu_temp, 0) + "°C\n"@,
            s.rendered()),
        occurs("Peak batt temp:  "@ + temperature_or_none(s.peak_battery_temp, 0) + "\n"@,
            s.rendered()),
{
    lemma_summary_shows_duration(s);
    lemma_summary_shows_samples(s);
    lemma_summary_shows_start(s);
    lemma_summary_shows_end(s);
    lemma_summary_shows_drained(s);
    lemma_summary_shows_average(s);
    lemma_summary_shows_estimate(s);
    lemma_summary_shows_cpu_usage(s);
    lemma_summary_shows_cpu_temp(s);
    lemma_summary_shows_battery_temp(s);
}

} // verus!
