//! Turning what the machine reports into log entries.

use vstd::arithmetic::mul::*;
use vstd::arithmetic::power2::*;
use vstd::prelude::*;

use crate::clock::LocalTime;
use crate::log::{is_drain, mean, sum_of, summarize, summary_of, LogEntry};
use crate::number::laws::{lemma_quotient_at_most, lemma_small_integer};
use crate::number::rounding::{lemma_round_at_least, lemma_round_at_most};
use crate::number::value::{round, Real, Width};
use crate::number::{Double, Single};
use crate::text::{has_part, lemma_occurrence_is_prefix, lemma_occurs_between, occurs};

verus! {

/// A thermal sensor: its label and its temperature in degrees Celsius.
pub struct Sensor {
    pub label: String,
    pub temperature: Single,
}

/// What a battery reports.
pub struct BatteryReading {
    /// Seconds since the start of the session.
    pub elapsed: Double,
    pub percentage: Single,
    pub temperature: Option<Single>,
}

/// What one refresh of the machine's state reports.
pub struct Reading {
    /// The usage of each logical core in percent.
    pub cores: Vec<Single>,
    pub total_memory: u64,
    pub used_memory: u64,
    pub sensors: Vec<Sensor>,
    pub now: LocalTime,
    /// `None` where no battery answers.
    pub battery: Option<BatteryReading>,
}

/// The average usage of the cores; 0 without cores.
pub open spec fn average_usage(cores: Seq<Single>) -> Real {
    if cores.len() > 0 {
        mean(cores.map_values(|x: Single| x@))
    } else {
        Real::zero()
    }
}

/// The used part of the memory in percent; 0 where there is none.
pub open spec fn memory_share(total: nat, used: nat) -> Real {
    if Real::zero().lt(Real::integer(Width::Double, total)) {
        let share = Real::integer(Width::Double, used).over(
            Width::Double,
            Real::integer(Width::Double, total),
        );
        share.times(Width::Double, Real::integer(Width::Double, 100)).narrowed()
    } else {
        Real::zero()
    }
}

/// A label in lower case that names a sensor of the processor.
pub open spec fn names_cpu(label: Seq<char>) -> bool {
    ||| occurs("core"@, label)
    ||| occurs("cpu"@, label)
    ||| occurs("k10temp"@, label)
    ||| occurs("tctl"@, label)
}

/// The text in lower case, as the standard library converts it.
pub uninterp spec fn lowercase(text: Seq<char>) -> Seq<char>;

/// The temperature of the first sensor of the processor; 0 without one.
pub open spec fn first_cpu_temperature(sensors: Seq<Sensor>) -> Real
    decreases sensors.len(),
{
    if sensors.len() == 0 {
        Real::zero()
    } else if names_cpu(lowercase(sensors[0].label@)) {
        sensors[0].temperature@
    } else {
        first_cpu_temperature(sensors.drop_first())
    }
}

/// The newest entry that is not younger than `limit`.
pub open spec fn newest_until(data: Seq<LogEntry>, limit: Real) -> Option<int>
    decreases data.len(),
{
    if data.len() == 0 {
        None
    } else if data.last().timestamp@.le(limit) {
        Some(data.len() - 1)
    } else {
        newest_until(data.drop_last(), limit)
    }
}

/// The entry to measure against: the newest that is at least 30 seconds old, else the oldest.
pub open spec fn reference(data: Seq<LogEntry>, elapsed: Real) -> int {
    match newest_until(data, elapsed.minus(Width::Double, Real::integer(Width::Double, 30))) {
        Some(i) => i,
        None => 0,
    }
}

/// The newest rate that counts as drain; 0 without one.
pub open spec fn last_known_rate(data: Seq<LogEntry>) -> Real
    decreases data.len(),
{
    if data.len() == 0 {
        Real::zero()
    } else if is_drain(data.last().drain_rate@) {
        data.last().drain_rate@
    } else {
        last_known_rate(data.drop_last())
    }
}

/// The drain in percent per minute since the reference entry. Where the charge has not
/// dropped since then, the last known rate; at most half a second after it, 0.
pub open spec fn current_drain_rate(data: Seq<LogEntry>, elapsed: Real, percentage: Real) -> Real {
    if data.len() == 0 {
        Real::zero()
    } else {
        let entry = data[reference(data, elapsed)];
        let time = elapsed.minus(Width::Double, entry.timestamp@);
        let drop = entry.percentage@.minus(Width::Single, percentage);
        if !Real::ratio(Width::Double, 1, 2).lt(time) {
            Real::zero()
        } else if Real::zero().lt(drop) {
            drop.widened().over(Width::Double, time).times(
                Width::Double,
                Real::integer(Width::Double, 60),
            ).narrowed()
        } else {
            last_known_rate(data)
        }
    }
}

/// Get CPU usage (average of all cores)
pub fn cpu_usage(cores: &[Single]) -> (r: Single)
    ensures
        r@ == average_usage(cores@),
{
    if cores.len() > 0 {
        sum_of(cores).over(Single::from_integer(cores.len() as u64))
    } else {
        Single::zero()
    }
}

/// Get memory usage
pub fn memory_usage(total: u64, used: u64) -> (r: Single)
    ensures
        r@ == memory_share(total as nat, used as nat),
{
    let total_memory = Double::from_integer(total);
    let used_memory = Double::from_integer(used);
    if Double::zero().lt(total_memory) {
        used_memory.over(total_memory).times(Double::from_integer(100)).narrowed()
    } else {
        Single::zero()
    }
}

/// Tells whether a label in lower case names a sensor of the processor (coretemp, k10temp,
/// or similar).
pub fn is_cpu_label(label: &str) -> (r: bool)
    ensures
        r == names_cpu(label@),
{
    has_part(label, "core") || has_part(label, "cpu") || has_part(label, "k10temp") || has_part(
        label,
        "tctl",
    )
}

/// Calls `str::to_lowercase` of the standard library. The contract claims that its result
/// depends on the text alone and names that result; it says nothing about the mapping itself.
#[verifier::external_body]
fn to_lowercase(text: &str) -> (r: String)
    ensures
        r@ == lowercase(text@),
{
    text.to_lowercase()
}

/// The place of the first label in lower case that names a sensor of the processor.
pub fn first_cpu_label(labels: &[String]) -> (r: Option<usize>)
    ensures
        match r {
            Some(i) => {
                &&& i < labels@.len()
                &&& names_cpu(labels@[i as int]@)
                &&& forall|j: int| 0 <= j < i ==> !names_cpu((#[trigger] labels@[j])@)
            },
            None => forall|j: int| 0 <= j < labels@.len() ==> !names_cpu((#[trigger] labels@[j])@),
        },
{
    let mut i: usize = 0;
    while i < labels.len()
        invariant
            i <= labels@.len(),
            forall|j: int| 0 <= j < i ==> !names_cpu((#[trigger] labels@[j])@),
        decreases labels@.len() - i,
    {
        if is_cpu_label(labels[i].as_str()) {
            return Some(i);
        }
        i += 1;
    }
    None
}

/// The first sensor that fits is found by going through them in order.
proof fn lemma_first_cpu_temperature(sensors: Seq<Sensor>, i: int)
    requires
        0 <= i <= sensors.len(),
        forall|j: int| 0 <= j < i ==> !names_cpu(lowercase((#[trigger] sensors[j]).label@)),
        i < sensors.len() ==> names_cpu(lowercase(sensors[i].label@)),
    ensures
        first_cpu_temperature(sensors) == if i < sensors.len() {
            sensors[i].temperature@
        } else {
            Real::zero()
        },
    decreases sensors.len(),
{
    if i > 0 {
        let rest = sensors.drop_first();
        assert(!names_cpu(lowercase(sensors[0].label@)));
        assert forall|j: int| 0 <= j < i - 1 implies !names_cpu(
            lowercase((#[trigger] rest[j]).label@),
        ) by {
            assert(rest[j] == sensors[j + 1]);
        }
        lemma_first_cpu_temperature(rest, i - 1);
    }
}

/// Get CPU temperature (look for coretemp, k10temp, or similar)
pub fn cpu_temperature(sensors: &[Sensor]) -> (r: Single)
    ensures
        r@ == first_cpu_temperature(sensors@),
{
    let mut labels: Vec<String> = Vec::new();
    let mut i: usize = 0;
    while i < sensors.len()
        invariant
            i <= sensors@.len(),
            labels@.len() == i,
            forall|j: int|
                0 <= j < i ==> (#[trigger] labels@[j])@ == lowercase(sensors@[j].label@),
        decreases sensors@.len() - i,
    {
        labels.push(to_lowercase(sensors[i].label.as_str()));
        i += 1;
    }
    match first_cpu_label(labels.as_slice()) {
        Some(k) => {
            proof {
                assert forall|j: int| 0 <= j < k implies !names_cpu(
                    lowercase((#[trigger] sensors@[j]).label@),
                ) by {
                    assert(!names_cpu(labels@[j]@));
                }
                lemma_first_cpu_temperature(sensors@, k as int);
            }
            sensors[k].temperature
        },
        None => {
            proof {
                assert forall|j: int| 0 <= j < sensors@.len() implies !names_cpu(
                    lowercase((#[trigger] sensors@[j]).label@),
                ) by {
                    assert(!names_cpu(labels@[j]@));
                }
                lemma_first_cpu_temperature(sensors@, sensors@.len() as int);
            }
            Single::zero()
        },
    }
}

/// The last known rate, if available.
fn find_last_known_rate(data: &[LogEntry]) -> (r: Single)
    ensures
        r@ == last_known_rate(data@),
{
    let mut n: usize = data.len();
    assert(data@.take(n as int) == data@);
    while n > 0
        invariant
            n <= data@.len(),
            last_known_rate(data@) == last_known_rate(data@.take(n as int)),
        decreases n,
    {
        let rate = data[n - 1].drain_rate;
        if Single::from_ratio(1, 100).lt(rate) {
            return rate;
        }
        assert(data@.take(n as int).drop_last() == data@.take(n - 1));
        n -= 1;
    }
    Single::zero()
}

/// Find a sample from ~30 seconds ago (or oldest available)
fn find_reference(data: &[LogEntry], elapsed: Double) -> (r: usize)
    requires
        data@.len() > 0,
    ensures
        r < data@.len(),
        r == reference(data@, elapsed@),
{
    let target_time = elapsed.minus(Double::from_integer(30));
    let mut n: usize = data.len();
    assert(data@.take(n as int) == data@);
    while n > 0
        invariant
            n <= data@.len(),
            data@.len() > 0,
            newest_until(data@, target_time@) == newest_until(data@.take(n as int), target_time@),
            target_time@ == elapsed@.minus(Width::Double, Real::integer(Width::Double, 30)),
        decreases n,
    {
        if data[n - 1].timestamp.le(target_time) {
            return n - 1;
        }
        assert(data@.take(n as int).drop_last() == data@.take(n - 1));
        n -= 1;
    }
    0
}

/// Calculate drain rate using a 30-second rolling window for stability.
/// Battery percentage typically only updates every 30-60 seconds at OS level.
pub fn drain_rate(data: &[LogEntry], elapsed: Double, percentage: Single) -> (r: Single)
    ensures
        r@ == current_drain_rate(data@, elapsed@, percentage@),
{
    if data.len() == 0 {
        return Single::zero();
    }
    let entry = &data[find_reference(data, elapsed)];
    let time_diff_secs = elapsed.minus(entry.timestamp);
    let percent_diff = entry.percentage.minus(percentage);
    let measurable = Double::from_ratio(1, 2).lt(time_diff_secs);
    if measurable && Single::zero().lt(percent_diff) {
        // Valid drain measurement
        percent_diff.widened().over(time_diff_secs).times(Double::from_integer(60)).narrowed()
    } else if measurable {
        // No drain detected yet, use last known rate if available
        find_last_known_rate(data)
    } else {
        Single::zero()
    }
}

/// App state
pub struct App {
    pub data: Vec<LogEntry>,
    pub log_filename: String,
}

/// The entry that a battery reading adds to the log.
pub open spec fn is_next_entry(
    data: Seq<LogEntry>,
    reading: Reading,
    battery: BatteryReading,
    entry: LogEntry,
) -> bool {
    &&& entry.timestamp == battery.elapsed
    &&& entry.percentage == battery.percentage
    &&& entry.drain_rate@ == current_drain_rate(data, battery.elapsed@, battery.percentage@)
    &&& entry.cpu_usage@ == average_usage(reading.cores@)
    &&& entry.memory_usage@ == memory_share(
        reading.total_memory as nat,
        reading.used_memory as nat,
    )
    &&& entry.cpu_temp@ == first_cpu_temperature(reading.sensors@)
    &&& entry.battery_temp@ == match battery.temperature {
        Some(t) => t@,
        None => Real::zero(),
    }
    &&& entry.clock_time@ == reading.now.clock_text()
}

impl App {
    /// An empty session that is logged to `output`, by default to a file named after the
    /// time of its start.
    pub fn new(output: Option<String>, start: &LocalTime) -> (app: App)
        requires
            start.occurs(),
        ensures
            app.data@.len() == 0,
            app.log_filename@ == match output {
                Some(path) => path@,
                None => "drain_log_"@ + start.stamp_text() + ".csv"@,
            },
    {
        let log_filename = match output {
            Some(path) => path,
            None => {
                let mut name = String::from_str("drain_log_");
                name.append(start.stamp().as_str());
                name.append(".csv");
                name
            },
        };
        App { data: Vec::new(), log_filename }
    }

    /// Adds an entry where a battery answered, and tells whether it did.
    pub fn on_tick(&mut self, reading: Reading) -> (recorded: bool)
        requires
            reading.now.occurs(),
        ensures
            final(self).log_filename == old(self).log_filename,
            recorded <==> reading.battery is Some,
            match reading.battery {
                Some(battery) => {
                    &&& final(self).data@.len() == old(self).data@.len() + 1
                    &&& final(self).data@.drop_last() == old(self).data@
                    &&& is_next_entry(old(self).data@, reading, battery, final(self).data@.last())
                },
                None => final(self).data@ == old(self).data@,
            },
    {
        let cpu_usage = cpu_usage(reading.cores.as_slice());
        let memory_usage = memory_usage(reading.total_memory, reading.used_memory);
        let cpu_temp = cpu_temperature(reading.sensors.as_slice());
        let clock_time = reading.now.clock_time();
        match reading.battery {
            Some(battery) => {
                let battery_temp = match battery.temperature {
                    Some(t) => t,
                    None => Single::zero(),
                };
                let drain_rate = drain_rate(
                    self.data.as_slice(),
                    battery.elapsed,
                    battery.percentage,
                );
                let entry = LogEntry {
                    timestamp: battery.elapsed,
                    percentage: battery.percentage,
                    drain_rate,
                    cpu_usage,
                    memory_usage,
                    cpu_temp,
                    battery_temp,
                    clock_time,
                };
                self.data.push(entry);
                assert(self.data@.drop_last() == old(self).data@);
                true
            },
            None => false,
        }
    }

    /// What is printed when a session ends: its summary and where the log is; nothing where
    /// nothing was recorded.
    pub fn closing_report(&self) -> (text: Option<String>)
        ensures
            text is None <==> self.data@.len() == 0,
            text matches Some(t) ==> t@ == "\n"@ + summary_of(self.data@).rendered()
                + "\nLog saved to "@ + self.log_filename@,
    {
        match summarize(self.data.as_slice()) {
            Some(summary) => {
                let mut text = String::from_str("\n");
                text.append(summary.render().as_str());
                text.append("\nLog saved to ");
                text.append(self.log_filename.as_str());
                Some(text)
            },
            None => None,
        }
    }
}

/// The reference entry is the newest that is at least 30 seconds old; where none is, it is the
/// oldest.
pub proof fn lemma_reference_is_newest_of_window(data: Seq<LogEntry>, elapsed: Real)
    requires
        data.len() > 0,
    ensures
        ({
            let limit = elapsed.minus(Width::Double, Real::integer(Width::Double, 30));
            let r = reference(data, elapsed);
            &&& 0 <= r < data.len()
            &&& forall|i: int| r < i < data.len() ==> !(#[trigger] data[i]).timestamp@.le(limit)
            &&& data[r].timestamp@.le(limit) || r == 0
        }),
{
    lemma_newest_until(data, elapsed.minus(Width::Double, Real::integer(Width::Double, 30)));
}

proof fn lemma_newest_until(data: Seq<LogEntry>, limit: Real)
    ensures
        match newest_until(data, limit) {
            Some(r) => {
                &&& 0 <= r < data.len()
                &&& data[r].timestamp@.le(limit)
                &&& forall|i: int| r < i < data.len() ==> !(#[trigger] data[i]).timestamp@.le(limit)
            },
            None => forall|i: int|
                0 <= i < data.len() ==> !(#[trigger] data[i]).timestamp@.le(limit),
        },
    decreases data.len(),
{
    if data.len() > 0 && !data.last().timestamp@.le(limit) {
        let shorter = data.drop_last();
        lemma_newest_until(shorter, limit);
        assert forall|i: int|
            0 <= i < data.len() && !shorter[i].timestamp@.le(limit) implies !(
        #[trigger] data[i]).timestamp@.le(limit) by {
            if i < shorter.len() {
                assert(shorter[i] == data[i]);
            }
        }
        assert forall|i: int|
            (match newest_until(data, limit) {
                Some(r) => r,
                None => -1,
            }) < i < data.len() implies !(#[trigger] data[i]).timestamp@.le(limit) by {
            if i < shorter.len() {
                assert(shorter[i] == data[i]);
            }
        }
    }
}

/// The last known rate is that of the newest entry with a drain; without one it is 0.
pub proof fn lemma_last_known_rate(data: Seq<LogEntry>, i: int)
    requires
        -1 <= i < data.len(),
        i >= 0 ==> is_drain(data[i].drain_rate@),
        forall|j: int| i < j < data.len() ==> !is_drain((#[trigger] data[j]).drain_rate@),
    ensures
        last_known_rate(data) == if i >= 0 {
            data[i].drain_rate@
        } else {
            Real::zero()
        },
    decreases data.len(),
{
    if i < data.len() - 1 {
        let shorter = data.drop_last();
        assert(data.last() == data[data.len() - 1]);
        assert forall|j: int| i < j < shorter.len() implies !is_drain(
            (#[trigger] shorter[j]).drain_rate@,
        ) by {
            assert(shorter[j] == data[j]);
        }
        lemma_last_known_rate(shorter, i);
    }
}

/// A rate that counts as drain is above zero.
proof fn lemma_drain_is_positive(rate: Real)
    requires
        is_drain(rate),
    ensures
        Real::zero().lt(rate),
{
}

proof fn lemma_last_known_rate_is_not_negative(data: Seq<LogEntry>)
    ensures
        !last_known_rate(data).lt(Real::zero()),
    decreases data.len(),
{
    if data.len() > 0 {
        if is_drain(data.last().drain_rate@) {
            lemma_drain_is_positive(data.last().drain_rate@);
        } else {
            lemma_last_known_rate_is_not_negative(data.drop_last());
        }
    }
}

/// No drain rate is negative, not even while the battery is charged.
pub proof fn lemma_drain_rate_is_not_negative(
    data: Seq<LogEntry>,
    elapsed: Real,
    percentage: Real,
)
    ensures
        !current_drain_rate(data, elapsed, percentage).lt(Real::zero()),
{
    lemma_last_known_rate_is_not_negative(data);
}

/// A battery that does not lose charge keeps the last known rate once half a second has
/// passed since the reference entry.
pub proof fn lemma_rate_is_kept_without_drain(
    data: Seq<LogEntry>,
    elapsed: Real,
    percentage: Real,
)
    requires
        data.len() > 0,
        data[reference(data, elapsed)].percentage@.minus(Width::Single, percentage).le(
            Real::zero(),
        ),
        Real::ratio(Width::Double, 1, 2).lt(
            elapsed.minus(Width::Double, data[reference(data, elapsed)].timestamp@),
        ),
    ensures
        current_drain_rate(data, elapsed, percentage) == last_known_rate(data),
{
}

/// No tick makes a recorded rate negative.
pub proof fn lemma_recorded_rates_stay_non_negative(
    data: Seq<LogEntry>,
    reading: Reading,
    battery: BatteryReading,
    entry: LogEntry,
    i: int,
)
    requires
        forall|j: int| 0 <= j < data.len() ==> !(#[trigger] data[j]).drain_rate@.lt(Real::zero()),
        is_next_entry(data, reading, battery, entry),
        0 <= i <= data.len(),
    ensures
        !data.push(entry)[i].drain_rate@.lt(Real::zero()),
{
    lemma_drain_rate_is_not_negative(data, battery.elapsed@, battery.percentage@);
}

/// A charge from 0 to 100 percent.
pub open spec fn is_charge(percentage: Real) -> bool {
    Real::zero().le(percentage) && percentage.le(Real::integer(Width::Single, 100))
}

/// A rate from 0 to 12000 percent per minute, which empties a full battery in half a second.
pub open spec fn is_rate(rate: Real) -> bool {
    Real::zero().le(rate) && rate.le(Real::integer(Width::Single, 12000))
}

/// The drop from one charge to another is at most 100 percent.
proof fn lemma_drop_between_charges(before: Real, after: Real)
    requires
        is_charge(before),
        is_charge(after),
        Real::zero().lt(before.minus(Width::Single, after)),
    ensures
        before.minus(Width::Single, after) matches Real::Finite { negative, steps } && !negative
            && steps <= 100 * Width::Single.one(),
{
    let one = Width::Single.one();
    lemma_small_integer(Width::Single, 100);
    lemma_pow2_pos(24);
    lemma_mul_basics(100 * one as int);
    let sum = before.signed() - after.signed();
    if sum > 0 {
        lemma_round_at_most(24, sum as nat, 1, 100, 149);
    }
}

/// A drop of at most 100 percent in more than half a second is a rate.
proof fn lemma_measured_rate(drop: nat, time: Real)
    requires
        drop <= 100 * Width::Single.one(),
        Real::ratio(Width::Double, 1, 2).lt(time),
    ensures
        is_rate(
            (Real::Finite { negative: false, steps: drop }).widened().over(
                Width::Double,
                time,
            ).times(Width::Double, Real::integer(Width::Double, 60)).narrowed(),
        ),
{
    let one = Width::Double.one();
    let wide = drop * pow2(925);
    lemma_small_integer(Width::Single, 12000);
    lemma_small_integer(Width::Double, 60);
    lemma_small_integer(Width::Double, 200);
    lemma_small_integer(Width::Double, 12000);
    lemma_small_integer(Width::Double, 1);
    lemma_pow2_adds(149, 925);
    lemma_pow2_unfold(1074);
    lemma_pow2_pos(1073);
    lemma_pow2_pos(925);
    lemma_mul_basics(one as int);
    // The quotient is at most 200.
    let share = match time {
        Real::Finite { steps, .. } => {
            lemma_mul_basics(pow2(1073) as int);
            lemma_round_at_least(53, one, 2, 1, 1073);
            assert(wide <= 100 * one) by (nonlinear_arith)
                requires
                    wide == drop * pow2(925),
                    drop <= 100 * pow2(149),
                    one == pow2(149) * pow2(925),
            ;
            lemma_quotient_at_most(Width::Double, wide, steps, 200);
            round(53, wide * one, steps)
        },
        _ => 0,
    };
    // The product is at most 12000, and so is the result in single precision.
    assert(share * (60 * one) <= (12000 * one) * one) by (nonlinear_arith)
        requires
            share <= 200 * one,
    ;
    lemma_round_at_most(53, share * (60 * one), one, 12000, 1074);
    let product = round(53, share * (60 * one), one);
    assert(12000 * one == (12000 * pow2(149)) * pow2(925)) by (nonlinear_arith)
        requires
            one == pow2(149) * pow2(925),
    ;
    lemma_round_at_most(24, product, pow2(925), 12000, 149);
}

proof fn lemma_last_known_rate_is_rate(data: Seq<LogEntry>)
    requires
        forall|i: int| 0 <= i < data.len() ==> is_rate((#[trigger] data[i]).drain_rate@),
    ensures
        is_rate(last_known_rate(data)),
    decreases data.len(),
{
    lemma_small_integer(Width::Single, 12000);
    if data.len() > 0 {
        assert(data.last() == data[data.len() - 1]);
        let shorter = data.drop_last();
        assert forall|i: int| 0 <= i < shorter.len() implies is_rate(
            (#[trigger] shorter[i]).drain_rate@,
        ) by {
            assert(shorter[i] == data[i]);
        }
        lemma_last_known_rate_is_rate(shorter);
    }
}

/// As long as every charge is between 0 and 100 percent, every drain rate is a number between 0
/// and 12000 percent per minute, whatever the clock does.
pub proof fn lemma_drain_rate_is_in_range(data: Seq<LogEntry>, elapsed: Real, percentage: Real)
    requires
        is_charge(percentage),
        forall|i: int|
            0 <= i < data.len() ==> is_charge((#[trigger] data[i]).percentage@) && is_rate(
                data[i].drain_rate@,
            ),
    ensures
        is_rate(current_drain_rate(data, elapsed, percentage)),
{
    lemma_small_integer(Width::Single, 12000);
    if data.len() > 0 {
        lemma_reference_is_newest_of_window(data, elapsed);
        lemma_last_known_rate_is_rate(data);
        let entry = data[reference(data, elapsed)];
        let time = elapsed.minus(Width::Double, entry.timestamp@);
        let drop = entry.percentage@.minus(Width::Single, percentage);
        if Real::ratio(Width::Double, 1, 2).lt(time) && Real::zero().lt(drop) {
            lemma_drop_between_charges(entry.percentage@, percentage);
            lemma_measured_rate(drop->steps, time);
        }
    }
}

/// Every tick keeps the recorded charges and rates in range.
pub proof fn lemma_recorded_rates_stay_in_range(
    data: Seq<LogEntry>,
    reading: Reading,
    battery: BatteryReading,
    entry: LogEntry,
    i: int,
)
    requires
        is_charge(battery.percentage@),
        forall|j: int|
            0 <= j < data.len() ==> is_charge((#[trigger] data[j]).percentage@) && is_rate(
                data[j].drain_rate@,
            ),
        is_next_entry(data, reading, battery, entry),
        0 <= i <= data.len(),
    ensures
        is_charge(data.push(entry)[i].percentage@),
        is_rate(data.push(entry)[i].drain_rate@),
{
    lemma_drain_rate_is_in_range(data, battery.elapsed@, battery.percentage@);
}

/// An entry records what the machine reported, at the time it did so. A battery without a
/// thermometer counts as zero degrees.
pub proof fn lemma_entries_record_the_reading(
    data: Seq<LogEntry>,
    reading: Reading,
    battery: BatteryReading,
    entry: LogEntry,
)
    requires
        is_next_entry(data, reading, battery, entry),
    ensures
        entry.timestamp@ == battery.elapsed@,
        entry.percentage@ == battery.percentage@,
        entry.drain_rate@ == current_drain_rate(data, battery.elapsed@, battery.percentage@),
        entry.cpu_usage@ == average_usage(reading.cores@),
        entry.memory_usage@ == memory_share(
            reading.total_memory as nat,
            reading.used_memory as nat,
        ),
        entry.cpu_temp@ == first_cpu_temperature(reading.sensors@),
        battery.temperature matches Some(t) ==> entry.battery_temp@ == t@,
        battery.temperature is None ==> entry.battery_temp@ == Real::zero(),
        entry.clock_time@ == reading.now.clock_text(),
{
}

/// The temperature of the processor is that of the first sensor whose label, in lower case,
/// names it; without such a sensor it is zero.
pub proof fn lemma_first_sensor_counts(sensors: Seq<Sensor>, i: int)
    requires
        0 <= i <= sensors.len(),
        forall|j: int| 0 <= j < i ==> !names_cpu(lowercase((#[trigger] sensors[j]).label@)),
        i < sensors.len() ==> names_cpu(lowercase(sensors[i].label@)),
    ensures
        i < sensors.len() ==> first_cpu_temperature(sensors) == sensors[i].temperature@,
        i == sensors.len() ==> first_cpu_temperature(sensors) == Real::zero(),
{
    lemma_first_cpu_temperature(sensors, i);
}

/// A label names the processor wherever one of the four words stands in it, and only then.
pub proof fn lemma_labels_of_the_processor(before: Seq<char>, after: Seq<char>, label: Seq<char>)
    ensures
        names_cpu(before + "core"@ + after),
        names_cpu(before + "cpu"@ + after),
        names_cpu(before + "k10temp"@ + after),
        names_cpu(before + "tctl"@ + after),
        names_cpu(label) ==> exists|i: int|
            0 <= i <= label.len() && {
                ||| "core"@.is_prefix_of(#[trigger] label.skip(i))
                ||| "cpu"@.is_prefix_of(label.skip(i))
                ||| "k10temp"@.is_prefix_of(label.skip(i))
                ||| "tctl"@.is_prefix_of(label.skip(i))
            },
{
    lemma_occurs_between(before, "core"@, after);
    lemma_occurs_between(before, "cpu"@, after);
    lemma_occurs_between(before, "k10temp"@, after);
    lemma_occurs_between(before, "tctl"@, after);
    if occurs("core"@, label) {
        lemma_occurrence_is_prefix("core"@, label);
    } else if occurs("cpu"@, label) {
        lemma_occurrence_is_prefix("cpu"@, label);
    } else if occurs("k10temp"@, label) {
        lemma_occurrence_is_prefix("k10temp"@, label);
    } else if occurs("tctl"@, label) {
        lemma_occurrence_is_prefix("tctl"@, label);
    }
}

} // verus!
