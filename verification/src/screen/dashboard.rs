//! The live dashboard.

use vstd::prelude::*;

use crate::clock::LocalTime;
use crate::log::{
    average_drain_rate, estimate_time_remaining, format_hms, format_temperature_or_none, hms,
    mean_drain_rate, temperature_or_none, time_remaining, LogEntry,
};
use crate::monitor::App;
use crate::number::value::{fixed, Real, Width};
use crate::number::{Double, Single};
use crate::playback::{
    cpu_usage_curve, double, drain_rate_curve, memory_usage_curve, percentage_curve, points, Point,
};

use super::chart::{
    build_chart, full_scale, max_drain_rate, session_bounds, session_chart, session_range, Chart,
    ChartValues,
};
use super::span::{
    bold, bold_span, colored, colored_span, empty_line, line, lines, plain, plain_span, put, strong,
    strong_span, Color, Span, Styled,
};
use super::title::{header, header_widget};

verus! {

/// A bar that is filled up to a ratio of its width.
#[derive(Debug)]
pub struct Gauge {
    pub title: String,
    pub color: Color,
    pub ratio: Double,
    pub label: String,
}

/// The contents of a gauge.
pub struct GaugeValues {
    pub title: Seq<char>,
    pub color: Color,
    pub ratio: Real,
    pub label: Seq<char>,
}

impl View for Gauge {
    type V = GaugeValues;

    open spec fn view(&self) -> GaugeValues {
        GaugeValues {
            title: self.title@,
            color: self.color,
            ratio: self.ratio@,
            label: self.label@,
        }
    }
}

/// The newest values of a session.
pub struct Current {
    pub percentage: Real,
    pub drain_rate: Real,
    pub cpu_usage: Real,
    pub memory_usage: Real,
    pub cpu_temp: Real,
    pub battery_temp: Real,
    pub clock_time: Seq<char>,
}

/// The values of the last entry; zeros at the present time without entries.
pub open spec fn current(data: Seq<LogEntry>, now: Seq<char>) -> Current {
    if data.len() > 0 {
        let e = data.last();
        Current {
            percentage: e.percentage@,
            drain_rate: e.drain_rate@,
            cpu_usage: e.cpu_usage@,
            memory_usage: e.memory_usage@,
            cpu_temp: e.cpu_temp@,
            battery_temp: e.battery_temp@,
            clock_time: e.clock_time@,
        }
    } else {
        Current {
            percentage: Real::zero(),
            drain_rate: Real::zero(),
            cpu_usage: Real::zero(),
            memory_usage: Real::zero(),
            cpu_temp: Real::zero(),
            battery_temp: Real::zero(),
            clock_time: now,
        }
    }
}

/// The single-precision number `n`.
pub open spec fn single(n: nat) -> Real {
    Real::integer(Width::Single, n)
}

/// Green up to `warm`, yellow up to `hot`, red above.
pub open spec fn heat(temperature: Real, warm: nat, hot: nat) -> Color {
    if single(hot).lt(temperature) {
        Color::Red
    } else if single(warm).lt(temperature) {
        Color::Yellow
    } else {
        Color::Green
    }
}

/// The color of a charge, by quarters.
pub open spec fn charge_color(percentage: Real) -> Color {
    if single(75).lt(percentage) {
        Color::Green
    } else if single(50).lt(percentage) {
        Color::Yellow
    } else if single(25).lt(percentage) {
        Color::Orange
    } else {
        Color::Red
    }
}

/// The time since the start, and the length of the session where it has one.
pub open spec fn elapsed_text(elapsed: Real, target: Option<Double>) -> Seq<char> {
    match target {
        Some(t) => hms(elapsed) + " / "@ + hms(t@),
        None => hms(elapsed),
    }
}

/// Clock and temperatures.
pub open spec fn clock_line(elapsed: Real, target: Option<Double>, now: Current) -> Seq<Styled> {
    seq![
        colored("Elapsed: "@, Color::White),
        strong(elapsed_text(elapsed, target), Color::Cyan),
        plain("  |  "@),
        colored("Time: "@, Color::White),
        colored(now.clock_time, Color::Cyan),
        plain("  |  "@),
        colored("CPU Temp: "@, Color::White),
        colored(fixed(Width::Single, now.cpu_temp, 1) + "°C"@, heat(now.cpu_temp, 60, 80)),
        plain("  |  "@),
        colored("Battery Temp: "@, Color::White),
        colored(temperature_or_none(now.battery_temp, 1), heat(now.battery_temp, 35, 45)),
    ]
}

/// Drain rates and the time that is left.
pub open spec fn drain_line(average: Real, now: Current) -> Seq<Styled> {
    seq![
        colored("Drain Rate: "@, Color::White),
        strong(fixed(Width::Single, now.drain_rate, 2) + "%/min"@, Color::Red),
        plain("  |  "@),
        colored("Avg: "@, Color::White),
        colored(fixed(Width::Single, average, 2) + "%/min"@, Color::Yellow),
        plain("  |  "@),
        colored("Est. Remaining: "@, Color::White),
        strong(time_remaining(now.percentage, average), Color::Green),
    ]
}

/// A percentage as a ratio.
pub open spec fn as_ratio(percentage: Real) -> Real {
    percentage.widened().over(Width::Double, double(100))
}

pub open spec fn battery_gauge(percentage: Real) -> GaugeValues {
    GaugeValues {
        title: "Battery"@,
        color: charge_color(percentage),
        ratio: as_ratio(percentage),
        label: fixed(Width::Single, percentage, 1) + "%"@,
    }
}

/// A gauge that is full at 100 percent and above.
pub open spec fn usage_gauge(title: Seq<char>, color: Color, usage: Real) -> GaugeValues {
    GaugeValues {
        title,
        color,
        ratio: as_ratio(usage).smaller(double(1)),
        label: fixed(Width::Single, usage, 1) + "%"@,
    }
}

/// Keys, legend and log file.
pub open spec fn status_line(monitor_only: bool, log_filename: Seq<char>) -> Seq<Styled> {
    seq![strong("q"@, Color::Yellow), plain(":quit  "@)] + (if monitor_only {
        seq![]
    } else {
        seq![strong("space/p"@, Color::Yellow), plain(":pause load  "@)]
    }) + seq![
        plain("|| "@),
        colored("B%"@, Color::Green),
        plain(" "@),
        colored("DR"@, Color::Red),
        plain(" "@),
        colored("CPU"@, Color::Blue),
        plain(" "@),
        colored("MEM"@, Color::Magenta),
        plain(" || "@),
        bold(log_filename),
    ]
}

/// The chart of the session so far.
pub open spec fn live_chart(data: Seq<LogEntry>) -> Option<ChartValues> {
    session_chart(
        "Real-time Analysis"@,
        percentage_curve(data),
        drain_rate_curve(data),
        cpu_usage_curve(data),
        memory_usage_curve(data),
        full_scale(drain_rate_curve(data)),
        session_range(percentage_curve(data)),
    )
}

/// Everything that the dashboard shows, from top to bottom.
#[derive(Debug)]
pub struct Dashboard {
    pub header: Vec<Vec<Span>>,
    pub clock: Vec<Span>,
    pub drain: Vec<Span>,
    pub battery: Gauge,
    pub cpu: Gauge,
    pub memory: Gauge,
    pub chart: Chart,
    pub status: Vec<Span>,
}

fn heat_color(temperature: Single, warm: u64, hot: u64) -> (r: Color)
    ensures
        r == heat(temperature@, warm as nat, hot as nat),
{
    if Single::from_integer(hot).lt(temperature) {
        Color::Red
    } else if Single::from_integer(warm).lt(temperature) {
        Color::Yellow
    } else {
        Color::Green
    }
}

fn battery_color(percentage: Single) -> (r: Color)
    ensures
        r == charge_color(percentage@),
{
    if Single::from_integer(75).lt(percentage) {
        Color::Green
    } else if Single::from_integer(50).lt(percentage) {
        Color::Yellow
    } else if Single::from_integer(25).lt(percentage) {
        Color::Orange
    } else {
        Color::Red
    }
}

/// A number with `places` decimal places, followed by its unit.
pub fn with_unit(x: Single, places: u32, unit: &str) -> (text: String)
    requires
        places <= 9,
    ensures
        text@ == fixed(Width::Single, x@, places as nat) + unit@,
{
    let mut text = x.fixed(places);
    text.append(unit);
    text
}

fn clock_spans(
    elapsed: Double,
    target: Option<Double>,
    clock_time: &str,
    cpu_temp: Single,
    battery_temp: Single,
    Ghost(now): Ghost<Current>,
) -> (spans: Vec<Span>)
    requires
        clock_time@ == now.clock_time,
        cpu_temp@ == now.cpu_temp,
        battery_temp@ == now.battery_temp,
    ensures
        line(spans@) == clock_line(elapsed@, target, now),
{
    let elapsed_str = match target {
        Some(t) => {
            let mut text = format_hms(elapsed);
            text.append(" / ");
            text.append(format_hms(t).as_str());
            text
        },
        None => format_hms(elapsed),
    };
    let mut spans = empty_line();
    put(&mut spans, colored_span("Elapsed: ", Color::White));
    put(&mut spans, strong_span(elapsed_str.as_str(), Color::Cyan));
    put(&mut spans, plain_span("  |  "));
    put(&mut spans, colored_span("Time: ", Color::White));
    put(&mut spans, colored_span(clock_time, Color::Cyan));
    put(&mut spans, plain_span("  |  "));
    put(&mut spans, colored_span("CPU Temp: ", Color::White));
    put(
        &mut spans,
        colored_span(with_unit(cpu_temp, 1, "°C").as_str(), heat_color(cpu_temp, 60, 80)),
    );
    put(&mut spans, plain_span("  |  "));
    put(&mut spans, colored_span("Battery Temp: ", Color::White));
    put(
        &mut spans,
        colored_span(
            format_temperature_or_none(battery_temp, 1).as_str(),
            heat_color(battery_temp, 35, 45),
        ),
    );
    spans
}

fn drain_spans(
    drain_rate: Single,
    average: Single,
    percentage: Single,
    Ghost(now): Ghost<Current>,
) -> (spans: Vec<Span>)
    requires
        drain_rate@ == now.drain_rate,
        percentage@ == now.percentage,
    ensures
        line(spans@) == drain_line(average@, now),
{
    let mut spans = empty_line();
    put(&mut spans, colored_span("Drain Rate: ", Color::White));
    put(&mut spans, strong_span(with_unit(drain_rate, 2, "%/min").as_str(), Color::Red));
    put(&mut spans, plain_span("  |  "));
    put(&mut spans, colored_span("Avg: ", Color::White));
    put(&mut spans, colored_span(with_unit(average, 2, "%/min").as_str(), Color::Yellow));
    put(&mut spans, plain_span("  |  "));
    put(&mut spans, colored_span("Est. Remaining: ", Color::White));
    put(
        &mut spans,
        strong_span(estimate_time_remaining(percentage, average).as_str(), Color::Green),
    );
    spans
}

fn status_spans(monitor_only: bool, log_filename: &str) -> (spans: Vec<Span>)
    ensures
        line(spans@) == status_line(monitor_only, log_filename@),
{
    let mut spans = empty_line();
    put(&mut spans, strong_span("q", Color::Yellow));
    put(&mut spans, plain_span(":quit  "));
    if !monitor_only {
        put(&mut spans, strong_span("space/p", Color::Yellow));
        put(&mut spans, plain_span(":pause load  "));
    }
    put(&mut spans, plain_span("|| "));
    put(&mut spans, colored_span("B%", Color::Green));
    put(&mut spans, plain_span(" "));
    put(&mut spans, colored_span("DR", Color::Red));
    put(&mut spans, plain_span(" "));
    put(&mut spans, colored_span("CPU", Color::Blue));
    put(&mut spans, plain_span(" "));
    put(&mut spans, colored_span("MEM", Color::Magenta));
    put(&mut spans, plain_span(" || "));
    put(&mut spans, bold_span(log_filename));
    assert(line(spans@) =~= status_line(monitor_only, log_filename@));
    spans
}

fn ratio_of(percentage: Single) -> (r: Double)
    ensures
        r@ == as_ratio(percentage@),
{
    percentage.widened().over(Double::from_integer(100))
}

fn build_usage_gauge(title: &str, color: Color, usage: Single) -> (r: Gauge)
    ensures
        r@ == usage_gauge(title@, color, usage@),
{
    Gauge {
        title: String::from_str(title),
        color,
        ratio: ratio_of(usage).smaller(Double::from_integer(1)),
        label: with_unit(usage, 1, "%"),
    }
}

/// The four curves of the live chart.
fn live_curves(data: &[LogEntry]) -> (r: (Vec<Point>, Vec<Point>, Vec<Point>, Vec<Point>))
    ensures
        points(r.0@) == percentage_curve(data@),
        points(r.1@) == drain_rate_curve(data@),
        points(r.2@) == cpu_usage_curve(data@),
        points(r.3@) == memory_usage_curve(data@),
{
    let mut percentages: Vec<Point> = Vec::new();
    let mut rates: Vec<Point> = Vec::new();
    let mut cpu: Vec<Point> = Vec::new();
    let mut memory: Vec<Point> = Vec::new();
    let mut i: usize = 0;
    while i < data.len()
        invariant
            i <= data@.len(),
            percentages@.len() == i,
            rates@.len() == i,
            cpu@.len() == i,
            memory@.len() == i,
            forall|j: int| #![auto]
                0 <= j < i ==> (percentages@[j].0@, percentages@[j].1@) == (
                    data@[j].timestamp@,
                    data@[j].percentage@.widened(),
                ),
            forall|j: int| #![auto]
                0 <= j < i ==> (rates@[j].0@, rates@[j].1@) == (
                    data@[j].timestamp@,
                    data@[j].drain_rate@.widened(),
                ),
            forall|j: int| #![auto]
                0 <= j < i ==> (cpu@[j].0@, cpu@[j].1@) == (
                    data@[j].timestamp@,
                    data@[j].cpu_usage@.widened(),
                ),
            forall|j: int| #![auto]
                0 <= j < i ==> (memory@[j].0@, memory@[j].1@) == (
                    data@[j].timestamp@,
                    data@[j].memory_usage@.widened(),
                ),
        decreases data@.len() - i,
    {
        let e = &data[i];
        percentages.push((e.timestamp, e.percentage.widened()));
        rates.push((e.timestamp, e.drain_rate.widened()));
        cpu.push((e.timestamp, e.cpu_usage.widened()));
        memory.push((e.timestamp, e.memory_usage.widened()));
        i += 1;
    }
    proof {
        assert(points(percentages@) =~= percentage_curve(data@));
        assert(points(rates@) =~= drain_rate_curve(data@));
        assert(points(cpu@) =~= cpu_usage_curve(data@));
        assert(points(memory@) =~= memory_usage_curve(data@));
    }
    (percentages, rates, cpu, memory)
}

/// What the dashboard shows of a session; `now` is the time on the clock. Returns `None` if
/// the time axis of the chart cannot be labelled.
pub fn ui_drain(
    app: &App,
    paused: bool,
    monitor_only: bool,
    elapsed: Double,
    target: Option<Double>,
    now: &LocalTime,
) -> (view: Option<Dashboard>)
    requires
        now.occurs(),
    ensures
        view is None <==> live_chart(app.data@) is None,
        view matches Some(v) ==> {
            let values = current(app.data@, now.clock_text());
            let average = mean_drain_rate(app.data@);
            &&& lines(v.header@) == header(paused, monitor_only)
            &&& line(v.clock@) == clock_line(elapsed@, target, values)
            &&& line(v.drain@) == drain_line(average, values)
            &&& v.battery@ == battery_gauge(values.percentage)
            &&& v.cpu@ == usage_gauge("CPU"@, Color::Blue, values.cpu_usage)
            &&& v.memory@ == usage_gauge("Memory"@, Color::Magenta, values.memory_usage)
            &&& live_chart(app.data@) == Some(v.chart@)
            &&& line(v.status@) == status_line(monitor_only, app.log_filename@)
        },
{
    let data = app.data.as_slice();
    let mut percentage = Single::zero();
    let mut drain_rate = Single::zero();
    let mut cpu_usage = Single::zero();
    let mut memory_usage = Single::zero();
    let mut cpu_temp = Single::zero();
    let mut battery_temp = Single::zero();
    let now_text = now.clock_time();
    let mut clock_time = now_text.as_str();
    if data.len() > 0 {
        let entry = &data[data.len() - 1];
        percentage = entry.percentage;
        drain_rate = entry.drain_rate;
        cpu_usage = entry.cpu_usage;
        memory_usage = entry.memory_usage;
        cpu_temp = entry.cpu_temp;
        battery_temp = entry.battery_temp;
        clock_time = entry.clock_time.as_str();
    }
    let ghost values = current(app.data@, now.clock_text());
    let average = average_drain_rate(data);
    let (percentages, rates, cpu, memory) = live_curves(data);
    let bounds = session_bounds(percentages.as_slice());
    let full = max_drain_rate(rates.as_slice());
    let chart = match build_chart(
        "Real-time Analysis",
        percentages,
        rates.as_slice(),
        cpu,
        memory,
        full,
        bounds,
    ) {
        Some(chart) => chart,
        None => {
            return None;
        },
    };
    Some(
        Dashboard {
            header: header_widget(paused, monitor_only),
            clock: clock_spans(
                elapsed,
                target,
                clock_time,
                cpu_temp,
                battery_temp,
                Ghost(values),
            ),
            drain: drain_spans(drain_rate, average, percentage, Ghost(values)),
            battery: Gauge {
                title: String::from_str("Battery"),
                color: battery_color(percentage),
                ratio: ratio_of(percentage),
                label: with_unit(percentage, 1, "%"),
            },
            cpu: build_usage_gauge("CPU", Color::Blue, cpu_usage),
            memory: build_usage_gauge("Memory", Color::Magenta, memory_usage),
            chart,
            status: status_spans(monitor_only, app.log_filename.as_str()),
        },
    )
}

} // verus!
