//! Laws of the lines and charts: which values stand where.

use vstd::prelude::*;

use crate::log::{hms, mean_drain_rate, temperature_or_none, time_remaining, LogEntry};
use crate::number::value::{fixed, Real, Width};
use crate::number::Double;
use crate::playback::{
    cpu_usage_curve, double, drain_rate_curve, memory_usage_curve, percentage_curve, Playback,
};
use crate::text::decimal;

use super::chart::{full_scale, normalized, seconds, session_range, time_labels};
use super::dashboard::{
    battery_gauge, charge_color, clock_line, current, drain_line, heat, live_chart, usage_gauge,
};
use super::plot::{playback_line, plot_chart, values_line};
use super::span::Color;

verus! {

/// The dashboard shows the values of the newest entry, with the average of all of them.
pub proof fn lemma_dashboard_shows_the_newest_entry(
    data: Seq<LogEntry>,
    now: Seq<char>,
    elapsed: Real,
    target: Option<Double>,
)
    requires
        data.len() > 0,
    ensures
        ({
            let e = data[data.len() - 1];
            let values = current(data, now);
            let average = mean_drain_rate(data);
            let clock = clock_line(elapsed, target, values);
            let drain = drain_line(average, values);
            &&& clock.len() == 11
            &&& target is None ==> clock[1].text == hms(elapsed)
            &&& target matches Some(t) ==> clock[1].text == hms(elapsed) + " / "@ + hms(t@)
            &&& clock[4].text == e.clock_time@
            &&& clock[7].text == fixed(Width::Single, e.cpu_temp@, 1) + "°C"@
            &&& clock[7].style.color == Some(heat(e.cpu_temp@, 60, 80))
            &&& clock[10].text == temperature_or_none(e.battery_temp@, 1)
            &&& clock[10].style.color == Some(heat(e.battery_temp@, 35, 45))
            &&& drain.len() == 8
            &&& drain[1].text == fixed(Width::Single, e.drain_rate@, 2) + "%/min"@
            &&& drain[4].text == fixed(Width::Single, average, 2) + "%/min"@
            &&& drain[7].text == time_remaining(e.percentage@, average)
            &&& battery_gauge(values.percentage).label == fixed(Width::Single, e.percentage@, 1)
                + "%"@
            &&& battery_gauge(values.percentage).color == charge_color(e.percentage@)
            &&& usage_gauge("CPU"@, Color::Blue, values.cpu_usage).label == fixed(
                Width::Single,
                e.cpu_usage@,
                1,
            ) + "%"@
            &&& usage_gauge("Memory"@, Color::Magenta, values.memory_usage).label == fixed(
                Width::Single,
                e.memory_usage@,
                1,
            ) + "%"@
        }),
{
}

/// Without entries the dashboard shows the time on the clock, and zeros.
pub proof fn lemma_dashboard_of_an_empty_session(now: Seq<char>)
    ensures
        ({
            let values = current(Seq::<LogEntry>::empty(), now);
            &&& values.clock_time == now
            &&& values.percentage == Real::zero()
            &&& values.drain_rate == Real::zero()
            &&& values.cpu_usage == Real::zero()
            &&& values.memory_usage == Real::zero()
            &&& values.cpu_temp == Real::zero()
            &&& values.battery_temp == Real::zero()
        }),
{
}

/// The live chart draws all entries over the whole session.
pub proof fn lemma_live_chart_draws_all_entries(data: Seq<LogEntry>)
    ensures
        live_chart(data) matches Some(chart) ==> {
            let range = session_range(percentage_curve(data));
            &&& chart.curves.len() == 4
            &&& chart.curves[0].points == percentage_curve(data)
            &&& chart.curves[1].points == normalized(
                drain_rate_curve(data),
                full_scale(drain_rate_curve(data)),
            )
            &&& chart.curves[2].points == cpu_usage_curve(data)
            &&& chart.curves[3].points == memory_usage_curve(data)
            &&& chart.x_axis.min == range.0
            &&& chart.x_axis.max == range.1
            &&& time_labels(range.0, range.1) == Some(chart.x_axis.labels)
            &&& chart.y_axis.min == Real::zero()
            &&& chart.y_axis.max == double(100)
        },
{
}

/// The playback view draws the entries up to its position, from the start to the time of that
/// one but at least for a second, with rates measured against the highest of all.
pub proof fn lemma_playback_chart_ends_at_the_position(playback: Playback, entries: Seq<LogEntry>)
    requires
        !playback.static_view,
        playback.within(entries.len()),
    ensures
        plot_chart(playback, entries) matches Some(chart) ==> {
            let shown = entries.take(playback.position + 1);
            let time = entries[playback.position].timestamp@;
            &&& chart.curves[0].points == percentage_curve(shown)
            &&& chart.curves[1].points == normalized(
                drain_rate_curve(shown),
                full_scale(drain_rate_curve(entries)),
            )
            &&& chart.curves[2].points == cpu_usage_curve(shown)
            &&& chart.curves[3].points == memory_usage_curve(shown)
            &&& chart.x_axis.min == Real::zero()
            &&& chart.x_axis.max == time || chart.x_axis.max == double(1)
            &&& time != Real::Nan && double(1) != Real::Nan ==> time.le(chart.x_axis.max)
                && double(1).le(chart.x_axis.max)
        },
{
}

/// The playback view shows the values of the entry at its position.
pub proof fn lemma_playback_shows_the_entry_at_its_position(
    playback: Playback,
    entries: Seq<LogEntry>,
)
    requires
        !playback.static_view,
        playback.within(entries.len()),
    ensures
        ({
            let e = entries[playback.position];
            let values = values_line(playback, entries);
            let status = playback_line(playback, entries.len());
            &&& values.len() == 17
            &&& values[1].text == seconds(e.timestamp@)
            &&& values[4].text == fixed(Width::Single, e.percentage@, 1) + "%"@
            &&& values[7].text == fixed(Width::Single, e.drain_rate@, 2) + "%/min"@
            &&& values[10].text == fixed(Width::Single, e.cpu_usage@, 1) + "%"@
            &&& values[13].text == fixed(Width::Single, e.memory_usage@, 1) + "%"@
            &&& values[16].text == fixed(Width::Single, e.cpu_temp@, 1) + "°C"@
            &&& status.len() == 7
            &&& status[4].text == decimal((playback.position + 1) as nat) + "/"@ + decimal(
                entries.len(),
            )
            &&& status[6].text == "Speed: "@ + fixed(Width::Double, playback.speed, 2) + "x"@
        }),
{
}

/// The static view counts all entries.
pub proof fn lemma_static_view_counts_all_entries(playback: Playback, len: nat)
    requires
        playback.static_view,
    ensures
        playback_line(playback, len)[4].text == "Total: "@ + decimal(len) + " samples"@,
        playback_line(playback, len)[6].text == "Speed: "@ + fixed(
            Width::Double,
            playback.speed,
            2,
        ) + "x"@,
{
}

} // verus!
