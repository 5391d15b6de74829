//! The screen of the plot mode.

use vstd::prelude::*;

use crate::log::LogEntry;
use crate::number::value::{fixed, Real, Width};
use crate::number::Double;
use crate::playback::{
    cpu_usage_curve, double, drain_rate_curve, memory_usage_curve, percentage_curve, points, Playback,
    PlaybackState, PlotData, Point,
};
use crate::text::{decimal, decimal_text};

use super::chart::{
    build_chart, full_scale, max_drain_rate, session_bounds, session_chart, session_range, Chart,
    ChartValues,
};
use super::dashboard::with_unit;
use super::span::{
    colored, colored_span, empty_line, line, plain, plain_span, put, strong, strong_span, Color, Span,
    Styled,
};

verus! {

/// The view, the state of the playback, the position and the speed.
pub open spec fn playback_line(playback: Playback, len: nat) -> Seq<Styled> {
    seq![
        strong(
            if playback.static_view {
                "STATIC VIEW"@
            } else {
                "PLAYBACK"@
            },
            Color::Cyan,
        ),
        plain("  |  "@),
        colored(
            if playback.static_view {
                ""@
            } else if playback.playing {
                "▶ Playing"@
            } else {
                "⏸ Paused"@
            },
            if playback.playing {
                Color::Green
            } else {
                Color::Yellow
            },
        ),
        plain("  |  "@),
        colored(
            if playback.static_view {
                "Total: "@ + decimal(len) + " samples"@
            } else {
                decimal((playback.position + 1) as nat) + "/"@ + decimal(len)
            },
            Color::White,
        ),
        plain("  |  "@),
        colored("Speed: "@ + fixed(Width::Double, playback.speed, 2) + "x"@, Color::Magenta),
    ]
}

/// The values of the entry that is played; how to get there in the static view.
pub open spec fn values_line(playback: Playback, entries: Seq<LogEntry>) -> Seq<Styled> {
    if playback.static_view {
        seq![colored("Press 'v' to toggle playback mode"@, Color::Gray)]
    } else {
        let e = entries[playback.position];
        seq![
            colored("Time: "@, Color::White),
            colored(fixed(Width::Double, e.timestamp@, 0) + "s"@, Color::Cyan),
            plain("  |  "@),
            colored("Battery: "@, Color::White),
            colored(fixed(Width::Single, e.percentage@, 1) + "%"@, Color::Green),
            plain("  |  "@),
            colored("Drain: "@, Color::White),
            colored(fixed(Width::Single, e.drain_rate@, 2) + "%/min"@, Color::Red),
            plain("  |  "@),
            colored("CPU: "@, Color::White),
            colored(fixed(Width::Single, e.cpu_usage@, 1) + "%"@, Color::Blue),
            plain("  |  "@),
            colored("Mem: "@, Color::White),
            colored(fixed(Width::Single, e.memory_usage@, 1) + "%"@, Color::Magenta),
            plain("  |  "@),
            colored("CPU°: "@, Color::White),
            colored(fixed(Width::Single, e.cpu_temp@, 1) + "°C"@, Color::Yellow),
        ]
    }
}

/// The keys of the plot mode.
pub open spec fn controls_line() -> Seq<Styled> {
    seq![
        strong("v"@, Color::Yellow),
        plain(":view "@),
        strong("Space"@, Color::Yellow),
        plain(":play/pause "@),
        strong("+/-"@, Color::Yellow),
        plain(":speed "@),
        strong("←/→"@, Color::Yellow),
        plain(":skip "@),
        strong("Home/End"@, Color::Yellow),
        plain(":jump "@),
        strong("r"@, Color::Yellow),
        plain(":reset speed "@),
        strong("q"@, Color::Yellow),
        plain(":quit"@),
    ]
}

/// The time axis: the whole session in the static view; from zero to the entry that is
/// played, but at least one second long, in the playback view.
pub open spec fn plot_range(playback: Playback, entries: Seq<LogEntry>) -> (Real, Real) {
    if playback.static_view {
        session_range(percentage_curve(entries))
    } else {
        (Real::zero(), entries[playback.position].timestamp@.larger(double(1)))
    }
}

/// The chart of the entries that are shown. Rates are measured against the highest of the
/// whole recording.
pub open spec fn plot_chart(playback: Playback, entries: Seq<LogEntry>) -> Option<ChartValues> {
    let shown = entries.take(playback.shown(entries.len()) as int);
    session_chart(
        if playback.static_view {
            "Historical Data (Static)"@
        } else {
            "Historical Data (Playback)"@
        },
        percentage_curve(shown),
        drain_rate_curve(shown),
        cpu_usage_curve(shown),
        memory_usage_curve(shown),
        full_scale(drain_rate_curve(entries)),
        plot_range(playback, entries),
    )
}

/// Everything that the plot mode shows, from top to bottom.
#[derive(Debug)]
pub struct PlotView {
    pub status: Vec<Span>,
    pub values: Vec<Span>,
    pub chart: Chart,
    pub controls: Vec<Span>,
}

fn playback_spans(playback: &PlaybackState, len: usize) -> (spans: Vec<Span>)
    requires
        !playback@.static_view ==> playback@.within(len as nat),
    ensures
        line(spans@) == playback_line(playback@, len as nat),
{
    let mode_str = if playback.static_view {
        "STATIC VIEW"
    } else {
        "PLAYBACK"
    };
    let play_status = if playback.static_view {
        ""
    } else if playback.playing {
        "▶ Playing"
    } else {
        "⏸ Paused"
    };
    let position_str = if playback.static_view {
        let mut text = String::from_str("Total: ");
        text.append(decimal_text(len as u128).as_str());
        text.append(" samples");
        text
    } else {
        let mut text = decimal_text(playback.position as u128 + 1);
        text.append("/");
        text.append(decimal_text(len as u128).as_str());
        text
    };
    let mut speed_str = String::from_str("Speed: ");
    speed_str.append(playback.speed.fixed(2).as_str());
    speed_str.append("x");
    let status_color = if playback.playing {
        Color::Green
    } else {
        Color::Yellow
    };
    let mut spans = empty_line();
    put(&mut spans, strong_span(mode_str, Color::Cyan));
    put(&mut spans, plain_span("  |  "));
    put(&mut spans, colored_span(play_status, status_color));
    put(&mut spans, plain_span("  |  "));
    put(&mut spans, colored_span(position_str.as_str(), Color::White));
    put(&mut spans, plain_span("  |  "));
    put(&mut spans, colored_span(speed_str.as_str(), Color::Magenta));
    spans
}

fn values_spans(playback: &PlaybackState, entries: &[LogEntry]) -> (spans: Vec<Span>)
    requires
        !playback@.static_view ==> playback@.within(entries@.len()),
    ensures
        line(spans@) == values_line(playback@, entries@),
{
    let mut spans = empty_line();
    if playback.static_view {
        put(&mut spans, colored_span("Press 'v' to toggle playback mode", Color::Gray));
        return spans;
    }
    let entry = &entries[playback.position];
    let mut time = entry.timestamp.fixed(0);
    time.append("s");
    put(&mut spans, colored_span("Time: ", Color::White));
    put(&mut spans, colored_span(time.as_str(), Color::Cyan));
    put(&mut spans, plain_span("  |  "));
    put(&mut spans, colored_span("Battery: ", Color::White));
    put(&mut spans, colored_span(with_unit(entry.percentage, 1, "%").as_str(), Color::Green));
    put(&mut spans, plain_span("  |  "));
    put(&mut spans, colored_span("Drain: ", Color::White));
    put(&mut spans, colored_span(with_unit(entry.drain_rate, 2, "%/min").as_str(), Color::Red));
    put(&mut spans, plain_span("  |  "));
    put(&mut spans, colored_span("CPU: ", Color::White));
    put(&mut spans, colored_span(with_unit(entry.cpu_usage, 1, "%").as_str(), Color::Blue));
    put(&mut spans, plain_span("  |  "));
    put(&mut spans, colored_span("Mem: ", Color::White));
    put(&mut spans, colored_span(with_unit(entry.memory_usage, 1, "%").as_str(), Color::Magenta));
    put(&mut spans, plain_span("  |  "));
    put(&mut spans, colored_span("CPU°: ", Color::White));
    put(&mut spans, colored_span(with_unit(entry.cpu_temp, 1, "°C").as_str(), Color::Yellow));
    spans
}

fn controls_spans() -> (spans: Vec<Span>)
    ensures
        line(spans@) == controls_line(),
{
    let mut spans = empty_line();
    put(&mut spans, strong_span("v", Color::Yellow));
    put(&mut spans, plain_span(":view "));
    put(&mut spans, strong_span("Space", Color::Yellow));
    put(&mut spans, plain_span(":play/pause "));
    put(&mut spans, strong_span("+/-", Color::Yellow));
    put(&mut spans, plain_span(":speed "));
    put(&mut spans, strong_span("←/→", Color::Yellow));
    put(&mut spans, plain_span(":skip "));
    put(&mut spans, strong_span("Home/End", Color::Yellow));
    put(&mut spans, plain_span(":jump "));
    put(&mut spans, strong_span("r", Color::Yellow));
    put(&mut spans, plain_span(":reset speed "));
    put(&mut spans, strong_span("q", Color::Yellow));
    put(&mut spans, plain_span(":quit"));
    spans
}

/// The first `n` points of a curve.
fn first_points(curve: &[Point], n: usize) -> (r: Vec<Point>)
    requires
        n <= curve@.len(),
    ensures
        r@ == curve@.take(n as int),
{
    let mut r: Vec<Point> = Vec::new();
    let mut i: usize = 0;
    while i < n
        invariant
            i <= n <= curve@.len(),
            r@ == curve@.take(i as int),
        decreases n - i,
    {
        r.push(curve[i]);
        i += 1;
        assert(r@ =~= curve@.take(i as int));
    }
    r
}

/// The beginning of a curve is the curve of the beginning.
proof fn lemma_first_points(data: PlotData, n: int)
    requires
        data.wf(),
        0 <= n <= data.entries@.len(),
    ensures
        data.percentages@.len() == data.entries@.len(),
        data.drain_rates@.len() == data.entries@.len(),
        data.cpu_usage@.len() == data.entries@.len(),
        data.memory_usage@.len() == data.entries@.len(),
        points(data.percentages@.take(n)) == percentage_curve(data.entries@.take(n)),
        points(data.drain_rates@.take(n)) == drain_rate_curve(data.entries@.take(n)),
        points(data.cpu_usage@.take(n)) == cpu_usage_curve(data.entries@.take(n)),
        points(data.memory_usage@.take(n)) == memory_usage_curve(data.entries@.take(n)),
{
    let shown = data.entries@.take(n);
    assert(points(data.percentages@).len() == data.entries@.len());
    assert(points(data.drain_rates@).len() == data.entries@.len());
    assert(points(data.cpu_usage@).len() == data.entries@.len());
    assert(points(data.memory_usage@).len() == data.entries@.len());
    assert(points(data.percentages@.take(n)) =~= points(data.percentages@).take(n));
    assert(points(data.drain_rates@.take(n)) =~= points(data.drain_rates@).take(n));
    assert(points(data.cpu_usage@.take(n)) =~= points(data.cpu_usage@).take(n));
    assert(points(data.memory_usage@.take(n)) =~= points(data.memory_usage@).take(n));
    assert(percentage_curve(shown) =~= percentage_curve(data.entries@).take(n));
    assert(drain_rate_curve(shown) =~= drain_rate_curve(data.entries@).take(n));
    assert(cpu_usage_curve(shown) =~= cpu_usage_curve(data.entries@).take(n));
    assert(memory_usage_curve(shown) =~= memory_usage_curve(data.entries@).take(n));
}

/// What the plot mode shows of a recording. The position matters in the playback view only.
/// Returns `None` if the time axis of the chart cannot be labelled.
pub fn ui_plot(data: &PlotData, playback: &PlaybackState) -> (view: Option<PlotView>)
    requires
        data.wf(),
        !playback@.static_view ==> playback@.within(data.entries@.len()),
    ensures
        view is None <==> plot_chart(playback@, data.entries@) is None,
        view matches Some(v) ==> {
            &&& line(v.status@) == playback_line(playback@, data.entries@.len())
            &&& line(v.values@) == values_line(playback@, data.entries@)
            &&& plot_chart(playback@, data.entries@) == Some(v.chart@)
            &&& line(v.controls@) == controls_line()
        },
{
    let entries = data.entries.as_slice();
    let len: usize = entries.len();
    let display_end: usize = if playback.static_view {
        len
    } else {
        playback.position + 1
    };
    proof {
        lemma_first_points(*data, display_end as int);
    }
    let rates = first_points(data.drain_rates.as_slice(), display_end);
    let bounds = if playback.static_view {
        session_bounds(data.percentages.as_slice())
    } else {
        let end_time = entries[playback.position].timestamp;
        (Double::zero(), end_time.larger(Double::from_integer(1)))
    };
    let title = if playback.static_view {
        "Historical Data (Static)"
    } else {
        "Historical Data (Playback)"
    };
    let chart = match build_chart(
        title,
        first_points(data.percentages.as_slice(), display_end),
        rates.as_slice(),
        first_points(data.cpu_usage.as_slice(), display_end),
        first_points(data.memory_usage.as_slice(), display_end),
        max_drain_rate(data.drain_rates.as_slice()),
        bounds,
    ) {
        Some(chart) => chart,
        None => {
            return None;
        },
    };
    Some(
        PlotView {
            status: playback_spans(playback, len),
            values: values_spans(playback, entries),
            chart,
            controls: controls_spans(),
        },
    )
}

} // verus!
