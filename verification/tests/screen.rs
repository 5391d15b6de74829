use battery_drainer::banner::{banner_lines, TAGLINE};
use battery_drainer::clock::LocalTime;
use battery_drainer::log::LogEntry;
use battery_drainer::monitor::App;
use battery_drainer::number::{Double, Single};
use battery_drainer::playback::{PlaybackState, PlotData, Point};
use battery_drainer::screen::chart::{
    max_drain_rate, normalized_drain_rates, percent_axis_labels, session_bounds, time_axis_labels,
};
use battery_drainer::screen::dashboard::{ui_drain, Dashboard};
use battery_drainer::screen::plot::ui_plot;
use battery_drainer::screen::span::{Color, Span, Style};
use battery_drainer::screen::title::{header_widget, ui_splash};

fn d(x: f64) -> Double {
    Double::from_bits(x.to_bits())
}

fn s(x: f32) -> Single {
    Single::from_bits(x.to_bits())
}

fn f64_of(x: Double) -> f64 {
    f64::from_bits(x.to_bits())
}

fn floats(curve: &[Point]) -> Vec<(f64, f64)> {
    curve.iter().map(|p| (f64_of(p.0), f64_of(p.1))).collect()
}

fn curve(points: &[(f64, f64)]) -> Vec<Point> {
    points.iter().map(|p| (d(p.0), d(p.1))).collect()
}

fn text(spans: &[Span]) -> String {
    spans.iter().map(|span| span.text.as_str()).collect()
}

fn color(span: &Span) -> Option<Color> {
    span.style.color
}

fn labels(min: f64, max: f64) -> Vec<String> {
    time_axis_labels(d(min), d(max)).unwrap()
}

fn entry(timestamp: f64, percentage: f32, drain_rate: f32) -> LogEntry {
    LogEntry {
        timestamp: d(timestamp),
        percentage: s(percentage),
        drain_rate: s(drain_rate),
        cpu_usage: s(98.25),
        memory_usage: s(42.125),
        cpu_temp: s(72.5),
        battery_temp: s(38.25),
        clock_time: "14:32:45".to_string(),
    }
}

fn noon() -> LocalTime {
    LocalTime { year: 2026, month: 1, day: 14, hour: 12, minute: 0, second: 1, nanosecond: 0 }
}

fn app(entries: Vec<LogEntry>) -> App {
    App { data: entries, log_filename: "run.csv".to_string() }
}

fn dashboard(entries: Vec<LogEntry>) -> Dashboard {
    ui_drain(&app(entries), false, false, d(61.0), None, &noon()).unwrap()
}

fn recording() -> PlotData {
    let mut data = PlotData::new();
    data.push(entry(5.0, 90.0, 0.0));
    data.push(entry(35.0, 89.5, 1.0));
    data.push(entry(65.0, 88.0, 4.0));
    data
}

#[test]
fn the_splash_shows_the_title() {
    let spans = ui_splash();
    assert_eq!(spans.len(), 15);
    let rows = banner_lines();
    for i in 0..11 {
        assert_eq!(spans[i].text, rows[i]);
        assert!(spans[i].style == Style { color: Some(Color::Cyan), bold: true });
    }
    assert_eq!(spans[11].text, "");
    assert_eq!(spans[12].text, TAGLINE);
    assert!(spans[12].style == Style { color: Some(Color::Gray), bold: false });
    assert_eq!(spans[13].text, "");
    assert_eq!(spans[14].text, "Press any key to begin  ▸");
    assert!(spans[14].style == Style { color: Some(Color::Yellow), bold: true });
}

#[test]
fn the_header_tells_the_state_of_the_load() {
    let name = "⚡  B A T T E R Y   D R A I N E R  ⚡";
    let running = header_widget(false, false);
    assert_eq!(running.len(), 2);
    assert_eq!(text(&running[0]), name);
    assert_eq!(text(&running[1]), TAGLINE);
    let paused = header_widget(true, false);
    assert_eq!(text(&paused[0]), format!("{}   ⏸ LOAD PAUSED", name));
    assert_eq!(color(&paused[0][1]), Some(Color::Yellow));
    for state in [true, false] {
        let monitoring = header_widget(state, true);
        assert_eq!(text(&monitoring[0]), format!("{}   [MONITOR ONLY]", name));
        assert_eq!(color(&monitoring[0][1]), Some(Color::Blue));
    }
}

#[test]
fn the_percentage_axis_is_labelled_every_five_percent() {
    let labels = percent_axis_labels();
    assert_eq!(labels.len(), 21);
    assert_eq!(labels[0], "  0%");
    assert_eq!(labels[1], "  5%");
    assert_eq!(labels[2], " 10%");
    assert_eq!(labels[20], "100%");
}

#[test]
fn the_time_axis_is_labelled_at_round_times() {
    assert_eq!(labels(0.0, 60.0), ["0s", "10s", "20s", "30s", "40s", "50s", "60s"]);
    assert_eq!(labels(5.0, 65.0), ["10s", "20s", "30s", "40s", "50s", "60s"]);
    assert_eq!(labels(0.0, 61.0), ["0s", "30s", "60s"]);
    assert_eq!(labels(100.0, 400.0).len(), 10);
    assert_eq!(labels(0.0, 301.0), ["0s", "60s", "120s", "180s", "240s", "300s"]);
    assert_eq!(labels(-15.0, 5.0), ["-10s", "0s"]);
}

#[test]
fn labels_are_the_multiples_of_the_step_within_the_axis() {
    for (min, max, step) in [
        (0.5, 59.5, 10),
        (29.999, 30.001, 10),
        (100.0, 160.0, 10),
        (7.25, 300.0, 30),
        (90.0, 390.0, 30),
        (1.0, 7200.5, 60),
        (1e15, 1e15 + 1000.0, 60),
        (-15.0, 5.0, 10),
        (-30.0, 30.0, 10),
        (-30.001, -9.999, 10),
        (-299.5, -0.5, 30),
        (-3600.0, 1800.5, 60),
        (-1e15, -1e15 + 1000.0, 60),
        (-1e-300, 15.0, 10),
    ] {
        let first = (min / step as f64).floor() as i64;
        let last = (max / step as f64).ceil() as i64;
        let expected: Vec<String> = (first..=last)
            .map(|k| k * step)
            .filter(|n| min <= *n as f64 && *n as f64 <= max)
            .map(|n| format!("{}s", n))
            .collect();
        assert_eq!(labels(min, max), expected);
    }
}

#[test]
fn an_axis_that_starts_at_negative_zero_keeps_the_sign() {
    assert_eq!(labels(-0.0, 20.0), ["-0s", "10s", "20s"]);
    assert_eq!(labels(0.0, 20.0), ["0s", "10s", "20s"]);
    // Half of the step, counted in the smallest numbers there are, still rounds to zero.
    let before = |steps: u64| -f64::from_bits(steps);
    assert_eq!(labels(before(5), 20.0), ["-0s", "10s", "20s"]);
    assert_eq!(labels(before(6), 20.0), ["0s", "10s", "20s"]);
    assert_eq!(labels(before(30), 301.0)[..2], ["-0s", "60s"]);
    assert_eq!(labels(before(31), 301.0)[..2], ["0s", "60s"]);
}

#[test]
fn a_short_time_axis_is_labelled_at_its_ends() {
    assert_eq!(labels(1.0, 2.4), ["1s", "2s"]);
    assert_eq!(labels(3.0, 2.0), ["3s", "2s"]);
    assert_eq!(labels(f64::NAN, 2.0), ["NaNs", "2s"]);
    assert_eq!(labels(1.5, f64::NAN), ["2s", "NaNs"]);
}

#[test]
fn a_time_axis_too_far_out_cannot_be_labelled() {
    assert!(time_axis_labels(d(1e300), d(2e300)).is_none());
    assert!(time_axis_labels(d(1e300), d(f64::INFINITY)).is_none());
    assert!(time_axis_labels(d(f64::NEG_INFINITY), d(0.0)).is_none());
    let far_out = ui_drain(
        &app(vec![entry(1e300, 50.0, 1.0), entry(2e300, 50.0, 1.0)]),
        false,
        false,
        d(61.0),
        None,
        &noon(),
    );
    assert!(far_out.is_none());
    // Labels still are found some millions of years after the start.
    let far = 2.0f64.powi(49);
    assert!(time_axis_labels(d(far - 64.0), d(far)).is_some());
}

#[test]
fn sessions_span_at_least_a_second() {
    let bounds = |points: &[(f64, f64)]| {
        let (min, max) = session_bounds(&curve(points));
        (f64_of(min), f64_of(max))
    };
    assert_eq!(bounds(&[]), (0.0, 60.0));
    assert_eq!(bounds(&[(5.0, 1.0)]), (5.0, 6.0));
    assert_eq!(bounds(&[(5.0, 1.0), (5.5, 1.0)]), (5.0, 6.0));
    assert_eq!(bounds(&[(5.0, 1.0), (7.5, 1.0)]), (5.0, 7.5));
}

#[test]
fn drain_rates_are_scaled_to_the_axis() {
    assert_eq!(f64_of(max_drain_rate(&[])), 1.0);
    assert_eq!(f64_of(max_drain_rate(&curve(&[(0.0, 0.5)]))), 1.0);
    let rates = curve(&[(0.0, 0.5), (1.0, 4.0), (2.0, 3.0)]);
    let full = max_drain_rate(&rates);
    assert_eq!(f64_of(full), 4.0);
    let scaled = floats(&normalized_drain_rates(&rates, full));
    assert_eq!(scaled, [(0.0, 12.5), (1.0, 100.0), (2.0, 75.0)]);
    for i in 1..200 {
        let rates = curve(&[(0.0, 1.0 / i as f64), (1.0, i as f64 / 7.0)]);
        for point in floats(&normalized_drain_rates(&rates, max_drain_rate(&rates))) {
            assert!((0.0..=100.0).contains(&point.1));
        }
    }
}

#[test]
fn the_dashboard_shows_the_last_entry() {
    let view = dashboard(vec![entry(1.0, 63.0, 1.0), entry(31.0, 62.5, 1.25)]);
    assert_eq!(
        text(&view.clock),
        "Elapsed: 0h 01m 01s  |  Time: 14:32:45  |  CPU Temp: 72.5°C  |  Battery Temp: 38.2°C"
    );
    assert_eq!(
        text(&view.drain),
        "Drain Rate: 1.25%/min  |  Avg: 1.12%/min  |  Est. Remaining: 0h 55m 33s"
    );
    assert_eq!(view.battery.title, "Battery");
    assert_eq!(view.battery.label, "62.5%");
    assert_eq!(f64_of(view.battery.ratio), 0.625);
    assert!(view.battery.color == Color::Yellow);
    assert_eq!(view.cpu.title, "CPU");
    assert_eq!(view.cpu.label, "98.2%");
    assert_eq!(f64_of(view.cpu.ratio), 98.25 / 100.0);
    assert!(view.cpu.color == Color::Blue);
    assert_eq!(view.memory.title, "Memory");
    assert_eq!(view.memory.label, "42.1%");
    assert_eq!(f64_of(view.memory.ratio), 42.125 / 100.0);
    assert!(view.memory.color == Color::Magenta);
    assert_eq!(
        text(&view.status),
        "q:quit  space/p:pause load  || B% DR CPU MEM || run.csv"
    );
    assert!(view.status[view.status.len() - 1].style == Style { color: None, bold: true });
}

#[test]
fn the_dashboard_of_an_empty_session_shows_the_time() {
    let view = ui_drain(&app(vec![]), true, true, d(0.0), Some(d(900.0)), &noon()).unwrap();
    assert_eq!(
        text(&view.clock),
        "Elapsed: 0h 00m 00s / 0h 15m 00s  |  Time: 12:00:01  |  CPU Temp: 0.0°C  |  Battery Temp: N/A"
    );
    assert_eq!(
        text(&view.drain),
        "Drain Rate: 0.00%/min  |  Avg: 0.00%/min  |  Est. Remaining: Calculating..."
    );
    assert_eq!(view.battery.label, "0.0%");
    assert!(view.battery.color == Color::Red);
    assert_eq!(text(&view.status), "q:quit  || B% DR CPU MEM || run.csv");
    assert_eq!(f64_of(view.chart.x_axis.min), 0.0);
    assert_eq!(f64_of(view.chart.x_axis.max), 60.0);
    assert_eq!(view.chart.x_axis.labels.len(), 7);
}

#[test]
fn the_live_chart_has_four_curves() {
    let view = dashboard(vec![entry(1.0, 63.0, 1.0), entry(31.0, 62.5, 4.0)]);
    let chart = &view.chart;
    assert_eq!(chart.title, "Real-time Analysis");
    let names: Vec<&str> = chart.curves.iter().map(|c| c.name.as_str()).collect();
    assert_eq!(names, ["Battery %", "Drain Rate", "CPU %", "Memory %"]);
    let colors: Vec<Color> = chart.curves.iter().map(|c| c.color).collect();
    assert_eq!(colors, [Color::Green, Color::Red, Color::Blue, Color::Magenta]);
    assert_eq!(floats(&chart.curves[0].points), [(1.0, 63.0), (31.0, 62.5)]);
    assert_eq!(floats(&chart.curves[1].points), [(1.0, 25.0), (31.0, 100.0)]);
    assert_eq!(floats(&chart.curves[2].points), [(1.0, 98.25), (31.0, 98.25)]);
    assert_eq!(floats(&chart.curves[3].points), [(1.0, 42.125), (31.0, 42.125)]);
    assert_eq!(chart.x_axis.title, "Time (s)");
    assert!(chart.x_axis.color == Color::Gray);
    assert_eq!(chart.x_axis.labels, ["10s", "20s", "30s"]);
    assert_eq!(chart.y_axis.title, "%");
    assert!(chart.y_axis.color == Color::Yellow);
    assert_eq!((f64_of(chart.y_axis.min), f64_of(chart.y_axis.max)), (0.0, 100.0));
    assert_eq!(chart.y_axis.labels.len(), 21);
}

#[test]
fn colors_follow_charge_and_heat() {
    let charges = [
        (75.5, Color::Green),
        (75.0, Color::Yellow),
        (50.0, Color::Orange),
        (25.0, Color::Red),
    ];
    for (percentage, expected) in charges {
        assert!(dashboard(vec![entry(0.0, percentage, 0.0)]).battery.color == expected);
    }
    let heats = [
        (80.5, 45.5, Color::Red),
        (80.0, 45.0, Color::Yellow),
        (60.5, 35.5, Color::Yellow),
        (60.0, 35.0, Color::Green),
    ];
    for (cpu, battery, expected) in heats {
        let mut e = entry(0.0, 50.0, 0.0);
        e.cpu_temp = s(cpu);
        e.battery_temp = s(battery);
        let view = dashboard(vec![e]);
        assert_eq!(color(&view.clock[7]), Some(expected));
        assert_eq!(color(&view.clock[10]), Some(expected));
    }
}

#[test]
fn usage_gauges_are_in_range() {
    let mut e = entry(0.0, 100.0, 0.0);
    e.cpu_usage = s(101.5);
    e.memory_usage = s(f32::NAN);
    let view = dashboard(vec![e]);
    assert_eq!(f64_of(view.battery.ratio), 1.0);
    assert_eq!(f64_of(view.cpu.ratio), 1.0);
    assert_eq!(view.cpu.label, "101.5%");
    assert_eq!(f64_of(view.memory.ratio), 1.0);
    for usage in [0.0, -0.0, f32::MIN_POSITIVE, 50.0, f32::INFINITY] {
        let mut e = entry(0.0, 100.0, 0.0);
        e.cpu_usage = s(usage);
        let ratio = f64_of(dashboard(vec![e]).cpu.ratio);
        assert!((0.0..=1.0).contains(&ratio));
    }
}

#[test]
fn the_static_view_plots_everything() {
    let view = ui_plot(&recording(), &PlaybackState::new()).unwrap();
    assert_eq!(text(&view.status), "STATIC VIEW  |    |  Total: 3 samples  |  Speed: 1.00x");
    assert_eq!(text(&view.values), "Press 'v' to toggle playback mode");
    assert_eq!(view.chart.title, "Historical Data (Static)");
    assert_eq!(
        floats(&view.chart.curves[0].points),
        [(5.0, 90.0), (35.0, 89.5), (65.0, 88.0)]
    );
    assert_eq!(
        floats(&view.chart.curves[1].points),
        [(5.0, 0.0), (35.0, 25.0), (65.0, 100.0)]
    );
    assert_eq!(f64_of(view.chart.x_axis.min), 5.0);
    assert_eq!(f64_of(view.chart.x_axis.max), 65.0);
    assert_eq!(
        text(&view.controls),
        "v:view Space:play/pause +/-:speed ←/→:skip Home/End:jump r:reset speed q:quit"
    );
}

#[test]
fn the_static_view_of_an_empty_recording_is_an_empty_minute() {
    let view = ui_plot(&PlotData::new(), &PlaybackState::new()).unwrap();
    assert_eq!(text(&view.status), "STATIC VIEW  |    |  Total: 0 samples  |  Speed: 1.00x");
    assert_eq!(text(&view.values), "Press 'v' to toggle playback mode");
    for curve in &view.chart.curves {
        assert!(curve.points.is_empty());
    }
    assert_eq!(f64_of(view.chart.x_axis.min), 0.0);
    assert_eq!(f64_of(view.chart.x_axis.max), 60.0);
    assert_eq!(view.chart.x_axis.labels.len(), 7);
}

#[test]
fn the_static_view_does_not_look_at_the_position() {
    for position in [0, 2, 3, usize::MAX] {
        let mut playback = PlaybackState::new();
        playback.position = position;
        let view = ui_plot(&recording(), &playback).unwrap();
        assert_eq!(text(&view.status), "STATIC VIEW  |    |  Total: 3 samples  |  Speed: 1.00x");
        for curve in &view.chart.curves {
            assert_eq!(curve.points.len(), 3);
        }
        assert_eq!(f64_of(view.chart.x_axis.max), 65.0);
    }
}

#[test]
fn the_playback_view_plots_up_to_its_position() {
    let mut playback = PlaybackState::new();
    playback.static_view = false;
    playback.position = 1;
    let data = recording();
    let view = ui_plot(&data, &playback).unwrap();
    assert_eq!(text(&view.status), "PLAYBACK  |  ⏸ Paused  |  2/3  |  Speed: 1.00x");
    assert_eq!(color(&view.status[2]), Some(Color::Yellow));
    assert_eq!(
        text(&view.values),
        "Time: 35s  |  Battery: 89.5%  |  Drain: 1.00%/min  |  CPU: 98.2%  |  Mem: 42.1%  |  CPU°: 72.5°C"
    );
    assert_eq!(view.chart.title, "Historical Data (Playback)");
    assert_eq!(floats(&view.chart.curves[0].points), [(5.0, 90.0), (35.0, 89.5)]);
    // Rates are measured against the highest of the whole recording.
    assert_eq!(floats(&view.chart.curves[1].points), [(5.0, 0.0), (35.0, 25.0)]);
    assert_eq!(f64_of(view.chart.x_axis.min), 0.0);
    assert_eq!(f64_of(view.chart.x_axis.max), 35.0);
    playback.position = 2;
    playback.playing = true;
    let later = ui_plot(&data, &playback).unwrap();
    assert_eq!(color(&later.status[2]), Some(Color::Green));
    for i in 0..4 {
        let (before, after) = (&view.chart.curves[i].points, &later.chart.curves[i].points);
        assert_eq!(floats(before), floats(after)[..2]);
    }
}
