use battery_drainer::banner::{banner_lines, TAGLINE};
use battery_drainer::headless::{intro_lines, plan_line, status_line};
use battery_drainer::log::LogEntry;
use battery_drainer::number::{Double, Single};

fn d(x: f64) -> Double {
    Double::from_bits(x.to_bits())
}

fn s(x: f32) -> Single {
    Single::from_bits(x.to_bits())
}

fn entry(percentage: f32, drain_rate: f32, battery_temp: f32) -> LogEntry {
    LogEntry {
        timestamp: d(10.0),
        percentage: s(percentage),
        drain_rate: s(drain_rate),
        cpu_usage: s(99.0),
        memory_usage: s(41.0),
        cpu_temp: s(72.0),
        battery_temp: s(battery_temp),
        clock_time: "12:00:00".to_string(),
    }
}

#[test]
fn the_intro_shows_title_and_description() {
    let lines = intro_lines();
    assert_eq!(lines.len(), 14);
    assert_eq!(lines[..11], banner_lines()[..]);
    assert_eq!(lines[11..], ["", TAGLINE, ""]);
}

#[test]
fn the_plan_tells_what_a_session_will_do() {
    assert_eq!(
        plan_line(false, 16, Some(d(600.0))),
        "Mode: drain  |  load threads: 16  |  duration: 0h 10m 00s"
    );
    assert_eq!(
        plan_line(true, 16, None),
        "Mode: monitor-only  |  load threads: 0 (monitoring)  |  duration: until Ctrl-C"
    );
}

#[test]
fn the_status_line_has_columns() {
    assert_eq!(
        status_line(&[entry(82.0, 0.0, 38.0)], d(10.0)),
        "[0h 00m 10s]  Battery  82.0%  Drain  0.00%/min (avg  0.00)  CPU  99%  Mem  41%  CPU  72°C  Batt 38°C"
    );
    assert_eq!(
        status_line(&[entry(100.0, 1.0, 38.0), entry(100.0, 12.346, 0.0)], d(3725.9)),
        "[1h 02m 05s]  Battery 100.0%  Drain 12.35%/min (avg  6.67)  CPU  99%  Mem  41%  CPU  72°C  Batt N/A"
    );
}

#[test]
fn the_status_line_waits_for_a_battery() {
    assert_eq!(
        status_line(&[], d(1.5)),
        "[0h 00m 01s]  waiting for first battery reading..."
    );
}
