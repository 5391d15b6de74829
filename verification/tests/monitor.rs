use battery_drainer::clock::LocalTime;
use battery_drainer::log::LogEntry;
use battery_drainer::monitor::{
    cpu_temperature, cpu_usage, drain_rate, first_cpu_label, is_cpu_label, memory_usage, App,
    BatteryReading, Reading, Sensor,
};
use battery_drainer::number::{Double, Single};

fn d(x: f64) -> Double {
    Double::from_bits(x.to_bits())
}

fn s(x: f32) -> Single {
    Single::from_bits(x.to_bits())
}

fn f32_of(x: Single) -> f32 {
    f32::from_bits(x.to_bits())
}

fn f64_of(x: Double) -> f64 {
    f64::from_bits(x.to_bits())
}

fn sensor(label: &str, temperature: f32) -> Sensor {
    Sensor { label: label.to_string(), temperature: s(temperature) }
}

fn entry(timestamp: f64, percentage: f32, drain_rate: f32) -> LogEntry {
    LogEntry {
        timestamp: d(timestamp),
        percentage: s(percentage),
        drain_rate: s(drain_rate),
        cpu_usage: s(90.0),
        memory_usage: s(40.0),
        cpu_temp: s(70.0),
        battery_temp: s(35.0),
        clock_time: "12:00:00".to_string(),
    }
}

fn afternoon() -> LocalTime {
    LocalTime {
        year: 2026,
        month: 1,
        day: 14,
        hour: 14,
        minute: 32,
        second: 56,
        nanosecond: 5,
    }
}

fn reading(battery: Option<BatteryReading>) -> Reading {
    Reading {
        cores: vec![s(90.0), s(100.0)],
        total_memory: 16_000,
        used_memory: 4_000,
        sensors: vec![sensor("nvme Composite", 41.0), sensor("coretemp Package id 0", 72.5)],
        now: afternoon(),
        battery,
    }
}

fn battery(elapsed: f64, percentage: f32, temperature: Option<f32>) -> BatteryReading {
    BatteryReading {
        elapsed: d(elapsed),
        percentage: s(percentage),
        temperature: temperature.map(s),
    }
}

fn rate(data: &[LogEntry], elapsed: f64, percentage: f32) -> f32 {
    f32_of(drain_rate(data, d(elapsed), s(percentage)))
}

#[test]
fn cpu_usage_is_the_average_of_the_cores() {
    assert_eq!(f32_of(cpu_usage(&[])), 0.0);
    assert_eq!(f32_of(cpu_usage(&[s(99.5)])), 99.5);
    assert_eq!(f32_of(cpu_usage(&[s(10.0), s(20.0), s(70.0)])), (10.0f32 + 20.0 + 70.0) / 3.0);
}

#[test]
fn memory_usage_is_a_percentage() {
    assert_eq!(f32_of(memory_usage(0, 0)), 0.0);
    assert_eq!(f32_of(memory_usage(0, 5)), 0.0);
    assert_eq!(f32_of(memory_usage(16, 4)), 25.0);
    assert_eq!(f32_of(memory_usage(u64::MAX, u64::MAX)), 100.0);
    let expected = (1_234_567.0f64 / 9_876_543.0 * 100.0) as f32;
    assert_eq!(f32_of(memory_usage(9_876_543, 1_234_567)), expected);
}

#[test]
fn sensors_of_the_processor_are_known_by_their_label() {
    for label in ["core 0", "x cpu y", "k10temp", "tctl", "score"] {
        assert!(is_cpu_label(label), "{}", label);
    }
    for label in ["", "cor", "Core 0", "gpu", "k10", "nvme", "tct l"] {
        assert!(!is_cpu_label(label), "{}", label);
    }
    let labels = ["nvme".to_string(), "cpu".to_string(), "core".to_string()];
    assert_eq!(first_cpu_label(&labels), Some(1));
    assert_eq!(first_cpu_label(&labels[..1]), None);
    assert_eq!(first_cpu_label(&[]), None);
}

#[test]
fn the_first_sensor_of_the_processor_counts_whatever_its_case() {
    assert_eq!(f32_of(cpu_temperature(&[])), 0.0);
    assert_eq!(f32_of(cpu_temperature(&[sensor("GPU", 55.0)])), 0.0);
    assert_eq!(f32_of(cpu_temperature(&[sensor("GPU", 55.0), sensor("Core 0", 61.0)])), 61.0);
    assert_eq!(f32_of(cpu_temperature(&[sensor("K10TEMP", 62.0), sensor("cpu", 63.0)])), 62.0);
    assert_eq!(f32_of(cpu_temperature(&[sensor("Tctl", 64.0)])), 64.0);
    assert_eq!(f32_of(cpu_temperature(&[sensor("CPU Package", 65.0)])), 65.0);
}

#[test]
fn the_first_reading_has_no_rate() {
    assert_eq!(rate(&[], 100.0, 50.0), 0.0);
}

#[test]
fn the_rate_is_measured_over_thirty_seconds() {
    let data: Vec<LogEntry> = (0..60).map(|i| entry(i as f64, 90.0 - i as f32 * 0.5, 0.0)).collect();
    // 30 seconds before 60.0 the charge was 75.0.
    assert_eq!(rate(&data, 60.0, 60.0), (15.0f32 as f64 / 30.0 * 60.0) as f32);
    // A little later, the entry at 30.0 still is the newest that is old enough.
    assert_eq!(rate(&data, 60.5, 60.0), (15.0f32 as f64 / 30.5 * 60.0) as f32);
    // With less than 30 seconds recorded it is the oldest.
    assert_eq!(rate(&data[..10], 10.0, 85.0), (5.0f32 as f64 / 10.0 * 60.0) as f32);
    assert_eq!(rate(&data[..10], 29.9, 85.0), (5.0f32 as f64 / 29.9 * 60.0) as f32);
}

#[test]
fn the_last_known_rate_is_kept_without_drain() {
    let data = vec![
        entry(0.0, 80.0, 0.0),
        entry(1.0, 80.0, 1.5),
        entry(2.0, 80.0, 1.25),
        entry(3.0, 80.0, 0.01),
    ];
    assert_eq!(rate(&data, 4.0, 80.0), 1.25);
    // Charging counts as no drain.
    assert_eq!(rate(&data, 4.0, 95.0), 1.25);
    assert_eq!(rate(&data[..1], 4.0, 80.0), 0.0);
}

#[test]
fn nothing_is_measured_within_half_a_second() {
    let data = vec![entry(0.0, 80.0, 2.0)];
    assert_eq!(rate(&data, 0.5, 79.0), 0.0);
    assert_eq!(rate(&data, 0.5, 80.0), 0.0);
    assert_eq!(rate(&data, 0.75, 79.0), (1.0f64 / 0.75 * 60.0) as f32);
    assert_eq!(rate(&data, 0.75, 80.0), 2.0);
}

#[test]
fn no_recorded_rate_is_negative() {
    let mut app = App::new(Some("x.csv".to_string()), &afternoon());
    for (i, percentage) in [50.0, 49.5, 60.0, 20.0, 80.0, 79.0].iter().enumerate() {
        app.on_tick(reading(Some(battery(7.0 * i as f64, *percentage, None))));
    }
    assert_eq!(app.data.len(), 6);
    for e in &app.data {
        assert!(f32_of(e.drain_rate) >= 0.0);
    }
}

#[test]
fn rates_stay_in_range_whatever_the_clock_does() {
    // A full battery that is empty just over half a second later.
    let data = vec![entry(0.0, 100.0, 0.0)];
    let soon = f64::from_bits(0.5f64.to_bits() + 1);
    assert_eq!(rate(&data, soon, 0.0), 12000.0);
    let mut app = App::new(None, &afternoon());
    let ticks = [
        (0.0, 100.0),
        (0.6, 0.0),
        (0.5, 70.0),
        (f64::NAN, 60.0),
        (1e300, 0.0),
        (-5.0, 100.0),
        (f64::INFINITY, 1.0),
        (2.0, 99.0),
    ];
    for (elapsed, percentage) in ticks {
        app.on_tick(reading(Some(battery(elapsed, percentage, None))));
    }
    for e in &app.data {
        assert!((0.0..=12000.0).contains(&f32_of(e.drain_rate)));
    }
}

#[test]
fn the_log_is_named_after_the_start() {
    assert_eq!(App::new(None, &afternoon()).log_filename, "drain_log_20260114_143256.csv");
    let app = App::new(Some("my_run.csv".to_string()), &afternoon());
    assert_eq!(app.log_filename, "my_run.csv");
    assert!(app.data.is_empty());
}

#[test]
fn ticks_record_what_the_machine_reports() {
    let mut app = App::new(None, &afternoon());
    assert!(app.on_tick(reading(Some(battery(0.0, 85.5, Some(32.5))))));
    assert!(app.on_tick(reading(Some(battery(30.0, 85.0, None)))));
    assert_eq!(app.data.len(), 2);
    let first = &app.data[0];
    assert_eq!(f64_of(first.timestamp), 0.0);
    assert_eq!(f32_of(first.percentage), 85.5);
    assert_eq!(f32_of(first.drain_rate), 0.0);
    assert_eq!(f32_of(first.cpu_usage), 95.0);
    assert_eq!(f32_of(first.memory_usage), 25.0);
    assert_eq!(f32_of(first.cpu_temp), 72.5);
    assert_eq!(f32_of(first.battery_temp), 32.5);
    assert_eq!(first.clock_time, "14:32:56");
    let second = &app.data[1];
    assert_eq!(f32_of(second.drain_rate), 1.0);
    assert_eq!(f32_of(second.battery_temp), 0.0);
}

#[test]
fn ticks_without_a_battery_record_nothing() {
    let mut app = App::new(None, &afternoon());
    assert!(!app.on_tick(reading(None)));
    assert!(app.data.is_empty());
    assert!(app.closing_report().is_none());
}

#[test]
fn the_closing_report_tells_where_the_log_is() {
    let mut app = App::new(Some("my_run.csv".to_string()), &afternoon());
    app.on_tick(reading(Some(battery(1.0, 85.0, Some(30.0)))));
    let report = app.closing_report().unwrap();
    assert!(report.starts_with("\n==================== Session Summary"));
    assert!(report.contains("(1 samples)"));
    assert!(report.ends_with("=====\nLog saved to my_run.csv"));
}
