use battery_drainer::log::{
    average_drain_rate, estimate_time_remaining, format_hms, format_temperature_or_none, sum_of,
    summarize, LogEntry,
};
use battery_drainer::number::{Double, Single};

fn d(x: f64) -> Double {
    Double::from_bits(x.to_bits())
}

fn s(x: f32) -> Single {
    Single::from_bits(x.to_bits())
}

fn f32_of(x: Single) -> f32 {
    f32::from_bits(x.to_bits())
}

fn f64_of(x: Double) -> f64 {
    f64::from_bits(x.to_bits())
}

fn entry(timestamp: f64, percentage: f32, drain_rate: f32) -> LogEntry {
    LogEntry {
        timestamp: d(timestamp),
        percentage: s(percentage),
        drain_rate: s(drain_rate),
        cpu_usage: s(90.0),
        memory_usage: s(40.0),
        cpu_temp: s(70.0),
        battery_temp: s(35.0),
        clock_time: "12:00:00".to_string(),
    }
}

#[test]
fn format_hms_formats_hours_minutes_seconds() {
    assert_eq!(format_hms(d(0.0)), "0h 00m 00s");
    assert_eq!(format_hms(d(65.0)), "0h 01m 05s");
    assert_eq!(format_hms(d(3725.0)), "1h 02m 05s");
    // Negative durations clamp to zero rather than panic.
    assert_eq!(format_hms(d(-10.0)), "0h 00m 00s");
}

#[test]
fn average_drain_rate_is_the_mean() {
    let data = vec![
        entry(0.0, 100.0, 1.0),
        entry(1.0, 99.0, 2.0),
        entry(2.0, 98.0, 3.0),
    ];
    assert!((f32_of(average_drain_rate(&data)) - 2.0).abs() < 1e-6);
    assert_eq!(f32_of(average_drain_rate(&[])), 0.0);
}

#[test]
fn estimate_time_remaining_handles_no_drain() {
    assert_eq!(estimate_time_remaining(s(50.0), s(0.0)), "Calculating...");
    // 50% at 2%/min = 25 minutes.
    assert_eq!(estimate_time_remaining(s(50.0), s(2.0)), "0h 25m 00s");
}

#[test]
fn summarize_reports_drain_and_peaks() {
    let data = vec![
        entry(0.0, 90.0, 0.0),
        entry(60.0, 88.0, 2.0),
        entry(120.0, 86.0, 2.0),
    ];
    let s = summarize(&data).expect("summary");
    assert_eq!(s.samples, 3);
    assert!((f64_of(s.duration_secs) - 120.0).abs() < 1e-6);
    assert!((f32_of(s.start_pct) - 90.0).abs() < 1e-6);
    assert!((f32_of(s.end_pct) - 86.0).abs() < 1e-6);
    assert!((f32_of(s.drained_pct) - 4.0).abs() < 1e-6);
    assert!((f32_of(s.peak_cpu_usage) - 90.0).abs() < 1e-6);
    // render() should mention the drained amount.
    assert!(s.render().contains("drained 4.0%"));
}

#[test]
fn summarize_empty_is_none() {
    assert!(summarize(&[]).is_none());
}

#[test]
fn format_hms_drops_fractions_and_takes_every_number() {
    assert_eq!(format_hms(d(59.999)), "0h 00m 59s");
    assert_eq!(format_hms(d(3599.5)), "0h 59m 59s");
    assert_eq!(format_hms(d(360000.0)), "100h 00m 00s");
    assert_eq!(format_hms(d(-0.0)), "0h 00m 00s");
    assert_eq!(format_hms(d(f64::NAN)), "0h 00m 00s");
    assert_eq!(format_hms(d(f64::NEG_INFINITY)), "0h 00m 00s");
    // The greatest number of seconds that 64 bits hold.
    assert_eq!(format_hms(d(f64::INFINITY)), "5124095576030431h 00m 15s");
}

#[test]
fn a_single_rate_is_its_own_average() {
    assert_eq!(f32_of(average_drain_rate(&[entry(0.0, 100.0, 0.7)])), 0.7);
    // A negative zero is kept as it is.
    let rate = average_drain_rate(&[entry(0.0, 100.0, -0.0)]);
    assert_eq!(rate.to_bits(), (-0.0f32).to_bits());
}

#[test]
fn sums_are_rounded_at_every_step() {
    let values = [0.1f32, 0.2, 0.3, 1e8, 0.4];
    let ours: Vec<Single> = values.iter().map(|x| s(*x)).collect();
    assert_eq!(sum_of(&ours).to_bits(), values.iter().sum::<f32>().to_bits());
    let none: [f32; 0] = [];
    assert_eq!(sum_of(&[]).to_bits(), none.iter().sum::<f32>().to_bits());
}

#[test]
fn averages_of_rates_that_are_not_negative_are_not_negative() {
    let data = vec![entry(0.0, 100.0, 0.0), entry(1.0, 99.0, 0.0), entry(2.0, 99.0, 0.01)];
    assert!(f32_of(average_drain_rate(&data)) >= 0.0);
    let expected = (0.0f32 + 0.0 + 0.01) / 3.0;
    assert_eq!(f32_of(average_drain_rate(&data)), expected);
}

#[test]
fn rates_up_to_a_hundredth_count_as_no_drain() {
    assert_eq!(estimate_time_remaining(s(50.0), s(0.01)), "Calculating...");
    assert_eq!(estimate_time_remaining(s(50.0), s(f32::NAN)), "Calculating...");
    assert_eq!(estimate_time_remaining(s(50.0), s(-2.0)), "Calculating...");
    // 1% at 0.0100000007...%/min is a bit less than 100 minutes.
    let next_rate = f32::from_bits(0.01f32.to_bits() + 1);
    assert_eq!(estimate_time_remaining(s(1.0), s(next_rate)), "1h 39m 59s");
    assert_eq!(estimate_time_remaining(s(71.0), s(1.4)), "0h 50m 42s");
}

#[test]
fn temperatures_that_were_not_measured_are_not_shown() {
    assert_eq!(format_temperature_or_none(s(38.2), 1), "38.2°C");
    assert_eq!(format_temperature_or_none(s(38.2), 0), "38°C");
    assert_eq!(format_temperature_or_none(s(0.0), 0), "N/A");
    assert_eq!(format_temperature_or_none(s(-3.0), 0), "N/A");
    assert_eq!(format_temperature_or_none(s(f32::NAN), 0), "N/A");
}

#[test]
fn peaks_are_the_greatest_values() {
    let mut data = vec![entry(0.0, 90.0, 0.0), entry(1.0, 90.0, 0.0), entry(2.0, 90.0, 0.0)];
    data[0].cpu_usage = s(12.5);
    data[1].cpu_usage = s(99.5);
    data[2].cpu_usage = s(f32::NAN);
    data[0].cpu_temp = s(-5.0);
    data[1].cpu_temp = s(-6.0);
    data[2].cpu_temp = s(-7.0);
    data[1].battery_temp = s(40.5);
    let summary = summarize(&data).unwrap();
    assert_eq!(f32_of(summary.peak_cpu_usage), 99.5);
    assert_eq!(f32_of(summary.peak_cpu_temp), 0.0);
    assert_eq!(f32_of(summary.peak_battery_temp), 40.5);
}

#[test]
fn summaries_are_rendered_line_by_line() {
    let mut data: Vec<LogEntry> = (0..600).map(|i| entry(i as f64, 80.0, 1.4)).collect();
    data[0].percentage = s(85.0);
    data[599].percentage = s(71.0);
    data[599].timestamp = d(600.0);
    data[300].cpu_usage = s(99.0);
    data[400].cpu_temp = s(88.0);
    data[500].battery_temp = s(39.0);
    let text = summarize(&data).unwrap().render();
    assert_eq!(
        text,
        "==================== Session Summary ====================\n\
         Duration:        0h 10m 00s (600 samples)\n\
         Battery:         85.0% -> 71.0%  (drained 14.0%)\n\
         Avg drain rate:  1.40 %/min\n\
         Est. full drain: 0h 50m 42s\n\
         Peak CPU usage:  99%\n\
         Peak CPU temp:   88°C\n\
         Peak batt temp:  39°C\n\
         ========================================================="
    );
}

#[test]
fn summaries_without_drain_and_battery_temperature() {
    let mut data = vec![entry(10.0, 50.0, 0.0)];
    data[0].battery_temp = s(0.0);
    let text = summarize(&data).unwrap().render();
    assert!(text.contains("Duration:        0h 00m 00s (1 samples)\n"));
    assert!(text.contains("Battery:         50.0% -> 50.0%  (drained 0.0%)\n"));
    assert!(text.contains("Est. full drain: Calculating...\n"));
    assert!(text.contains("Peak batt temp:  N/A\n"));
}
