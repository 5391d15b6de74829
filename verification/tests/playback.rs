use battery_drainer::control::Key;
use battery_drainer::log::LogEntry;
use battery_drainer::number::{Double, Single};
use battery_drainer::playback::{PlaybackAction, PlaybackState, PlotData};

fn d(x: f64) -> Double {
    Double::from_bits(x.to_bits())
}

fn s(x: f32) -> Single {
    Single::from_bits(x.to_bits())
}

fn f64_of(x: Double) -> f64 {
    f64::from_bits(x.to_bits())
}

fn entry(timestamp: f64, value: f32) -> LogEntry {
    LogEntry {
        timestamp: d(timestamp),
        percentage: s(value),
        drain_rate: s(value + 1.0),
        cpu_usage: s(value + 2.0),
        memory_usage: s(value + 3.0),
        cpu_temp: s(value + 4.0),
        battery_temp: s(value + 5.0),
        clock_time: "12:00:00".to_string(),
    }
}

fn playing(position: usize) -> PlaybackState {
    PlaybackState { position, playing: true, speed: d(1.0), static_view: false }
}

fn key_at(state: &mut PlaybackState, key: char) -> PlaybackAction {
    state.on_key(Key::Char(key), 50)
}

#[test]
fn plot_data_has_a_point_for_each_record() {
    let mut data = PlotData::new();
    assert!(data.is_empty());
    data.push(entry(1.5, 10.0));
    data.push(entry(2.5, 20.1));
    assert!(!data.is_empty());
    assert_eq!(data.entries.len(), 2);
    let curves = [
        (&data.percentages, 0.0f32),
        (&data.drain_rates, 1.0),
        (&data.cpu_usage, 2.0),
        (&data.memory_usage, 3.0),
        (&data.cpu_temp, 4.0),
        (&data.battery_temp, 5.0),
    ];
    for (curve, offset) in curves {
        assert_eq!(curve.len(), 2);
        assert_eq!(f64_of(curve[0].0), 1.5);
        assert_eq!(f64_of(curve[0].1), (10.0f32 + offset) as f64);
        assert_eq!(f64_of(curve[1].0), 2.5);
        assert_eq!(f64_of(curve[1].1), (20.1f32 + offset) as f64);
    }
}

#[test]
fn playback_starts_halted_in_the_static_view() {
    let state = PlaybackState::new();
    assert_eq!(state.position, 0);
    assert!(!state.playing);
    assert!(state.static_view);
    assert_eq!(f64_of(state.speed), 1.0);
}

#[test]
fn speed_doubles_and_halves_within_its_limits() {
    let mut state = PlaybackState::new();
    let mut speeds = Vec::new();
    for _ in 0..8 {
        assert!(key_at(&mut state, '+') == PlaybackAction::Continue);
        speeds.push(f64_of(state.speed));
    }
    assert_eq!(speeds, [2.0, 4.0, 8.0, 16.0, 32.0, 64.0, 64.0, 64.0]);
    assert!(key_at(&mut state, 'r') == PlaybackAction::Continue);
    assert_eq!(f64_of(state.speed), 1.0);
    speeds.clear();
    for _ in 0..4 {
        assert!(key_at(&mut state, '-') == PlaybackAction::Continue);
        speeds.push(f64_of(state.speed));
    }
    assert_eq!(speeds, [0.5, 0.25, 0.25, 0.25]);
    key_at(&mut state, '=');
    assert_eq!(f64_of(state.speed), 0.5);
    key_at(&mut state, '-');
    assert_eq!(f64_of(state.speed), 0.25);
}

#[test]
fn the_static_view_takes_no_playback_keys() {
    let mut state = PlaybackState::new();
    for key in [Key::Char(' '), Key::Left, Key::Right, Key::Home, Key::End, Key::Other] {
        assert!(state.on_key(key, 50) == PlaybackAction::Continue);
        assert_eq!(state.position, 0);
        assert!(!state.playing);
        assert!(state.static_view);
    }
}

#[test]
fn the_view_toggles_and_starts_at_the_beginning() {
    let mut state = playing(30);
    assert!(key_at(&mut state, 'v') == PlaybackAction::Continue);
    assert!(state.static_view);
    assert_eq!(state.position, 30);
    assert!(key_at(&mut state, 'v') == PlaybackAction::RestartClock);
    assert!(!state.static_view);
    assert_eq!(state.position, 0);
    assert!(state.playing);
}

#[test]
fn space_plays_and_pauses() {
    let mut state = playing(3);
    assert!(key_at(&mut state, ' ') == PlaybackAction::RestartClock);
    assert!(!state.playing);
    assert!(key_at(&mut state, ' ') == PlaybackAction::RestartClock);
    assert!(state.playing);
}

#[test]
fn arrows_skip_ten_samples_within_the_recording() {
    let mut state = playing(25);
    assert!(state.on_key(Key::Right, 50) == PlaybackAction::RestartClock);
    assert_eq!(state.position, 35);
    state.on_key(Key::Left, 50);
    assert_eq!(state.position, 25);
    state.on_key(Key::Right, 50);
    state.on_key(Key::Right, 50);
    assert_eq!(state.position, 45);
    state.on_key(Key::Right, 50);
    assert_eq!(state.position, 49);
    state.on_key(Key::Home, 50);
    assert_eq!(state.position, 0);
    state.on_key(Key::Left, 50);
    assert_eq!(state.position, 0);
    state.on_key(Key::End, 50);
    assert_eq!(state.position, 49);
    let mut state = playing(39);
    state.on_key(Key::Right, 50);
    assert_eq!(state.position, 49);
}

#[test]
fn q_quits_and_other_keys_do_nothing() {
    let mut state = playing(7);
    assert!(key_at(&mut state, 'q') == PlaybackAction::Quit);
    assert!(key_at(&mut state, 'x') == PlaybackAction::Continue);
    assert_eq!(state.position, 7);
    assert!(state.playing && !state.static_view);
}

#[test]
fn playback_moves_on_in_recorded_time() {
    let entries = vec![entry(0.0, 1.0), entry(2.0, 1.0), entry(3.0, 1.0)];
    let mut state = playing(0);
    assert!(!state.advance(&entries, d(1.9)));
    assert_eq!(state.position, 0);
    assert!(state.advance(&entries, d(2.0)));
    assert_eq!(state.position, 1);
    // Twice as fast, half the time is enough.
    key_at(&mut state, '+');
    assert!(!state.advance(&entries, d(0.4)));
    assert!(state.advance(&entries, d(0.5)));
    assert_eq!(state.position, 2);
    // The last entry is the end.
    assert!(!state.advance(&entries, d(100.0)));
    assert_eq!(state.position, 2);
}

#[test]
fn playback_stands_still_when_halted_or_static() {
    let entries = vec![entry(0.0, 1.0), entry(2.0, 1.0)];
    let mut state = PlaybackState { playing: false, ..playing(0) };
    assert!(!state.advance(&entries, d(100.0)));
    let mut state = PlaybackState { static_view: true, ..playing(0) };
    assert!(!state.advance(&entries, d(100.0)));
    assert_eq!(state.position, 0);
    // A time that is not a number never comes.
    let entries = vec![entry(f64::NAN, 1.0), entry(2.0, 1.0)];
    assert!(!playing(0).advance(&entries, d(100.0)));
}
