use battery_drainer::control::{
    headless_step, load_step, splash_over, Args, DrainAction, DrainEvent, DrainLoop,
    HeadlessAction, HeadlessEvent, Key, LoadStep, Mode, SPLASH_TIME, STATUS_EVERY, TICK_RATE,
};
use battery_drainer::number::Double;

fn d(x: f64) -> Double {
    Double::from_bits(x.to_bits())
}

fn args() -> Args {
    Args {
        plot: None,
        headless: false,
        duration: d(0.0),
        threads: None,
        no_load: false,
        output: None,
    }
}

fn target(minutes: f64) -> Option<f64> {
    let args = Args { duration: d(minutes), ..args() };
    args.target_secs().map(|t| f64::from_bits(t.to_bits()))
}

fn polled(key: Option<Key>, since_tick: u128, elapsed: u128) -> DrainEvent {
    DrainEvent::Polled { key, since_tick, elapsed }
}

const SECOND: u128 = 1_000_000_000;

#[test]
fn the_mode_follows_from_the_arguments() {
    assert!(args().mode() == Mode::Drain);
    assert!(Args { headless: true, ..args() }.mode() == Mode::Headless);
    let plot = Some("log.csv".to_string());
    assert!(Args { plot, headless: true, ..args() }.mode() == Mode::Plot);
}

#[test]
fn threads_are_one_per_core_unless_asked_for() {
    assert_eq!(args().num_threads_on(8), 8);
    assert_eq!(Args { threads: Some(4), ..args() }.num_threads_on(8), 4);
    assert_eq!(Args { threads: Some(0), ..args() }.num_threads_on(8), 0);
    assert_eq!(Args { threads: Some(4), ..args() }.num_threads(), 4);
    assert_eq!(args().num_threads(), num_cpus::get());
    assert!(args().num_threads() >= 1);
    assert_eq!(args().threads_to_spawn(8), 8);
    assert_eq!(Args { no_load: true, ..args() }.threads_to_spawn(8), 0);
}

#[test]
fn a_duration_of_zero_means_no_end() {
    assert_eq!(target(0.0), None);
    assert_eq!(target(-1.0), None);
    assert_eq!(target(f64::NAN), None);
    assert_eq!(target(15.0), Some(900.0));
    assert_eq!(target(0.1), Some(0.1 * 60.0));
}

#[test]
fn load_threads_watch_two_flags() {
    assert!(load_step(true, true) == LoadStep::Burn);
    assert!(load_step(true, false) == LoadStep::Idle);
    assert!(load_step(false, true) == LoadStep::Exit);
    assert!(load_step(false, false) == LoadStep::Exit);
}

#[test]
fn the_splash_ends_with_a_key_or_by_itself() {
    assert_eq!(SPLASH_TIME, 2_200_000_000);
    assert!(!splash_over(false, SPLASH_TIME - 1));
    assert!(splash_over(false, SPLASH_TIME));
    assert!(splash_over(true, 0));
}

#[test]
fn the_wait_for_a_key_ends_when_a_reading_is_due() {
    let mut state = DrainLoop::new(false, None);
    assert_eq!(TICK_RATE, SECOND);
    for (since_tick, timeout) in [(0, SECOND), (400_000_000, 600_000_000), (SECOND, 0), (5 * SECOND, 0)] {
        let action = state.step(DrainEvent::Drawn { since_tick });
        assert!(action == DrainAction::Poll { timeout });
    }
}

#[test]
fn readings_are_taken_when_they_are_due() {
    let mut state = DrainLoop::new(false, None);
    assert!(state.step(polled(None, SECOND - 1, 0)) == DrainAction::Draw);
    assert!(state.step(polled(None, SECOND, 0)) == DrainAction::Tick);
    assert!(state.step(polled(Some(Key::Char(' ')), SECOND, 0)) == DrainAction::Tick);
    assert!(state.paused());
    let ticked = DrainEvent::Ticked { failed: false, elapsed: 99 * SECOND };
    assert!(state.step(ticked) == DrainAction::Draw);
}

#[test]
fn space_and_p_pause_and_resume() {
    let mut state = DrainLoop::new(false, None);
    assert!(!state.paused());
    for key in [' ', 'p'] {
        state.step(polled(Some(Key::Char(key)), 0, 0));
        assert!(state.paused());
        assert!(load_step(state.run, state.load_active) == LoadStep::Idle);
        state.step(polled(Some(Key::Char('x')), 0, 0));
        state.step(polled(Some(Key::Left), 0, 0));
        assert!(state.paused());
        state.step(polled(Some(Key::Char(key)), 0, 0));
        assert!(!state.paused());
        assert!(load_step(state.run, state.load_active) == LoadStep::Burn);
    }
}

#[test]
fn monitoring_is_always_paused() {
    let mut state = DrainLoop::new(true, None);
    assert!(state.paused());
    for key in [' ', 'p', ' '] {
        state.step(polled(Some(Key::Char(key)), 0, 0));
        assert!(state.paused());
        assert!(load_step(state.run, state.load_active) != LoadStep::Burn);
    }
}

#[test]
fn quitting_stops_and_wakes_the_threads() {
    let mut state = DrainLoop::new(false, None);
    state.step(polled(Some(Key::Char('p')), 0, 0));
    // Nothing is read any more once `q` is pressed.
    assert!(state.step(polled(Some(Key::Char('q')), SECOND, 0)) == DrainAction::Stop);
    assert!(!state.run && state.load_active);
    assert!(load_step(state.run, state.load_active) == LoadStep::Exit);
}

#[test]
fn a_failed_reading_stops_the_loop() {
    let mut state = DrainLoop::new(false, None);
    let event = DrainEvent::Ticked { failed: true, elapsed: 0 };
    assert!(state.step(event) == DrainAction::Stop);
    assert!(!state.run);
}

#[test]
fn the_loop_stops_at_its_end() {
    let end = Some(60 * SECOND);
    let mut state = DrainLoop::new(false, end);
    assert!(state.step(polled(None, 0, 60 * SECOND - 1)) == DrainAction::Draw);
    let ticked = DrainEvent::Ticked { failed: false, elapsed: 60 * SECOND };
    assert!(state.step(ticked) == DrainAction::Stop);
    let mut state = DrainLoop::new(false, end);
    assert!(state.step(polled(None, 0, 60 * SECOND)) == DrainAction::Stop);
    // A reading that is due is taken first.
    let mut state = DrainLoop::new(false, end);
    assert!(state.step(polled(None, SECOND, 60 * SECOND)) == DrainAction::Tick);
}

#[test]
fn headless_status_lines_come_every_ten_seconds() {
    assert_eq!(STATUS_EVERY, 10 * SECOND);
    let ticked = |since_status| {
        headless_step(None, HeadlessEvent::Ticked { failed: false, since_status, elapsed: 0 })
    };
    assert!(ticked(None) == HeadlessAction::PrintStatus);
    assert!(ticked(Some(10 * SECOND - 1)) == HeadlessAction::Sleep { time: SECOND });
    assert!(ticked(Some(10 * SECOND)) == HeadlessAction::PrintStatus);
    let printed = HeadlessEvent::Printed { elapsed: 0 };
    assert!(headless_step(None, printed) == HeadlessAction::Sleep { time: SECOND });
    assert!(headless_step(None, HeadlessEvent::Slept) == HeadlessAction::Tick);
}

#[test]
fn the_headless_loop_stops_at_its_end_or_on_failure() {
    let end = Some(10 * SECOND);
    let failure = HeadlessEvent::Ticked { failed: true, since_status: None, elapsed: 0 };
    assert!(headless_step(None, failure) == HeadlessAction::Stop);
    let last = HeadlessEvent::Ticked { failed: false, since_status: Some(0), elapsed: 10 * SECOND };
    assert!(headless_step(end, last) == HeadlessAction::Stop);
    assert!(headless_step(None, last) == HeadlessAction::Sleep { time: SECOND });
    // A status line that is due is printed before the end.
    let due = HeadlessEvent::Ticked { failed: false, since_status: None, elapsed: 10 * SECOND };
    assert!(headless_step(end, due) == HeadlessAction::PrintStatus);
    let printed = HeadlessEvent::Printed { elapsed: 10 * SECOND };
    assert!(headless_step(end, printed) == HeadlessAction::Stop);
}
