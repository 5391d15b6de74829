//! What the program does next: the choice of mode, the load threads and the two live loops.
//!
//! Times are counted in nanoseconds.

use vstd::prelude::*;

use crate::number::value::{Real, Width};
use crate::number::Double;

verus! {

/// The time between two readings.
pub const TICK_RATE: u128 = 1_000_000_000;

/// The time between two status lines.
pub const STATUS_EVERY: u128 = 10_000_000_000;

/// The time that the splash screen stays up.
pub const SPLASH_TIME: u128 = 2_200_000_000;

/// A key press.
#[derive(Clone, Copy, PartialEq, Eq, Structural)]
pub enum Key {
    Char(char),
    Left,
    Right,
    Home,
    End,
    Other,
}

/// Command line arguments
pub struct Args {
    /// Plot data from a previously recorded CSV log instead of draining
    pub plot: Option<String>,
    /// Run without the interactive TUI: stream status to stdout (great for SSH/CI)
    pub headless: bool,
    /// Stop automatically after this many minutes (0 = run until you quit)
    pub duration: Double,
    /// Number of CPU load threads to spawn (default: one per logical core)
    pub threads: Option<usize>,
    /// Monitor the battery only — do not spawn CPU load threads
    pub no_load: bool,
    /// Log file path (default: drain_log_<timestamp>.csv)
    pub output: Option<String>,
}

/// The three ways to run.
#[derive(Clone, Copy, PartialEq, Eq, Structural)]
pub enum Mode {
    Plot,
    Headless,
    Drain,
}

impl Args {
    /// Plotting takes precedence over draining without a terminal.
    pub fn mode(&self) -> (r: Mode)
        ensures
            r == if self.plot is Some {
                Mode::Plot
            } else if self.headless {
                Mode::Headless
            } else {
                Mode::Drain
            },
    {
        if self.plot.is_some() {
            Mode::Plot
        } else if self.headless {
            Mode::Headless
        } else {
            Mode::Drain
        }
    }

    /// The number of load threads asked for, on a machine with `cores` logical cores.
    pub fn num_threads_on(&self, cores: usize) -> (r: usize)
        ensures
            r == match self.threads {
                Some(n) => n,
                None => cores,
            },
    {
        match self.threads {
            Some(n) => n,
            None => cores,
        }
    }

    /// The number of load threads asked for, on this machine.
    pub fn num_threads(&self) -> (r: usize)
        ensures
            self.threads matches Some(n) ==> r == n,
            self.threads is None ==> r >= 1,
    {
        self.num_threads_on(logical_cores())
    }

    /// The number of load threads to spawn: none where the battery is only monitored.
    pub fn threads_to_spawn(&self, num_threads: usize) -> (r: usize)
        ensures
            r == if self.no_load {
                0
            } else {
                num_threads
            },
    {
        if self.no_load {
            0
        } else {
            num_threads
        }
    }

    /// The length of the session in seconds, where it has one.
    pub fn target_secs(&self) -> (r: Option<Double>)
        ensures
            r is Some <==> Real::zero().lt(self.duration@),
            r matches Some(secs) ==> secs@ == self.duration@.times(
                Width::Double,
                Real::integer(Width::Double, 60),
            ),
    {
        if Double::zero().lt(self.duration) {
            Some(self.duration.times(Double::from_integer(60)))
        } else {
            None
        }
    }
}

/// Calls `num_cpus::get`. The number depends on the machine and on the limits that the process
/// runs under; the contract claims only that it is at least 1.
#[verifier::external_body]
fn logical_cores() -> (n: usize)
    ensures
        n >= 1,
{
    num_cpus::get()
}

/// What a load thread does next.
#[derive(Clone, Copy, PartialEq, Eq, Structural)]
pub enum LoadStep {
    Exit,
    Burn,
    Idle,
}

/// Threads exit when `run` is cleared; they idle when `active` is cleared.
pub fn load_step(run: bool, active: bool) -> (r: LoadStep)
    ensures
        r == next_load_step(run, active),
{
    if run {
        if active {
            LoadStep::Burn
        } else {
            LoadStep::Idle
        }
    } else {
        LoadStep::Exit
    }
}

pub open spec fn next_load_step(run: bool, active: bool) -> LoadStep {
    if !run {
        LoadStep::Exit
    } else if active {
        LoadStep::Burn
    } else {
        LoadStep::Idle
    }
}

/// The splash screen is dismissible with any key, and goes away by itself.
pub fn splash_over(key_pressed: bool, elapsed: u128) -> (r: bool)
    ensures
        r == (key_pressed || elapsed >= SPLASH_TIME),
{
    key_pressed || elapsed >= SPLASH_TIME
}

/// The end of the session is reached.
pub open spec fn reached(target: Option<u128>, elapsed: u128) -> bool {
    target matches Some(t) && elapsed >= t
}

fn target_reached(target: Option<u128>, elapsed: u128) -> (r: bool)
    ensures
        r == reached(target, elapsed),
{
    match target {
        Some(t) => elapsed >= t,
        None => false,
    }
}

/// The state of the interactive drain loop: the two flags that the load threads watch, and
/// when the session ends.
#[derive(Clone, Copy, PartialEq, Eq, Structural)]
pub struct DrainLoop {
    pub no_load: bool,
    pub run: bool,
    pub load_active: bool,
    pub target: Option<u128>,
}

/// What happened in the interactive drain loop.
#[derive(Clone, Copy, PartialEq, Eq, Structural)]
pub enum DrainEvent {
    /// The dashboard was drawn, so long after the last reading.
    Drawn { since_tick: u128 },
    /// The wait for a key ended, so long after the last reading and after the start.
    Polled { key: Option<Key>, since_tick: u128, elapsed: u128 },
    /// A reading was taken, so long after the start.
    Ticked { failed: bool, elapsed: u128 },
}

/// What the interactive drain loop does next.
#[derive(Clone, Copy, PartialEq, Eq, Structural)]
pub enum DrainAction {
    Draw,
    Poll { timeout: u128 },
    Tick,
    Stop,
}

impl DrainLoop {
    pub open spec fn started(no_load: bool, target: Option<u128>) -> DrainLoop {
        DrainLoop { no_load, run: true, load_active: !no_load, target }
    }

    /// The load threads are told to end, and woken so that they can.
    pub open spec fn stopped(self) -> DrainLoop {
        DrainLoop { run: false, load_active: true, ..self }
    }

    /// `space` and `p` pause and resume the load, where there is one.
    pub open spec fn after_key(self, key: Option<Key>) -> DrainLoop {
        if (key == Some(Key::Char(' ')) || key == Some(Key::Char('p'))) && !self.no_load {
            DrainLoop { load_active: !self.load_active, ..self }
        } else {
            self
        }
    }

    /// The loop goes on to the next drawing unless the session is over.
    pub open spec fn going_on(self, elapsed: u128) -> (DrainLoop, DrainAction) {
        if reached(self.target, elapsed) {
            (self.stopped(), DrainAction::Stop)
        } else {
            (self, DrainAction::Draw)
        }
    }

    /// The next state and action.
    pub open spec fn next(self, event: DrainEvent) -> (DrainLoop, DrainAction) {
        match event {
            DrainEvent::Drawn { since_tick } => (
                self,
                DrainAction::Poll {
                    timeout: if since_tick < TICK_RATE {
                        (TICK_RATE - since_tick) as u128
                    } else {
                        0
                    },
                },
            ),
            DrainEvent::Polled { key, since_tick, elapsed } => if key == Some(Key::Char('q')) {
                (self.stopped(), DrainAction::Stop)
            } else if since_tick >= TICK_RATE {
                (self.after_key(key), DrainAction::Tick)
            } else {
                self.after_key(key).going_on(elapsed)
            },
            DrainEvent::Ticked { failed, elapsed } => if failed {
                (self.stopped(), DrainAction::Stop)
            } else {
                self.going_on(elapsed)
            },
        }
    }

    /// The load is paused.
    pub open spec fn is_paused(self) -> bool {
        !self.load_active
    }

    pub fn new(no_load: bool, target: Option<u128>) -> (r: DrainLoop)
        ensures
            r == DrainLoop::started(no_load, target),
    {
        DrainLoop { no_load, run: true, load_active: !no_load, target }
    }

    pub fn paused(&self) -> (r: bool)
        ensures
            r == self.is_paused(),
    {
        !self.load_active
    }

    fn stop(&mut self) -> (action: DrainAction)
        ensures
            (*final(self), action) == (old(self).stopped(), DrainAction::Stop),
    {
        self.run = false;
        self.load_active = true;
        DrainAction::Stop
    }

    fn go_on(&mut self, elapsed: u128) -> (action: DrainAction)
        ensures
            (*final(self), action) == old(self).going_on(elapsed),
    {
        if target_reached(self.target, elapsed) {
            self.stop()
        } else {
            DrainAction::Draw
        }
    }

    /// Takes in what happened and tells what to do next.
    pub fn step(&mut self, event: DrainEvent) -> (action: DrainAction)
        ensures
            (*final(self), action) == old(self).next(event),
    {
        match event {
            DrainEvent::Drawn { since_tick } => {
                if since_tick < TICK_RATE {
                    DrainAction::Poll { timeout: TICK_RATE - since_tick }
                } else {
                    DrainAction::Poll { timeout: 0 }
                }
            },
            DrainEvent::Polled { key, since_tick, elapsed } => {
                match key {
                    Some(Key::Char('q')) => {
                        return self.stop();
                    },
                    // Pause/resume the CPU load without leaving the dashboard.
                    Some(Key::Char(' ')) | Some(Key::Char('p')) => {
                        if !self.no_load {
                            self.load_active = !self.load_active;
                        }
                    },
                    _ => {},
                }
                if since_tick >= TICK_RATE {
                    DrainAction::Tick
                } else {
                    self.go_on(elapsed)
                }
            },
            DrainEvent::Ticked { failed, elapsed } => {
                if failed {
                    self.stop()
                } else {
                    self.go_on(elapsed)
                }
            },
        }
    }
}

/// What happened in the headless loop.
#[derive(Clone, Copy, PartialEq, Eq, Structural)]
pub enum HeadlessEvent {
    /// A reading was taken, so long after the last status line, if there was one, and after
    /// the start.
    Ticked { failed: bool, since_status: Option<u128>, elapsed: u128 },
    /// A status line was printed, so long after the start.
    Printed { elapsed: u128 },
    /// The pause is over.
    Slept,
}

/// What the headless loop does next.
#[derive(Clone, Copy, PartialEq, Eq, Structural)]
pub enum HeadlessAction {
    Tick,
    PrintStatus,
    Sleep { time: u128 },
    Stop,
}

/// The headless loop pauses between readings unless the session is over.
pub open spec fn headless_going_on(target: Option<u128>, elapsed: u128) -> HeadlessAction {
    if reached(target, elapsed) {
        HeadlessAction::Stop
    } else {
        HeadlessAction::Sleep { time: TICK_RATE }
    }
}

/// The first status line is due at once, each further one after the time between them.
pub open spec fn status_due(since_status: Option<u128>) -> bool {
    match since_status {
        Some(time) => time >= STATUS_EVERY,
        None => true,
    }
}

/// The next action of the headless loop.
pub open spec fn headless_next(target: Option<u128>, event: HeadlessEvent) -> HeadlessAction {
    match event {
        HeadlessEvent::Ticked { failed, since_status, elapsed } => if failed {
            HeadlessAction::Stop
        } else if status_due(since_status) {
            HeadlessAction::PrintStatus
        } else {
            headless_going_on(target, elapsed)
        },
        HeadlessEvent::Printed { elapsed } => headless_going_on(target, elapsed),
        HeadlessEvent::Slept => HeadlessAction::Tick,
    }
}

fn headless_go_on(target: Option<u128>, elapsed: u128) -> (action: HeadlessAction)
    ensures
        action == headless_going_on(target, elapsed),
{
    if target_reached(target, elapsed) {
        HeadlessAction::Stop
    } else {
        HeadlessAction::Sleep { time: TICK_RATE }
    }
}

/// Takes in what happened in the headless loop and tells what to do next.
pub fn headless_step(target: Option<u128>, event: HeadlessEvent) -> (action: HeadlessAction)
    ensures
        action == headless_next(target, event),
{
    match event {
        HeadlessEvent::Ticked { failed, since_status, elapsed } => {
            let due = match since_status {
                Some(time) => time >= STATUS_EVERY,
                None => true,
            };
            if failed {
                HeadlessAction::Stop
            } else if due {
                HeadlessAction::PrintStatus
            } else {
                headless_go_on(target, elapsed)
            }
        },
        HeadlessEvent::Printed { elapsed } => headless_go_on(target, elapsed),
        HeadlessEvent::Slept => HeadlessAction::Tick,
    }
}

/// Pausing the load twice leaves it as it was.
pub proof fn lemma_pausing_twice_changes_nothing(state: DrainLoop, key: Option<Key>)
    requires
        key == Some(Key::Char(' ')) || key == Some(Key::Char('p')),
    ensures
        state.after_key(key).after_key(key) == state,
        !state.no_load ==> state.after_key(key).is_paused() != state.is_paused(),
{
}

/// A session that only monitors never puts load on the machine while it runs.
pub proof fn lemma_monitoring_never_loads(state: DrainLoop, event: DrainEvent)
    requires
        state.no_load,
        next_load_step(state.run, state.load_active) != LoadStep::Burn,
    ensures
        DrainLoop::started(true, state.target).is_paused(),
        state.next(event).0.no_load,
        next_load_step(state.next(event).0.run, state.next(event).0.load_active) != LoadStep::Burn,
{
}

/// Every load thread ends once the loop has stopped, and none before.
pub proof fn lemma_stopping_ends_the_load(state: DrainLoop, event: DrainEvent)
    requires
        state.run,
    ensures
        ({
            let (after, action) = state.next(event);
            next_load_step(after.run, after.load_active) == LoadStep::Exit <==> action
                == DrainAction::Stop
        }),
{
}

/// The loop stops where `q` is pressed, a reading fails or the session is over, and nowhere
/// else. A session without an end runs until it is quit.
pub proof fn lemma_when_the_loop_stops(state: DrainLoop, event: DrainEvent)
    ensures
        state.next(event).1 == DrainAction::Stop <==> match event {
            DrainEvent::Drawn { .. } => false,
            DrainEvent::Polled { key, since_tick, elapsed } => {
                ||| key == Some(Key::Char('q'))
                ||| since_tick < TICK_RATE && reached(state.target, elapsed)
            },
            DrainEvent::Ticked { failed, elapsed } => failed || reached(state.target, elapsed),
        },
        state.next(event).0.target == state.target,
        state.target is None ==> (state.next(event).1 == DrainAction::Stop ==> {
            ||| event matches DrainEvent::Polled { key, .. } && key == Some(Key::Char('q'))
            ||| event matches DrainEvent::Ticked { failed, .. } && failed
        }),
{
}

/// The wait for a key ends when the next reading is due, not before and not later.
pub proof fn lemma_polling_ends_when_a_reading_is_due(state: DrainLoop, since_tick: u128)
    ensures
        state.next(DrainEvent::Drawn { since_tick }).1 matches DrainAction::Poll { timeout }
            && since_tick + timeout == if since_tick < TICK_RATE {
            TICK_RATE as int
        } else {
            since_tick as int
        },
{
}

/// The headless loop stops where a reading fails or the session is over, and nowhere else;
/// a status line that is due is printed first. A session without an end runs on.
pub proof fn lemma_when_the_headless_loop_stops(target: Option<u128>, event: HeadlessEvent)
    ensures
        headless_next(target, event) == HeadlessAction::Stop <==> match event {
            HeadlessEvent::Ticked { failed, since_status, elapsed } => {
                ||| failed
                ||| !status_due(since_status) && reached(target, elapsed)
            },
            HeadlessEvent::Printed { elapsed } => reached(target, elapsed),
            HeadlessEvent::Slept => false,
        },
        target is None && headless_next(target, event) == HeadlessAction::Stop ==> (event matches
            HeadlessEvent::Ticked { failed, .. } && failed),
{
}

/// A session with an end stops after every reading that is taken at or after it, and after no
/// reading before it.
pub proof fn lemma_session_ends_at_its_target(
    state: DrainLoop,
    key: Option<Key>,
    since_tick: u128,
    since_status: u128,
    target: u128,
    elapsed: u128,
)
    requires
        state.target == Some(target),
        key != Some(Key::Char('q')),
        since_tick < 1_000_000_000,
        since_status < 10_000_000_000,
    ensures
        elapsed >= target ==> {
            &&& state.next(DrainEvent::Ticked { failed: false, elapsed }).1 == DrainAction::Stop
            &&& state.next(DrainEvent::Polled { key, since_tick, elapsed }).1 == DrainAction::Stop
            &&& headless_next(
                Some(target),
                HeadlessEvent::Ticked { failed: false, since_status: Some(since_status), elapsed },
            ) == HeadlessAction::Stop
            &&& headless_next(Some(target), HeadlessEvent::Printed { elapsed })
                == HeadlessAction::Stop
        },
        elapsed < target ==> {
            &&& state.next(DrainEvent::Ticked { failed: false, elapsed }).1 == DrainAction::Draw
            &&& state.next(DrainEvent::Polled { key, since_tick, elapsed }).1 == DrainAction::Draw
            &&& headless_next(
                Some(target),
                HeadlessEvent::Ticked { failed: false, since_status: Some(since_status), elapsed },
            ) == (HeadlessAction::Sleep { time: 1_000_000_000 })
            &&& headless_next(Some(target), HeadlessEvent::Printed { elapsed })
                == (HeadlessAction::Sleep { time: 1_000_000_000 })
        },
{
}

/// Once stopping is due, it is due at every later time.
pub proof fn lemma_stopping_stays_due(
    state: DrainLoop,
    target: Option<u128>,
    failed: bool,
    elapsed: u128,
    later: u128,
)
    requires
        elapsed <= later,
    ensures
        state.next(DrainEvent::Ticked { failed, elapsed }).1 == DrainAction::Stop ==> state.next(
            DrainEvent::Ticked { failed, elapsed: later },
        ).1 == DrainAction::Stop,
        headless_next(target, HeadlessEvent::Printed { elapsed }) == HeadlessAction::Stop
            ==> headless_next(target, HeadlessEvent::Printed { elapsed: later })
            == HeadlessAction::Stop,
{
}

/// A session without an end goes on at every time.
pub proof fn lemma_endless_sessions_go_on(state: DrainLoop, elapsed: u128)
    requires
        state.target is None,
    ensures
        state.next(DrainEvent::Ticked { failed: false, elapsed }) == (state, DrainAction::Draw),
        headless_next(None, HeadlessEvent::Printed { elapsed }) == (HeadlessAction::Sleep {
            time: 1_000_000_000,
        }),
{
}

/// Unless `q` is pressed, a reading is taken once a second has passed since the last one, and
/// not before. Only `space` and `p` change anything, and only whether there is load.
pub proof fn lemma_readings_come_every_second(
    state: DrainLoop,
    key: Option<Key>,
    since_tick: u128,
    elapsed: u128,
)
    requires
        key != Some(Key::Char('q')),
    ensures
        state.next(DrainEvent::Polled { key, since_tick, elapsed }).1 == DrainAction::Tick
            <==> since_tick >= 1_000_000_000,
        ({
            let toggled = !state.no_load && (key == Some(Key::Char(' ')) || key == Some(
                Key::Char('p'),
            ));
            let after = state.next(DrainEvent::Polled { key, since_tick, elapsed }).0;
            &&& after.no_load == state.no_load
            &&& after.target == state.target
            &&& since_tick >= 1_000_000_000 || !(state.target matches Some(t) && elapsed >= t) ==> {
                &&& after.run == state.run
                &&& after.load_active == (state.load_active != toggled)
            }
        }),
{
}

/// A status line is printed after the first reading, and then whenever ten seconds have passed
/// since the last one. A reading follows every pause.
pub proof fn lemma_status_comes_every_ten_seconds(
    target: Option<u128>,
    since_status: Option<u128>,
    elapsed: u128,
)
    ensures
        headless_next(target, HeadlessEvent::Ticked { failed: false, since_status, elapsed })
            == HeadlessAction::PrintStatus <==> match since_status {
            Some(time) => time >= 10_000_000_000,
            None => true,
        },
        headless_next(target, HeadlessEvent::Ticked { failed: true, since_status, elapsed })
            == HeadlessAction::Stop,
        headless_next(target, HeadlessEvent::Slept) == HeadlessAction::Tick,
{
}

/// A load thread burns while it is to run and the load is on, idles while the load is off, and
/// ends when it is no longer to run.
pub proof fn lemma_load_threads(active: bool)
    ensures
        next_load_step(true, true) == LoadStep::Burn,
        next_load_step(true, false) == LoadStep::Idle,
        next_load_step(false, active) == LoadStep::Exit,
{
}

/// A session starts running, with load unless it only monitors, and keeps its end.
pub proof fn lemma_sessions_start_running(no_load: bool, target: Option<u128>)
    ensures
        DrainLoop::started(no_load, target).run,
        DrainLoop::started(no_load, target).load_active == !no_load,
        DrainLoop::started(no_load, target).no_load == no_load,
        DrainLoop::started(no_load, target).target == target,
        DrainLoop::started(no_load, target).is_paused() == no_load,
{
}

/// `q` stops the session at every time, as a reading that fails does. Stopping ends the load
/// threads and wakes them.
pub proof fn lemma_quitting(state: DrainLoop, since_tick: u128, elapsed: u128)
    ensures
        ({
            let stopped = DrainLoop { run: false, load_active: true, ..state };
            &&& state.next(
                DrainEvent::Polled { key: Some(Key::Char('q')), since_tick, elapsed },
            ) == (stopped, DrainAction::Stop)
            &&& state.next(DrainEvent::Ticked { failed: true, elapsed }) == (
                stopped,
                DrainAction::Stop,
            )
        }),
{
}

} // verus!
