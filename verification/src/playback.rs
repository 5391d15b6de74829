//! Replaying a recorded session.

use vstd::arithmetic::mul::*;
use vstd::arithmetic::power2::*;
use vstd::prelude::*;

use crate::control::Key;
use crate::log::LogEntry;
use crate::number::laws::{lemma_rounding_of_representable, lemma_small_integer};
use crate::number::rounding::lemma_round_shape;
use crate::number::value::{nearest, round, Real, Width};
use crate::number::Double;

verus! {

/// A point of a curve: seconds and value.
pub type Point = (Double, Double);

/// The values of points.
pub open spec fn points(curve: Seq<Point>) -> Seq<(Real, Real)> {
    curve.map_values(|p: Point| (p.0@, p.1@))
}

/// Holds data for plotting
pub struct PlotData {
    pub percentages: Vec<Point>,
    pub drain_rates: Vec<Point>,
    pub cpu_usage: Vec<Point>,
    pub memory_usage: Vec<Point>,
    pub cpu_temp: Vec<Point>,
    pub battery_temp: Vec<Point>,
    /// Original log entries for playback display
    pub entries: Vec<LogEntry>,
}

pub open spec fn percentage_curve(entries: Seq<LogEntry>) -> Seq<(Real, Real)> {
    entries.map_values(|e: LogEntry| (e.timestamp@, e.percentage@.widened()))
}

pub open spec fn drain_rate_curve(entries: Seq<LogEntry>) -> Seq<(Real, Real)> {
    entries.map_values(|e: LogEntry| (e.timestamp@, e.drain_rate@.widened()))
}

pub open spec fn cpu_usage_curve(entries: Seq<LogEntry>) -> Seq<(Real, Real)> {
    entries.map_values(|e: LogEntry| (e.timestamp@, e.cpu_usage@.widened()))
}

pub open spec fn memory_usage_curve(entries: Seq<LogEntry>) -> Seq<(Real, Real)> {
    entries.map_values(|e: LogEntry| (e.timestamp@, e.memory_usage@.widened()))
}

pub open spec fn cpu_temp_curve(entries: Seq<LogEntry>) -> Seq<(Real, Real)> {
    entries.map_values(|e: LogEntry| (e.timestamp@, e.cpu_temp@.widened()))
}

pub open spec fn battery_temp_curve(entries: Seq<LogEntry>) -> Seq<(Real, Real)> {
    entries.map_values(|e: LogEntry| (e.timestamp@, e.battery_temp@.widened()))
}

impl PlotData {
    /// Each curve has one point for each entry.
    pub open spec fn wf(self) -> bool {
        &&& points(self.percentages@) == percentage_curve(self.entries@)
        &&& points(self.drain_rates@) == drain_rate_curve(self.entries@)
        &&& points(self.cpu_usage@) == cpu_usage_curve(self.entries@)
        &&& points(self.memory_usage@) == memory_usage_curve(self.entries@)
        &&& points(self.cpu_temp@) == cpu_temp_curve(self.entries@)
        &&& points(self.battery_temp@) == battery_temp_curve(self.entries@)
    }

    pub fn new() -> (r: PlotData)
        ensures
            r.wf(),
            r.entries@.len() == 0,
    {
        let r = PlotData {
            percentages: Vec::new(),
            drain_rates: Vec::new(),
            cpu_usage: Vec::new(),
            memory_usage: Vec::new(),
            cpu_temp: Vec::new(),
            battery_temp: Vec::new(),
            entries: Vec::new(),
        };
        proof {
            assert(points(r.percentages@) =~= percentage_curve(r.entries@));
            assert(points(r.drain_rates@) =~= drain_rate_curve(r.entries@));
            assert(points(r.cpu_usage@) =~= cpu_usage_curve(r.entries@));
            assert(points(r.memory_usage@) =~= memory_usage_curve(r.entries@));
            assert(points(r.cpu_temp@) =~= cpu_temp_curve(r.entries@));
            assert(points(r.battery_temp@) =~= battery_temp_curve(r.entries@));
        }
        r
    }

    /// Adds a record behind the others.
    pub fn push(&mut self, record: LogEntry)
        requires
            old(self).wf(),
        ensures
            final(self).wf(),
            final(self).entries@ == old(self).entries@.push(record),
    {
        let t = record.timestamp;
        self.percentages.push((t, record.percentage.widened()));
        self.drain_rates.push((t, record.drain_rate.widened()));
        self.cpu_usage.push((t, record.cpu_usage.widened()));
        self.memory_usage.push((t, record.memory_usage.widened()));
        self.cpu_temp.push((t, record.cpu_temp.widened()));
        self.battery_temp.push((t, record.battery_temp.widened()));
        self.entries.push(record);
        proof {
            let e = old(self).entries@;
            lemma_points_push(old(self).percentages@, self.percentages@.last());
            lemma_points_push(old(self).drain_rates@, self.drain_rates@.last());
            lemma_points_push(old(self).cpu_usage@, self.cpu_usage@.last());
            lemma_points_push(old(self).memory_usage@, self.memory_usage@.last());
            lemma_points_push(old(self).cpu_temp@, self.cpu_temp@.last());
            lemma_points_push(old(self).battery_temp@, self.battery_temp@.last());
            assert(percentage_curve(e.push(record)) == percentage_curve(e).push(
                (t@, record.percentage@.widened()),
            ));
            assert(drain_rate_curve(e.push(record)) == drain_rate_curve(e).push(
                (t@, record.drain_rate@.widened()),
            ));
            assert(cpu_usage_curve(e.push(record)) == cpu_usage_curve(e).push(
                (t@, record.cpu_usage@.widened()),
            ));
            assert(memory_usage_curve(e.push(record)) == memory_usage_curve(e).push(
                (t@, record.memory_usage@.widened()),
            ));
            assert(cpu_temp_curve(e.push(record)) == cpu_temp_curve(e).push(
                (t@, record.cpu_temp@.widened()),
            ));
            assert(battery_temp_curve(e.push(record)) == battery_temp_curve(e).push(
                (t@, record.battery_temp@.widened()),
            ));
        }
    }

    /// There is nothing to plot.
    pub fn is_empty(&self) -> (r: bool)
        requires
            self.wf(),
        ensures
            r == (self.entries@.len() == 0),
    {
        assert(points(self.percentages@).len() == self.entries@.len());
        self.percentages.len() == 0
    }
}

proof fn lemma_points_push(curve: Seq<Point>, p: Point)
    ensures
        points(curve.push(p)) == points(curve).push((p.0@, p.1@)),
{
    assert(points(curve.push(p)) =~= points(curve).push((p.0@, p.1@)));
}

/// Playback state for plot mode
#[derive(Clone, Copy)]
pub struct PlaybackState {
    /// Current index in data
    pub position: usize,
    /// Is playback active
    pub playing: bool,
    /// Playback speed multiplier (1.0 = real-time)
    pub speed: Double,
    /// Show all data (static) vs playback view
    pub static_view: bool,
}

/// The values of a playback state.
pub struct Playback {
    pub position: int,
    pub playing: bool,
    pub speed: Real,
    pub static_view: bool,
}

impl View for PlaybackState {
    type V = Playback;

    open spec fn view(&self) -> Playback {
        Playback {
            position: self.position as int,
            playing: self.playing,
            speed: self.speed@,
            static_view: self.static_view,
        }
    }
}

/// What follows from a key press.
#[derive(Clone, Copy, PartialEq, Eq, Structural)]
pub enum PlaybackAction {
    Continue,
    /// The time since the last step of the playback is counted anew.
    RestartClock,
    Quit,
}

/// The number `n`.
pub open spec fn double(n: nat) -> Real {
    Real::integer(Width::Double, n)
}

impl Playback {
    /// The position is within a recording of `len` entries.
    pub open spec fn within(self, len: nat) -> bool {
        0 <= self.position < len
    }

    /// At the first entry, halted, at real-time speed, showing all data.
    pub open spec fn initial() -> Playback {
        Playback { position: 0, playing: false, speed: double(1), static_view: true }
    }

    /// A jump to another position, which only the playback view makes.
    pub open spec fn jump(self, position: int) -> (Playback, PlaybackAction) {
        if self.static_view {
            (self, PlaybackAction::Continue)
        } else {
            (Playback { position, ..self }, PlaybackAction::RestartClock)
        }
    }

    /// What a key does in a recording of `len` entries.
    pub open spec fn after_key(self, key: Key, len: nat) -> (Playback, PlaybackAction) {
        match key {
            Key::Char(c) => if c == 'q' {
                (self, PlaybackAction::Quit)
            } else if c == 'v' {
                if self.static_view {
                    (
                        Playback { static_view: false, position: 0, ..self },
                        PlaybackAction::RestartClock,
                    )
                } else {
                    (Playback { static_view: true, ..self }, PlaybackAction::Continue)
                }
            } else if c == ' ' {
                if self.static_view {
                    (self, PlaybackAction::Continue)
                } else {
                    (Playback { playing: !self.playing, ..self }, PlaybackAction::RestartClock)
                }
            } else if c == '+' || c == '=' {
                (
                    Playback {
                        speed: self.speed.times(Width::Double, double(2)).smaller(double(64)),
                        ..self
                    },
                    PlaybackAction::Continue,
                )
            } else if c == '-' {
                (
                    Playback {
                        speed: self.speed.over(Width::Double, double(2)).larger(
                            Real::ratio(Width::Double, 1, 4),
                        ),
                        ..self
                    },
                    PlaybackAction::Continue,
                )
            } else if c == 'r' {
                (Playback { speed: double(1), ..self }, PlaybackAction::Continue)
            } else {
                (self, PlaybackAction::Continue)
            },
            Key::Left => self.jump(
                if self.position >= 10 {
                    self.position - 10
                } else {
                    0
                },
            ),
            Key::Right => self.jump(
                if self.position + 10 < len {
                    self.position + 10
                } else {
                    len - 1
                },
            ),
            Key::Home => self.jump(0),
            Key::End => self.jump(len - 1),
            Key::Other => (self, PlaybackAction::Continue),
        }
    }

    /// The time to the next entry, at the speed of the playback, has passed.
    pub open spec fn next_is_due(self, entries: Seq<LogEntry>, elapsed: Real) -> bool {
        entries[self.position + 1].timestamp@.minus(
            Width::Double,
            entries[self.position].timestamp@,
        ).over(Width::Double, self.speed).le(elapsed)
    }

    /// The playback moves on by one entry.
    pub open spec fn moves(self, entries: Seq<LogEntry>, elapsed: Real) -> bool {
        &&& self.playing
        &&& !self.static_view
        &&& self.position < entries.len() - 1
        &&& self.next_is_due(entries, elapsed)
    }

    pub open spec fn after(self, entries: Seq<LogEntry>, elapsed: Real) -> Playback {
        if self.moves(entries, elapsed) {
            Playback { position: self.position + 1, ..self }
        } else {
            self
        }
    }

    /// The number of entries that are shown.
    pub open spec fn shown(self, len: nat) -> nat {
        if self.static_view {
            len
        } else {
            (self.position + 1) as nat
        }
    }
}

impl PlaybackState {
    pub fn new() -> (r: PlaybackState)
        ensures
            r@ == Playback::initial(),
    {
        PlaybackState {
            position: 0,
            playing: false,
            speed: Double::from_integer(1),
            static_view: true,
        }
    }

    fn jump(&mut self, position: usize) -> (action: PlaybackAction)
        ensures
            (final(self)@, action) == old(self)@.jump(position as int),
    {
        if self.static_view {
            PlaybackAction::Continue
        } else {
            self.position = position;
            PlaybackAction::RestartClock
        }
    }

    /// Handles a key press in a recording of `len` entries.
    pub fn on_key(&mut self, key: Key, len: usize) -> (action: PlaybackAction)
        requires
            old(self)@.within(len as nat),
        ensures
            (final(self)@, action) == old(self)@.after_key(key, len as nat),
            final(self)@.within(len as nat),
    {
        match key {
            Key::Char(c) => {
                if c == 'q' {
                    PlaybackAction::Quit
                } else if c == 'v' {
                    // Toggle static/playback view
                    self.static_view = !self.static_view;
                    if !self.static_view {
                        self.position = 0;
                        PlaybackAction::RestartClock
                    } else {
                        PlaybackAction::Continue
                    }
                } else if c == ' ' {
                    // Play/Pause
                    if !self.static_view {
                        self.playing = !self.playing;
                        PlaybackAction::RestartClock
                    } else {
                        PlaybackAction::Continue
                    }
                } else if c == '+' || c == '=' {
                    // Speed up
                    self.speed = self.speed.times(Double::from_integer(2)).smaller(
                        Double::from_integer(64),
                    );
                    PlaybackAction::Continue
                } else if c == '-' {
                    // Slow down
                    self.speed = self.speed.over(Double::from_integer(2)).larger(
                        Double::from_ratio(1, 4),
                    );
                    PlaybackAction::Continue
                } else if c == 'r' {
                    // Reset speed to 1x
                    self.speed = Double::from_integer(1);
                    PlaybackAction::Continue
                } else {
                    PlaybackAction::Continue
                }
            },
            // Rewind (go back 10 samples)
            Key::Left => {
                let position: usize = if self.position >= 10 {
                    self.position - 10
                } else {
                    0
                };
                self.jump(position)
            },
            // Fast forward (skip ahead 10 samples)
            Key::Right => {
                let position: usize = if len - self.position > 10 {
                    self.position + 10
                } else {
                    len - 1
                };
                self.jump(position)
            },
            // Jump to start
            Key::Home => self.jump(0),
            // Jump to end
            Key::End => self.jump(len - 1),
            Key::Other => PlaybackAction::Continue,
        }
    }

    /// Moves on if enough real time has passed since the last step (adjusted by speed), and
    /// tells whether it did.
    pub fn advance(&mut self, entries: &[LogEntry], elapsed: Double) -> (moved: bool)
        requires
            old(self)@.within(entries@.len()),
        ensures
            moved == old(self)@.moves(entries@, elapsed@),
            final(self)@ == old(self)@.after(entries@, elapsed@),
            final(self)@.within(entries@.len()),
    {
        if self.playing && !self.static_view && self.position < entries.len() - 1 {
            let current_time = entries[self.position].timestamp;
            let next_time = entries[self.position + 1].timestamp;
            let time_diff = next_time.minus(current_time);
            if time_diff.over(self.speed).le(elapsed) {
                self.position = self.position + 1;
                return true;
            }
        }
        false
    }
}

/// The speed of two to the `level`.
pub open spec fn speed_level(level: int) -> Real {
    Real::Finite { negative: false, steps: pow2((Width::Double.scale() + level) as nat) }
}

/// The quotient of two powers of two.
proof fn lemma_power_ratio(n: nat, d: nat, e: nat)
    requires
        d > 0,
        n == pow2(e) * d,
        e < Width::Double.range(),
    ensures
        nearest(Width::Double, false, n, d) == (Real::Finite { negative: false, steps: pow2(e) }),
{
    lemma_pow2_pos(53);
    lemma_rounding_of_representable(53, n, d, 1, e);
    lemma_pow2_strictly_increases(e, Width::Double.range());
}

/// The numbers that the speed is computed with.
proof fn lemma_speed_numbers()
    ensures
        double(1) == speed_level(0),
        double(2) == speed_level(1),
        double(64) == speed_level(6),
        Real::ratio(Width::Double, 1, 4) == speed_level(-2),
{
    lemma2_to64();
    let one = Width::Double.one();
    lemma_pow2_adds(1074, 1);
    lemma_pow2_adds(1074, 6);
    lemma_pow2_adds(1072, 2);
    lemma_small_integer(Width::Double, 1);
    lemma_small_integer(Width::Double, 2);
    lemma_small_integer(Width::Double, 64);
    lemma_power_ratio(1 * one, 4, 1072);
}

/// Speeding up doubles the speed up to 64 times, slowing down halves it down to a quarter,
/// `r` resets it, and no other key changes it. So it always is a power of two between those.
pub proof fn lemma_speeds_are_powers_of_two(playback: Playback, level: int, key: Key, len: nat)
    requires
        -2 <= level <= 6,
        playback.speed == speed_level(level),
    ensures
        Playback::initial().speed == speed_level(0),
        playback.after_key(key, len).0.speed == speed_level(
            if key == Key::Char('+') || key == Key::Char('=') {
                if level < 6 {
                    level + 1
                } else {
                    6
                }
            } else if key == Key::Char('-') {
                if level > -2 {
                    level - 1
                } else {
                    -2
                }
            } else if key == Key::Char('r') {
                0
            } else {
                level
            },
        ),
{
    lemma_speed_numbers();
    let e = (1074 + level) as nat;
    lemma_pow2_adds(e, 1075);
    lemma_pow2_adds(e + 1, 1074);
    lemma_pow2_adds(e, 1074);
    lemma_pow2_adds((e - 1) as nat, 1075);
    lemma_pow2_pos(1074);
    lemma_pow2_pos(1075);
    lemma_power_ratio(pow2(e) * pow2(1075), pow2(1074), e + 1);
    lemma_power_ratio(pow2(e) * pow2(1074), pow2(1075), (e - 1) as nat);
    if level < 5 {
        lemma_pow2_strictly_increases(e + 1, 1080);
    }
    if level == 6 {
        lemma_pow2_strictly_increases(1080, e + 1);
    }
    if level > -1 {
        lemma_pow2_strictly_increases(1072, (e - 1) as nat);
    }
    if level == -2 {
        lemma_pow2_strictly_increases((e - 1) as nat, 1072);
    }
}

/// Below the highest speed, slowing down undoes speeding up.
pub proof fn lemma_slowing_down_undoes_speeding_up(playback: Playback, level: int, len: nat)
    requires
        -2 <= level < 6,
        playback.speed == speed_level(level),
    ensures
        playback.after_key(Key::Char('+'), len).0.after_key(Key::Char('-'), len).0 == playback,
{
    lemma_speeds_are_powers_of_two(playback, level, Key::Char('+'), len);
    let faster = playback.after_key(Key::Char('+'), len).0;
    lemma_speeds_are_powers_of_two(faster, level + 1, Key::Char('-'), len);
}

/// No key leads out of the recording.
pub proof fn lemma_keys_stay_within(playback: Playback, key: Key, len: nat)
    requires
        playback.within(len),
    ensures
        playback.after_key(key, len).0.within(len),
        Playback::initial().within(len),
{
}

/// The static view stands still: time does not move it, and neither does any key but `v`,
/// which starts the playback view at the beginning.
pub proof fn lemma_static_view_stands_still(
    playback: Playback,
    key: Key,
    entries: Seq<LogEntry>,
    elapsed: Real,
)
    requires
        playback.static_view,
    ensures
        playback.after(entries, elapsed) == playback,
        ({
            let after = playback.after_key(key, entries.len()).0;
            if key == Key::Char('v') {
                after.position == 0 && !after.static_view && after.playing == playback.playing
            } else {
                after.position == playback.position && after.static_view && after.playing
                    == playback.playing
            }
        }),
{
}

/// Toggling the view twice leads back to it, from the playback view to its beginning.
pub proof fn lemma_view_toggles(playback: Playback, len: nat)
    ensures
        ({
            let once = playback.after_key(Key::Char('v'), len).0;
            let twice = once.after_key(Key::Char('v'), len).0;
            &&& once.static_view != playback.static_view
            &&& twice == Playback { position: 0, ..playback }
        }),
{
}

/// Away from the ends, rewinding undoes fast-forwarding.
pub proof fn lemma_rewind_undoes_fast_forward(playback: Playback, len: nat)
    requires
        0 <= playback.position,
        playback.position + 10 < len,
    ensures
        playback.after_key(Key::Right, len).0.after_key(Key::Left, len).0 == playback,
{
}

/// Playback goes through the entries one by one and halts at the last.
pub proof fn lemma_playback_goes_one_by_one(
    playback: Playback,
    entries: Seq<LogEntry>,
    elapsed: Real,
)
    requires
        playback.within(entries.len()),
    ensures
        playback.after(entries, elapsed).within(entries.len()),
        playback.position <= playback.after(entries, elapsed).position <= playback.position + 1,
        playback.position == entries.len() - 1 ==> playback.after(entries, elapsed) == playback,
        !playback.playing ==> playback.after(entries, elapsed) == playback,
{
}

/// The arrow keys skip ten samples, but not beyond the ends; `Home` and `End` lead to them. Only
/// the position changes, and only in the playback view.
pub proof fn lemma_skips(playback: Playback, len: nat)
    requires
        playback.within(len),
        !playback.static_view,
    ensures
        playback.after_key(Key::Right, len) == (
            Playback {
                position: if playback.position + 10 <= len - 1 {
                    playback.position + 10
                } else {
                    len - 1
                },
                ..playback
            },
            PlaybackAction::RestartClock,
        ),
        playback.after_key(Key::Left, len) == (
            Playback {
                position: if playback.position <= 10 {
                    0
                } else {
                    playback.position - 10
                },
                ..playback
            },
            PlaybackAction::RestartClock,
        ),
        playback.after_key(Key::Home, len) == (
            Playback { position: 0, ..playback },
            PlaybackAction::RestartClock,
        ),
        playback.after_key(Key::End, len) == (
            Playback { position: len - 1, ..playback },
            PlaybackAction::RestartClock,
        ),
        playback.after_key(Key::Char(' '), len) == (
            Playback { playing: !playback.playing, ..playback },
            PlaybackAction::RestartClock,
        ),
{
}

/// The keys that change the speed change nothing else, `q` quits, and keys without a meaning do
/// nothing.
pub proof fn lemma_other_keys(playback: Playback, key: Key, len: nat)
    ensures
        key == Key::Char('+') || key == Key::Char('=') || key == Key::Char('-') || key == Key::Char(
            'r',
        ) ==> playback.after_key(key, len) == (
            Playback { speed: playback.after_key(key, len).0.speed, ..playback },
            PlaybackAction::Continue,
        ),
        playback.after_key(key, len).1 == PlaybackAction::Quit <==> key == Key::Char('q'),
        (key matches Key::Char(c) ==> c != '+' && c != '=' && c != '-' && c != 'r' && c != 'v' && c
            != ' ') && (key is Char || key == Key::Other) ==> playback.after_key(key, len).0
            == playback,
{
}

/// A magnitude of the format, divided by a speed, where it is not one of the tiniest.
proof fn lemma_quotient_by_speed(n: nat, m: nat, k: nat, level: int) -> (v: nat)
    requires
        -2 <= level <= 6,
        m <= pow2(53),
        n == m * pow2(k),
        n % 64 == 0,
    ensures
        pow2((level + 2) as nat) * v == 4 * n,
        round(
            53,
            n * Width::Double.one(),
            pow2((Width::Double.scale() + level) as nat),
        ) == v,
{
    let one = Width::Double.one();
    let d = pow2((1074 + level) as nat);
    let b = pow2((level + 2) as nat);
    lemma2_to64();
    lemma_pow2_pos((1074 + level) as nat);
    lemma_pow2_adds((level + 2) as nat, 1072);
    lemma_pow2_adds(2, 1072);
    let w = n / 64;
    assert(n == 64 * w);
    let v: nat = if level == -2 {
        4 * n
    } else if level == -1 {
        2 * n
    } else if level == 0 {
        n
    } else if level == 1 {
        32 * w
    } else if level == 2 {
        16 * w
    } else if level == 3 {
        8 * w
    } else if level == 4 {
        4 * w
    } else if level == 5 {
        2 * w
    } else {
        w
    };
    assert(b * v == 4 * n) by (nonlinear_arith)
        requires
            n == 64 * w,
            (b == 1 && v == 4 * n) || (b == 2 && v == 2 * n) || (b == 4 && v == n) || (b == 8 && v
                == 32 * w) || (b == 16 && v == 16 * w) || (b == 32 && v == 8 * w) || (b == 64 && v
                == 4 * w) || (b == 128 && v == 2 * w) || (b == 256 && v == w),
    ;
    assert(n * one == v * d) by (nonlinear_arith)
        requires
            b * v == 4 * n,
            one == 4 * pow2(1072),
            d == b * pow2(1072),
    ;
    // The result has no more bits than the magnitude.
    let (m2, k2): (nat, nat) = if k >= level {
        let j = (k - level) as nat;
        lemma_pow2_adds((level + 2) as nat, j);
        lemma_pow2_adds(2, k);
        lemma_pow2_pos(j);
        lemma_pow2_pos((level + 2) as nat);
        assert(b * v == b * (m * pow2(j))) by (nonlinear_arith)
            requires
                b * v == 4 * n,
                n == m * pow2(k),
                4 * pow2(k) == b * pow2(j),
        ;
        assert(v == m * pow2(j)) by (nonlinear_arith)
            requires
                b * v == b * (m * pow2(j)),
                b > 0,
        ;
        (m, j)
    } else {
        let j = (level - k) as nat;
        lemma_pow2_adds(j, k);
        lemma_pow2_adds(2, level as nat);
        lemma_pow2_pos(k);
        lemma_pow2_pos(j);
        assert(pow2(j) * v == m) by (nonlinear_arith)
            requires
                b * v == 4 * n,
                n == m * pow2(k),
                b == 4 * (pow2(j) * pow2(k)),
                pow2(k) > 0,
        ;
        assert(v <= m) by (nonlinear_arith)
            requires
                pow2(j) * v == m,
                pow2(j) >= 1,
        ;
        lemma_mul_basics(v as int);
        (v, 0)
    };
    assert(n * one == (m2 * pow2(k2)) * d);
    lemma_rounding_of_representable(53, n * one, d, m2, k2);
    v
}

/// At every speed from a quarter to 64, also below real time, the playback moves exactly when
/// the elapsed time, times the speed, has reached the time between the two entries. Both sides
/// are multiplied by four here.
pub proof fn lemma_playback_keeps_time(
    playback: Playback,
    level: int,
    entries: Seq<LogEntry>,
    elapsed: Real,
    gap: Real,
)
    requires
        -2 <= level <= 6,
        playback.speed == speed_level(level),
        playback.playing,
        !playback.static_view,
        0 <= playback.position < entries.len() - 1,
        elapsed is Finite,
        gap == entries[playback.position + 1].timestamp@.minus(
            Width::Double,
            entries[playback.position].timestamp@,
        ),
        gap matches Real::Finite { steps, .. } && steps % 64 == 0 && steps <= pow2(1123),
    ensures
        playback.moves(entries, elapsed) <==> 4 * gap.signed() <= pow2((level + 2) as nat)
            * elapsed.signed(),
        playback.moves(entries, elapsed) ==> playback.after(entries, elapsed) == (Playback {
            position: playback.position + 1,
            ..playback
        }),
        !playback.moves(entries, elapsed) ==> playback.after(entries, elapsed) == playback,
{
    let n = gap->steps;
    let a = entries[playback.position + 1].timestamp@;
    let b = entries[playback.position].timestamp@.opposite();
    let sum = a.signed() + b.signed();
    let (m, k): (nat, nat) = if sum > 0 {
        lemma_round_shape(53, sum as nat, 1)
    } else if sum < 0 {
        lemma_round_shape(53, (-sum) as nat, 1)
    } else {
        lemma_mul_basics(pow2(0) as int);
        (0, 0)
    };
    assert(n == m * pow2(k));
    let v = lemma_quotient_by_speed(n, m, k, level);
    let c = pow2((level + 2) as nat);
    lemma_pow2_pos((1074 + level) as nat);
    lemma_pow2_pos((level + 2) as nat);
    lemma_pow2_adds(2, 1123);
    lemma_pow2_strictly_increases(1125, 2098);
    lemma2_to64();
    assert(v <= 4 * n) by (nonlinear_arith)
        requires
            c * v == 4 * n,
            c >= 1,
    ;
    let negative = gap->Finite_negative;
    let due = gap.over(Width::Double, playback.speed);
    assert(due == Real::Finite { negative, steps: v });
    let e = elapsed.signed();
    assert(c * due.signed() == 4 * gap.signed()) by (nonlinear_arith)
        requires
            c * v == 4 * n,
            due.signed() == (if negative {
                -(v as int)
            } else {
                v as int
            }),
            gap.signed() == (if negative {
                -(n as int)
            } else {
                n as int
            }),
    ;
    let w = due.signed();
    assert(w <= e <==> c * w <= c * e) by (nonlinear_arith)
        requires
            c > 0,
    ;
}

/// Halving the speed doubles the time until the next entry is due, also below real time.
pub proof fn lemma_halving_the_speed_doubles_the_wait(
    playback: Playback,
    level: int,
    entries: Seq<LogEntry>,
    elapsed: Real,
    twice: Real,
    gap: Real,
)
    requires
        -1 <= level <= 6,
        playback.speed == speed_level(level),
        playback.playing,
        !playback.static_view,
        0 <= playback.position < entries.len() - 1,
        elapsed is Finite,
        twice is Finite,
        twice.signed() == 2 * elapsed.signed(),
        gap == entries[playback.position + 1].timestamp@.minus(
            Width::Double,
            entries[playback.position].timestamp@,
        ),
        gap matches Real::Finite { steps, .. } && steps % 64 == 0 && steps <= pow2(1123),
    ensures
        ({
            let slower = Playback { speed: speed_level(level - 1), ..playback };
            playback.moves(entries, elapsed) <==> slower.moves(entries, twice)
        }),
{
    let slower = Playback { speed: speed_level(level - 1), ..playback };
    lemma_playback_keeps_time(playback, level, entries, elapsed, gap);
    lemma_playback_keeps_time(slower, level - 1, entries, twice, gap);
    lemma_pow2_unfold((level + 2) as nat);
    let c = pow2((level + 1) as nat);
    assert((2 * c) * elapsed.signed() == c * (2 * elapsed.signed())) by (nonlinear_arith);
}

/// Every curve has one point for each entry, at its time, with its value.
pub proof fn lemma_curves(entries: Seq<LogEntry>, i: int)
    requires
        0 <= i < entries.len(),
    ensures
        percentage_curve(entries).len() == entries.len(),
        percentage_curve(entries)[i] == (entries[i].timestamp@, entries[i].percentage@.widened()),
        drain_rate_curve(entries).len() == entries.len(),
        drain_rate_curve(entries)[i] == (entries[i].timestamp@, entries[i].drain_rate@.widened()),
        cpu_usage_curve(entries).len() == entries.len(),
        cpu_usage_curve(entries)[i] == (entries[i].timestamp@, entries[i].cpu_usage@.widened()),
        memory_usage_curve(entries).len() == entries.len(),
        memory_usage_curve(entries)[i] == (
            entries[i].timestamp@,
            entries[i].memory_usage@.widened(),
        ),
        cpu_temp_curve(entries).len() == entries.len(),
        cpu_temp_curve(entries)[i] == (entries[i].timestamp@, entries[i].cpu_temp@.widened()),
        battery_temp_curve(entries).len() == entries.len(),
        battery_temp_curve(entries)[i] == (
            entries[i].timestamp@,
            entries[i].battery_temp@.widened(),
        ),
{
}

} // verus!
